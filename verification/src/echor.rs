//! `echo`: its arguments, with one space between them.

use crate::stream::names;
use vstd::prelude::*;

verus! {

/// The texts of `words` in order, with one space between each two of them.
pub open spec fn joined(words: Seq<Seq<char>>) -> Seq<char>
    decreases words.len(),
{
    if words.len() == 0 {
        Seq::empty()
    } else if words.len() == 1 {
        words[0]
    } else {
        joined(words.drop_last()) + seq![' '] + words.last()
    }
}

/// What `echo` writes: the arguments joined, and a line feed unless it is left out.
pub open spec fn echo_text(words: Seq<Seq<char>>, omit_newline: bool) -> Seq<char> {
    if omit_newline {
        joined(words)
    } else {
        joined(words) + seq!['\n']
    }
}

/// Writes the arguments of `echo`.
pub fn echo(text: &Vec<String>, omit_newline: bool) -> (r: String)
    ensures
        r@ == echo_text(names(text@), omit_newline),
{
    let ghost words = names(text@);
    let mut out = String::new();
    let n: usize = text.len();
    let mut i: usize = 0;
    assert(words.take(0) =~= Seq::<Seq<char>>::empty());
    while i < n
        invariant
            n == text@.len(),
            words == names(text@),
            i <= n,
            out@ == joined(words.take(i as int)),
        decreases n - i,
    {
        if i > 0 {
            proof {
                reveal_strlit(" ");
            }
            out.append(" ");
        }
        out.append(text[i].as_str());
        proof {
            assert(words.take(i + 1).drop_last() =~= words.take(i as int));
            assert(words.take(i + 1).last() == text@[i as int]@);
            if i == 0 {
                assert(out@ =~= words.take(1)[0]);
            } else {
                assert(out@ =~= joined(words.take(i as int)) + seq![' '] + text@[i as int]@);
            }
        }
        i = i + 1;
    }
    assert(words.take(n as int) =~= words);
    if !omit_newline {
        proof {
            reveal_strlit("\n");
        }
        out.append("\n");
    }
    assert(out@ =~= echo_text(words, omit_newline));
    out
}

} // verus!
