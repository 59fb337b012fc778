//! White space and the words that it parts.

use crate::utf8::lemma_chars_fit_bytes;
use vstd::prelude::*;

verus! {

/// Whether `c` is white space: a character with the Unicode property `White_Space`.
pub open spec fn is_whitespace(c: char) -> bool {
    let u = c as u32;
    ||| 0x09 <= u <= 0x0D
    ||| u == 0x20
    ||| u == 0x85
    ||| u == 0xA0
    ||| u == 0x1680
    ||| 0x2000 <= u <= 0x200A
    ||| u == 0x2028
    ||| u == 0x2029
    ||| u == 0x202F
    ||| u == 0x205F
    ||| u == 0x3000
}

/// How many characters of white space `text` starts with.
pub open spec fn space_run(text: Seq<char>) -> nat
    decreases text.len(),
{
    if text.len() > 0 && is_whitespace(text[0]) {
        1 + space_run(text.drop_first())
    } else {
        0
    }
}

/// How many characters other than white space `text` starts with.
pub open spec fn word_run(text: Seq<char>) -> nat
    decreases text.len(),
{
    if text.len() > 0 && !is_whitespace(text[0]) {
        1 + word_run(text.drop_first())
    } else {
        0
    }
}

/// The words of `text`, in order. A word is a run of characters other than white
/// space that cannot be made longer: white space or an end of the text stands on
/// either side of it.
pub open spec fn words(text: Seq<char>) -> Seq<Seq<char>>
    decreases text.len(),
{
    let rest = text.skip(space_run(text) as int);
    if rest.len() == 0 {
        Seq::empty()
    } else {
        proof {
            lemma_space_run(text);
            lemma_word_run(rest);
        }
        let k = word_run(rest) as int;
        seq![rest.take(k)] + words(rest.skip(k))
    }
}

/// How many words `text` holds.
pub open spec fn word_count(text: Seq<char>) -> nat {
    words(text).len()
}

/// The white space at the start of a text ends at its first character that is none.
pub proof fn lemma_space_run(text: Seq<char>)
    ensures
        space_run(text) <= text.len(),
        forall|i: int| 0 <= i < space_run(text) ==> is_whitespace(#[trigger] text[i]),
        space_run(text) < text.len() ==> !is_whitespace(text[space_run(text) as int]),
    decreases text.len(),
{
    if text.len() > 0 && is_whitespace(text[0]) {
        let rest = text.drop_first();
        lemma_space_run(rest);
        assert forall|i: int| 0 <= i < space_run(text) implies is_whitespace(
            #[trigger] text[i],
        ) by {
            if i > 0 {
                assert(text[i] == rest[i - 1]);
            }
        }
        if space_run(text) < text.len() {
            assert(text[space_run(text) as int] == rest[space_run(rest) as int]);
        }
    }
}

/// The word at the start of a text ends at its first character of white space.
pub proof fn lemma_word_run(text: Seq<char>)
    ensures
        word_run(text) <= text.len(),
        text.len() > 0 && !is_whitespace(text[0]) ==> word_run(text) >= 1,
        forall|i: int| 0 <= i < word_run(text) ==> !is_whitespace(#[trigger] text[i]),
        word_run(text) < text.len() ==> is_whitespace(text[word_run(text) as int]),
    decreases text.len(),
{
    if text.len() > 0 && !is_whitespace(text[0]) {
        let rest = text.drop_first();
        lemma_word_run(rest);
        assert forall|i: int| 0 <= i < word_run(text) implies !is_whitespace(
            #[trigger] text[i],
        ) by {
            if i > 0 {
                assert(text[i] == rest[i - 1]);
            }
        }
        if word_run(text) < text.len() {
            assert(text[word_run(text) as int] == rest[word_run(rest) as int]);
        }
    }
}

/// Every word holds a character, and none that is white space.
pub proof fn lemma_words(text: Seq<char>)
    ensures
        forall|i: int| 0 <= i < words(text).len() ==> (#[trigger] words(text)[i]).len() > 0,
        forall|i: int, j: int|
            0 <= i < words(text).len() && 0 <= j < words(text)[i].len() ==> !is_whitespace(
                #[trigger] words(text)[i][j],
            ),
    decreases text.len(),
{
    lemma_space_run(text);
    let rest = text.skip(space_run(text) as int);
    if rest.len() > 0 {
        lemma_word_run(rest);
        let k = word_run(rest) as int;
        let tail = rest.skip(k);
        lemma_words(tail);
        assert forall|i: int| 0 <= i < words(text).len() implies (#[trigger] words(text)[i]).len()
            > 0 by {
            if i > 0 {
                assert(words(text)[i] == words(tail)[i - 1]);
            }
        }
        assert forall|i: int, j: int|
            0 <= i < words(text).len() && 0 <= j < words(text)[i].len() implies !is_whitespace(
            #[trigger] words(text)[i][j],
        ) by {
            if i > 0 {
                assert(words(text)[i] == words(tail)[i - 1]);
            } else {
                assert(words(text)[0][j] == rest[j]);
            }
        }
    }
}

/// Whether a word starts at index `i` of `text`: the character there is no
/// white space, and it is the first of the text or follows white space.
pub open spec fn starts_word(text: Seq<char>, i: int) -> bool {
    &&& 0 <= i < text.len()
    &&& !is_whitespace(text[i])
    &&& (i == 0 || is_whitespace(text[i - 1]))
}

/// At how many indices of `text` a word starts.
pub open spec fn word_starts(text: Seq<char>) -> nat
    decreases text.len(),
{
    if text.len() == 0 {
        0
    } else {
        word_starts(text.drop_last()) + if starts_word(text, text.len() - 1) {
            1nat
        } else {
            0nat
        }
    }
}

/// Where white space or nothing stands on one side of the place at which two texts
/// are joined, no word is made or lost by joining them.
pub proof fn lemma_word_starts_joined(x: Seq<char>, y: Seq<char>)
    requires
        x.len() == 0 || y.len() == 0 || is_whitespace(x.last()) || is_whitespace(y[0]),
    ensures
        word_starts(x + y) == word_starts(x) + word_starts(y),
    decreases y.len(),
{
    if y.len() == 0 {
        assert(x + y =~= x);
    } else {
        let n = (x + y).len() as int;
        assert((x + y).drop_last() =~= x + y.drop_last());
        lemma_word_starts_joined(x, y.drop_last());
        assert((x + y)[n - 1] == y.last());
        if y.len() >= 2 {
            assert((x + y)[n - 2] == y[y.len() - 2]);
        } else if x.len() > 0 {
            assert((x + y)[n - 2] == x.last());
        }
    }
}

/// White space holds no start of a word.
proof fn lemma_word_starts_of_space(text: Seq<char>)
    requires
        forall|i: int| 0 <= i < text.len() ==> is_whitespace(#[trigger] text[i]),
    ensures
        word_starts(text) == 0,
    decreases text.len(),
{
    if text.len() > 0 {
        lemma_word_starts_of_space(text.drop_last());
    }
}

/// A run of characters other than white space holds the start of one word.
proof fn lemma_word_starts_of_word(text: Seq<char>)
    requires
        text.len() > 0,
        forall|i: int| 0 <= i < text.len() ==> !is_whitespace(#[trigger] text[i]),
    ensures
        word_starts(text) == 1,
    decreases text.len(),
{
    if text.len() > 1 {
        lemma_word_starts_of_word(text.drop_last());
        assert(text[text.len() - 2] == text.drop_last().last());
    } else {
        assert(word_starts(text.drop_last()) == 0);
    }
}

/// Each word has one first character, so a text has as many words as it has
/// characters that are no white space and follow white space or nothing.
pub proof fn lemma_word_starts(text: Seq<char>)
    ensures
        word_starts(text) == word_count(text),
    decreases text.len(),
{
    lemma_space_run(text);
    let a = space_run(text) as int;
    let rest = text.skip(a);
    assert(text.take(a) + rest =~= text);
    lemma_word_starts_of_space(text.take(a));
    lemma_word_starts_joined(text.take(a), rest);
    if rest.len() > 0 {
        lemma_word_run(rest);
        let k = word_run(rest) as int;
        let tail = rest.skip(k);
        assert(rest.take(k) + tail =~= rest);
        lemma_word_starts_of_word(rest.take(k));
        lemma_word_starts_joined(rest.take(k), tail);
        lemma_word_starts(tail);
    }
}

/// Where white space or nothing stands on one side of the place at which two texts
/// are joined, the words of the whole are those of the two.
pub proof fn lemma_word_count_joined(x: Seq<char>, y: Seq<char>)
    requires
        x.len() == 0 || y.len() == 0 || is_whitespace(x.last()) || is_whitespace(y[0]),
    ensures
        word_count(x + y) == word_count(x) + word_count(y),
{
    lemma_word_starts_joined(x, y);
    lemma_word_starts(x);
    lemma_word_starts(y);
    lemma_word_starts(x + y);
}

/// A text has no more words than characters.
pub proof fn lemma_word_count_bound(text: Seq<char>)
    ensures
        word_count(text) <= text.len(),
{
    lemma_word_starts(text);
    lemma_word_starts_bound(text);
}

/// A word starts at no more indices of a text than the text has.
proof fn lemma_word_starts_bound(text: Seq<char>)
    ensures
        word_starts(text) <= text.len(),
    decreases text.len(),
{
    if text.len() > 0 {
        lemma_word_starts_bound(text.drop_last());
    }
}

/// Whether `c` is white space.
pub fn whitespace(c: char) -> (r: bool)
    ensures
        r == is_whitespace(c),
{
    let u: u32 = c as u32;
    (0x09 <= u && u <= 0x0D) || u == 0x20 || u == 0x85 || u == 0xA0 || u == 0x1680 || (0x2000 <= u
        && u <= 0x200A) || u == 0x2028 || u == 0x2029 || u == 0x202F || u == 0x205F || u == 0x3000
}

/// The number of characters of `text` and the number of its words.
pub fn count_words(text: &str) -> (r: (usize, usize))
    ensures
        r.0 == text@.len(),
        r.1 == word_count(text@),
{
    let ghost all = text@;
    let size: usize = text.as_bytes().len();
    proof {
        lemma_chars_fit_bytes(all);
    }
    let mut chars: usize = 0;
    let mut words: usize = 0;
    let mut after_space: bool = true;
    for c in it: text.chars()
        invariant
            it.seq() == all,
            all.len() <= size,
            chars == it.index(),
            words == word_starts(all.take(it.index())),
            words <= chars,
            after_space == (it.index() == 0 || is_whitespace(all[it.index() - 1])),
    {
        proof {
            assert(all.take(it.index() + 1).drop_last() =~= all.take(it.index()));
        }
        let space = whitespace(c);
        if after_space && !space {
            words = words + 1;
        }
        chars = chars + 1;
        after_space = space;
    }
    proof {
        assert(all.take(all.len() as int) =~= all);
        lemma_word_starts(all);
    }
    (chars, words)
}

} // verus!
