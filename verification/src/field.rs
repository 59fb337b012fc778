//! Fields of a fixed width.

use vstd::prelude::*;

verus! {

/// `width` copies of the space character.
pub open spec fn spaces(width: nat) -> Seq<char> {
    Seq::new(width, |i: int| ' ')
}

/// `text` pushed to the right edge of a field of `width` characters. A text that is
/// already as wide as the field, or wider, is left as it is.
pub open spec fn right_aligned(text: Seq<char>, width: nat) -> Seq<char> {
    if text.len() >= width {
        text
    } else {
        spaces((width - text.len()) as nat) + text
    }
}

/// `text` right-aligned in a field of `width` characters.
pub fn right_align(text: &str, width: usize) -> (r: String)
    ensures
        r@ == right_aligned(text@, width as nat),
{
    let len: usize = text.unicode_len();
    let mut out = String::new();
    let mut i: usize = len;
    while i < width
        invariant
            len == text@.len(),
            len <= i,
            len < width ==> i <= width,
            len >= width ==> i == len,
            out@ == spaces((i - len) as nat),
        decreases width - i,
    {
        proof {
            reveal_strlit(" ");
        }
        out.append(" ");
        i = i + 1;
        assert(out@ =~= spaces((i - len) as nat));
    }
    out.append(text);
    assert(out@ =~= right_aligned(text@, width as nat));
    out
}

} // verus!
