//! Decimal numerals: writing a number and reading one.

use vstd::prelude::*;

verus! {

/// The ten decimal digits, in order.
pub open spec fn digits() -> Seq<char> {
    seq!['0', '1', '2', '3', '4', '5', '6', '7', '8', '9']
}

/// The shortest decimal numeral of `n`: no sign, no leading zero except for zero itself.
pub open spec fn decimal(n: nat) -> Seq<char>
    decreases n,
{
    if n < 10 {
        seq![digits()[n as int]]
    } else {
        decimal(n / 10).push(digits()[(n % 10) as int])
    }
}

/// Whether `c` is one of the ten decimal digits.
pub open spec fn is_digit(c: char) -> bool {
    0x30 <= c as u32 <= 0x39
}

/// The number that the digit `c` stands for.
pub open spec fn digit_value(c: char) -> nat {
    if is_digit(c) {
        (c as u32 - 0x30) as nat
    } else {
        0
    }
}

/// Whether `s` holds decimal digits only.
pub open spec fn all_digits(s: Seq<char>) -> bool {
    forall|i: int| 0 <= i < s.len() ==> is_digit(#[trigger] s[i])
}

/// The number that the digits `s` write in base ten.
pub open spec fn digits_value(s: Seq<char>) -> nat
    decreases s.len(),
{
    if s.len() == 0 {
        0
    } else {
        digits_value(s.drop_last()) * 10 + digit_value(s.last())
    }
}

/// `text` without the plus sign that it may start with.
pub open spec fn after_sign(text: Seq<char>) -> Seq<char> {
    if text.len() > 0 && text[0] == '+' {
        text.drop_first()
    } else {
        text
    }
}

/// The number that `text` writes as an unsigned integer: one decimal digit or more
/// after at most one plus sign, and nothing else. No other text writes a number.
pub open spec fn unsigned_value(text: Seq<char>) -> Option<nat> {
    let body = after_sign(text);
    if body.len() > 0 && all_digits(body) {
        Some(digits_value(body))
    } else {
        None
    }
}

/// The digits at the start of a numeral write no more than the whole numeral.
pub proof fn lemma_digits_value_prefix(s: Seq<char>, n: int)
    requires
        0 <= n <= s.len(),
    ensures
        digits_value(s.take(n)) <= digits_value(s),
    decreases s.len(),
{
    if n < s.len() {
        lemma_digits_value_prefix(s.drop_last(), n);
        assert(s.drop_last().take(n) =~= s.take(n));
    } else {
        assert(s.take(n) =~= s);
    }
}

/// The numeral of a number holds digits only, and they write that number.
pub proof fn lemma_decimal_digits(n: nat)
    ensures
        decimal(n).len() > 0,
        all_digits(decimal(n)),
        digits_value(decimal(n)) == n,
    decreases n,
{
    let d = digits()[(n % 10) as int];
    assert(is_digit(d) && digit_value(d) == n % 10);
    if n < 10 {
        assert(decimal(n).drop_last() =~= Seq::<char>::empty());
        assert(digits_value(decimal(n).drop_last()) == 0);
    } else {
        lemma_decimal_digits(n / 10);
        assert(decimal(n).drop_last() =~= decimal(n / 10));
        assert forall|i: int| 0 <= i < decimal(n).len() implies is_digit(
            #[trigger] decimal(n)[i],
        ) by {
            if i < decimal(n / 10).len() {
                assert(decimal(n)[i] == decimal(n / 10)[i]);
            }
        }
    }
}

/// Read back, the numeral of a number gives that number.
pub proof fn lemma_decimal_read_back(n: nat)
    ensures
        unsigned_value(decimal(n)) == Some(n),
{
    lemma_decimal_digits(n);
    assert(is_digit(decimal(n)[0]));
}

/// The one-character text of the digit `d`.
fn digit_text(d: usize) -> (r: &'static str)
    requires
        d < 10,
    ensures
        r@ == seq![digits()[d as int]],
{
    let all: &'static str = "0123456789";
    proof {
        reveal_strlit("0123456789");
    }
    let r = all.substring_ascii(d, d + 1);
    assert(r@ =~= seq![digits()[d as int]]);
    r
}

/// Appends the decimal numeral of `n` to `out`.
fn push_decimal(out: &mut String, n: usize)
    ensures
        final(out)@ == old(out)@ + decimal(n as nat),
    decreases n,
{
    if n >= 10 {
        push_decimal(out, n / 10);
    }
    out.append(digit_text(n % 10));
    assert(out@ =~= old(out)@ + decimal(n as nat));
}

/// The decimal numeral of `n`.
pub fn decimal_string(n: usize) -> (r: String)
    ensures
        r@ == decimal(n as nat),
{
    let mut out = String::new();
    push_decimal(&mut out, n);
    assert(out@ =~= decimal(n as nat));
    out
}

/// Reads `text` as an unsigned integer. Gives `None` where it writes no number, and
/// where it writes one that is too large.
pub fn parse_unsigned(text: &str) -> (r: Option<usize>)
    ensures
        r == match unsigned_value(text@) {
            Some(v) => if v <= usize::MAX {
                Some(v as usize)
            } else {
                None
            },
            None => None,
        },
{
    let ghost all = text@;
    let mut value: usize = 0;
    let mut first: bool = true;
    let mut signed: bool = false;
    let mut any: bool = false;
    for c in it: text.chars()
        invariant
            all == text@,
            it.seq() == all,
            first == (it.index() == 0),
            signed == (it.index() > 0 && all[0] == '+'),
            all_digits(all.subrange(if signed { 1int } else { 0int }, it.index())),
            value == digits_value(all.subrange(if signed { 1int } else { 0int }, it.index())),
            any == (it.index() > if signed { 1int } else { 0int }),
    {
        let ghost idx = it.index();
        let ghost off = if signed { 1int } else { 0int };
        if first && c == '+' {
            signed = true;
            assert(all.subrange(1, idx + 1) =~= Seq::<char>::empty());
        } else {
            let u: u32 = c as u32;
            proof {
                let body = after_sign(all);
                assert(body[idx - off] == all[idx]);
                assert(all.subrange(off, idx + 1).drop_last() =~= all.subrange(off, idx));
                assert(body.take(idx + 1 - off) =~= all.subrange(off, idx + 1));
                lemma_digits_value_prefix(body, idx + 1 - off);
            }
            if u < 0x30 || u > 0x39 {
                return None;
            }
            let d: usize = (u - 0x30) as usize;
            let tenfold = match value.checked_mul(10) {
                Some(v) => v,
                None => {
                    return None;
                },
            };
            value = match tenfold.checked_add(d) {
                Some(v) => v,
                None => {
                    return None;
                },
            };
            any = true;
        }
        first = false;
    }
    proof {
        let off = if signed { 1int } else { 0int };
        assert(all.subrange(off, all.len() as int) =~= after_sign(all));
    }
    if any {
        Some(value)
    } else {
        None
    }
}

} // verus!
