//! Byte streams and the line increments they are read in.
//!
//! An increment is one line of a stream with the line feed that ends it, or
//! what is left after the last line feed.

use crate::error::Error;
use vstd::prelude::*;
use vstd::utf8::*;

verus! {

/// The byte that ends a line.
pub const LINE_FEED: u8 = 10;

/// How many bytes the first increment of `s` holds: those up to and including
/// the first line feed, or all of `s` where it holds no line feed.
pub open spec fn first_increment_len(s: Seq<u8>) -> nat
    decreases s.len(),
{
    if s.len() == 0 {
        0
    } else if s[0] == LINE_FEED {
        1
    } else {
        1 + first_increment_len(s.drop_first())
    }
}

/// The increments of `s`, in order.
pub open spec fn increments(s: Seq<u8>) -> Seq<Seq<u8>>
    decreases s.len(),
{
    if s.len() == 0 {
        Seq::empty()
    } else {
        proof {
            lemma_first_increment(s);
        }
        let k = first_increment_len(s) as int;
        seq![s.take(k)] + increments(s.skip(k))
    }
}

/// How many line feeds `s` holds.
pub open spec fn newline_count(s: Seq<u8>) -> nat
    decreases s.len(),
{
    if s.len() == 0 {
        0
    } else {
        (if s[0] == LINE_FEED { 1nat } else { 0nat }) + newline_count(s.drop_first())
    }
}

/// How many lines `s` holds: one for each increment.
pub open spec fn line_count(s: Seq<u8>) -> nat {
    increments(s).len()
}

/// The first increment of a stream that is not empty holds at least one byte,
/// holds no line feed before its last byte, and ends with a line feed unless
/// it reaches the end of the stream.
pub proof fn lemma_first_increment(s: Seq<u8>)
    requires
        s.len() > 0,
    ensures
        1 <= first_increment_len(s) <= s.len(),
        forall|i: int| 0 <= i < first_increment_len(s) - 1 ==> s[i] != LINE_FEED,
        s[first_increment_len(s) - 1] == LINE_FEED || first_increment_len(s) == s.len(),
    decreases s.len(),
{
    if s[0] != LINE_FEED && s.len() > 1 {
        let rest = s.drop_first();
        lemma_first_increment(rest);
        assert forall|i: int| 0 <= i < first_increment_len(s) - 1 implies s[i] != LINE_FEED by {
            if i > 0 {
                assert(s[i] == rest[i - 1]);
            }
        }
        assert(s[first_increment_len(s) - 1] == rest[first_increment_len(rest) - 1]);
    } else if s[0] != LINE_FEED {
        assert(first_increment_len(s.drop_first()) == 0);
    }
}

/// Joined in order, the increments of a stream give the stream back.
pub proof fn lemma_increments_join(s: Seq<u8>)
    ensures
        increments(s).flatten() == s,
    decreases s.len(),
{
    if s.len() > 0 {
        lemma_first_increment(s);
        let k = first_increment_len(s) as int;
        lemma_increments_join(s.skip(k));
        assert(increments(s).first() == s.take(k));
        assert(increments(s).drop_first() =~= increments(s.skip(k)));
        assert(s.take(k) + s.skip(k) =~= s);
    } else {
        assert(increments(s).flatten() =~= s);
    }
}

/// A stream has no more lines than bytes.
pub proof fn lemma_line_count_bound(s: Seq<u8>)
    ensures
        line_count(s) <= s.len(),
    decreases s.len(),
{
    if s.len() > 0 {
        lemma_first_increment(s);
        lemma_line_count_bound(s.skip(first_increment_len(s) as int));
    }
}

/// A stream has one line for each of its line feeds, and one more where bytes
/// follow the last of them. An empty stream has no line.
pub proof fn lemma_line_count(s: Seq<u8>)
    ensures
        s.len() == 0 ==> line_count(s) == 0,
        s.len() > 0 && s.last() == LINE_FEED ==> line_count(s) == newline_count(s),
        s.len() > 0 && s.last() != LINE_FEED ==> line_count(s) == newline_count(s) + 1,
    decreases s.len(),
{
    if s.len() > 0 {
        let rest = s.drop_first();
        lemma_first_increment(s);
        lemma_line_count(rest);
        let k = first_increment_len(s) as int;
        if rest.len() == 0 {
            assert(s.skip(k).len() == 0);
            assert(newline_count(rest) == 0);
        } else {
            assert(rest.last() == s.last());
            if s[0] == LINE_FEED {
                assert(s.skip(k) =~= rest);
            } else {
                lemma_first_increment(rest);
                assert(s.skip(k) =~= rest.skip(k - 1));
            }
        }
    }
}

/// A first increment that ends with a line feed stays the first increment when
/// more bytes follow the stream.
pub proof fn lemma_first_increment_joined(a: Seq<u8>, b: Seq<u8>)
    requires
        a.len() > 0,
        a[first_increment_len(a) - 1] == LINE_FEED,
    ensures
        first_increment_len(a + b) == first_increment_len(a),
    decreases a.len(),
{
    lemma_first_increment(a);
    assert((a + b)[0] == a[0]);
    if a[0] != LINE_FEED {
        let rest = a.drop_first();
        assert((a + b).drop_first() =~= rest + b);
        assert(rest.len() > 0) by {
            if rest.len() == 0 {
                assert(first_increment_len(rest) == 0);
            }
        }
        lemma_first_increment(rest);
        assert(a[first_increment_len(a) - 1] == rest[first_increment_len(rest) - 1]);
        lemma_first_increment_joined(rest, b);
    }
}

/// The increments of two streams joined are those of the first and then those of
/// the second, where the first is empty or ends with a line feed.
pub proof fn lemma_increments_joined(a: Seq<u8>, b: Seq<u8>)
    requires
        a.len() == 0 || a.last() == LINE_FEED,
    ensures
        increments(a + b) == increments(a) + increments(b),
    decreases a.len(),
{
    if a.len() == 0 {
        assert(a + b =~= b);
        assert(increments(a) + increments(b) =~= increments(b));
    } else {
        lemma_first_increment(a);
        let k = first_increment_len(a) as int;
        lemma_first_increment_joined(a, b);
        let rest = a.skip(k);
        if rest.len() > 0 {
            assert(rest.last() == a.last());
        }
        lemma_increments_joined(rest, b);
        assert((a + b).take(k) =~= a.take(k));
        assert((a + b).skip(k) =~= rest + b);
        assert(increments(a + b) =~= increments(a) + increments(b));
    }
}

/// The first increment of a stream, taken alone, is a stream of one line.
pub proof fn lemma_first_increment_alone(s: Seq<u8>)
    requires
        s.len() > 0,
    ensures
        first_increment_len(s.take(first_increment_len(s) as int)) == first_increment_len(s),
        line_count(s.take(first_increment_len(s) as int)) == 1,
    decreases s.len(),
{
    lemma_first_increment(s);
    let k = first_increment_len(s) as int;
    let first = s.take(k);
    if s[0] != LINE_FEED {
        let rest = s.drop_first();
        if rest.len() > 0 {
            lemma_first_increment_alone(rest);
            assert(first.drop_first() =~= rest.take(k - 1));
        } else {
            assert(first_increment_len(rest) == 0);
            assert(first_increment_len(first.drop_first()) == 0);
        }
    }
    assert(first.skip(k) =~= Seq::<u8>::empty());
    assert(increments(first.skip(k)).len() == 0);
}

/// Where the increment of `data` that starts at `start` ends.
pub fn increment_end(data: &[u8], start: usize) -> (end: usize)
    requires
        start <= data@.len(),
    ensures
        end == start + first_increment_len(data@.skip(start as int)),
        end <= data@.len(),
{
    let len: usize = data.len();
    let mut i: usize = start;
    while i < len && data[i] != LINE_FEED
        invariant
            len == data@.len(),
            start <= i <= len,
            start + first_increment_len(data@.skip(start as int)) == i + first_increment_len(
                data@.skip(i as int),
            ),
        decreases len - i,
    {
        assert(data@.skip(i as int).drop_first() =~= data@.skip(i + 1));
        i = i + 1;
    }
    if i < len {
        i + 1
    } else {
        i
    }
}

/// How many lines `data` holds.
pub fn count_lines(data: &[u8]) -> (n: usize)
    ensures
        n == line_count(data@),
{
    let len: usize = data.len();
    let mut pos: usize = 0;
    let mut n: usize = 0;
    assert(data@.skip(0) =~= data@);
    while pos < len
        invariant
            len == data@.len(),
            pos <= len,
            n <= pos,
            n + line_count(data@.skip(pos as int)) == line_count(data@),
        decreases len - pos,
    {
        let end = increment_end(data, pos);
        proof {
            let rest = data@.skip(pos as int);
            lemma_first_increment(rest);
            assert(rest.skip(first_increment_len(rest) as int) =~= data@.skip(end as int));
        }
        pos = end;
        n = n + 1;
    }
    n
}

/// One of the two places that a run writes to.
#[derive(Clone, Copy, Debug, PartialEq, Eq, Structural)]
pub enum Sink {
    /// Standard output: what the run produces.
    Stdout,
    /// Standard error: what the run has to say of inputs that failed.
    Stderr,
}

/// Bytes that a run writes, with the sink that they go to.
#[derive(Debug, PartialEq, Eq)]
pub struct Output {
    pub sink: Sink,
    pub bytes: Vec<u8>,
}

/// An `Output` as a plain value.
pub struct Emission {
    pub sink: Sink,
    pub bytes: Seq<u8>,
}

impl View for Output {
    type V = Emission;

    open spec fn view(&self) -> Emission {
        Emission { sink: self.sink, bytes: self.bytes@ }
    }
}

/// The outputs of a run as plain values, in the order in which they are written.
pub open spec fn emissions(outputs: Seq<Output>) -> Seq<Emission> {
    outputs.map_values(|o: Output| o@)
}

/// `text` written to `sink`.
pub open spec fn written(sink: Sink, text: Seq<char>) -> Emission {
    Emission { sink, bytes: encode_utf8(text) }
}

/// What became of one input: the bytes read from it, or why there are none.
#[derive(Debug)]
pub enum Source {
    /// The input was opened and read to its end.
    Data(Vec<u8>),
    /// The input could not be opened, or failed while it was read.
    Failed(Error),
}

/// The name that stands for standard input.
pub open spec fn stdin_name() -> Seq<char> {
    seq!['-']
}

/// The names of inputs as plain values.
pub open spec fn names(files: Seq<String>) -> Seq<Seq<char>> {
    files.map_values(|name: String| name@)
}

/// The inputs of a run: those that were named, or standard input where none was.
pub fn inputs_or_stdin(files: Vec<String>) -> (r: Vec<String>)
    ensures
        r@.len() > 0,
        files@.len() > 0 ==> r == files,
        files@.len() == 0 ==> names(r@) == seq![stdin_name()],
{
    if files.len() > 0 {
        files
    } else {
        let mut r: Vec<String> = Vec::new();
        proof {
            reveal_strlit("-");
        }
        let name = String::from_str("-");
        assert(name@ =~= stdin_name());
        r.push(name);
        assert(names(r@) =~= seq![stdin_name()]);
        r
    }
}

/// The line that reports, for the input `name`, the failure that `message` describes.
pub open spec fn failure_text(name: Seq<char>, message: Seq<char>) -> Seq<char> {
    name + seq![':', ' '] + message + seq!['\n']
}

/// Whether `name` stands for standard input.
pub fn is_stdin(name: &str) -> (r: bool)
    ensures
        r == (name@ == stdin_name()),
{
    let r = name.unicode_len() == 1 && name.get_char(0) == '-';
    assert(r == (name@ =~= stdin_name()));
    r
}

/// `text` as an output to `sink`.
pub fn text_output(sink: Sink, text: &str) -> (out: Output)
    ensures
        out@ == written(sink, text@),
{
    Output { sink, bytes: text.as_bytes_vec() }
}

/// The report for standard error that the input `name` failed as `message` describes.
pub fn failure(name: &str, message: &str) -> (out: Output)
    ensures
        out@ == written(Sink::Stderr, failure_text(name@, message@)),
{
    let mut line = String::new();
    line.append(name);
    proof {
        reveal_strlit(": ");
        reveal_strlit("\n");
    }
    line.append(": ");
    line.append(message);
    line.append("\n");
    assert(line@ =~= failure_text(name@, message@));
    text_output(Sink::Stderr, line.as_str())
}

} // verus!
