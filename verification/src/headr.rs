//! `head`: the first lines, or the first bytes, of each input.

use crate::error::Error;
use crate::stream::{
    emissions, failure, failure_text, first_increment_len, increment_end, increments,
    inputs_or_stdin, lemma_first_increment, lemma_first_increment_alone, lemma_increments_join,
    lemma_increments_joined, line_count, names, stdin_name, written, Emission, Output, Sink,
    Source,
};
use crate::numeral::{parse_unsigned, unsigned_value};
use crate::utf8::{lossy_text, replaced_text};
use vstd::prelude::*;
use vstd::slice::slice_subrange;
use vstd::utf8::*;

verus! {

/// How many lines are taken where the user names no limit.
pub const DEFAULT_LINES: usize = 10;

/// How much to take, and from which inputs.
#[derive(Debug)]
pub struct Config {
    /// The names of the inputs, in the order in which they are processed.
    pub files: Vec<String>,
    /// How many lines are taken from each input.
    pub lines: usize,
    /// How many bytes are taken from each input. Where present it replaces `lines`.
    pub bytes: Option<usize>,
}

/// The limit that `text` writes: an unsigned integer that is not zero and that a
/// `usize` can hold. No other text writes a limit.
pub open spec fn positive_int(text: Seq<char>) -> Option<usize> {
    match unsigned_value(text) {
        Some(v) => if 0 < v <= usize::MAX {
            Some(v as usize)
        } else {
            None
        },
        None => None,
    }
}

/// Reads a limit. A text that writes none is handed back as the error.
pub fn parse_positive_int(val: &str) -> (r: Result<usize, Error>)
    ensures
        match r {
            Ok(n) => positive_int(val@) == Some(n),
            Err(e) => positive_int(val@) is None && e is Configuration && e.message() == val@,
        },
{
    match parse_unsigned(val) {
        Some(n) => {
            if n > 0 {
                Ok(n)
            } else {
                Err(Error::Configuration(String::from_str(val)))
            }
        },
        None => Err(Error::Configuration(String::from_str(val))),
    }
}

/// What is said of a limit in lines beside a limit in bytes.
pub open spec fn conflict_text() -> Seq<char> {
    "the argument '--lines' cannot be used with '--bytes'"@
}

/// The text of an argument that may be absent.
pub open spec fn argument(arg: Option<&str>) -> Option<Seq<char>> {
    match arg {
        Some(text) => Some(text@),
        None => None,
    }
}

/// Whether a limit that may be absent is acceptable: it is absent, or it writes a limit.
pub open spec fn acceptable(arg: Option<Seq<char>>) -> bool {
    arg matches Some(text) ==> positive_int(text) is Some
}

impl Config {
    /// Whether a run can start from this configuration: it names an input, and no
    /// limit is zero.
    pub open spec fn wf(self) -> bool {
        &&& self.files@.len() > 0
        &&& self.lines > 0
        &&& self.bytes matches Some(n) ==> n > 0
    }

    /// The configuration of a run from what the user asked for. A limit in lines and
    /// a limit in bytes exclude each other, and each must write a number that is not
    /// zero. Where neither is given, ten lines are taken. Where no input is named,
    /// standard input is read.
    pub fn new(files: Vec<String>, lines: Option<&str>, bytes: Option<&str>) -> (r: Result<
        Config,
        Error,
    >)
        ensures
            r is Ok <==> !(lines is Some && bytes is Some) && acceptable(argument(lines))
                && acceptable(argument(bytes)),
            r matches Ok(config) ==> {
                &&& config.wf()
                &&& files@.len() > 0 ==> config.files == files
                &&& files@.len() == 0 ==> names(config.files@) == seq![stdin_name()]
                &&& config.lines == match lines {
                    Some(text) => positive_int(text@).unwrap(),
                    None => DEFAULT_LINES,
                }
                &&& config.bytes == match bytes {
                    Some(text) => positive_int(text@),
                    None => None,
                }
            },
            r matches Err(e) ==> {
                &&& e is Configuration
                &&& e.message() == if lines is Some && bytes is Some {
                    conflict_text()
                } else if !acceptable(argument(lines)) {
                    lines.unwrap()@
                } else {
                    bytes.unwrap()@
                }
            },
    {
        if lines.is_some() && bytes.is_some() {
            return Err(
                Error::Configuration(
                    String::from_str("the argument '--lines' cannot be used with '--bytes'"),
                ),
            );
        }
        let line_limit: usize = match lines {
            Some(text) => match parse_positive_int(text) {
                Ok(n) => n,
                Err(e) => {
                    return Err(e);
                },
            },
            None => DEFAULT_LINES,
        };
        let byte_limit: Option<usize> = match bytes {
            Some(text) => match parse_positive_int(text) {
                Ok(n) => Some(n),
                Err(e) => {
                    return Err(e);
                },
            },
            None => None,
        };
        Ok(Config { files: inputs_or_stdin(files), lines: line_limit, bytes: byte_limit })
    }
}

/// The first `limit` bytes of `s`, or all of `s` where it holds fewer.
pub open spec fn first_bytes(s: Seq<u8>, limit: nat) -> Seq<u8> {
    if limit < s.len() {
        s.take(limit as int)
    } else {
        s
    }
}

/// How many lines of `s` are taken under `limit`: as many as the limit says, or all
/// where `s` holds fewer.
pub open spec fn lines_taken(s: Seq<u8>, limit: nat) -> nat {
    if limit < line_count(s) {
        limit
    } else {
        line_count(s)
    }
}

/// The first `limit` lines of `s`, each with the line feed that ends it, or all of
/// its lines where it holds fewer.
pub open spec fn first_lines(s: Seq<u8>, limit: nat) -> Seq<u8> {
    increments(s).take(lines_taken(s, limit) as int).flatten()
}

/// How many bytes the first `limit` lines of `s` hold.
pub open spec fn first_lines_len(s: Seq<u8>, limit: nat) -> nat
    decreases limit,
{
    if limit == 0 || s.len() == 0 {
        0
    } else {
        first_increment_len(s) + first_lines_len(
            s.skip(first_increment_len(s) as int),
            (limit - 1) as nat,
        )
    }
}

/// The first lines of a stream are the bytes that it starts with.
pub proof fn lemma_first_lines_prefix(s: Seq<u8>, limit: nat)
    ensures
        first_lines_len(s, limit) <= s.len(),
        first_lines(s, limit) == s.take(first_lines_len(s, limit) as int),
    decreases limit,
{
    if limit == 0 || s.len() == 0 {
        assert(increments(s).take(0).flatten() =~= Seq::<u8>::empty());
        assert(first_lines(s, limit) =~= s.take(0));
    } else {
        lemma_first_increment(s);
        let k = first_increment_len(s) as int;
        let rest = s.skip(k);
        let m = lines_taken(rest, (limit - 1) as nat) as int;
        lemma_first_lines_prefix(rest, (limit - 1) as nat);
        let taken = increments(s).take(m + 1);
        assert(taken.first() == s.take(k));
        assert(taken.drop_first() =~= increments(rest).take(m));
        assert(s.take(k) + rest.take(first_lines_len(rest, (limit - 1) as nat) as int) =~= s.take(
            first_lines_len(s, limit) as int,
        ));
    }
}

/// Under a limit that its lines do not reach, a stream is taken whole.
pub proof fn lemma_first_lines_all(s: Seq<u8>, limit: nat)
    requires
        line_count(s) <= limit,
    ensures
        first_lines(s, limit) == s,
{
    lemma_increments_join(s);
    assert(increments(s).take(line_count(s) as int) =~= increments(s));
}

/// What is taken under a limit in lines holds as many lines as the limit says, or
/// as the stream has where these are fewer.
pub proof fn lemma_first_lines_count(s: Seq<u8>, limit: nat)
    ensures
        line_count(first_lines(s, limit)) == lines_taken(s, limit),
    decreases limit,
{
    if limit == 0 || s.len() == 0 {
        assert(increments(s).take(0).flatten() =~= Seq::<u8>::empty());
    } else {
        lemma_first_increment(s);
        lemma_first_increment_alone(s);
        let k = first_increment_len(s) as int;
        let rest = s.skip(k);
        let m = lines_taken(rest, (limit - 1) as nat) as int;
        lemma_first_lines_count(rest, (limit - 1) as nat);
        let taken = increments(s).take(m + 1);
        assert(taken.first() == s.take(k));
        assert(taken.drop_first() =~= increments(rest).take(m));
        assert(first_lines(s, limit) == s.take(k) + first_lines(rest, (limit - 1) as nat));
        if rest.len() == 0 {
            assert(first_lines(rest, (limit - 1) as nat) =~= Seq::<u8>::empty());
            assert(s.take(k) + first_lines(rest, (limit - 1) as nat) =~= s.take(k));
        } else {
            lemma_increments_joined(s.take(k), first_lines(rest, (limit - 1) as nat));
        }
    }
}

/// Takes the first `limit` bytes of `data`.
pub fn take_bytes(data: &[u8], limit: usize) -> (r: &[u8])
    ensures
        r@ == first_bytes(data@, limit as nat),
{
    if limit < data.len() {
        slice_subrange(data, 0, limit)
    } else {
        data
    }
}

/// Takes the first `limit` lines of `data`.
pub fn take_lines(data: &[u8], limit: usize) -> (r: &[u8])
    ensures
        r@ == first_lines(data@, limit as nat),
{
    let len: usize = data.len();
    let mut pos: usize = 0;
    let mut taken: usize = 0;
    assert(data@.skip(0) =~= data@);
    while taken < limit && pos < len
        invariant
            len == data@.len(),
            pos <= len,
            taken <= limit,
            pos + first_lines_len(data@.skip(pos as int), (limit - taken) as nat)
                == first_lines_len(data@, limit as nat),
        decreases len - pos,
    {
        let end = increment_end(data, pos);
        proof {
            let rest = data@.skip(pos as int);
            lemma_first_increment(rest);
            assert(rest.skip(first_increment_len(rest) as int) =~= data@.skip(end as int));
        }
        pos = end;
        taken = taken + 1;
    }
    proof {
        lemma_first_lines_prefix(data@, limit as nat);
    }
    slice_subrange(data, 0, pos)
}

/// The line that names an input before what is taken from it: written where a run
/// has more than one input, and after an empty line for every input but the first.
pub open spec fn header_text(index: nat, count: nat, name: Seq<char>) -> Seq<char> {
    if count > 1 {
        (if index > 0 {
            seq!['\n']
        } else {
            Seq::empty()
        }) + "==> "@ + name + " <==\n"@
    } else {
        Seq::empty()
    }
}

/// Writes the header of the input `name`, which is number `index` of `count`.
pub fn header(index: usize, count: usize, name: &str) -> (r: String)
    ensures
        r@ == header_text(index as nat, count as nat, name@),
{
    let mut line = String::new();
    if count > 1 {
        if index > 0 {
            proof {
                reveal_strlit("\n");
            }
            line.append("\n");
        }
        line.append("==> ");
        line.append(name);
        line.append(" <==\n");
    }
    assert(line@ =~= header_text(index as nat, count as nat, name@));
    line
}

/// What is written of an input that holds `data`: its first bytes as text, with
/// a replacement character for what is not UTF-8, where the limit is in bytes;
/// else its first lines as they are.
pub open spec fn selection(config: Config, data: Seq<u8>) -> Seq<u8> {
    match config.bytes {
        Some(limit) => encode_utf8(lossy_text(first_bytes(data, limit as nat))),
        None => first_lines(data, config.lines as nat),
    }
}

/// Appends to `out` what is written of an input that holds `data`. Under a limit
/// in bytes these are the first bytes themselves, as long as they are UTF-8.
pub fn select(config: &Config, data: &[u8], out: &mut Vec<u8>)
    ensures
        final(out)@ == old(out)@ + selection(*config, data@),
        config.bytes matches Some(limit) ==> (valid_utf8(first_bytes(data@, limit as nat))
            ==> final(out)@ == old(out)@ + first_bytes(data@, limit as nat)),
{
    match config.bytes {
        Some(limit) => {
            let taken = take_bytes(data, limit);
            let text = replaced_text(taken);
            proof {
                if valid_utf8(taken@) {
                    decode_utf8_encode_utf8(taken@);
                }
            }
            out.extend_from_slice(text.as_str().as_bytes());
        },
        None => {
            out.extend_from_slice(take_lines(data, config.lines));
        },
    }
}

/// What a run writes for its input number `index`: the header and what is taken
/// from the input on standard output, or in their place the report of its failure
/// on standard error.
pub open spec fn file_emission(config: Config, index: int, source: Source) -> Emission {
    let name = config.files@[index]@;
    match source {
        Source::Data(data) => Emission {
            sink: Sink::Stdout,
            bytes: encode_utf8(header_text(index as nat, config.files@.len(), name)) + selection(
                config,
                data@,
            ),
        },
        Source::Failed(error) => written(Sink::Stderr, failure_text(name, error.message())),
    }
}

/// Processes the input number `index`.
pub fn process(config: &Config, index: usize, source: &Source) -> (out: Output)
    requires
        index < config.files@.len(),
    ensures
        out@ == file_emission(*config, index as int, *source),
{
    let name = config.files[index].as_str();
    match source {
        Source::Failed(error) => failure(name, error.as_str()),
        Source::Data(data) => {
            let mut bytes = header(index, config.files.len(), name).as_str().as_bytes_vec();
            select(config, data.as_slice(), &mut bytes);
            Output { sink: Sink::Stdout, bytes }
        },
    }
}

/// What a run writes for its first `n` inputs.
pub open spec fn file_emissions(config: Config, sources: Seq<Source>, n: nat) -> Seq<Emission>
    decreases n,
{
    if n == 0 {
        Seq::empty()
    } else {
        file_emissions(config, sources, (n - 1) as nat).push(
            file_emission(config, n - 1, sources[n - 1]),
        )
    }
}

/// Runs over all the inputs: `sources` holds, for each name of `config.files` in
/// turn, what became of that input.
pub fn run(config: &Config, sources: &Vec<Source>) -> (outputs: Vec<Output>)
    requires
        sources@.len() == config.files@.len(),
    ensures
        emissions(outputs@) == file_emissions(*config, sources@, sources@.len()),
{
    let mut outputs: Vec<Output> = Vec::new();
    let n: usize = sources.len();
    let mut i: usize = 0;
    assert(emissions(outputs@) =~= file_emissions(*config, sources@, 0));
    while i < n
        invariant
            n == sources@.len(),
            n == config.files@.len(),
            i <= n,
            emissions(outputs@) == file_emissions(*config, sources@, i as nat),
        decreases n - i,
    {
        let ghost before = outputs@;
        let out = process(config, i, &sources[i]);
        outputs.push(out);
        i = i + 1;
        assert(emissions(outputs@) =~= emissions(before).push(out@));
    }
    outputs
}

/// How many more lines a caller that reads an input increment by increment may
/// take from it.
#[derive(Debug, Clone, Copy, PartialEq, Eq)]
pub struct LineBudget {
    /// The lines that are still to be taken.
    pub remaining: usize,
}

/// What a caller writes that reads the increments `read` one after another under a
/// budget of `remaining` lines: each increment as it is, until the budget is used
/// up or an increment is empty, which marks the end of the input.
pub open spec fn streamed(remaining: nat, read: Seq<Seq<u8>>) -> Seq<u8>
    decreases read.len(),
{
    if remaining == 0 || read.len() == 0 || read[0].len() == 0 {
        Seq::empty()
    } else {
        read[0] + streamed((remaining - 1) as nat, read.drop_first())
    }
}

impl LineBudget {
    /// The budget of an input under the limit `limit`.
    pub fn new(limit: usize) -> (budget: LineBudget)
        ensures
            budget.remaining == limit,
    {
        LineBudget { remaining: limit }
    }

    /// Whether the caller is to read another increment.
    pub fn wants_more(&self) -> (r: bool)
        ensures
            r == (self.remaining > 0),
    {
        self.remaining > 0
    }

    /// Takes note of the increment that the caller has read, and says whether the
    /// caller is to write it. An empty increment is the end of the input: it is not
    /// written, and nothing is read after it.
    pub fn accept(&mut self, increment: &[u8]) -> (emit: bool)
        ensures
            emit == (old(self).remaining > 0 && increment@.len() > 0),
            final(self).remaining == if emit {
                (old(self).remaining - 1) as usize
            } else {
                0
            },
    {
        if self.remaining > 0 && increment.len() > 0 {
            self.remaining = self.remaining - 1;
            true
        } else {
            self.remaining = 0;
            false
        }
    }
}

/// Read increment by increment under a budget, an input gives its first lines.
pub proof fn lemma_streamed_lines(s: Seq<u8>, limit: nat)
    ensures
        streamed(limit, increments(s)) == first_lines(s, limit),
    decreases s.len(),
{
    if limit == 0 || s.len() == 0 {
        assert(increments(s).take(0).flatten() =~= Seq::<u8>::empty());
    } else {
        lemma_first_increment(s);
        let k = first_increment_len(s) as int;
        let rest = s.skip(k);
        lemma_streamed_lines(rest, (limit - 1) as nat);
        let m = lines_taken(rest, (limit - 1) as nat) as int;
        let taken = increments(s).take(m + 1);
        assert(increments(s).drop_first() =~= increments(rest));
        assert(taken.first() == s.take(k));
        assert(taken.drop_first() =~= increments(rest).take(m));
    }
}

} // verus!
