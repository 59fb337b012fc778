//! `cat`: every line of each input, with a number before it where asked for.

use crate::error::Error;
use crate::stream::{
    emissions, failure, failure_text, first_increment_len, increment_end, inputs_or_stdin,
    lemma_first_increment, names, stdin_name, text_output, written, Emission, Output, Sink, Source,
    LINE_FEED,
};
use crate::field::{right_align, right_aligned};
use crate::numeral::{decimal, decimal_string};
use crate::utf8::{decode, not_utf8, not_utf8_error};
use vstd::prelude::*;
use vstd::slice::slice_subrange;
use vstd::utf8::*;

verus! {

/// The byte that may stand before the line feed at the end of a line.
pub const CARRIAGE_RETURN: u8 = 13;

/// The width of the field that a line's number is written in.
pub const NUMBER_WIDTH: usize = 6;

/// Which lines get a number, and in which inputs.
#[derive(Debug, Clone)]
pub struct Config {
    /// The names of the inputs, in the order in which they are processed.
    pub files: Vec<String>,
    /// Whether every line gets a number.
    pub number_lines: bool,
    /// Whether every line that is not empty gets a number, and no other.
    pub number_nonblank_lines: bool,
}

/// What is said of numbering all lines and only those that are not empty.
pub open spec fn conflict_text() -> Seq<char> {
    "the argument '--number' cannot be used with '--number-nonblank'"@
}

impl Config {
    /// Whether a run can start from this configuration: it names an input, and
    /// asks for at most one way of numbering.
    pub open spec fn wf(self) -> bool {
        &&& self.files@.len() > 0
        &&& !(self.number_lines && self.number_nonblank_lines)
    }

    /// The configuration of a run from what the user asked for. The two ways of
    /// numbering exclude each other. Where no input is named, standard input is read.
    pub fn new(files: Vec<String>, number_lines: bool, number_nonblank_lines: bool) -> (r:
        Result<Config, Error>)
        ensures
            r is Ok <==> !(number_lines && number_nonblank_lines),
            r matches Ok(config) ==> {
                &&& config.wf()
                &&& files@.len() > 0 ==> config.files == files
                &&& files@.len() == 0 ==> names(config.files@) == seq![stdin_name()]
                &&& config.number_lines == number_lines
                &&& config.number_nonblank_lines == number_nonblank_lines
            },
            r matches Err(e) ==> e is Configuration && e.message() == conflict_text(),
    {
        if number_lines && number_nonblank_lines {
            return Err(
                Error::Configuration(
                    String::from_str(
                        "the argument '--number' cannot be used with '--number-nonblank'",
                    ),
                ),
            );
        }
        Ok(Config { files: inputs_or_stdin(files), number_lines, number_nonblank_lines })
    }
}

/// What an increment holds as a line: the increment without the line feed that ends
/// it, and without the carriage return that stands before that line feed.
pub open spec fn content(increment: Seq<u8>) -> Seq<u8> {
    if increment.len() > 0 && increment.last() == LINE_FEED {
        let body = increment.drop_last();
        if body.len() > 0 && body.last() == CARRIAGE_RETURN {
            body.drop_last()
        } else {
            body
        }
    } else {
        increment
    }
}

/// The line that `increment` holds.
pub fn line_content(increment: &[u8]) -> (line: &[u8])
    ensures
        line@ == content(increment@),
{
    let len: usize = increment.len();
    if len > 0 && increment[len - 1] == LINE_FEED {
        if len > 1 && increment[len - 2] == CARRIAGE_RETURN {
            slice_subrange(increment, 0, len - 2)
        } else {
            slice_subrange(increment, 0, len - 1)
        }
    } else {
        increment
    }
}

/// Whether `line` gets a number: every line where all are numbered, and a line that
/// is not empty where those are numbered.
pub open spec fn is_numbered(config: Config, line: Seq<char>) -> bool {
    if config.number_nonblank_lines {
        line.len() > 0
    } else {
        config.number_lines
    }
}

/// What is written for `line` after `numbered` lines of its input got a number: the
/// line and a line feed, and before them, where the line gets a number, that number
/// right-aligned in six characters and a tab.
pub open spec fn line_text(config: Config, numbered: nat, line: Seq<char>) -> Seq<char> {
    if is_numbered(config, line) {
        right_aligned(decimal(numbered + 1), NUMBER_WIDTH as nat) + seq!['\t'] + line + seq!['\n']
    } else {
        line + seq!['\n']
    }
}

/// How many lines of an input have got a number after `line`, where `numbered` had
/// one before it.
pub open spec fn numbered_after(config: Config, numbered: nat, line: Seq<char>) -> nat {
    if is_numbered(config, line) {
        numbered + 1
    } else {
        numbered
    }
}

/// Where lines that are not empty are numbered, an empty line is written as it is,
/// without a number, and the lines after it are numbered as if it were not there.
pub proof fn lemma_blank_line(config: Config, numbered: nat)
    requires
        config.number_nonblank_lines,
    ensures
        line_text(config, numbered, Seq::empty()) == seq!['\n'],
        numbered_after(config, numbered, Seq::empty()) == numbered,
{
    assert(line_text(config, numbered, Seq::empty()) =~= seq!['\n']);
}

/// The numbers given so far to the lines of one input.
#[derive(Debug, Clone, Copy, PartialEq, Eq)]
pub struct Numbering {
    /// How many lines of the input have got a number.
    pub numbered: usize,
}

impl Numbering {
    /// The numbering at the start of an input.
    pub fn new() -> (numbering: Numbering)
        ensures
            numbering.numbered == 0,
    {
        Numbering { numbered: 0 }
    }

    /// Writes `line` with its line feed, and with its number where it gets one.
    pub fn render(&mut self, config: &Config, line: &str) -> (r: String)
        requires
            old(self).numbered < usize::MAX,
        ensures
            r@ == line_text(*config, old(self).numbered as nat, line@),
            final(self).numbered == numbered_after(*config, old(self).numbered as nat, line@),
    {
        let mut out = String::new();
        let numbered = if config.number_nonblank_lines {
            line.unicode_len() > 0
        } else {
            config.number_lines
        };
        if numbered {
            self.numbered = self.numbered + 1;
            let numeral = decimal_string(self.numbered);
            let field = right_align(numeral.as_str(), NUMBER_WIDTH);
            out.append(field.as_str());
            proof {
                reveal_strlit("\t");
            }
            out.append("\t");
        }
        out.append(line);
        proof {
            reveal_strlit("\n");
        }
        out.append("\n");
        assert(out@ =~= line_text(*config, old(self).numbered as nat, line@));
        out
    }
}

/// Writes the line of one increment, for a caller that reads an input increment by
/// increment. Fails on a line that is not UTF-8, and then leaves the numbering as it is.
pub fn render_increment(config: &Config, numbering: &mut Numbering, increment: &[u8]) -> (r:
    Result<String, Error>)
    requires
        old(numbering).numbered < usize::MAX,
    ensures
        r is Ok <==> valid_utf8(content(increment@)),
        r matches Ok(text) ==> {
            let line = decode_utf8(content(increment@));
            &&& text@ == line_text(*config, old(numbering).numbered as nat, line)
            &&& final(numbering).numbered == numbered_after(
                *config,
                old(numbering).numbered as nat,
                line,
            )
        },
        r matches Err(e) ==> e is Read && e.message() == not_utf8() && *final(numbering) == *old(
            numbering,
        ),
{
    match decode(line_content(increment)) {
        Some(line) => Ok(numbering.render(config, line)),
        None => Err(not_utf8_error()),
    }
}

/// The text that is written for the lines of the stream `s`, where `numbered` lines
/// got a number before them. It ends before the first line that is not UTF-8.
pub open spec fn lines_text(config: Config, numbered: nat, s: Seq<u8>) -> Seq<char>
    decreases s.len(),
{
    if s.len() == 0 {
        Seq::empty()
    } else {
        proof {
            lemma_first_increment(s);
        }
        let k = first_increment_len(s) as int;
        let line = content(s.take(k));
        if valid_utf8(line) {
            line_text(config, numbered, decode_utf8(line)) + lines_text(
                config,
                numbered_after(config, numbered, decode_utf8(line)),
                s.skip(k),
            )
        } else {
            Seq::empty()
        }
    }
}

/// Whether every line of the stream `s` is UTF-8.
pub open spec fn readable(s: Seq<u8>) -> bool
    decreases s.len(),
{
    if s.len() == 0 {
        true
    } else {
        proof {
            lemma_first_increment(s);
        }
        let k = first_increment_len(s) as int;
        valid_utf8(content(s.take(k))) && readable(s.skip(k))
    }
}

/// The line that reports the failure of the input `name`. A failure to open it is
/// reported as one.
pub open spec fn failure_line(name: Seq<char>, error: Error) -> Seq<char> {
    if error is Open {
        "Failed to open "@ + failure_text(name, error.message())
    } else {
        failure_text(name, error.message())
    }
}

/// What a run writes for the input `name`. For an input that was read: its lines
/// on standard output, up to the first that is not UTF-8, and for that one a report
/// on standard error. For an input that failed: the report of the failure.
pub open spec fn file_emissions(config: Config, name: Seq<char>, source: Source) -> Seq<
    Emission,
> {
    match source {
        Source::Data(data) => {
            let lines = seq![written(Sink::Stdout, lines_text(config, 0, data@))];
            if readable(data@) {
                lines
            } else {
                lines.push(written(Sink::Stderr, failure_text(name, not_utf8())))
            }
        },
        Source::Failed(error) => seq![written(Sink::Stderr, failure_line(name, error))],
    }
}

/// The report of `error` for the input `name`, for standard error.
pub fn report(name: &str, error: &Error) -> (out: Output)
    ensures
        out@ == written(Sink::Stderr, failure_line(name@, *error)),
{
    match error {
        Error::Open(message) => {
            let mut line = String::from_str("Failed to open ");
            line.append(name);
            proof {
                reveal_strlit(": ");
                reveal_strlit("\n");
            }
            line.append(": ");
            line.append(message.as_str());
            line.append("\n");
            assert(line@ =~= failure_line(name@, *error));
            text_output(Sink::Stderr, line.as_str())
        },
        _ => failure(name, error.as_str()),
    }
}

/// Processes the input `name`.
pub fn process(config: &Config, name: &str, source: &Source) -> (outputs: Vec<Output>)
    ensures
        emissions(outputs@) == file_emissions(*config, name@, *source),
{
    let mut outputs: Vec<Output> = Vec::new();
    match source {
        Source::Failed(error) => {
            let out = report(name, error);
            outputs.push(out);
            assert(emissions(outputs@) =~= seq![out@]);
        },
        Source::Data(bytes) => {
            let data = bytes.as_slice();
            let len: usize = data.len();
            let mut text = String::new();
            let mut numbering = Numbering::new();
            let mut pos: usize = 0;
            let mut stopped: Option<Error> = None;
            assert(data@.skip(0) =~= data@);
            assert(text@ + lines_text(*config, 0, data@) =~= lines_text(*config, 0, data@));
            while pos < len && stopped.is_none()
                invariant
                    len == data@.len(),
                    pos <= len,
                    numbering.numbered <= pos,
                    stopped is None ==> text@ + lines_text(
                        *config,
                        numbering.numbered as nat,
                        data@.skip(pos as int),
                    ) == lines_text(*config, 0, data@),
                    stopped is None ==> readable(data@.skip(pos as int)) == readable(data@),
                    stopped matches Some(e) ==> e is Read && e.message() == not_utf8() && text@
                        == lines_text(*config, 0, data@) && !readable(data@),
                decreases len - pos + if stopped is Some { 0int } else { 1int },
            {
                let end = increment_end(data, pos);
                proof {
                    let rest = data@.skip(pos as int);
                    lemma_first_increment(rest);
                    let k = first_increment_len(rest) as int;
                    assert(rest.skip(k) =~= data@.skip(end as int));
                    assert(rest.take(k) =~= data@.subrange(pos as int, end as int));
                }
                match render_increment(config, &mut numbering, slice_subrange(data, pos, end)) {
                    Ok(line) => {
                        text.append(line.as_str());
                        pos = end;
                    },
                    Err(error) => {
                        stopped = Some(error);
                        assert(text@ + Seq::<char>::empty() =~= text@);
                    },
                }
            }
            let lines = text_output(Sink::Stdout, text.as_str());
            outputs.push(lines);
            match stopped {
                Some(error) => {
                    let out = report(name, &error);
                    outputs.push(out);
                    assert(emissions(outputs@) =~= seq![lines@, out@]);
                },
                None => {
                    assert(text@ + Seq::<char>::empty() =~= text@);
                    assert(emissions(outputs@) =~= seq![lines@]);
                },
            }
        },
    }
    outputs
}

/// What a run writes for its first `n` inputs.
pub open spec fn run_emissions(config: Config, sources: Seq<Source>, n: nat) -> Seq<Emission>
    decreases n,
{
    if n == 0 {
        Seq::empty()
    } else {
        run_emissions(config, sources, (n - 1) as nat) + file_emissions(
            config,
            config.files@[n - 1]@,
            sources[n - 1],
        )
    }
}

/// Runs over all the inputs: `sources` holds, for each name of `config.files` in
/// turn, what became of that input.
pub fn run(config: &Config, sources: &Vec<Source>) -> (outputs: Vec<Output>)
    requires
        sources@.len() == config.files@.len(),
    ensures
        emissions(outputs@) == run_emissions(*config, sources@, sources@.len()),
{
    let mut outputs: Vec<Output> = Vec::new();
    let n: usize = sources.len();
    let mut i: usize = 0;
    assert(emissions(outputs@) =~= run_emissions(*config, sources@, 0));
    while i < n
        invariant
            n == sources@.len(),
            n == config.files@.len(),
            i <= n,
            emissions(outputs@) == run_emissions(*config, sources@, i as nat),
        decreases n - i,
    {
        let ghost before = outputs@;
        let mut more = process(config, config.files[i].as_str(), &sources[i]);
        let ghost added = more@;
        outputs.append(&mut more);
        i = i + 1;
        assert(emissions(outputs@) =~= emissions(before) + emissions(added));
    }
    outputs
}

} // verus!
