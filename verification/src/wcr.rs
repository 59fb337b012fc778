//! `wc`: the lines, words, bytes and characters of each input, and their totals.

pub mod args;

use crate::error::Error;
use crate::field::{right_align, right_aligned};
use crate::numeral::{decimal, decimal_string};
use crate::stream::{
    count_lines, emissions, failure, failure_text, is_stdin, lemma_increments_joined,
    lemma_line_count, lemma_line_count_bound, line_count, newline_count, stdin_name, text_output,
    written, Emission, Output, Sink, Source, LINE_FEED,
};
use crate::utf8::{
    decode, lemma_chars_fit_bytes, lemma_decode_ends_line, lemma_decode_joined, not_utf8,
    not_utf8_error,
};
pub use crate::wcr::args::Config;
use crate::words::{
    count_words, lemma_word_count_bound, lemma_word_count_joined, word_count, words,
};
use vstd::prelude::*;
use vstd::utf8::*;

verus! {

/// The width of the field that a count is written in.
pub const FIELD_WIDTH: usize = 8;

/// The counts of one input.
#[derive(Debug, PartialEq, Eq, Clone, Copy)]
pub struct FileInfo {
    pub num_lines: usize,
    pub num_words: usize,
    pub num_bytes: usize,
    pub num_chars: usize,
}

/// The counts of all the inputs that a run has counted so far.
#[derive(Debug, PartialEq, Eq, Clone, Copy)]
pub struct Total {
    pub lines: usize,
    pub words: usize,
    pub bytes: usize,
    pub chars: usize,
}

impl Total {
    /// The totals before any input is counted.
    pub fn new() -> (total: Total)
        ensures
            total@ == Metrics::zero(),
    {
        Total { lines: 0, words: 0, bytes: 0, chars: 0 }
    }

    /// Whether the totals can take the counts of one more input.
    pub fn has_room(&self, info: &FileInfo) -> (r: bool)
        ensures
            r == self@.plus(info@).fits(),
    {
        self.lines.checked_add(info.num_lines).is_some() && self.words.checked_add(
            info.num_words,
        ).is_some() && self.bytes.checked_add(info.num_bytes).is_some() && self.chars.checked_add(
            info.num_chars,
        ).is_some()
    }
}

/// Four counts as plain numbers.
pub struct Metrics {
    pub lines: nat,
    pub words: nat,
    pub bytes: nat,
    pub chars: nat,
}

impl Metrics {
    /// No input counted yet.
    pub open spec fn zero() -> Metrics {
        Metrics { lines: 0, words: 0, bytes: 0, chars: 0 }
    }

    /// The sum, count by count.
    pub open spec fn plus(self, other: Metrics) -> Metrics {
        Metrics {
            lines: self.lines + other.lines,
            words: self.words + other.words,
            bytes: self.bytes + other.bytes,
            chars: self.chars + other.chars,
        }
    }

    /// Whether each count can be held in a `usize`.
    pub open spec fn fits(self) -> bool {
        &&& self.lines <= usize::MAX
        &&& self.words <= usize::MAX
        &&& self.bytes <= usize::MAX
        &&& self.chars <= usize::MAX
    }
}

impl View for FileInfo {
    type V = Metrics;

    open spec fn view(&self) -> Metrics {
        Metrics {
            lines: self.num_lines as nat,
            words: self.num_words as nat,
            bytes: self.num_bytes as nat,
            chars: self.num_chars as nat,
        }
    }
}

impl View for Total {
    type V = Metrics;

    open spec fn view(&self) -> Metrics {
        Metrics {
            lines: self.lines as nat,
            words: self.words as nat,
            bytes: self.bytes as nat,
            chars: self.chars as nat,
        }
    }
}

/// The counts of an input that holds `bytes`, which are UTF-8: one line for each
/// increment, the words and the characters of the text that the bytes encode, and
/// the bytes themselves.
pub open spec fn measure(bytes: Seq<u8>) -> Metrics {
    Metrics {
        lines: line_count(bytes),
        words: word_count(decode_utf8(bytes)),
        bytes: bytes.len(),
        chars: decode_utf8(bytes).len(),
    }
}

/// None of the counts of an input exceeds the number of its bytes.
pub proof fn lemma_measure_bound(bytes: Seq<u8>)
    requires
        valid_utf8(bytes),
    ensures
        measure(bytes).lines <= bytes.len(),
        measure(bytes).words <= measure(bytes).chars,
        measure(bytes).chars <= bytes.len(),
{
    lemma_line_count_bound(bytes);
    lemma_word_count_bound(decode_utf8(bytes));
    decode_utf8_encode_utf8(bytes);
    lemma_chars_fit_bytes(decode_utf8(bytes));
}

/// An input that does not end with a line feed has one line more than it has line
/// feeds, unless it is empty and has none. It has as many bytes as it holds, and
/// as many words as its text.
pub proof fn lemma_counts(bytes: Seq<u8>)
    requires
        bytes.len() == 0 || bytes.last() != LINE_FEED,
    ensures
        measure(bytes).lines == if bytes.len() == 0 {
            0
        } else {
            1 + newline_count(bytes)
        },
        measure(bytes).bytes == bytes.len(),
        measure(bytes).words == words(decode_utf8(bytes)).len(),
{
    lemma_line_count(bytes);
}

/// An input that ends with a line feed has as many lines as line feeds.
pub proof fn lemma_counts_of_whole_lines(bytes: Seq<u8>)
    requires
        bytes.len() > 0,
        bytes.last() == LINE_FEED,
    ensures
        measure(bytes).lines == newline_count(bytes),
{
    lemma_line_count(bytes);
}

/// The counts of an input are the sums of the counts of its parts, where it is cut
/// after a line feed: it can be counted increment by increment.
pub proof fn lemma_measure_joined(a: Seq<u8>, b: Seq<u8>)
    requires
        valid_utf8(a),
        valid_utf8(b),
        a.len() == 0 || a.last() == LINE_FEED,
    ensures
        valid_utf8(a + b),
        measure(a + b) == measure(a).plus(measure(b)),
{
    lemma_increments_joined(a, b);
    lemma_decode_joined(a, b);
    if a.len() > 0 {
        lemma_decode_ends_line(a);
    }
    lemma_word_count_joined(decode_utf8(a), decode_utf8(b));
}

/// Counts the lines, words, bytes and characters of an input that holds `contents`.
/// Fails on bytes that are not UTF-8, as reading them into a text does.
pub fn count(contents: &[u8]) -> (r: Result<FileInfo, Error>)
    ensures
        r is Ok <==> valid_utf8(contents@),
        r matches Ok(info) ==> info@ == measure(contents@),
        r matches Err(e) ==> e is Read && e.message() == not_utf8(),
{
    let num_bytes: usize = contents.len();
    match decode(contents) {
        None => Err(not_utf8_error()),
        Some(text) => {
            let num_lines = count_lines(contents);
            let (num_chars, num_words) = count_words(text);
            Ok(FileInfo { num_lines, num_words, num_bytes, num_chars })
        },
    }
}

/// The field of one count: its decimal numeral, right-aligned in eight characters,
/// or nothing at all where the count is not shown.
pub open spec fn field(value: nat, show: bool) -> Seq<char> {
    if show {
        right_aligned(decimal(value), FIELD_WIDTH as nat)
    } else {
        Seq::empty()
    }
}

/// The fields of four counts in their fixed order: lines, words, bytes, characters.
pub open spec fn fields(counts: Metrics, config: Config) -> Seq<char> {
    field(counts.lines, config.lines) + field(counts.words, config.words) + field(
        counts.bytes,
        config.bytes,
    ) + field(counts.chars, config.chars)
}

/// What follows the fields of an input: a space and its name, or nothing for
/// standard input.
pub open spec fn name_text(name: Seq<char>) -> Seq<char> {
    if name == stdin_name() {
        Seq::empty()
    } else {
        seq![' '] + name
    }
}

/// The line of one input, without the line feed.
pub open spec fn row_text(counts: Metrics, config: Config, name: Seq<char>) -> Seq<char> {
    fields(counts, config) + name_text(name)
}

/// The line of the totals, without the line feed.
pub open spec fn total_text(counts: Metrics, config: Config) -> Seq<char> {
    fields(counts, config) + " total"@
}

/// Where no count is shown, the line of an input holds its name alone, after a
/// space, and the line of standard input holds nothing.
pub proof fn lemma_row_without_fields(counts: Metrics, config: Config, name: Seq<char>)
    requires
        !config.lines,
        !config.words,
        !config.bytes,
        !config.chars,
    ensures
        name == stdin_name() ==> row_text(counts, config, name) == Seq::<char>::empty(),
        name != stdin_name() ==> row_text(counts, config, name) == seq![' '] + name,
{
    assert(fields(counts, config) =~= Seq::<char>::empty());
    assert(row_text(counts, config, name) =~= name_text(name));
}

/// Writes one count as a field.
pub fn format_field(value: usize, show: bool) -> (r: String)
    ensures
        r@ == field(value as nat, show),
{
    if show {
        let numeral = decimal_string(value);
        right_align(numeral.as_str(), FIELD_WIDTH)
    } else {
        String::new()
    }
}

/// Appends the fields of the counts `total` to `line`.
fn push_fields(line: &mut String, total: &Total, config: &Config)
    ensures
        final(line)@ == old(line)@ + fields(total@, *config),
{
    let (lines, words, bytes, chars) = (total.lines, total.words, total.bytes, total.chars);
    let a = format_field(lines, config.lines);
    let b = format_field(words, config.words);
    let c = format_field(bytes, config.bytes);
    let d = format_field(chars, config.chars);
    line.append(a.as_str());
    line.append(b.as_str());
    line.append(c.as_str());
    line.append(d.as_str());
    assert(line@ =~= old(line)@ + fields(total@, *config));
}

/// Writes the line of the input `name`, whose counts are `info`, without the line feed.
pub fn format_row(info: &FileInfo, config: &Config, name: &str) -> (r: String)
    ensures
        r@ == row_text(info@, *config, name@),
{
    let mut line = String::new();
    let counts = Total {
        lines: info.num_lines,
        words: info.num_words,
        bytes: info.num_bytes,
        chars: info.num_chars,
    };
    push_fields(&mut line, &counts, config);
    if !is_stdin(name) {
        proof {
            reveal_strlit(" ");
        }
        line.append(" ");
        line.append(name);
    }
    assert(line@ =~= row_text(info@, *config, name@));
    line
}

/// Writes the line of the totals, without the line feed.
pub fn format_total(total: &Total, config: &Config) -> (r: String)
    ensures
        r@ == total_text(total@, *config),
{
    let mut line = String::new();
    push_fields(&mut line, total, config);
    line.append(" total");
    assert(line@ =~= total_text(total@, *config));
    line
}

/// Adds the counts of one input to the totals.
pub fn add_total(total: &mut Total, info: FileInfo)
    requires
        old(total)@.plus(info@).fits(),
    ensures
        final(total)@ == old(total)@.plus(info@),
{
    total.lines = total.lines + info.num_lines;
    total.words = total.words + info.num_words;
    total.bytes = total.bytes + info.num_bytes;
    total.chars = total.chars + info.num_chars;
}

/// What an input adds to the totals: its counts where it was read and is UTF-8,
/// nothing where it failed.
pub open spec fn counts_of(source: Source) -> Metrics {
    match source {
        Source::Data(data) => if valid_utf8(data@) {
            measure(data@)
        } else {
            Metrics::zero()
        },
        Source::Failed(_) => Metrics::zero(),
    }
}

/// What a run writes for the input `name`: its line on standard output, or in its
/// place the report of its failure on standard error.
pub open spec fn file_emission(config: Config, name: Seq<char>, source: Source) -> Emission {
    match source {
        Source::Data(data) => if valid_utf8(data@) {
            written(Sink::Stdout, row_text(measure(data@), config, name) + seq!['\n'])
        } else {
            written(Sink::Stderr, failure_text(name, not_utf8()))
        },
        Source::Failed(error) => written(Sink::Stderr, failure_text(name, error.message())),
    }
}

/// Processes the input `name`: gives what is to be written for it, and adds its
/// counts to the totals. Gives nothing, and leaves the totals as they are, where
/// they cannot hold the sum.
pub fn process(config: &Config, name: &str, source: &Source, total: &mut Total) -> (out: Option<
    Output,
>)
    ensures
        out is Some <==> old(total)@.plus(counts_of(*source)).fits(),
        out matches Some(o) ==> o@ == file_emission(*config, name@, *source) && final(total)@
            == old(total)@.plus(counts_of(*source)),
        out is None ==> *final(total) == *old(total),
{
    match source {
        Source::Failed(error) => Some(failure(name, error.as_str())),
        Source::Data(data) => {
            match count(data.as_slice()) {
                Err(error) => Some(failure(name, error.as_str())),
                Ok(info) => {
                    if !total.has_room(&info) {
                        return None;
                    }
                    add_total(total, info);
                    let mut row = format_row(&info, config, name);
                    proof {
                        reveal_strlit("\n");
                    }
                    row.append("\n");
                    assert(row@ =~= row_text(measure(data@), *config, name@) + seq!['\n']);
                    Some(text_output(Sink::Stdout, row.as_str()))
                },
            }
        },
    }
}

/// What a run writes after its last input: the line of the totals, where it has
/// more than one input.
pub open spec fn closing_emissions(config: Config, total: Metrics) -> Seq<Emission> {
    if config.files@.len() > 1 {
        seq![written(Sink::Stdout, total_text(total, config) + seq!['\n'])]
    } else {
        Seq::empty()
    }
}

/// The line of the totals, for a run of more than one input.
pub fn finish(config: &Config, total: &Total) -> (out: Option<Output>)
    ensures
        match out {
            Some(o) => closing_emissions(*config, total@) == seq![o@],
            None => closing_emissions(*config, total@) == Seq::<Emission>::empty(),
        },
{
    if config.files.len() > 1 {
        let mut row = format_total(total, config);
        proof {
            reveal_strlit("\n");
        }
        row.append("\n");
        assert(row@ =~= total_text(total@, *config) + seq!['\n']);
        Some(text_output(Sink::Stdout, row.as_str()))
    } else {
        None
    }
}

/// The totals after the first `n` inputs.
pub open spec fn total_after(sources: Seq<Source>, n: nat) -> Metrics
    decreases n,
{
    if n == 0 {
        Metrics::zero()
    } else {
        total_after(sources, (n - 1) as nat).plus(counts_of(sources[n - 1]))
    }
}

/// What a run writes for its first `n` inputs.
pub open spec fn file_emissions(config: Config, sources: Seq<Source>, n: nat) -> Seq<Emission>
    decreases n,
{
    if n == 0 {
        Seq::empty()
    } else {
        file_emissions(config, sources, (n - 1) as nat).push(
            file_emission(config, config.files@[n - 1]@, sources[n - 1]),
        )
    }
}

/// All that a run writes: for each input in turn its line or the report of its
/// failure, then the line of the totals where there is more than one input.
pub open spec fn run_emissions(config: Config, sources: Seq<Source>) -> Seq<Emission> {
    file_emissions(config, sources, sources.len()) + closing_emissions(
        config,
        total_after(sources, sources.len()),
    )
}

/// None of the totals exceeds the total of the bytes, and none shrinks as inputs
/// are added.
pub proof fn lemma_total_bound(sources: Seq<Source>, m: nat, n: nat)
    requires
        m <= n,
    ensures
        total_after(sources, m).lines <= total_after(sources, m).bytes,
        total_after(sources, m).words <= total_after(sources, m).bytes,
        total_after(sources, m).chars <= total_after(sources, m).bytes,
        total_after(sources, m).bytes <= total_after(sources, n).bytes,
    decreases n,
{
    if m < n {
        lemma_total_bound(sources, m, (n - 1) as nat);
    } else if m > 0 {
        lemma_total_bound(sources, (m - 1) as nat, (m - 1) as nat);
        if let Source::Data(data) = sources[m - 1] {
            if valid_utf8(data@) {
                lemma_measure_bound(data@);
            }
        }
    }
}

/// Runs over all the inputs: `sources` holds, for each name of `config.files` in
/// turn, what became of that input. The bytes of the inputs that are counted must
/// not be more than a `usize` can count.
pub fn run(config: &Config, sources: &Vec<Source>) -> (outputs: Vec<Output>)
    requires
        sources@.len() == config.files@.len(),
        total_after(sources@, sources@.len()).bytes <= usize::MAX,
    ensures
        emissions(outputs@) == run_emissions(*config, sources@),
{
    let mut outputs: Vec<Output> = Vec::new();
    let mut total = Total::new();
    let n: usize = sources.len();
    let mut i: usize = 0;
    assert(emissions(outputs@) =~= file_emissions(*config, sources@, 0));
    while i < n
        invariant
            n == sources@.len(),
            n == config.files@.len(),
            i <= n,
            total_after(sources@, n as nat).bytes <= usize::MAX,
            total@ == total_after(sources@, i as nat),
            emissions(outputs@) == file_emissions(*config, sources@, i as nat),
        decreases n - i,
    {
        proof {
            lemma_total_bound(sources@, (i + 1) as nat, n as nat);
        }
        let ghost before = outputs@;
        let out = process(config, config.files[i].as_str(), &sources[i], &mut total).unwrap();
        outputs.push(out);
        i = i + 1;
        assert(emissions(outputs@) =~= emissions(before).push(out@));
    }
    let ghost before = outputs@;
    match finish(config, &total) {
        Some(out) => {
            outputs.push(out);
            assert(emissions(outputs@) =~= emissions(before).push(out@));
            assert(emissions(outputs@) =~= run_emissions(*config, sources@));
        },
        None => {
            assert(emissions(outputs@) =~= run_emissions(*config, sources@));
        },
    }
    outputs
}

} // verus!
