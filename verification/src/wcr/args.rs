//! What a run of `wc` is asked to do.

use crate::error::Error;
use crate::stream::{inputs_or_stdin, names, stdin_name};
use vstd::prelude::*;

verus! {

/// What to count, and in which inputs.
#[derive(Debug)]
pub struct Config {
    /// The names of the inputs, in the order in which they are processed.
    pub files: Vec<String>,
    /// Whether the number of lines is shown.
    pub lines: bool,
    /// Whether the number of words is shown.
    pub words: bool,
    /// Whether the number of bytes is shown.
    pub bytes: bool,
    /// Whether the number of characters is shown.
    pub chars: bool,
}

/// What is said of showing both bytes and characters.
pub open spec fn conflict_text() -> Seq<char> {
    "the argument '--bytes' cannot be used with '--chars'"@
}

impl Config {
    /// Whether a run can start from this configuration: it names an input, shows
    /// a count, and does not show both bytes and characters.
    pub open spec fn wf(self) -> bool {
        &&& self.files@.len() > 0
        &&& (self.lines || self.words || self.bytes || self.chars)
        &&& !(self.bytes && self.chars)
    }

    /// The configuration of a run from what the user asked for. Bytes and characters
    /// exclude each other. Where no count is asked for, lines, words and bytes are
    /// shown. Where no input is named, standard input is read.
    pub fn new(files: Vec<String>, lines: bool, words: bool, bytes: bool, chars: bool) -> (r:
        Result<Config, Error>)
        ensures
            r is Ok <==> !(bytes && chars),
            r matches Ok(config) ==> {
                &&& config.wf()
                &&& files@.len() > 0 ==> config.files == files
                &&& files@.len() == 0 ==> names(config.files@) == seq![stdin_name()]
                &&& config.chars == chars
                &&& if lines || words || bytes || chars {
                    config.lines == lines && config.words == words && config.bytes == bytes
                } else {
                    config.lines && config.words && config.bytes
                }
            },
            r matches Err(e) ==> e is Configuration && e.message() == conflict_text(),
    {
        if bytes && chars {
            return Err(
                Error::Configuration(
                    String::from_str("the argument '--bytes' cannot be used with '--chars'"),
                ),
            );
        }
        let inputs = inputs_or_stdin(files);
        if lines || words || bytes || chars {
            Ok(Config { files: inputs, lines, words, bytes, chars })
        } else {
            Ok(Config { files: inputs, lines: true, words: true, bytes: true, chars: false })
        }
    }
}

} // verus!
