//! Which counts are reported, and in what order.

use vstd::prelude::*;
use crate::wc::counts::Counts;

verus! {

/// Which counts to report.
#[derive(Clone, Copy, Debug, PartialEq, Eq, Structural)]
pub struct Config {
    /// Report the lines.
    pub lines: bool,
    /// Report the words.
    pub words: bool,
    /// Report the bytes.
    pub bytes: bool,
    /// Report the characters.
    pub chars: bool,
}

/// One count, where it is selected, else nothing.
pub open spec fn column(selected: bool, count: usize) -> Seq<usize> {
    if selected {
        seq![count]
    } else {
        Seq::empty()
    }
}

/// The counts that are reported: of lines, words, bytes and characters, in
/// that order, those that `config` selects.
pub open spec fn spec_columns(counts: Counts, config: Config) -> Seq<usize> {
    column(config.lines, counts.lines) + column(config.words, counts.words) + column(
        config.bytes,
        counts.bytes,
    ) + column(config.chars, counts.chars)
}

impl Config {
    /// The selection that the four switches make. Where none of them is set,
    /// lines, words and bytes are selected.
    pub open spec fn spec_from_flags(lines: bool, words: bool, bytes: bool, chars: bool) -> Config {
        if !lines && !words && !bytes && !chars {
            Config { lines: true, words: true, bytes: true, chars: false }
        } else {
            Config { lines, words, bytes, chars }
        }
    }

    /// The selection that the four switches make.
    pub fn from_flags(lines: bool, words: bool, bytes: bool, chars: bool) -> (config: Config)
        ensures
            config == Config::spec_from_flags(lines, words, bytes, chars),
            config.lines || config.words || config.bytes || config.chars,
    {
        if !lines && !words && !bytes && !chars {
            Config { lines: true, words: true, bytes: true, chars: false }
        } else {
            Config { lines, words, bytes, chars }
        }
    }
}

/// The counts to report for one input, in the order in which they are reported.
pub fn columns(counts: &Counts, config: &Config) -> (selected: Vec<usize>)
    ensures
        selected@ == spec_columns(*counts, *config),
{
    let mut selected: Vec<usize> = Vec::new();
    if config.lines {
        selected.push(counts.lines);
    }
    if config.words {
        selected.push(counts.words);
    }
    if config.bytes {
        selected.push(counts.bytes);
    }
    if config.chars {
        selected.push(counts.chars);
    }
    assert(selected@ =~= spec_columns(*counts, *config));
    selected
}

} // verus!
