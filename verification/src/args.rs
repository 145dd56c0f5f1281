//! The configuration of a run: which metrics are wanted, when the row of
//! totals is shown, and the texts to count.

use vstd::prelude::*;
use vstd::utf8::{encode_utf8, encode_utf8_decode_utf8};

verus! {

/// One of the five things that are counted, in the order of their columns.
#[derive(Debug, Clone, Copy, PartialEq, Eq, Structural)]
pub enum Metric {
    Bytes,
    Chars,
    Lines,
    Words,
    MaxLineLength,
}

/// The five metrics in the order of their columns.
pub open spec fn all_metrics() -> Seq<Metric> {
    seq![Metric::Bytes, Metric::Chars, Metric::Lines, Metric::Words, Metric::MaxLineLength]
}

impl Metric {
    /// The place of the metric among the columns, from 0.
    pub open spec fn position(self) -> int {
        match self {
            Metric::Bytes => 0,
            Metric::Chars => 1,
            Metric::Lines => 2,
            Metric::Words => 3,
            Metric::MaxLineLength => 4,
        }
    }

    /// The metric at a place among the columns.
    pub fn at(index: usize) -> (m: Option<Metric>)
        ensures
            index < 5 ==> m == Some(all_metrics()[index as int]),
            index >= 5 ==> m is None,
            m matches Some(metric) ==> metric.position() == index,
    {
        match index {
            0 => Some(Metric::Bytes),
            1 => Some(Metric::Chars),
            2 => Some(Metric::Lines),
            3 => Some(Metric::Words),
            4 => Some(Metric::MaxLineLength),
            _ => None,
        }
    }
}

/// When the row of totals is shown.
#[derive(Debug, Clone, Copy, PartialEq, Eq, Structural)]
pub enum TotalMode {
    Auto,
    Always,
    Never,
    Only,
}

/// Whether two strings hold the same characters.
fn same_text(a: &str, b: &str) -> (same: bool)
    ensures
        same == (a@ == b@),
{
    let x = a.as_bytes();
    let y = b.as_bytes();
    proof {
        encode_utf8_decode_utf8(a@);
        encode_utf8_decode_utf8(b@);
    }
    if x.len() != y.len() {
        return false;
    }
    let mut i: usize = 0;
    while i < x.len()
        invariant
            x@ == encode_utf8(a@),
            y@ == encode_utf8(b@),
            x.len() == y.len(),
            i <= x.len(),
            forall|j: int| 0 <= j < i ==> x@[j] == y@[j],
        decreases x.len() - i,
    {
        if x[i] != y[i] {
            return false;
        }
        i = i + 1;
    }
    assert(x@ =~= y@);
    true
}

impl TotalMode {
    /// The name of the mode, as it is written on the command line.
    pub open spec fn name(self) -> Seq<char> {
        match self {
            TotalMode::Auto => "auto"@,
            TotalMode::Always => "always"@,
            TotalMode::Never => "never"@,
            TotalMode::Only => "only"@,
        }
    }

    /// Whether the row of totals is shown after `files` texts were counted:
    /// always under `only`, never under `never`, and else where there was
    /// more than one text.
    pub open spec fn shows_total(self, files: nat) -> bool {
        match self {
            TotalMode::Only => true,
            TotalMode::Never => false,
            TotalMode::Auto | TotalMode::Always => files > 1,
        }
    }

    /// Whether the rows of the single texts are shown: under every mode but
    /// `only`.
    pub open spec fn shows_files(self) -> bool {
        self != TotalMode::Only
    }

    /// Decides whether the row of totals is shown after `files` texts.
    pub fn total_shown(self, files: usize) -> (shown: bool)
        ensures
            shown == self.shows_total(files as nat),
    {
        match self {
            TotalMode::Only => true,
            TotalMode::Never => false,
            TotalMode::Auto | TotalMode::Always => files > 1,
        }
    }

    /// Decides whether the rows of the single texts are shown.
    pub fn files_shown(self) -> (shown: bool)
        ensures
            shown == self.shows_files(),
    {
        match self {
            TotalMode::Only => false,
            _ => true,
        }
    }

    /// The mode of the given name, if it names one.
    pub fn parse(name: &str) -> (mode: Option<TotalMode>)
        ensures
            mode matches Some(m) ==> m.name() == name@,
            mode is None ==> forall|m: TotalMode| m.name() != name@,
    {
        if same_text(name, "auto") {
            Some(TotalMode::Auto)
        } else if same_text(name, "always") {
            Some(TotalMode::Always)
        } else if same_text(name, "never") {
            Some(TotalMode::Never)
        } else if same_text(name, "only") {
            Some(TotalMode::Only)
        } else {
            None
        }
    }
}

/// The configuration of a run.
#[derive(Debug)]
pub struct Args {
    /// Count the bytes.
    pub bytes: bool,
    /// Count the characters.
    pub chars: bool,
    /// Count the lines.
    pub lines: bool,
    /// Count the words.
    pub words: bool,
    /// Measure the longest line.
    pub max_line_length: bool,
    /// When to show the row of totals.
    pub total: TotalMode,
    /// The files to read; with none, standard input is read.
    pub file_name: Vec<String>,
}

impl Args {
    /// Whether the metric is asked for.
    pub open spec fn wants(&self, metric: Metric) -> bool {
        match metric {
            Metric::Bytes => self.bytes,
            Metric::Chars => self.chars,
            Metric::Lines => self.lines,
            Metric::Words => self.words,
            Metric::MaxLineLength => self.max_line_length,
        }
    }

    /// Whether no metric at all is asked for.
    pub open spec fn wants_nothing(&self) -> bool {
        !self.bytes && !self.chars && !self.lines && !self.words && !self.max_line_length
    }

    /// The configuration that is in force: where no metric is asked for,
    /// bytes, lines and words are counted.
    pub open spec fn resolved(self) -> Args {
        if self.wants_nothing() {
            Args { bytes: true, lines: true, words: true, ..self }
        } else {
            self
        }
    }

    /// Whether the metric is asked for.
    pub fn enabled(&self, metric: Metric) -> (b: bool)
        ensures
            b == self.wants(metric),
    {
        match metric {
            Metric::Bytes => self.bytes,
            Metric::Chars => self.chars,
            Metric::Lines => self.lines,
            Metric::Words => self.words,
            Metric::MaxLineLength => self.max_line_length,
        }
    }

    /// Puts the default metrics in place where none is asked for.
    pub fn resolve(&mut self)
        ensures
            *final(self) == old(self).resolved(),
            !final(self).wants_nothing(),
    {
        if !self.bytes && !self.chars && !self.lines && !self.words && !self.max_line_length {
            self.bytes = true;
            self.lines = true;
            self.words = true;
        }
    }
}

/// Walks the five metrics in the order of their columns, and says of each
/// whether it is asked for.
#[derive(Clone, Copy)]
pub struct ArgsIter<'a> {
    args: &'a Args,
    index: usize,
}

impl<'a> ArgsIter<'a> {
    /// The configuration that is walked.
    pub closed spec fn args(&self) -> &'a Args {
        self.args
    }

    /// The number of metrics that were handed out.
    pub closed spec fn index(&self) -> nat {
        self.index as nat
    }

    /// Starts at the first metric.
    pub fn new(args: &'a Args) -> (iter: Self)
        ensures
            iter.args() == args,
            iter.index() == 0,
    {
        ArgsIter { args, index: 0 }
    }

    /// Hands out the next metric with its flag, or `None` after the fifth.
    pub fn next(&mut self) -> (item: Option<(Metric, bool)>)
        ensures
            final(self).args() == old(self).args(),
            old(self).index() < 5 ==> final(self).index() == old(self).index() + 1 && item == Some(
                (
                    all_metrics()[old(self).index() as int],
                    old(self).args().wants(all_metrics()[old(self).index() as int]),
                ),
            ),
            old(self).index() >= 5 ==> final(self).index() == old(self).index() && item is None,
    {
        match Metric::at(self.index) {
            Some(metric) => {
                self.index = self.index + 1;
                Some((metric, self.args.enabled(metric)))
            },
            None => None,
        }
    }
}

} // verus!
