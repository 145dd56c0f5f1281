//! The counts of one text: which metrics were taken of it, and their values.

use crate::args::{all_metrics, Args, ArgsIter, Metric};
use crate::error::EmptyContentError;
use crate::metrics::{
    byte_count, bytes, chars, line_count, lines, longest_line, max_line_length, word_count, words,
};
use crate::total::Total;
use vstd::prelude::*;

verus! {

impl Metric {
    /// The value of the metric on a text.
    pub open spec fn measure(self, text: Seq<char>) -> nat {
        match self {
            Metric::Bytes => byte_count(text),
            Metric::Chars => text.len(),
            Metric::Lines => line_count(text),
            Metric::Words => word_count(text),
            Metric::MaxLineLength => longest_line(text),
        }
    }

    /// Whether the metric has no value on a text: only the longest line of an
    /// empty text has none.
    pub open spec fn undefined_on(self, text: Seq<char>) -> bool {
        self == Metric::MaxLineLength && text.len() == 0
    }

    /// Takes the metric of `content`.
    pub fn compute(self, content: &str) -> (r: Result<usize, EmptyContentError>)
        ensures
            r is Err <==> self.undefined_on(content@),
            r matches Ok(n) ==> n == self.measure(content@),
    {
        match self {
            Metric::Bytes => Ok(bytes(content)),
            Metric::Chars => Ok(chars(content)),
            Metric::Lines => Ok(lines(content)),
            Metric::Words => Ok(words(content)),
            Metric::MaxLineLength => max_line_length(content),
        }
    }
}

/// Taking a metric of the same text twice gives the same result.
pub proof fn lemma_compute_twice(
    metric: Metric,
    content: &str,
    first: Result<usize, EmptyContentError>,
    second: Result<usize, EmptyContentError>,
)
    requires
        call_ensures(Metric::compute, (metric, content), first),
        call_ensures(Metric::compute, (metric, content), second),
    ensures
        first == second,
{
    if first is Err {
        assert(first->Err_0 == second->Err_0);
    }
}

/// A count together with the metric that it is a count of.
#[derive(Debug, Clone, Copy, PartialEq, Eq, Structural)]
pub enum Flag {
    Bytes(usize),
    Chars(usize),
    Lines(usize),
    Words(usize),
    MaxLineLength(usize),
}

impl Flag {
    /// The metric that the count is of.
    pub open spec fn metric(self) -> Metric {
        match self {
            Flag::Bytes(_) => Metric::Bytes,
            Flag::Chars(_) => Metric::Chars,
            Flag::Lines(_) => Metric::Lines,
            Flag::Words(_) => Metric::Words,
            Flag::MaxLineLength(_) => Metric::MaxLineLength,
        }
    }

    /// The count.
    pub open spec fn amount(self) -> nat {
        match self {
            Flag::Bytes(n) => n as nat,
            Flag::Chars(n) => n as nat,
            Flag::Lines(n) => n as nat,
            Flag::Words(n) => n as nat,
            Flag::MaxLineLength(n) => n as nat,
        }
    }

    /// The metric and the count as a pair.
    pub open spec fn pair(self) -> (Metric, nat) {
        (self.metric(), self.amount())
    }

    /// Tags a count with its metric.
    pub fn new(metric: Metric, value: usize) -> (flag: Flag)
        ensures
            flag.metric() == metric,
            flag.amount() == value,
    {
        match metric {
            Metric::Bytes => Flag::Bytes(value),
            Metric::Chars => Flag::Chars(value),
            Metric::Lines => Flag::Lines(value),
            Metric::Words => Flag::Words(value),
            Metric::MaxLineLength => Flag::MaxLineLength(value),
        }
    }

    /// The metric that the count is of.
    pub fn kind(&self) -> (metric: Metric)
        ensures
            metric == self.metric(),
    {
        match self {
            Flag::Bytes(_) => Metric::Bytes,
            Flag::Chars(_) => Metric::Chars,
            Flag::Lines(_) => Metric::Lines,
            Flag::Words(_) => Metric::Words,
            Flag::MaxLineLength(_) => Metric::MaxLineLength,
        }
    }

    /// The count.
    pub fn value(&self) -> (n: usize)
        ensures
            n == self.amount(),
    {
        match self {
            Flag::Bytes(n) => *n,
            Flag::Chars(n) => *n,
            Flag::Lines(n) => *n,
            Flag::Words(n) => *n,
            Flag::MaxLineLength(n) => *n,
        }
    }
}

/// The counts of the first `k` metrics on a text, for those that are asked
/// for, in the order of their columns.
pub open spec fn counts_upto(args: Args, text: Seq<char>, k: int) -> Seq<(Metric, nat)>
    decreases k,
{
    if k <= 0 {
        Seq::empty()
    } else {
        let metric = all_metrics()[k - 1];
        let before = counts_upto(args, text, k - 1);
        if args.wants(metric) {
            before.push((metric, metric.measure(text)))
        } else {
            before
        }
    }
}

/// The counts of a text: for each metric that is asked for, the metric and
/// its value, in the order of their columns.
pub open spec fn counts(args: Args, text: Seq<char>) -> Seq<(Metric, nat)> {
    counts_upto(args, text, 5)
}

/// Whether the metrics of the pairs come in the order of their columns, each
/// at most once.
pub open spec fn in_column_order(values: Seq<(Metric, nat)>) -> bool {
    forall|i: int, j: int|
        0 <= i < j < values.len() ==> (#[trigger] values[i]).0.position() < (
        #[trigger] values[j]).0.position()
}

/// The value that the pairs give for a metric, 0 where they give none.
pub open spec fn value_of(values: Seq<(Metric, nat)>, metric: Metric) -> nat
    decreases values.len(),
{
    if values.len() == 0 {
        0
    } else {
        value_of(values.drop_last(), metric) + if values.last().0 == metric {
            values.last().1
        } else {
            0
        }
    }
}

/// The counts of the first `k` metrics name none of the later ones, stand in
/// the order of their columns, and give for each of the first `k` metrics
/// its value on the text if it is asked for, and else 0.
proof fn lemma_counts_upto(args: Args, text: Seq<char>, k: int, metric: Metric)
    requires
        0 <= k <= 5,
    ensures
        forall|i: int|
            0 <= i < counts_upto(args, text, k).len() ==> (#[trigger] counts_upto(
                args,
                text,
                k,
            )[i]).0.position() < k,
        in_column_order(counts_upto(args, text, k)),
        value_of(counts_upto(args, text, k), metric) == if args.wants(metric) && metric.position()
            < k {
            metric.measure(text)
        } else {
            0
        },
    decreases k,
{
    if k > 0 {
        lemma_counts_upto(args, text, k - 1, metric);
        let before = counts_upto(args, text, k - 1);
        let last = all_metrics()[k - 1];
        if args.wants(last) {
            let pair = (last, last.measure(text));
            assert(before.push(pair).drop_last() == before);
        }
    }
}

/// The counts of a text stand in the order of their columns, and give for
/// each metric its value on the text if it is asked for, and else 0.
pub proof fn lemma_counts(args: Args, text: Seq<char>, metric: Metric)
    ensures
        in_column_order(counts(args, text)),
        value_of(counts(args, text), metric) == if args.wants(metric) {
            metric.measure(text)
        } else {
            0
        },
{
    lemma_counts_upto(args, text, 5, metric);
}

/// The counts as pairs, each of its metric and its value.
pub open spec fn pairs(flags: Seq<Flag>) -> Seq<(Metric, nat)> {
    flags.map_values(|flag: Flag| flag.pair())
}

/// Whether the pairs are the counts of some text.
pub open spec fn is_counts(values: Seq<(Metric, nat)>, args: Args) -> bool {
    exists|text: Seq<char>| values == #[trigger] counts(args, text)
}

/// What a record holds: the name of the text and its counts.
pub struct FileView {
    pub name: Seq<char>,
    pub values: Seq<(Metric, nat)>,
}

impl FileView {
    /// Whether the counts stand in the order of their columns, and each fits
    /// a machine word.
    pub open spec fn wf(self) -> bool {
        &&& in_column_order(self.values)
        &&& forall|i: int|
            0 <= i < self.values.len() ==> (#[trigger] self.values[i]).1 <= usize::MAX
    }
}

/// The record of one text: its name and its counts.
#[derive(Debug)]
pub struct File {
    name: String,
    flags: Vec<Flag>,
}

impl View for File {
    type V = FileView;

    closed spec fn view(&self) -> FileView {
        FileView { name: self.name@, values: pairs(self.flags@) }
    }
}

impl File {
    /// Whether the counts stand in the order of their columns, and each fits
    /// a machine word.
    pub open spec fn wf(&self) -> bool {
        self@.wf()
    }

    /// A record without counts.
    pub fn new(name: &str) -> (file: Self)
        ensures
            file@.name == name@,
            file@.values.len() == 0,
            file.wf(),
    {
        File { name: name.to_owned(), flags: Vec::new() }
    }

    /// The name of the text.
    pub fn name(&self) -> (name: &str)
        ensures
            name@ == self@.name,
    {
        self.name.as_str()
    }

    /// The counts.
    pub fn flags(&self) -> (flags: &Vec<Flag>)
        ensures
            pairs(flags@) == self@.values,
    {
        &self.flags
    }

    /// Takes of `content` the metrics that are asked for. The longest line of
    /// an empty text cannot be taken.
    pub fn measure(name: &str, content: &str, args: &Args) -> (r: Result<File, EmptyContentError>)
        ensures
            r is Err <==> args.max_line_length && content@.len() == 0,
            r matches Ok(file) ==> file@.name == name@ && file@.values == counts(
                *args,
                content@,
            ) && file.wf(),
    {
        let mut file = File::new(name);
        let mut iter = ArgsIter::new(args);
        loop
            invariant
                iter.args() == args,
                iter.index() <= 5,
                file@.name == name@,
                file@.values == counts_upto(*args, content@, iter.index() as int),
                file.wf(),
                forall|i: int|
                    0 <= i < file@.values.len() ==> (#[trigger] file@.values[i]).0.position()
                        < iter.index(),
                args.max_line_length && content@.len() == 0 ==> iter.index() < 5,
            decreases 5 - iter.index(),
        {
            let ghost before = file@.values;
            match iter.next() {
                None => {
                    return Ok(file);
                },
                Some((metric, found)) => {
                    if found {
                        match metric.compute(content) {
                            Ok(value) => {
                                file.flags.push(Flag::new(metric, value));
                                assert(file@.values == before.push((metric, value as nat)));
                            },
                            Err(e) => {
                                return Err(e);
                            },
                        }
                    }
                },
            }
        }
    }

    /// Takes of `content` the metrics that are asked for, and adds each
    /// count to the running sum of its metric. Where the longest line is
    /// asked of an empty text, nothing is added.
    pub fn accumulate(
        name: &str,
        content: &str,
        args: &Args,
        total: &mut Total,
    ) -> (r: Result<File, EmptyContentError>)
        requires
            old(total).wf(),
            old(total).count() < usize::MAX,
        ensures
            final(total).wf(),
            r is Err <==> args.max_line_length && content@.len() == 0,
            r is Err ==> *final(total) == *old(total),
            r matches Ok(file) ==> {
                &&& file.wf()
                &&& file@.name == name@
                &&& file@.values == counts(*args, content@)
                &&& final(total).count() == old(total).count() + 1
                &&& forall|metric: Metric| #[trigger]
                    final(total).sum(metric) == old(total).sum(metric) + value_of(
                        file@.values,
                        metric,
                    )
            },
    {
        match File::measure(name, content, args) {
            Ok(file) => {
                total.add(&file);
                Ok(file)
            },
            Err(e) => Err(e),
        }
    }
}

} // verus!
