//! The running sums of the counts of all texts.

use crate::args::Metric;
use crate::record::{in_column_order, pairs, value_of, File, FileView, Flag};
use vstd::prelude::*;

verus! {

/// The sum, over the records, of the values that they give for a metric.
pub open spec fn sum_of(files: Seq<FileView>, metric: Metric) -> nat
    decreases files.len(),
{
    if files.len() == 0 {
        0
    } else {
        sum_of(files.drop_last(), metric) + value_of(files.last().values, metric)
    }
}

/// One running sum for each metric. The sums are kept in 128 bits, which
/// hold the sum of as many counts as a machine word can number.
#[derive(Debug)]
pub struct Total {
    bytes: u128,
    chars: u128,
    lines: u128,
    words: u128,
    max_line_length: u128,
    records: usize,
}

impl Total {
    /// The running sum of a metric.
    pub closed spec fn sum(&self, metric: Metric) -> nat {
        match metric {
            Metric::Bytes => self.bytes as nat,
            Metric::Chars => self.chars as nat,
            Metric::Lines => self.lines as nat,
            Metric::Words => self.words as nat,
            Metric::MaxLineLength => self.max_line_length as nat,
        }
    }

    /// The number of records that were added.
    pub closed spec fn count(&self) -> nat {
        self.records as nat
    }

    /// Whether no sum is more than the records added can have given.
    pub open spec fn wf(&self) -> bool {
        forall|metric: Metric| #[trigger] self.sum(metric) <= self.count() * 0xFFFF_FFFF_FFFF_FFFF
    }

    /// The running sum of a metric.
    pub fn get(&self, metric: Metric) -> (sum: u128)
        ensures
            sum == self.sum(metric),
    {
        match metric {
            Metric::Bytes => self.bytes,
            Metric::Chars => self.chars,
            Metric::Lines => self.lines,
            Metric::Words => self.words,
            Metric::MaxLineLength => self.max_line_length,
        }
    }

    /// The number of records that were added.
    pub fn records(&self) -> (n: usize)
        ensures
            n == self.count(),
    {
        self.records
    }

    /// Adds each count of the record to the running sum of its metric.
    pub fn add(&mut self, file: &File)
        requires
            old(self).wf(),
            file.wf(),
            old(self).count() < usize::MAX,
        ensures
            final(self).wf(),
            final(self).count() == old(self).count() + 1,
            forall|metric: Metric|
                #[trigger] final(self).sum(metric) == old(self).sum(metric) + value_of(
                    file@.values,
                    metric,
                ),
    {
        let flags = file.flags();
        let ghost values = file@.values;
        let ghost start = *self;
        self.records = self.records + 1;
        let mut i: usize = 0;
        while i < flags.len()
            invariant
                i <= flags.len(),
                values == file@.values,
                values == pairs(flags@),
                file.wf(),
                start.wf(),
                start.count() < usize::MAX,
                self.count() == start.count() + 1,
                forall|metric: Metric|
                    #![trigger self.sum(metric)]
                    #![trigger value_of(values.take(i as int), metric)]
                    self.sum(metric) == start.sum(metric) + value_of(values.take(i as int), metric),
            decreases flags.len() - i,
        {
            let flag = flags[i];
            let ghost before = *self;
            let ghost next = values.take(i + 1);
            proof {
                assert(next.drop_last() == values.take(i as int));
                lemma_value_bound(next, flag.metric(), usize::MAX as nat);
                assert(self.sum(flag.metric()) + flag.amount() == start.sum(flag.metric())
                    + value_of(next, flag.metric()));
            }
            match flag {
                Flag::Bytes(n) => {
                    self.bytes = self.bytes + n as u128;
                },
                Flag::Chars(n) => {
                    self.chars = self.chars + n as u128;
                },
                Flag::Lines(n) => {
                    self.lines = self.lines + n as u128;
                },
                Flag::Words(n) => {
                    self.words = self.words + n as u128;
                },
                Flag::MaxLineLength(n) => {
                    self.max_line_length = self.max_line_length + n as u128;
                },
            }
            assert forall|metric: Metric|
                self.sum(metric) == start.sum(metric) + #[trigger] value_of(next, metric) by {
                assert(before.sum(metric) == start.sum(metric) + value_of(
                    values.take(i as int),
                    metric,
                ));
            }
            i = i + 1;
        }
        proof {
            assert(values.take(i as int) == values);
            assert forall|metric: Metric| #[trigger]
                self.sum(metric) <= self.count() * 0xFFFF_FFFF_FFFF_FFFF by {
                lemma_value_bound(values, metric, usize::MAX as nat);
            }
        }
    }
}

/// Sums that start at zero and take in one record after another are, for
/// each metric, the sum of the values that the records give for it.
pub proof fn lemma_sums_add_up(totals: Seq<Total>, files: Seq<FileView>, metric: Metric)
    requires
        totals.len() == files.len() + 1,
        totals[0].sum(metric) == 0,
        forall|i: int|
            0 <= i < files.len() ==> (#[trigger] totals[i + 1]).sum(metric) == totals[i].sum(
                metric,
            ) + value_of(files[i].values, metric),
    ensures
        totals.last().sum(metric) == sum_of(files, metric),
    decreases files.len(),
{
    if files.len() > 0 {
        lemma_sums_add_up(totals.drop_last(), files.drop_last(), metric);
    }
}

/// Where no record gives a value for a metric, the sum over the records is 0.
pub proof fn lemma_sum_of_nothing(files: Seq<FileView>, metric: Metric)
    requires
        forall|i: int| 0 <= i < files.len() ==> value_of((#[trigger] files[i]).values, metric) == 0,
    ensures
        sum_of(files, metric) == 0,
    decreases files.len(),
{
    if files.len() > 0 {
        lemma_sum_of_nothing(files.drop_last(), metric);
    }
}

/// No value of a record is more than the sum over all records for its metric.
pub proof fn lemma_value_within_sum(files: Seq<FileView>, i: int, j: int)
    requires
        0 <= i < files.len(),
        0 <= j < files[i].values.len(),
    ensures
        files[i].values[j].1 <= sum_of(files, files[i].values[j].0),
    decreases files.len(),
{
    if i == files.len() - 1 {
        lemma_value_includes(files[i].values, j);
    } else {
        lemma_value_within_sum(files.drop_last(), i, j);
    }
}

/// The value that pairs have for a metric is no less than each of their
/// values for it.
proof fn lemma_value_includes(values: Seq<(Metric, nat)>, j: int)
    requires
        0 <= j < values.len(),
    ensures
        values[j].1 <= value_of(values, values[j].0),
    decreases values.len(),
{
    if j < values.len() - 1 {
        lemma_value_includes(values.drop_last(), j);
    }
}

/// Pairs that give no value for a metric have the value 0 for it.
proof fn lemma_value_absent(values: Seq<(Metric, nat)>, metric: Metric)
    requires
        forall|i: int| 0 <= i < values.len() ==> (#[trigger] values[i]).0 != metric,
    ensures
        value_of(values, metric) == 0,
    decreases values.len(),
{
    if values.len() > 0 {
        lemma_value_absent(values.drop_last(), metric);
    }
}

/// Pairs in column order name each metric at most once: the value that they
/// have for a metric is within what bounds each of their values.
pub proof fn lemma_value_bound(values: Seq<(Metric, nat)>, metric: Metric, bound: nat)
    requires
        in_column_order(values),
        forall|i: int| 0 <= i < values.len() ==> (#[trigger] values[i]).1 <= bound,
    ensures
        value_of(values, metric) <= bound,
    decreases values.len(),
{
    if values.len() > 0 {
        let front = values.drop_last();
        lemma_value_bound(front, metric, bound);
        if values.last().0 == metric {
            lemma_value_absent(front, metric);
        }
    }
}

impl Default for Total {
    /// All sums at zero.
    fn default() -> (total: Total)
        ensures
            total.wf(),
            total.count() == 0,
            forall|metric: Metric| #[trigger] total.sum(metric) == 0,
    {
        Total { bytes: 0, chars: 0, lines: 0, words: 0, max_line_length: 0, records: 0 }
    }
}

} // verus!
