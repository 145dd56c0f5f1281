//! Laying the counts out as text: decimal numbers, right-aligned in columns.

use crate::args::{all_metrics, Args, ArgsIter, Metric};
use crate::error::EmptyContentError;
use crate::record::{counts, pairs, File, FileView};
use crate::total::Total;
use vstd::prelude::*;
use vstd::string::StringExecFns;

verus! {

/// The character of a decimal digit.
pub open spec fn digit(d: nat) -> char {
    seq!['0', '1', '2', '3', '4', '5', '6', '7', '8', '9'][d as int]
}

/// The decimal digits of a number, the most significant first.
pub open spec fn decimal(n: nat) -> Seq<char>
    decreases n,
{
    if n < 10 {
        seq![digit(n)]
    } else {
        decimal(n / 10).push(digit(n % 10))
    }
}

/// As many spaces as `count` says, none where it is negative.
pub open spec fn spaces(count: int) -> Seq<char> {
    Seq::new(
        if count > 0 {
            count as nat
        } else {
            0
        },
        |i: int| ' ',
    )
}

/// A column: the number in decimal, with spaces before it where it has
/// fewer digits than the column is wide, and one space after it.
pub open spec fn column(value: nat, width: nat) -> Seq<char> {
    spaces(width - decimal(value).len()) + decimal(value) + seq![' ']
}

/// A number has one digit more than its tenth, from 10 on.
proof fn lemma_decimal_len(n: nat)
    ensures
        decimal(n).len() == if n < 10 {
            1
        } else {
            decimal(n / 10).len() + 1
        },
        decimal(n).len() >= 1,
{
}

/// A number has no more digits than a greater one.
pub proof fn lemma_decimal_len_monotonic(a: nat, b: nat)
    requires
        a <= b,
    ensures
        decimal(a).len() <= decimal(b).len(),
    decreases b,
{
    lemma_decimal_len(a);
    lemma_decimal_len(b);
    if a >= 10 {
        lemma_decimal_len_monotonic(a / 10, b / 10);
    }
}

/// A column that is as wide as a sum has digits holds each value that the
/// sum includes in exactly that width, before the space that ends it.
pub proof fn lemma_column_width(value: nat, total: nat)
    requires
        value <= total,
    ensures
        decimal(value).len() <= decimal(total).len(),
        column(value, decimal(total).len()).len() == decimal(total).len() + 1,
        column(value, decimal(total).len()).last() == ' ',
{
    lemma_decimal_len_monotonic(value, total);
}

/// The digit `d` as text.
fn digit_str(d: u8) -> (s: &'static str)
    requires
        d < 10,
    ensures
        s@ == seq![digit(d as nat)],
{
    proof {
        reveal_strlit("0");
        reveal_strlit("1");
        reveal_strlit("2");
        reveal_strlit("3");
        reveal_strlit("4");
        reveal_strlit("5");
        reveal_strlit("6");
        reveal_strlit("7");
        reveal_strlit("8");
        reveal_strlit("9");
    }
    match d {
        0 => "0",
        1 => "1",
        2 => "2",
        3 => "3",
        4 => "4",
        5 => "5",
        6 => "6",
        7 => "7",
        8 => "8",
        _ => "9",
    }
}

/// Appends the decimal digits of `n` to `out`.
fn push_decimal(out: &mut String, n: u128)
    ensures
        final(out)@ == old(out)@ + decimal(n as nat),
    decreases n,
{
    if n >= 10 {
        push_decimal(out, n / 10);
    }
    out.append(digit_str((n % 10) as u8));
}

/// The number of decimal digits of a number.
spec fn digits(n: nat) -> nat
    decreases n,
{
    if n < 10 {
        1
    } else {
        digits(n / 10) + 1
    }
}

/// A number is written with as many characters as it has digits.
proof fn lemma_digits(n: nat)
    ensures
        decimal(n).len() == digits(n),
    decreases n,
{
    if n >= 10 {
        lemma_digits(n / 10);
    }
}

/// A number of 128 bits has at most 39 digits.
proof fn lemma_decimal_len_bound(n: nat)
    requires
        n <= u128::MAX,
    ensures
        decimal(n).len() <= 39,
{
    lemma_decimal_len_monotonic(n, u128::MAX as nat);
    lemma_digits(u128::MAX as nat);
    assert(digits(0xFFFF_FFFF_FFFF_FFFF_FFFF_FFFF_FFFF_FFFF) == 39) by {
        reveal_with_fuel(digits, 40);
    }
}

/// The number of decimal digits of `n`.
pub fn digit_count(n: u128) -> (count: usize)
    ensures
        count == decimal(n as nat).len(),
{
    let mut rest = n;
    let mut count: usize = 1;
    proof {
        lemma_decimal_len_bound(n as nat);
    }
    while rest >= 10
        invariant
            decimal(n as nat).len() <= 39,
            decimal(n as nat).len() == decimal(rest as nat).len() + count - 1,
        decreases rest,
    {
        proof {
            lemma_decimal_len(rest as nat);
            lemma_decimal_len((rest / 10) as nat);
        }
        rest = rest / 10;
        count = count + 1;
    }
    proof {
        lemma_decimal_len(rest as nat);
    }
    count
}

/// Lays `val` out in a column of the given width: right-aligned, with one
/// space after it. A number with more digits than that is written in full.
pub fn print_with_width(val: u128, width: usize) -> (text: String)
    ensures
        text@ == column(val as nat, width as nat),
{
    let len = digit_count(val);
    let padding = if width > len {
        width - len
    } else {
        0
    };
    let mut text = String::new();
    let mut pad: usize = 0;
    while pad < padding
        invariant
            pad <= padding,
            text@ == spaces(pad as int),
        decreases padding - pad,
    {
        proof {
            reveal_strlit(" ");
        }
        text.append(" ");
        pad = pad + 1;
    }
    push_decimal(&mut text, val);
    proof {
        reveal_strlit(" ");
    }
    text.append(" ");
    text
}

/// The columns of a record: each count in a column as wide as the running sum
/// of its metric has digits.
pub open spec fn aligned_columns(values: Seq<(Metric, nat)>, total: Total) -> Seq<char>
    decreases values.len(),
{
    if values.len() == 0 {
        Seq::empty()
    } else {
        aligned_columns(values.drop_last(), total) + column(
            values.last().1,
            decimal(total.sum(values.last().0)).len(),
        )
    }
}

/// The row of a record: its columns, then its name.
pub open spec fn file_row(file: FileView, total: Total) -> Seq<char> {
    aligned_columns(file.values, total) + file.name
}

/// Columns that are each as wide as their own number.
pub open spec fn plain_columns(values: Seq<(Metric, nat)>) -> Seq<char>
    decreases values.len(),
{
    if values.len() == 0 {
        Seq::empty()
    } else {
        plain_columns(values.drop_last()) + column(
            values.last().1,
            decimal(values.last().1).len(),
        )
    }
}

/// The running sums of the first `k` metrics, for those that are asked for,
/// in the order of their columns.
pub open spec fn sums_upto(args: Args, total: Total, k: int) -> Seq<(Metric, nat)>
    decreases k,
{
    if k <= 0 {
        Seq::empty()
    } else {
        let metric = all_metrics()[k - 1];
        let before = sums_upto(args, total, k - 1);
        if args.wants(metric) {
            before.push((metric, total.sum(metric)))
        } else {
            before
        }
    }
}

/// The row of totals: the running sum of each metric that is asked for, then
/// the word `total`.
pub open spec fn total_row(args: Args, total: Total) -> Seq<char> {
    plain_columns(sums_upto(args, total, 5)) + "total"@
}

impl File {
    /// The row of the record, its columns aligned to the running sums.
    pub fn print_flags(&self, total: &Total) -> (row: String)
        ensures
            row@ == file_row(self@, *total),
    {
        let flags = self.flags();
        let ghost values = self@.values;
        let mut row = String::new();
        let mut i: usize = 0;
        while i < flags.len()
            invariant
                i <= flags.len(),
                values == pairs(flags@),
                row@ == aligned_columns(values.take(i as int), *total),
            decreases flags.len() - i,
        {
            let flag = flags[i];
            let width = digit_count(total.get(flag.kind()));
            let text = print_with_width(flag.value() as u128, width);
            row.append(text.as_str());
            proof {
                let next = values.take(i + 1);
                assert(next.drop_last() == values.take(i as int));
            }
            i = i + 1;
        }
        assert(values.take(i as int) == values);
        row.append(self.name());
        row
    }
}

/// The row of totals.
pub fn print_total(total: &Total, args: &Args) -> (row: String)
    ensures
        row@ == total_row(*args, *total),
{
    let mut row = String::new();
    let mut iter = ArgsIter::new(args);
    loop
        invariant
            iter.args() == args,
            iter.index() <= 5,
            row@ == plain_columns(sums_upto(*args, *total, iter.index() as int)),
        decreases 5 - iter.index(),
    {
        let ghost before = sums_upto(*args, *total, iter.index() as int);
        match iter.next() {
            None => {
                row.append("total");
                return row;
            },
            Some((metric, found)) => {
                if found {
                    let value = total.get(metric);
                    let text = print_with_width(value, digit_count(value));
                    row.append(text.as_str());
                    assert(before.push((metric, value as nat)).drop_last() == before);
                }
            },
        }
    }
}

/// The counts of a text that came from standard input: each metric that is
/// asked for, in a column as wide as its own number. The longest line of an
/// empty text cannot be taken.
pub fn read_from_standard_input(
    args: &Args,
    content: &str,
) -> (r: Result<String, EmptyContentError>)
    ensures
        r is Err <==> args.max_line_length && content@.len() == 0,
        r matches Ok(text) ==> text@ == plain_columns(counts(*args, content@)),
{
    let file = match File::measure("", content, args) {
        Ok(file) => file,
        Err(e) => {
            return Err(e);
        },
    };
    let flags = file.flags();
    let ghost values = file@.values;
    let mut text = String::new();
    let mut i: usize = 0;
    while i < flags.len()
        invariant
            i <= flags.len(),
            values == pairs(flags@),
            text@ == plain_columns(values.take(i as int)),
        decreases flags.len() - i,
    {
        let value = flags[i].value() as u128;
        let column = print_with_width(value, digit_count(value));
        text.append(column.as_str());
        proof {
            let next = values.take(i + 1);
            assert(next.drop_last() == values.take(i as int));
        }
        i = i + 1;
    }
    assert(values.take(i as int) == values);
    Ok(text)
}

/// What a list of records holds.
pub open spec fn views(files: Seq<File>) -> Seq<FileView> {
    files.map_values(|file: File| file@)
}

/// What a list of strings holds.
pub open spec fn texts(rows: Seq<String>) -> Seq<Seq<char>> {
    rows.map_values(|row: String| row@)
}

/// The row of each record in turn.
pub open spec fn file_rows(files: Seq<FileView>, total: Total) -> Seq<Seq<char>> {
    Seq::new(files.len(), |i: int| file_row(files[i], total))
}

/// The rows that are shown of a run over several texts: the row of each
/// record in turn, unless the mode is `only`, and then the row of totals
/// where the mode shows it.
pub open spec fn rendered(args: Args, files: Seq<FileView>, total: Total) -> Seq<Seq<char>> {
    let rows = if args.total.shows_files() {
        file_rows(files, total)
    } else {
        Seq::empty()
    };
    if args.total.shows_total(files.len()) {
        rows.push(total_row(args, total))
    } else {
        rows
    }
}

/// Renders the rows of a run over several texts.
pub fn render(args: &Args, files: &Vec<File>, total: &Total) -> (rows: Vec<String>)
    ensures
        texts(rows@) == rendered(*args, views(files@), *total),
{
    let mut rows: Vec<String> = Vec::new();
    if args.total.files_shown() {
        let mut i: usize = 0;
        while i < files.len()
            invariant
                i <= files.len(),
                rows.len() == i,
                texts(rows@) == file_rows(views(files@).take(i as int), *total),
            decreases files.len() - i,
        {
            let ghost shown = rows@;
            let row = files[i].print_flags(total);
            rows.push(row);
            proof {
                let next = file_rows(views(files@).take(i + 1), *total);
                assert forall|j: int| 0 <= j < i + 1 implies texts(rows@)[j] == next[j] by {
                    if j < i {
                        assert(texts(shown)[j] == file_rows(
                            views(files@).take(i as int),
                            *total,
                        )[j]);
                    }
                }
                assert(texts(rows@) =~= next);
            }
            i = i + 1;
        }
    }
    if args.total.total_shown(files.len()) {
        let ghost before = texts(rows@);
        rows.push(print_total(total, args));
        assert(texts(rows@) =~= before.push(total_row(*args, *total)));
    }
    rows
}

/// The rows as one text, a line feed after each.
pub open spec fn lines_text(rows: Seq<Seq<char>>) -> Seq<char>
    decreases rows.len(),
{
    if rows.len() == 0 {
        Seq::empty()
    } else {
        lines_text(rows.drop_last()) + rows.last() + seq!['\n']
    }
}

/// Joins the rows into one text, a line feed after each.
pub fn join_lines(rows: &Vec<String>) -> (text: String)
    ensures
        text@ == lines_text(texts(rows@)),
{
    let mut text = String::new();
    let mut i: usize = 0;
    while i < rows.len()
        invariant
            i <= rows.len(),
            text@ == lines_text(texts(rows@).take(i as int)),
        decreases rows.len() - i,
    {
        text.append(rows[i].as_str());
        proof {
            reveal_strlit("\n");
        }
        text.append("\n");
        proof {
            let next = texts(rows@).take(i + 1);
            assert(next.drop_last() == texts(rows@).take(i as int));
        }
        i = i + 1;
    }
    assert(texts(rows@).take(i as int) == texts(rows@));
    text
}

} // verus!
