use wordcount::args::{Args, Metric, TotalMode};
use wordcount::error::EmptyContentError;
use wordcount::record::File;
use wordcount::render::{
    digit_count, join_lines, print_total, print_with_width, read_from_standard_input, render,
};
use wordcount::total::Total;

fn args(bytes: bool, chars: bool, lines: bool, words: bool, max_line_length: bool) -> Args {
    Args { bytes, chars, lines, words, max_line_length, total: TotalMode::Always, file_name: Vec::new() }
}

fn with_mode(total: TotalMode) -> Args {
    Args {
        bytes: true,
        chars: false,
        lines: true,
        words: true,
        max_line_length: false,
        total,
        file_name: Vec::new(),
    }
}

fn count_all(args: &Args, texts: &[(&str, &str)]) -> (Vec<File>, Total) {
    let mut files = Vec::new();
    let mut total = Total::default();
    for (name, text) in texts {
        let file = File::measure(name, text, args).unwrap();
        total.add(&file);
        files.push(file);
    }
    (files, total)
}

#[test]
fn digit_count_is_the_length_in_decimal() {
    assert_eq!(digit_count(0), 1);
    assert_eq!(digit_count(9), 1);
    assert_eq!(digit_count(10), 2);
    assert_eq!(digit_count(99), 2);
    assert_eq!(digit_count(100), 3);
    assert_eq!(digit_count(12345), 5);
    assert_eq!(digit_count(u64::MAX as u128), 20);
    assert_eq!(digit_count(u128::MAX), 39);
}

#[test]
fn digit_count_agrees_with_to_string() {
    let mut n: u128 = 1;
    for _ in 0..38 {
        assert_eq!(digit_count(n), n.to_string().len());
        assert_eq!(digit_count(n - 1), (n - 1).to_string().len());
        assert_eq!(digit_count(n + 1), (n + 1).to_string().len());
        n *= 10;
    }
}

#[test]
fn print_with_width_pads_on_the_left() {
    assert_eq!(print_with_width(7, 3), "  7 ");
    assert_eq!(print_with_width(40, 3), " 40 ");
    assert_eq!(print_with_width(100, 3), "100 ");
    assert_eq!(print_with_width(0, 1), "0 ");
    assert_eq!(print_with_width(0, 4), "   0 ");
}

#[test]
fn print_with_width_never_cuts_a_number() {
    assert_eq!(print_with_width(12345, 2), "12345 ");
    assert_eq!(print_with_width(12, 0), "12 ");
    assert_eq!(print_with_width(u128::MAX, 1), "340282366920938463463374607431768211455 ");
}

#[test]
fn print_with_width_agrees_with_format() {
    for value in [0u128, 5, 10, 99, 100, 4096, 1234567890123456789012345678901234567] {
        for width in [0usize, 1, 2, 5, 40] {
            assert_eq!(print_with_width(value, width), format!("{:>width$} ", value, width = width));
        }
    }
}

#[test]
fn print_flags_of_a_single_file() {
    let a = args(true, false, true, true, false);
    let (files, total) = count_all(&a, &[("hello.txt", "hello world\n")]);
    assert_eq!(files[0].print_flags(&total), "12 1 2 hello.txt");
}

#[test]
fn print_flags_aligns_to_the_totals() {
    let a = args(true, false, true, true, false);
    let forty = "a b c d e\n".repeat(4);
    let sixty = "1234567890123456789\n".repeat(3);
    let (files, total) = count_all(&a, &[("file1", &forty), ("file2", &sixty)]);
    assert_eq!(total.get(Metric::Bytes), 100);
    assert_eq!(files[0].print_flags(&total), " 40 4 20 file1");
    assert_eq!(files[1].print_flags(&total), " 60 3  3 file2");
    assert_eq!(print_total(&total, &a), "100 7 23 total");
}

#[test]
fn print_flags_without_counts_is_the_name() {
    let total = Total::default();
    assert_eq!(File::new("name only").print_flags(&total), "name only");
}

#[test]
fn columns_are_as_wide_as_the_totals() {
    let a = args(true, true, true, true, true);
    let texts = [("a", "x\n"), ("b", "lorem ipsum dolor sit amet\nconsectetur\n"), ("c", "\u{e9}\u{e9}\u{e9} \u{e9}")];
    let (files, total) = count_all(&a, &texts);
    let widths: Vec<usize> = (0..5).map(|i| total.get(Metric::at(i).unwrap()).to_string().len()).collect();
    for file in &files {
        let row = file.print_flags(&total);
        let mut rest = row.as_str();
        for (flag, width) in file.flags().iter().zip(&widths) {
            let (column, after) = rest.split_at(*width);
            assert_eq!(column.trim_start().parse::<usize>(), Ok(flag.value()));
            assert!(flag.value().to_string().len() <= *width);
            assert!(after.starts_with(' '));
            rest = &after[1..];
        }
        assert_eq!(rest, file.name());
    }
}

#[test]
fn print_total_shows_the_metrics_asked_for() {
    let (_, total) = count_all(&args(true, true, true, true, true), &[("a", "one two\n"), ("b", "three\n")]);
    assert_eq!(print_total(&total, &args(true, true, true, true, true)), "14 14 2 3 12 total");
    assert_eq!(print_total(&total, &args(true, false, true, true, false)), "14 2 3 total");
    assert_eq!(print_total(&total, &args(false, false, false, false, true)), "12 total");
    assert_eq!(print_total(&total, &args(false, false, false, false, false)), "total");
}

#[test]
fn standard_input_columns_have_their_own_width() {
    let a = args(true, false, true, true, false);
    assert_eq!(read_from_standard_input(&a, "hello world\n"), Ok("12 1 2 ".to_string()));
    let long = "word ".repeat(250);
    assert_eq!(read_from_standard_input(&a, &long), Ok("1250 1 250 ".to_string()));
}

#[test]
fn standard_input_with_all_metrics() {
    let a = args(true, true, true, true, true);
    assert_eq!(
        read_from_standard_input(&a, "h\u{e9}llo world\nbye\n"),
        Ok("17 16 2 3 11 ".to_string())
    );
}

#[test]
fn standard_input_with_nothing_asked_for() {
    let a = args(false, false, false, false, false);
    assert_eq!(read_from_standard_input(&a, "text"), Ok(String::new()));
}

#[test]
fn standard_input_empty() {
    assert_eq!(
        read_from_standard_input(&args(true, false, true, true, false), ""),
        Ok("0 0 0 ".to_string())
    );
    assert_eq!(
        read_from_standard_input(&args(true, false, false, false, true), ""),
        Err(EmptyContentError)
    );
}

#[test]
fn render_one_file_has_no_total_row() {
    for mode in [TotalMode::Auto, TotalMode::Always, TotalMode::Never] {
        let a = with_mode(mode);
        let (files, total) = count_all(&a, &[("hello.txt", "hello world\n")]);
        assert_eq!(render(&a, &files, &total), vec!["12 1 2 hello.txt".to_string()]);
    }
}

#[test]
fn render_one_file_under_only_is_the_total_row() {
    let a = with_mode(TotalMode::Only);
    let (files, total) = count_all(&a, &[("hello.txt", "hello world\n")]);
    assert_eq!(render(&a, &files, &total), vec!["12 1 2 total".to_string()]);
}

#[test]
fn render_several_files_ends_with_the_total_row() {
    for mode in [TotalMode::Auto, TotalMode::Always] {
        let a = with_mode(mode);
        let (files, total) = count_all(&a, &[("a", "one\n"), ("b", "two three four five\nsix\n")]);
        assert_eq!(
            render(&a, &files, &total),
            vec![" 4 1 1 a".to_string(), "24 2 5 b".to_string(), "28 3 6 total".to_string()]
        );
    }
}

#[test]
fn render_never_has_no_total_row() {
    let a = with_mode(TotalMode::Never);
    let (files, total) = count_all(&a, &[("a", "one\n"), ("b", "two three four five\nsix\n")]);
    assert_eq!(render(&a, &files, &total), vec![" 4 1 1 a".to_string(), "24 2 5 b".to_string()]);
}

#[test]
fn render_only_has_only_the_total_row() {
    let a = with_mode(TotalMode::Only);
    let (files, total) = count_all(&a, &[("a", "one\n"), ("b", "two three four five\nsix\n")]);
    assert_eq!(render(&a, &files, &total), vec!["28 3 6 total".to_string()]);
}

#[test]
fn join_lines_ends_each_row() {
    assert_eq!(join_lines(&vec![]), "");
    assert_eq!(join_lines(&vec!["a".to_string()]), "a\n");
    assert_eq!(join_lines(&vec!["1 x".to_string(), String::new(), "3 total".to_string()]), "1 x\n\n3 total\n");
}
