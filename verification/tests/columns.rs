use nps::columns::sort_and_pad_matches;
use nps::settings::{ColumnsChoice, Settings};

fn cli(term: &str, columns: ColumnsChoice) -> Settings {
    let mut cli = Settings::new(term);
    cli.experimental = true;
    cli.columns = columns;
    cli
}

#[test]
fn width_is_the_widest_name_of_all_kinds() {
    // Names of 5, 10 and 3 characters, one in each kind.
    let raw = "abcde 1 exact\nabcde12345 22 direct\nxyz 333 mentions abcde\n";
    let sorted = sort_and_pad_matches(&cli("abcde", ColumnsChoice::All), raw);
    assert_eq!(sorted.0, vec!["abcde       1    exact"]);
    assert_eq!(sorted.1, vec!["abcde12345  22   direct"]);
    assert_eq!(sorted.2, vec!["xyz         333  mentions abcde"]);
    for line in sorted.0.iter().chain(&sorted.1).chain(&sorted.2) {
        assert_eq!(&line[10..12], "  ");
        assert_eq!(&line[15..17], "  ");
        assert_ne!(&line[17..18], " ");
    }

    let sorted = sort_and_pad_matches(&cli("abcde", ColumnsChoice::Version), raw);
    assert_eq!(sorted.0, vec!["abcde       1"]);
    assert_eq!(sorted.1, vec!["abcde12345  22"]);
    assert_eq!(sorted.2, vec!["xyz         333"]);

    let sorted = sort_and_pad_matches(&cli("abcde", ColumnsChoice::Description), raw);
    assert_eq!(sorted.0, vec!["abcde       exact"]);
    assert_eq!(sorted.1, vec!["abcde12345  direct"]);
    assert_eq!(sorted.2, vec!["xyz         mentions abcde"]);
}

#[test]
fn name_only_ends_in_one_space() {
    let raw = "abcde 1 exact\nabcde12345 22 direct\nxyz 333 mentions abcde\n";
    let sorted = sort_and_pad_matches(&cli("abcde", ColumnsChoice::NameOnly), raw);
    assert_eq!(sorted.0, vec!["abcde "]);
    assert_eq!(sorted.1, vec!["abcde12345 "]);
    assert_eq!(sorted.2, vec!["xyz "]);
}

#[test]
fn order_within_a_kind_is_kept() {
    let raw = "pkgb 1 x\npkga 1 x\nzz 1 pkg\npkgc 1 x\naa 1 pkg\n";
    let sorted = sort_and_pad_matches(&cli("pkg", ColumnsChoice::NameOnly), raw);
    assert!(sorted.0.is_empty());
    assert_eq!(sorted.1, vec!["pkgb ", "pkga ", "pkgc "]);
    assert_eq!(sorted.2, vec!["zz ", "aa "]);
}

#[test]
fn nothing_in_nothing_out() {
    let sorted = sort_and_pad_matches(&cli("pkg", ColumnsChoice::All), "");
    assert!(sorted.0.is_empty());
    assert!(sorted.1.is_empty());
    assert!(sorted.2.is_empty());
}

#[test]
fn missing_fields_are_empty_columns() {
    let sorted = sort_and_pad_matches(&cli("pkg", ColumnsChoice::All), "pkg\npkglong 1.0\n");
    assert_eq!(sorted.0, vec!["pkg           "]);
    assert_eq!(sorted.1, vec!["pkglong  1.0  "]);
}

#[test]
fn width_counts_bytes_and_padding_counts_characters() {
    // "é" takes two bytes: the name column is two characters wide.
    let sorted = sort_and_pad_matches(&cli("é", ColumnsChoice::Version), "é 1\na 2 é\n");
    assert_eq!(sorted.0, vec!["é   1"]);
    assert_eq!(sorted.2, vec!["a   2"]);
}

#[test]
fn carriage_return_before_line_feed_is_dropped() {
    let sorted = sort_and_pad_matches(&cli("pkg", ColumnsChoice::All), "pkg 1 one\r\npkg2 2 two\r\n");
    assert_eq!(sorted.0, vec!["pkg   1  one"]);
    assert_eq!(sorted.1, vec!["pkg2  2  two"]);
}

#[test]
fn last_line_needs_no_line_feed() {
    let sorted = sort_and_pad_matches(&cli("pkg", ColumnsChoice::All), "pkg 1 one\npkg2 2 two");
    assert_eq!(sorted.0, vec!["pkg   1  one"]);
    assert_eq!(sorted.1, vec!["pkg2  2  two"]);
}

#[test]
fn every_line_lands_in_one_kind() {
    let raw = "pkgb 1 x\npkg 1 x\nzz 1 pkg\n\npkgc 1 x\naa 1 pkg\npkg 2 y\n";
    let sorted = sort_and_pad_matches(&cli("pkg", ColumnsChoice::All), raw);
    assert_eq!(sorted.0.len() + sorted.1.len() + sorted.2.len(), raw.lines().count());
}
