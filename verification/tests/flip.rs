use nps::assemble::assemble;
use nps::highlight::{arrange_rows, color_matches};
use nps::search::search;
use nps::settings::{ColumnsChoice, Settings};
use nps::text::{split_pieces, string_lines};

fn cli(term: &str, flip: bool, separate: bool) -> Settings {
    let mut cli = Settings::new(term);
    cli.experimental = true;
    cli.flip = flip;
    cli.separate = separate;
    cli
}

fn lines(lines: &[&str]) -> Vec<String> {
    lines.iter().map(|line| line.to_string()).collect()
}

fn printed(cli: &Settings, matches: (Vec<String>, Vec<String>, Vec<String>), use_color: bool) -> String {
    assemble(cli, &color_matches(cli, matches, use_color).unwrap())
}

fn reversed(text: &str) -> Vec<&str> {
    let mut lines: Vec<&str> = text.lines().collect();
    lines.reverse();
    lines
}

#[test]
fn flipped_lines_are_the_unflipped_lines_reversed() {
    let buckets = [
        (lines(&["foo 1 a"]), lines(&["foobar 2 b", "foobaz 3 c"]), lines(&["x 4 foo", "y 5 no match", "z 6 foo foo"])),
        (vec![], lines(&["foobar 2 b", "foobaz 3 c"]), vec![]),
        (lines(&["foo 1 a"]), vec![], lines(&["x 4 foo"])),
        (vec![], vec![], lines(&["only"])),
        (vec![], vec![], vec![]),
    ];
    for matches in buckets {
        for use_color in [false, true] {
            for separate in [false, true] {
                let flipped = printed(&cli("foo", true, separate), matches.clone(), use_color);
                let unflipped = printed(&cli("foo", false, separate), matches.clone(), use_color);
                let expected: Vec<&str> = flipped.lines().collect();
                assert_eq!(reversed(&unflipped), expected, "{:?}", matches);
            }
        }
    }
}

#[test]
fn flipped_output_keeps_every_line_and_every_gap() {
    let matches = (lines(&["e1"]), lines(&["d1", "d2"]), lines(&["i1", "i2", "i3"]));
    assert_eq!(
        printed(&cli("x", true, true), matches.clone(), false),
        "e1\n\nd1\nd2\n\ni1\ni2\ni3"
    );
    assert_eq!(
        printed(&cli("x", false, true), matches, false),
        "i3\ni2\ni1\n\nd2\nd1\n\ne1"
    );
}

#[test]
fn flipped_search_shows_the_same_lines_in_reverse() {
    let content = "foo 1 exact\nfoobar 2 direct\nfoobaz 3 direct too\nxfoo 4 indirect\nbar 5 has foo\nnone 6 nothing\n";
    for use_color in [false, true] {
        for separate in [false, true] {
            for ignore_case in [false, true] {
                let mut flipped = cli("foo", true, separate);
                flipped.ignore_case = ignore_case;
                let mut unflipped = cli("foo", false, separate);
                unflipped.ignore_case = ignore_case;
                let shown = search(&flipped, content, use_color).unwrap();
                let turned = search(&unflipped, content, use_color).unwrap();
                let expected: Vec<&str> = shown.lines().collect();
                assert_eq!(reversed(&turned), expected);
            }
        }
    }
}

#[test]
fn whitespace_at_the_edges_is_cut_from_different_lines() {
    // Each line ends in a space. What is cut is cut behind the last line of
    // the output, which is another line once the output is flipped.
    let mut flipped = cli("pkg", true, true);
    flipped.columns = ColumnsChoice::NameOnly;
    let mut unflipped = cli("pkg", false, true);
    unflipped.columns = ColumnsChoice::NameOnly;
    let content = "pkga 1 x\npkgb 2 y\n";
    assert_eq!(search(&flipped, content, false).unwrap(), "pkga \npkgb");
    assert_eq!(search(&unflipped, content, false).unwrap(), "pkgb \npkga");
}

#[test]
fn single_line_output_is_the_same_either_way() {
    for use_color in [false, true] {
        let mut flipped = cli("pkg", true, true);
        flipped.columns = ColumnsChoice::NameOnly;
        let mut unflipped = cli("pkg", false, true);
        unflipped.columns = ColumnsChoice::NameOnly;
        let shown = search(&flipped, "pkga 1 x\nother 2 y\n", use_color).unwrap();
        let turned = search(&unflipped, "pkga 1 x\nother 2 y\n", use_color).unwrap();
        assert_eq!(shown, turned);
        assert_eq!(shown.lines().count(), 1);
    }
}

#[test]
fn marks_of_a_line_do_not_depend_on_the_order() {
    let matches = (lines(&["foo a", "b foo", "foo foo"]), vec![], vec![]);
    let flipped = color_matches(&cli("foo", true, true), matches.clone(), true).unwrap();
    let unflipped = color_matches(&cli("foo", false, true), matches, true).unwrap();
    let expected: Vec<&str> = flipped[0].lines().collect();
    assert_eq!(reversed(&unflipped[0]), expected);
}

#[test]
fn text_is_cut_at_line_feeds() {
    let pieces = |text: &str| -> Vec<String> {
        split_pieces(&text.chars().collect())
            .into_iter()
            .map(|piece| piece.into_iter().collect())
            .collect()
    };
    assert_eq!(pieces(""), vec![""]);
    assert_eq!(pieces("a"), vec!["a"]);
    assert_eq!(pieces("a\nb"), vec!["a", "b"]);
    assert_eq!(pieces("a\n"), vec!["a", ""]);
    assert_eq!(pieces("\n\nx\r\n"), vec!["", "", "x\r", ""]);
    for text in ["", "a", "a\nb", "\n", "a\r\n\nb\n"] {
        let expected: Vec<&str> = text.split('\n').collect();
        assert_eq!(pieces(text), expected);
    }
}

#[test]
fn lines_are_strung_and_turned() {
    let rows: Vec<Vec<char>> = ["a", "", "bc"].iter().map(|line| line.chars().collect()).collect();
    let strung: String = string_lines(&rows).into_iter().collect();
    assert_eq!(strung, "a\n\nbc\n");
    assert!(string_lines(&vec![]).is_empty());
    let turned: Vec<String> = arrange_rows(&rows, false)
        .into_iter()
        .map(|line| line.into_iter().collect())
        .collect();
    assert_eq!(turned, vec!["bc", "", "a"]);
    assert_eq!(arrange_rows(&rows, true), rows);
}
