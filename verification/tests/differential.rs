use nps::classify::{classify, MatchKind};
use nps::columns::sort_and_pad_matches;
use nps::highlight::color_matches;
use nps::record::parse_record;
use nps::search::{get_matches, search};
use nps::settings::{ColumnsChoice, Settings};

/// A small generator of repeatable pseudo-random numbers.
struct Numbers(u64);

impl Numbers {
    fn next(&mut self, below: usize) -> usize {
        self.0 = self
            .0
            .wrapping_mul(6364136223846793005)
            .wrapping_add(1442695040888963407);
        ((self.0 >> 33) as usize) % below
    }

    fn text(&mut self, alphabet: &[char], longest: usize) -> String {
        let len = self.next(longest + 1);
        (0..len).map(|_| alphabet[self.next(alphabet.len())]).collect()
    }
}

fn cli(term: &str, ignore_case: bool) -> Settings {
    let mut cli = Settings::new(term);
    cli.experimental = true;
    cli.ignore_case = ignore_case;
    cli
}

#[test]
fn found_lines_are_the_lines_that_hold_the_term() {
    let mut numbers = Numbers(1);
    let alphabet = ['a', 'b', 'c', ' ', ' ', '.', 'é'];
    for _ in 0..300 {
        let lines: Vec<String> = (0..numbers.next(8)).map(|_| numbers.text(&alphabet, 12)).collect();
        let content = lines.join("\n");
        let mut term = numbers.text(&['a', 'b', 'c', '.', 'é'], 3);
        if term.is_empty() {
            term.push('a');
        }
        let expected: String = content
            .lines()
            .filter(|line| line.contains(&term))
            .map(|line| format!("{line}\n"))
            .collect();
        let found = get_matches(&cli(&term, false), &content).unwrap();
        assert_eq!(found, expected, "{:?} in {:?}", term, content);
    }
}

#[test]
fn marks_are_what_replacing_the_term_gives() {
    let mut numbers = Numbers(2);
    let alphabet = ['a', 'b', 'c', ' ', 'ż'];
    let on = "\u{1b}[0m\u{1b}[1m\u{1b}[35m";
    let off = "\u{1b}[0m";
    for _ in 0..300 {
        let lines: Vec<String> = (0..1 + numbers.next(5)).map(|_| numbers.text(&alphabet, 10)).collect();
        let mut term = numbers.text(&['a', 'b', 'c', 'ż'], 3);
        if term.is_empty() {
            term.push('b');
        }
        let mut settings = cli(&term, false);
        settings.flip = true;
        let blocks = color_matches(&settings, (lines.clone(), vec![], vec![]), true).unwrap();
        let expected = format!(
            "{}\n",
            lines.join("\n").replace(&term, &format!("{on}{term}{off}"))
        );
        assert_eq!(blocks[0], expected, "{:?} in {:?}", term, lines);
    }
}

#[test]
fn kinds_follow_the_names() {
    let mut numbers = Numbers(3);
    let alphabet = ['a', 'b', 'A', 'B', ' ', ' '];
    for _ in 0..300 {
        let lines: Vec<String> = (0..numbers.next(8))
            .map(|_| numbers.text(&alphabet, 10))
            .filter(|line| !line.is_empty())
            .collect();
        let raw = lines.join("\n");
        let mut term = numbers.text(&['a', 'b', 'A'], 2);
        if term.is_empty() {
            term.push('a');
        }
        for ignore_case in [false, true] {
            let mut settings = cli(&term, ignore_case);
            settings.columns = ColumnsChoice::NameOnly;
            let sorted = sort_and_pad_matches(&settings, &raw);
            let mut expected = (vec![], vec![], vec![]);
            for line in &lines {
                let name = line.split_whitespace().next().unwrap_or("").to_string();
                assert_eq!(parse_record(line).name, name);
                let (name_cmp, term_cmp) = if ignore_case {
                    (name.to_lowercase(), term.to_lowercase())
                } else {
                    (name.clone(), term.clone())
                };
                let shown = format!("{name} ");
                if name_cmp == term_cmp {
                    assert_eq!(classify(&name, &term, ignore_case, true), MatchKind::Exact);
                    expected.0.push(shown);
                } else if name_cmp.starts_with(&term_cmp) {
                    assert_eq!(classify(&name, &term, ignore_case, true), MatchKind::Direct);
                    expected.1.push(shown);
                } else {
                    assert_eq!(classify(&name, &term, ignore_case, true), MatchKind::Indirect);
                    expected.2.push(shown);
                }
            }
            assert_eq!(sorted, expected, "{:?} in {:?}", term, raw);
        }
    }
}

#[test]
fn search_shows_each_matching_line_once() {
    let mut numbers = Numbers(4);
    let alphabet = ['a', 'b', 'c', 'd', ' '];
    for _ in 0..200 {
        let lines: Vec<String> = (0..numbers.next(10))
            .map(|_| format!("{} 1 {}", numbers.text(&['a', 'b', 'c'], 4), numbers.text(&alphabet, 8)))
            .collect();
        let content = lines.join("\n");
        let term = ["a", "ab", "c", "bc"][numbers.next(4)];
        let mut settings = cli(term, true);
        settings.separate = false;
        settings.columns = ColumnsChoice::All;
        let output = search(&settings, &content, false).unwrap();
        let matching = lines.iter().filter(|line| line.contains(term)).count();
        assert_eq!(output.lines().count(), matching, "{:?} in {:?}", term, content);
    }
}

fn without_marks(text: &str) -> String {
    let mut plain = text.to_string();
    for code in 30..38 {
        plain = plain.replace(&format!("\u{1b}[0m\u{1b}[1m\u{1b}[{code}m"), "");
    }
    plain.replace("\u{1b}[0m", "")
}

#[test]
fn marks_never_change_the_text() {
    let mut numbers = Numbers(5);
    let alphabet = [
        'a', 'A', 'b', 'B', 's', 'S', 'ſ', 'k', 'K', '\u{212a}', 'σ', 'ς', 'Σ', 'é', 'É', 'ß', 'İ', 'i',
        '🦀', ' ', ' ', ' ', '\t', '\u{a0}', '.', '\r', '\n', '\n',
    ];
    let letters = ['a', 'A', 'b', 's', 'S', 'k', 'K', 'σ', 'Σ', 'é', 'É', 'ß', 'i', 'İ', '.'];
    for _ in 0..400 {
        let content = numbers.text(&alphabet, 60);
        let term = numbers.text(&letters, 3);
        for ignore_case in [false, true] {
            for experimental in [false, true] {
                for flip in [false, true] {
                    let mut settings = Settings::new(&term);
                    settings.ignore_case = ignore_case;
                    settings.experimental = experimental;
                    settings.flip = flip;
                    settings.columns = [
                        ColumnsChoice::All,
                        ColumnsChoice::NameOnly,
                        ColumnsChoice::Version,
                        ColumnsChoice::Description,
                    ][numbers.next(4)];
                    let plain = search(&settings, &content, false).unwrap();
                    let colored = search(&settings, &content, true).unwrap();
                    assert_eq!(
                        without_marks(&colored),
                        plain,
                        "{:?} in {:?}",
                        term,
                        content
                    );
                    if !ignore_case && !term.is_empty() {
                        let marks = colored.matches("\u{1b}[1m").count();
                        assert_eq!(marks, plain.matches(&term).count(), "{:?} in {:?}", term, plain);
                    }
                }
            }
        }
    }
}
