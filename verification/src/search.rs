//! Picking the lines of the cache that match the search term, and the search
//! as a whole.

use crate::assemble::{assemble, assembled};
use crate::classify::{kind_among, kind_of, names_for, rank, wanted_names, MatchKind};
use crate::columns::{
    bucket, layout, lemma_every_record_is_shown, records_of, sort_and_pad_matches,
};
use crate::highlight::{color_matches, shown};
use crate::record::{lemma_trailing_whitespace_keeps_name, parsed, split_record};
use crate::settings::{Colors, Settings};
use crate::spans::{occurrences, occurrences_in, within, SearchError, Span};
use crate::text::{
    are_single_lines, chars_of, convert_case, find, folded, lemma_lines_behind, lemma_position,
    lemma_position_stops, line_at, line_end, lines_of, push_range, rows, string_of, views,
    with_line_feeds,
};
use vstd::prelude::*;

verus! {

/// True when one of the spans lies in the line that runs from `from` to
/// `end`.
pub open spec fn touched(spans: Seq<Span>, from: int, end: int) -> bool {
    exists|k: int| 0 <= k < spans.len() && from <= (#[trigger] spans[k]).start && spans[k].end <= end
}

/// True when the name of the line is one of `wanted` or begins with one.
pub open spec fn is_named(line: Seq<char>, wanted: Seq<Seq<char>>, ignore_case: bool) -> bool {
    kind_among(folded(parsed(line).name, ignore_case), wanted) != MatchKind::Indirect
}

/// The lines of the text from `from` on that match: those whose name is
/// wanted and those in which a span lies. Each is ended by a line feed. A
/// line feed ends a line; the text after the last one is a line too unless it
/// is empty.
pub open spec fn matching_lines(
    text: Seq<char>,
    spans: Seq<Span>,
    wanted: Seq<Seq<char>>,
    ignore_case: bool,
    from: int,
) -> Seq<char>
    decreases text.len() - from,
{
    if from < 0 || from >= text.len() {
        Seq::empty()
    } else {
        let end = line_end(text, from);
        let line = text.subrange(from, end);
        let taken = if touched(spans, from, end) || is_named(line, wanted, ignore_case) {
            line.push('\n')
        } else {
            Seq::empty()
        };
        if end >= text.len() {
            taken
        } else {
            proof {
                lemma_position(text, '\n', from);
            }
            taken + matching_lines(text, spans, wanted, ignore_case, end + 1)
        }
    }
}

/// Decides [`is_named`].
fn named(line: &Vec<char>, wanted: &Vec<Vec<char>>, ignore_case: bool) -> (r: bool)
    ensures
        r == is_named(line@, rows(wanted@), ignore_case),
{
    let record = split_record(line);
    let name = chars_of(convert_case(string_of(&record.name).as_str(), ignore_case).as_str());
    match rank(&name, wanted) {
        MatchKind::Indirect => false,
        _ => true,
    }
}

/// Computes [`matching_lines`] for spans that are in order.
pub fn select_lines(text: &Vec<char>, spans: &Vec<Span>, wanted: &Vec<Vec<char>>, ignore_case: bool) -> (r:
    Vec<char>)
    requires
        within(text@, spans@),
    ensures
        r@ == matching_lines(text@, spans@, rows(wanted@), ignore_case, 0),
{
    let mut out: Vec<char> = Vec::new();
    let mut pos: usize = 0;
    let mut next: usize = 0;
    while pos < text.len()
        invariant
            pos <= text@.len(),
            next <= spans@.len(),
            within(text@, spans@),
            forall|k: int|
                0 <= k < next ==> (#[trigger] spans@[k]).start < pos || pos == text@.len(),
            next < spans@.len() ==> pos <= spans@[next as int].start || pos == text@.len(),
            matching_lines(text@, spans@, rows(wanted@), ignore_case, 0) == out@ + matching_lines(
                text@,
                spans@,
                rows(wanted@),
                ignore_case,
                pos as int,
            ),
        decreases text@.len() - pos,
    {
        let end = find(text, '\n', pos);
        let hit = next < spans.len() && spans[next].end <= end;
        proof {
            if touched(spans@, pos as int, end as int) {
                let k = choose|k: int|
                    0 <= k < spans@.len() && pos <= (#[trigger] spans@[k]).start && spans@[k].end
                        <= end;
                if k > next {
                    assert(spans@[next as int].end <= spans@[k].start);
                }
            }
            assert(hit == touched(spans@, pos as int, end as int));
        }
        let taken = if hit {
            true
        } else {
            let mut line: Vec<char> = Vec::new();
            push_range(&mut line, text, pos, end);
            named(&line, wanted, ignore_case)
        };
        if taken {
            push_range(&mut out, text, pos, end);
            out.push('\n');
        }
        while next < spans.len() && spans[next].start <= end
            invariant
                next <= spans@.len(),
                within(text@, spans@),
                forall|k: int| 0 <= k < next ==> (#[trigger] spans@[k]).start <= end,
            decreases spans@.len() - next,
        {
            next += 1;
        }
        proof {
            if next < spans@.len() {
                assert(end < spans@[next as int].start);
            }
        }
        if end >= text.len() {
            pos = text.len();
        } else {
            pos = end + 1;
        }
    }
    out
}

/// What [`get_matches`] finds in `content`, or `None` where no matcher can
/// be built for the term.
pub open spec fn matches_in(cli: Settings, content: Seq<char>) -> Option<Seq<char>> {
    match occurrences_in(cli.search_term@, cli.ignore_case, content) {
        Some(spans) => Some(
            matching_lines(
                content,
                spans,
                wanted_names(cli.search_term@, cli.ignore_case, cli.experimental),
                cli.ignore_case,
                0,
            ),
        ),
        None => None,
    }
}

/// Picks the lines of the cache that match the search term: the lines whose
/// package name is the term or begins with it, and the lines in which the
/// term occurs anywhere. The lines keep their order, and each ends in a line
/// feed.
pub fn get_matches(cli: &Settings, content: &str) -> (r: Result<String, SearchError>)
    ensures
        match r {
            Ok(found) => matches_in(*cli, content@) == Some(found@),
            Err(_) => matches_in(*cli, content@) is None,
        },
{
    let spans = match occurrences(cli.search_term.as_str(), cli.ignore_case, content) {
        Ok(spans) => spans,
        Err(error) => {
            return Err(error);
        },
    };
    let wanted = names_for(cli.search_term.as_str(), cli.ignore_case, cli.experimental);
    Ok(string_of(&select_lines(&chars_of(content), &spans, &wanted, cli.ignore_case)))
}

/// The lines of the text from `from` on that match, one by one: the lines
/// that [`matching_lines`] strings together.
pub open spec fn found_lines(
    text: Seq<char>,
    spans: Seq<Span>,
    wanted: Seq<Seq<char>>,
    ignore_case: bool,
    from: int,
) -> Seq<Seq<char>>
    decreases text.len() - from,
{
    if from < 0 || from >= text.len() {
        Seq::empty()
    } else {
        let end = line_end(text, from);
        let line = text.subrange(from, end);
        let taken = if touched(spans, from, end) || is_named(line, wanted, ignore_case) {
            seq![line]
        } else {
            Seq::empty()
        };
        if end >= text.len() {
            taken
        } else {
            proof {
                lemma_position(text, '\n', from);
            }
            taken + found_lines(text, spans, wanted, ignore_case, end + 1)
        }
    }
}

/// A line without the carriage return at its end, if it has one.
pub open spec fn without_return(line: Seq<char>) -> Seq<char> {
    if line.len() > 0 && line.last() == '\r' {
        line.drop_last()
    } else {
        line
    }
}

/// What [`get_matches`] finds is made of the matching lines of the cache,
/// each with a line feed behind it, and each of them is a single line.
pub proof fn lemma_matching_lines_are_lines(
    text: Seq<char>,
    spans: Seq<Span>,
    wanted: Seq<Seq<char>>,
    ignore_case: bool,
    from: int,
)
    requires
        0 <= from,
    ensures
        matching_lines(text, spans, wanted, ignore_case, from) == with_line_feeds(
            found_lines(text, spans, wanted, ignore_case, from),
        ),
        are_single_lines(found_lines(text, spans, wanted, ignore_case, from)),
    decreases text.len() - from,
{
    if from < text.len() {
        lemma_position(text, '\n', from);
        let end = line_end(text, from);
        let line = text.subrange(from, end);
        let rest = if end >= text.len() {
            Seq::<Seq<char>>::empty()
        } else {
            found_lines(text, spans, wanted, ignore_case, end + 1)
        };
        let rest_text = if end >= text.len() {
            Seq::<char>::empty()
        } else {
            matching_lines(text, spans, wanted, ignore_case, end + 1)
        };
        if end < text.len() {
            lemma_matching_lines_are_lines(text, spans, wanted, ignore_case, end + 1);
        }
        assert(rest_text == with_line_feeds(rest));
        let found = found_lines(text, spans, wanted, ignore_case, from);
        let text_found = matching_lines(text, spans, wanted, ignore_case, from);
        if touched(spans, from, end) || is_named(line, wanted, ignore_case) {
            assert(found =~= seq![line] + rest);
            assert(found.drop_first() =~= rest);
            assert(found[0] == line);
            assert(text_found =~= line.push('\n') + rest_text);
            assert forall|k: int, i: int|
                0 <= k < found.len() && 0 <= i < found[k].len() implies #[trigger] found[k][i]
                != '\n' by {
                if k > 0 {
                    assert(found[k] == rest[k - 1]);
                }
            }
        } else {
            assert(found =~= rest);
            assert(text_found =~= rest_text);
        }
    }
}

/// Splitting lines that were strung together gives the lines back, each
/// without the carriage return at its end.
pub proof fn lemma_lines_of_single_lines(lines: Seq<Seq<char>>)
    requires
        are_single_lines(lines),
    ensures
        lines_of(with_line_feeds(lines)) == lines.map_values(
            |line: Seq<char>| without_return(line),
        ),
    decreases lines.len(),
{
    let strip = |line: Seq<char>| without_return(line);
    if lines.len() == 0 {
        assert(lines.map_values(strip) =~= Seq::<Seq<char>>::empty());
    } else {
        let first = lines[0];
        let head = first.push('\n');
        let rest = lines.drop_first();
        let tail = with_line_feeds(rest);
        let text = head + tail;
        assert(are_single_lines(rest)) by {
            assert forall|k: int, i: int|
                0 <= k < rest.len() && 0 <= i < rest[k].len() implies #[trigger] rest[k][i]
                != '\n' by {
                assert(rest[k] == lines[k + 1]);
            }
        }
        lemma_lines_of_single_lines(rest);
        assert forall|i: int| 0 <= i < first.len() implies text[i] != '\n' by {
            assert(text[i] == lines[0][i]);
        }
        assert(text[first.len() as int] == '\n');
        lemma_position_stops(text, '\n', 0, first.len() as int);
        assert(text.subrange(0, first.len() as int) =~= first);
        if first.len() > 0 {
            assert(text[first.len() - 1] == first.last());
            assert(text.subrange(0, first.len() - 1) =~= first.drop_last());
        }
        assert(line_at(text, 0) == without_return(first));
        lemma_lines_behind(head, tail, 0);
        assert(lines_of(text) =~= seq![without_return(first)] + lines_of(tail));
        assert(lines.map_values(strip) =~= seq![without_return(first)] + rest.map_values(strip));
    }
}

/// The lines that the search sorts into kinds are the matching lines of the
/// cache, in the order of the cache, each without the carriage return at its
/// end.
pub proof fn lemma_found_lines_are_sorted_into_kinds(
    text: Seq<char>,
    spans: Seq<Span>,
    wanted: Seq<Seq<char>>,
    ignore_case: bool,
)
    ensures
        lines_of(matching_lines(text, spans, wanted, ignore_case, 0)) == found_lines(
            text,
            spans,
            wanted,
            ignore_case,
            0,
        ).map_values(|line: Seq<char>| without_return(line)),
{
    lemma_matching_lines_are_lines(text, spans, wanted, ignore_case, 0);
    lemma_lines_of_single_lines(found_lines(text, spans, wanted, ignore_case, 0));
}

/// The carriage return at the end of a line is no part of its name.
pub proof fn lemma_return_keeps_name(line: Seq<char>)
    ensures
        parsed(without_return(line)).name == parsed(line).name,
{
    if line.len() > 0 && line.last() == '\r' {
        lemma_trailing_whitespace_keeps_name(line);
    }
}

/// The result lines of one kind among the lines that were found.
pub open spec fn bucket_of(cli: Settings, found: Seq<char>, kind: MatchKind) -> Seq<Seq<char>> {
    bucket(
        records_of(found),
        kind,
        cli.search_term@,
        cli.ignore_case,
        cli.experimental,
        cli.columns,
    )
}

/// The output for three kinds of matches, given the lines of each kind and
/// the color of each: `None` where a block cannot be built.
pub open spec fn output_of(
    exact: Seq<Seq<char>>,
    direct: Seq<Seq<char>>,
    indirect: Seq<Seq<char>>,
    colors: (Colors, Colors, Colors),
    term: Seq<char>,
    ignore_case: bool,
    use_color: bool,
    flip: bool,
    separate: bool,
) -> Option<Seq<char>> {
    let first = shown(exact, term, ignore_case, flip, colors.0, use_color);
    let second = shown(direct, term, ignore_case, flip, colors.1, use_color);
    let third = shown(indirect, term, ignore_case, flip, colors.2, use_color);
    if first is Some && second is Some && third is Some {
        Some(assembled(seq![first.unwrap(), second.unwrap(), third.unwrap()], flip, separate))
    } else {
        None
    }
}

/// The output of a search in `content`: the lines that match, sorted into
/// kinds, laid out in columns, marked and put together. `None` where no
/// matcher can be built for the term.
pub open spec fn search_output(cli: Settings, content: Seq<char>, use_color: bool) -> Option<
    Seq<char>,
> {
    match matches_in(cli, content) {
        Some(found) => output_of(
            bucket_of(cli, found, MatchKind::Exact),
            bucket_of(cli, found, MatchKind::Direct),
            bucket_of(cli, found, MatchKind::Indirect),
            (cli.exact_color, cli.direct_color, cli.indirect_color),
            cli.search_term@,
            cli.ignore_case,
            use_color,
            cli.flip,
            cli.separate,
        ),
        None => None,
    }
}

/// No matching line is lost on the way: every line of the cache whose name is
/// wanted or in which the term occurs is laid out among the lines of one
/// kind, and the kind is the one that its name gives it.
pub proof fn lemma_matching_line_is_shown(cli: Settings, content: Seq<char>, k: int)
    requires
        matches_in(cli, content) is Some,
        0 <= k < found_lines(
            content,
            occurrences_in(cli.search_term@, cli.ignore_case, content).unwrap(),
            wanted_names(cli.search_term@, cli.ignore_case, cli.experimental),
            cli.ignore_case,
            0,
        ).len(),
    ensures
        ({
            let found = matches_in(cli, content).unwrap();
            let line = found_lines(
                content,
                occurrences_in(cli.search_term@, cli.ignore_case, content).unwrap(),
                wanted_names(cli.search_term@, cli.ignore_case, cli.experimental),
                cli.ignore_case,
                0,
            )[k];
            let kind = kind_of(
                parsed(line).name,
                cli.search_term@,
                cli.ignore_case,
                cli.experimental,
            );
            bucket_of(cli, found, kind).contains(
                layout(records_of(found), cli.columns)(parsed(without_return(line))),
            )
        }),
{
    let spans = occurrences_in(cli.search_term@, cli.ignore_case, content).unwrap();
    let wanted = wanted_names(cli.search_term@, cli.ignore_case, cli.experimental);
    let lines = found_lines(content, spans, wanted, cli.ignore_case, 0);
    let found = matches_in(cli, content).unwrap();
    lemma_found_lines_are_sorted_into_kinds(content, spans, wanted, cli.ignore_case);
    lemma_return_keeps_name(lines[k]);
    let records = records_of(found);
    assert(records[k] == parsed(without_return(lines[k])));
    lemma_every_record_is_shown(
        records,
        k,
        cli.search_term@,
        cli.ignore_case,
        cli.experimental,
        cli.columns,
    );
}

/// Searches the cache for the term and writes the output.
///
/// A search that finds nothing succeeds with an empty output. It fails only
/// where no matcher can be built for the term.
pub fn search(cli: &Settings, content: &str, use_color: bool) -> (r: Result<String, SearchError>)
    ensures
        match r {
            Ok(output) => search_output(*cli, content@, use_color) == Some(output@),
            Err(_) => search_output(*cli, content@, use_color) is None,
        },
{
    let found = match get_matches(cli, content) {
        Ok(found) => found,
        Err(error) => {
            return Err(error);
        },
    };
    let sorted = sort_and_pad_matches(cli, found.as_str());
    let blocks = match color_matches(cli, sorted, use_color) {
        Ok(blocks) => blocks,
        Err(error) => {
            return Err(error);
        },
    };
    assert(views(blocks@) =~= seq![blocks[0]@, blocks[1]@, blocks[2]@]);
    Ok(assemble(cli, &blocks))
}

} // verus!
