//! Marking the occurrences of the search term in the result lines.
//!
//! The lines of one kind of match are joined by line feeds and searched for
//! the term in one go (see [`crate::spans`]); an occurrence is marked by
//! writing the escape sequence of its emphasis before it and a reset after
//! it. The escape sequences are those that `termcolor` writes. An occurrence
//! never runs over a line feed, so every line is marked by itself, and the
//! marks of a line do not depend on the order of the output. The marked
//! lines, in the order of the output and each ended by a line feed, are the
//! block of the kind; a line without an occurrence is part of it like any
//! other.

use crate::columns::MatchVecs;
use crate::settings::{Colors, Settings};
use crate::spans::{occurrences, occurrences_in, within, SearchError, Span};
use crate::text::{
    are_single_lines, chars_of, join, joined, lemma_joined_pieces, lemma_pieces_of_joined,
    pieces, push_all, push_range, rows, split_pieces, string_lines, string_of, views,
    with_line_feeds,
};
use termcolor::WriteColor;
use vstd::prelude::*;

verus! {

/// The digit that selects a color in an escape sequence.
pub open spec fn color_digit(color: Colors) -> char {
    match color {
        Colors::Black => '0',
        Colors::Red => '1',
        Colors::Green => '2',
        Colors::Yellow => '3',
        Colors::Blue => '4',
        Colors::Magenta => '5',
        Colors::Cyan => '6',
        Colors::White => '7',
    }
}

/// The escape sequence that begins an emphasis: reset, bold, and the
/// foreground color.
pub open spec fn emphasis_on(color: Colors) -> Seq<char> {
    seq![
        '\x1b',
        '[',
        '0',
        'm',
        '\x1b',
        '[',
        '1',
        'm',
        '\x1b',
        '[',
        '3',
        color_digit(color),
        'm',
    ]
}

/// The escape sequence that ends an emphasis: reset.
pub open spec fn emphasis_off() -> Seq<char> {
    seq!['\x1b', '[', '0', 'm']
}

/// The bytes of a text whose characters are all below 256.
pub open spec fn latin_bytes(text: Seq<char>) -> Seq<u8> {
    Seq::new(text.len(), |i: int| text[i] as u8)
}

/// Asks `termcolor` for the bytes that switch an ANSI terminal to bold text
/// in the given foreground color: what `Ansi::set_color` writes for a fresh
/// `ColorSpec` with that color and bold set, which is a reset, the code for
/// bold and the code of the color.
#[verifier::external_body]
pub(crate) fn ansi_emphasis(color: Colors) -> (r: Vec<u8>)
    ensures
        r@ == latin_bytes(emphasis_on(color)),
{
    let mut spec = termcolor::ColorSpec::new();
    spec.set_bold(true).set_fg(Some(match color {
        Colors::Black => termcolor::Color::Black,
        Colors::Blue => termcolor::Color::Blue,
        Colors::Green => termcolor::Color::Green,
        Colors::Red => termcolor::Color::Red,
        Colors::Cyan => termcolor::Color::Cyan,
        Colors::Magenta => termcolor::Color::Magenta,
        Colors::Yellow => termcolor::Color::Yellow,
        Colors::White => termcolor::Color::White,
    }));
    let mut out = termcolor::Ansi::new(Vec::new());
    let _ = out.set_color(&spec);
    out.into_inner()
}

/// Asks `termcolor` for the bytes that `Ansi::reset` writes: the code that
/// switches all attributes off.
#[verifier::external_body]
pub(crate) fn ansi_reset() -> (r: Vec<u8>)
    ensures
        r@ == latin_bytes(emphasis_off()),
{
    let mut out = termcolor::Ansi::new(Vec::new());
    let _ = out.reset();
    out.into_inner()
}

/// Reads each byte as the character with that code.
fn letters(bytes: &Vec<u8>) -> (r: Vec<char>)
    ensures
        r@.len() == bytes@.len(),
        forall|i: int| 0 <= i < r@.len() ==> r@[i] == bytes@[i] as char,
{
    let mut out: Vec<char> = Vec::new();
    let mut i: usize = 0;
    while i < bytes.len()
        invariant
            i <= bytes@.len(),
            out@.len() == i,
            forall|k: int| 0 <= k < i ==> out@[k] == bytes@[k] as char,
        decreases bytes@.len() - i,
    {
        out.push(bytes[i] as char);
        i += 1;
    }
    out
}

/// The escape sequence that begins the emphasis of `color`.
pub fn emphasis_start(color: Colors) -> (r: Vec<char>)
    ensures
        r@ == emphasis_on(color),
{
    let on = letters(&ansi_emphasis(color));
    assert(on@ =~= emphasis_on(color));
    on
}

/// The escape sequence that ends an emphasis.
pub fn emphasis_end() -> (r: Vec<char>)
    ensures
        r@ == emphasis_off(),
{
    let off = letters(&ansi_reset());
    assert(off@ =~= emphasis_off());
    off
}

/// A piece of text between `on` and `off`. An empty piece gets no marks.
pub open spec fn wrapped(piece: Seq<char>, on: Seq<char>, off: Seq<char>) -> Seq<char> {
    if piece.len() == 0 {
        piece
    } else {
        on + piece + off
    }
}

/// The text with `on` written before and `off` after each span. Everything
/// else is copied as it is.
pub open spec fn marked(text: Seq<char>, spans: Seq<Span>, on: Seq<char>, off: Seq<char>) -> Seq<
    char,
>
    decreases spans.len(),
{
    if spans.len() == 0 {
        text
    } else {
        let last = spans.last();
        marked(text.take(last.start as int), spans.drop_last(), on, off) + wrapped(
            text.subrange(last.start as int, last.end as int),
            on,
            off,
        ) + text.skip(last.end as int)
    }
}

/// Marking a text is marking its beginning, as far as the spans reach, and
/// copying the rest.
pub proof fn lemma_marked_cut(
    text: Seq<char>,
    spans: Seq<Span>,
    on: Seq<char>,
    off: Seq<char>,
    cut: int,
)
    requires
        within(text, spans),
        0 <= cut <= text.len(),
        forall|k: int| 0 <= k < spans.len() ==> (#[trigger] spans[k]).end <= cut,
    ensures
        marked(text.take(cut), spans, on, off) + text.skip(cut) == marked(text, spans, on, off),
{
    if spans.len() == 0 {
        assert(text.take(cut) + text.skip(cut) =~= text);
    } else {
        let last = spans.last();
        let s = last.start as int;
        let e = last.end as int;
        assert(text.take(cut).take(s) =~= text.take(s));
        assert(text.take(cut).subrange(s, e) =~= text.subrange(s, e));
        assert(text.take(cut).skip(e) + text.skip(cut) =~= text.skip(e));
        assert(marked(text.take(cut), spans, on, off) + text.skip(cut) =~= marked(
            text,
            spans,
            on,
            off,
        ));
    }
}

/// Marks that write nothing leave the text as it is: marking only ever adds
/// the marks.
pub proof fn lemma_marking_keeps_text(text: Seq<char>, spans: Seq<Span>)
    requires
        within(text, spans),
    ensures
        marked(text, spans, Seq::empty(), Seq::empty()) == text,
    decreases spans.len(),
{
    if spans.len() > 0 {
        let last = spans.last();
        let s = last.start as int;
        let e = last.end as int;
        let head = text.take(s);
        assert(within(head, spans.drop_last())) by {
            assert forall|k: int| 0 <= k < spans.drop_last().len() implies (
            #[trigger] spans.drop_last()[k]).start <= spans.drop_last()[k].end <= head.len() by {
                assert(spans[k].end <= spans[spans.len() - 1].start);
            }
        }
        lemma_marking_keeps_text(head, spans.drop_last());
        let nothing = Seq::<char>::empty();
        assert(wrapped(text.subrange(s, e), nothing, nothing) =~= text.subrange(s, e));
        assert(head + text.subrange(s, e) + text.skip(e) =~= text);
    }
}

/// Computes [`marked`].
pub fn mark(text: &Vec<char>, spans: &Vec<Span>, on: &Vec<char>, off: &Vec<char>) -> (r: Vec<char>)
    requires
        within(text@, spans@),
    ensures
        r@ == marked(text@, spans@, on@, off@),
{
    let mut out: Vec<char> = Vec::new();
    let mut pos: usize = 0;
    let mut k: usize = 0;
    assert(text@.take(0) =~= Seq::<char>::empty());
    while k < spans.len()
        invariant
            k <= spans@.len(),
            within(text@, spans@),
            pos <= text@.len(),
            k == 0 ==> pos == 0,
            k > 0 ==> pos == spans@[k - 1].end,
            out@ == marked(text@.take(pos as int), spans@.take(k as int), on@, off@),
        decreases spans@.len() - k,
    {
        let span = spans[k];
        let ghost seen = spans@.take(k as int);
        let ghost head = text@.take(span.start as int);
        proof {
            if k > 0 {
                assert(spans@[k - 1].end <= spans@[k as int].start);
            }
            assert(within(head, seen)) by {
                assert forall|m: int| 0 <= m < seen.len() implies (#[trigger] seen[m]).start
                    <= seen[m].end <= head.len() by {
                    assert(spans@[m].end <= spans@[k as int].start);
                }
            }
            assert forall|m: int| 0 <= m < seen.len() implies (#[trigger] seen[m]).end <= pos by {
                if m < k - 1 {
                    assert(spans@[m].end <= spans@[k - 1].start);
                }
            }
            lemma_marked_cut(head, seen, on@, off@, pos as int);
            assert(head.take(pos as int) =~= text@.take(pos as int));
            assert(head.skip(pos as int) =~= text@.subrange(pos as int, span.start as int));
        }
        push_range(&mut out, text, pos, span.start);
        assert(out@ == marked(head, seen, on@, off@));
        if span.start < span.end {
            push_all(&mut out, on);
            push_range(&mut out, text, span.start, span.end);
            push_all(&mut out, off);
        }
        proof {
            let upto = text@.take(span.end as int);
            let now = spans@.take(k + 1);
            assert(now.last() == span);
            assert(now.drop_last() =~= seen);
            assert(upto.take(span.start as int) =~= head);
            assert(upto.subrange(span.start as int, span.end as int) =~= text@.subrange(
                span.start as int,
                span.end as int,
            ));
            assert(upto.skip(span.end as int) =~= Seq::<char>::empty());
            assert(out@ =~= marked(upto, now, on@, off@));
        }
        pos = span.end;
        k += 1;
    }
    proof {
        assert(spans@.take(spans@.len() as int) =~= spans@);
        assert forall|m: int| 0 <= m < spans@.len() implies (#[trigger] spans@[m]).end <= pos by {
            if m < spans@.len() - 1 {
                assert(spans@[m].end <= spans@[spans@.len() - 1].start);
            }
        }
        lemma_marked_cut(text@, spans@, on@, off@, pos as int);
    }
    push_range(&mut out, text, pos, text.len());
    assert(text@.subrange(pos as int, text@.len() as int) =~= text@.skip(pos as int));
    out
}

/// The order in which the lines of one kind are shown: as they are where
/// the output is flipped, last first otherwise.
pub open spec fn arranged(lines: Seq<Seq<char>>, flip: bool) -> Seq<Seq<char>> {
    if flip {
        lines
    } else {
        lines.reverse()
    }
}

/// The lines of one kind of match as they are shown: the lines joined by line
/// feeds, with every occurrence of the term marked in the color of the kind
/// where colors are used, and cut at the line feeds again. The order of the
/// output plays no part in it. `None` where the term has to be found and no
/// matcher can be built for it.
pub open spec fn shown_lines(
    lines: Seq<Seq<char>>,
    term: Seq<char>,
    ignore_case: bool,
    color: Colors,
    use_color: bool,
) -> Option<Seq<Seq<char>>> {
    let text = joined(lines, seq!['\n']);
    let found = if use_color {
        occurrences_in(term, ignore_case, text)
    } else {
        Some(Seq::empty())
    };
    match found {
        Some(spans) => Some(
            if lines.len() == 0 {
                Seq::empty()
            } else {
                pieces(marked(text, spans, emphasis_on(color), emphasis_off()))
            },
        ),
        None => None,
    }
}

/// Without colors every line is shown as it is, where none holds a line
/// feed: no line is dropped, and none is changed.
pub proof fn lemma_plain_lines_are_shown(
    lines: Seq<Seq<char>>,
    term: Seq<char>,
    ignore_case: bool,
    color: Colors,
)
    requires
        are_single_lines(lines),
    ensures
        shown_lines(lines, term, ignore_case, color, false) == Some(lines),
{
    if lines.len() > 0 {
        lemma_pieces_of_joined(lines);
    } else {
        assert(lines =~= Seq::<Seq<char>>::empty());
    }
}

/// With colors every line is shown, and the marks are all that is added: the
/// lines as they are shown, joined again, are the joined lines with the
/// occurrences marked.
pub proof fn lemma_marked_lines_are_shown(
    lines: Seq<Seq<char>>,
    term: Seq<char>,
    ignore_case: bool,
    color: Colors,
)
    requires
        lines.len() > 0,
        shown_lines(lines, term, ignore_case, color, true) is Some,
    ensures
        joined(shown_lines(lines, term, ignore_case, color, true).unwrap(), seq!['\n'])
            == marked(
            joined(lines, seq!['\n']),
            occurrences_in(term, ignore_case, joined(lines, seq!['\n'])).unwrap(),
            emphasis_on(color),
            emphasis_off(),
        ),
{
    let text = marked(
        joined(lines, seq!['\n']),
        occurrences_in(term, ignore_case, joined(lines, seq!['\n'])).unwrap(),
        emphasis_on(color),
        emphasis_off(),
    );
    lemma_joined_pieces(text, 0);
}

/// What is shown for one kind of match: its lines as they are shown, last
/// first unless the output is flipped, each ended by a line feed. No lines
/// make an empty block.
pub open spec fn shown(
    lines: Seq<Seq<char>>,
    term: Seq<char>,
    ignore_case: bool,
    flip: bool,
    color: Colors,
    use_color: bool,
) -> Option<Seq<char>> {
    match shown_lines(lines, term, ignore_case, color, use_color) {
        Some(marked_lines) => Some(with_line_feeds(arranged(marked_lines, flip))),
        None => None,
    }
}

/// Computes [`arranged`].
pub fn arrange(lines: &Vec<String>, flip: bool) -> (r: Vec<String>)
    ensures
        views(r@) == arranged(views(lines@), flip),
{
    let mut out: Vec<String> = Vec::new();
    let n = lines.len();
    let mut i: usize = 0;
    while i < n
        invariant
            n == lines@.len(),
            i <= n,
            out@.len() == i,
            forall|k: int|
                0 <= k < i ==> (#[trigger] out@[k])@ == lines@[if flip {
                    k
                } else {
                    n - 1 - k
                }]@,
        decreases n - i,
    {
        let from = if flip {
            i
        } else {
            n - 1 - i
        };
        out.push(lines[from].clone());
        i += 1;
    }
    assert(views(out@) =~= arranged(views(lines@), flip));
    out
}

/// Computes [`arranged`] for lines of characters.
pub fn arrange_rows(lines: &Vec<Vec<char>>, flip: bool) -> (r: Vec<Vec<char>>)
    ensures
        rows(r@) == arranged(rows(lines@), flip),
{
    let mut out: Vec<Vec<char>> = Vec::new();
    let n = lines.len();
    let mut i: usize = 0;
    while i < n
        invariant
            n == lines@.len(),
            i <= n,
            out@.len() == i,
            forall|k: int|
                0 <= k < i ==> (#[trigger] out@[k])@ == lines@[if flip {
                    k
                } else {
                    n - 1 - k
                }]@,
        decreases n - i,
    {
        let from = if flip {
            i
        } else {
            n - 1 - i
        };
        let mut line: Vec<char> = Vec::new();
        push_all(&mut line, &lines[from]);
        out.push(line);
        i += 1;
    }
    assert(rows(out@) =~= arranged(rows(lines@), flip));
    out
}

/// Builds the block of one kind of match.
fn show(lines: &Vec<String>, term: &str, ignore_case: bool, flip: bool, color: Colors, use_color: bool) -> (r:
    Result<String, SearchError>)
    ensures
        match r {
            Ok(text) => shown(views(lines@), term@, ignore_case, flip, color, use_color) == Some(
                text@,
            ),
            Err(_) => shown(views(lines@), term@, ignore_case, flip, color, use_color) is None,
        },
{
    let text = join(lines, "\n");
    proof {
        reveal_strlit("\n");
        assert("\n"@ =~= seq!['\n']);
    }
    let chars = chars_of(text.as_str());
    let marked_text: Vec<char> = if use_color {
        let spans = match occurrences(term, ignore_case, text.as_str()) {
            Ok(spans) => spans,
            Err(error) => {
                return Err(error);
            },
        };
        mark(&chars, &spans, &emphasis_start(color), &emphasis_end())
    } else {
        chars
    };
    if lines.len() == 0 {
        let ghost none = Seq::<Seq<char>>::empty();
        assert(arranged(none, flip) =~= none);
        assert(with_line_feeds(none) =~= Seq::<char>::empty());
        return Ok(String::new());
    }
    let ordered = arrange_rows(&split_pieces(&marked_text), flip);
    Ok(string_of(&string_lines(&ordered)))
}

/// Marks the search term in the three kinds of matches.
///
/// Each kind becomes one block of text, every line ended by a line feed; the
/// lines of a kind come last first unless the output is flipped. With
/// `use_color`, every occurrence of the term is written in bold and in the
/// color of its kind. The blocks come in the order exact, direct, indirect.
pub fn color_matches(cli: &Settings, sorted_padded_matches: MatchVecs, use_color: bool) -> (r:
    Result<[String; 3], SearchError>)
    ensures
        match r {
            Ok(blocks) => {
                &&& shown(
                    views(sorted_padded_matches.0@),
                    cli.search_term@,
                    cli.ignore_case,
                    cli.flip,
                    cli.exact_color,
                    use_color,
                ) == Some(blocks[0]@)
                &&& shown(
                    views(sorted_padded_matches.1@),
                    cli.search_term@,
                    cli.ignore_case,
                    cli.flip,
                    cli.direct_color,
                    use_color,
                ) == Some(blocks[1]@)
                &&& shown(
                    views(sorted_padded_matches.2@),
                    cli.search_term@,
                    cli.ignore_case,
                    cli.flip,
                    cli.indirect_color,
                    use_color,
                ) == Some(blocks[2]@)
            },
            Err(_) => {
                ||| shown(
                    views(sorted_padded_matches.0@),
                    cli.search_term@,
                    cli.ignore_case,
                    cli.flip,
                    cli.exact_color,
                    use_color,
                ) is None
                ||| shown(
                    views(sorted_padded_matches.1@),
                    cli.search_term@,
                    cli.ignore_case,
                    cli.flip,
                    cli.direct_color,
                    use_color,
                ) is None
                ||| shown(
                    views(sorted_padded_matches.2@),
                    cli.search_term@,
                    cli.ignore_case,
                    cli.flip,
                    cli.indirect_color,
                    use_color,
                ) is None
            },
        },
{
    let term = cli.search_term.as_str();
    let exact = match show(
        &sorted_padded_matches.0,
        term,
        cli.ignore_case,
        cli.flip,
        cli.exact_color,
        use_color,
    ) {
        Ok(text) => text,
        Err(error) => {
            return Err(error);
        },
    };
    let direct = match show(
        &sorted_padded_matches.1,
        term,
        cli.ignore_case,
        cli.flip,
        cli.direct_color,
        use_color,
    ) {
        Ok(text) => text,
        Err(error) => {
            return Err(error);
        },
    };
    let indirect = match show(
        &sorted_padded_matches.2,
        term,
        cli.ignore_case,
        cli.flip,
        cli.indirect_color,
        use_color,
    ) {
        Ok(text) => text,
        Err(error) => {
            return Err(error);
        },
    };
    Ok([exact, direct, indirect])
}

} // verus!
