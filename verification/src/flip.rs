//! What flipping does to the output, line by line.
//!
//! Flipping turns the order of the kinds and the order of the lines within
//! each kind around. So the lines of the flipped output are the lines of the
//! unflipped output in reverse order, provided that cutting the whitespace
//! around the whole takes nothing but the last line feed away, or that the
//! output is a single line.

use crate::assemble::{
    assembled, is_present, lemma_filter_reverse, lemma_trim_end, separator, trim_end, trimmed,
};
use crate::highlight::{
    arranged, emphasis_off, emphasis_on, lemma_plain_lines_are_shown, marked, shown,
    shown_lines,
};
use crate::spans::occurrences_in;
use crate::search::{output_of, without_return};
use crate::settings::Colors;
use crate::text::{
    are_single_lines, is_whitespace, joined, lemma_line_feeds_add, lemma_line_feeds_of_one,
    lemma_lines_behind, lemma_pieces_are_single, lemma_position_stops,
    lemma_skip_whitespace, lemma_skip_whitespace_stops, line_at, lines_of, skip_whitespace,
    with_line_feeds,
};
use vstd::prelude::*;

verus! {

/// The lines that stand between two kinds: one empty line where the kinds are
/// separated, none otherwise.
pub open spec fn gap(separate: bool) -> Seq<Seq<char>> {
    if separate {
        seq![Seq::empty()]
    } else {
        Seq::empty()
    }
}

/// Two runs of lines one after the other, with `between` in between where
/// neither is empty.
pub open spec fn glued(
    a: Seq<Seq<char>>,
    b: Seq<Seq<char>>,
    between: Seq<Seq<char>>,
) -> Seq<Seq<char>> {
    if a.len() == 0 {
        b
    } else if b.len() == 0 {
        a
    } else {
        a + between + b
    }
}

/// The lines of the output before whitespace is cut: the lines of the three
/// kinds in the order in which they are shown, with the gap between kinds.
pub open spec fn output_lines(
    exact: Seq<Seq<char>>,
    direct: Seq<Seq<char>>,
    indirect: Seq<Seq<char>>,
    flip: bool,
    separate: bool,
) -> Seq<Seq<char>> {
    if flip {
        glued(glued(exact, direct, gap(separate)), indirect, gap(separate))
    } else {
        glued(
            glued(indirect.reverse(), direct.reverse(), gap(separate)),
            exact.reverse(),
            gap(separate),
        )
    }
}

/// Two texts one after the other, with `sep` in between where neither is
/// empty.
pub open spec fn glued_text(a: Seq<char>, b: Seq<char>, sep: Seq<char>) -> Seq<char> {
    if a.len() == 0 {
        b
    } else if b.len() == 0 {
        a
    } else {
        a + sep + b
    }
}

/// The blocks one after the other, empty ones left out, with `sep` between
/// each two.
pub open spec fn glued_blocks(blocks: Seq<Seq<char>>, sep: Seq<char>) -> Seq<char>
    decreases blocks.len(),
{
    if blocks.len() == 0 {
        Seq::empty()
    } else {
        glued_text(glued_blocks(blocks.drop_last(), sep), blocks.last(), sep)
    }
}

/// True for a line that is not empty and neither begins nor ends with
/// whitespace.
pub open spec fn is_clean(line: Seq<char>) -> bool {
    &&& line.len() > 0
    &&& !is_whitespace(line.first())
    &&& !is_whitespace(line.last())
}

/// True when the first and the last of the lines are clean, so that cutting
/// whitespace around the lines strung together takes only the last line feed
/// away.
pub open spec fn has_clean_edges(lines: Seq<Seq<char>>) -> bool {
    lines.len() > 0 ==> is_clean(lines.first()) && is_clean(lines.last())
}

/// True when cutting the whitespace around the lines strung together leaves
/// the lines in step: there is at most one line, or the first and the last
/// line are clean.
pub open spec fn survives_trimming(lines: Seq<Seq<char>>) -> bool {
    lines.len() <= 1 || has_clean_edges(lines)
}

/// The gap strung together is the separator.
pub proof fn lemma_line_feeds_of_gap(separate: bool)
    ensures
        with_line_feeds(gap(separate)) == separator(separate),
{
    lemma_line_feeds_of_one(Seq::empty());
    assert(Seq::<char>::empty().push('\n') =~= seq!['\n']);
    assert(with_line_feeds(Seq::<Seq<char>>::empty()) =~= Seq::<char>::empty());
}

/// Gluing lines, then stringing them, is stringing them, then gluing the
/// texts.
pub proof fn lemma_line_feeds_glued(a: Seq<Seq<char>>, b: Seq<Seq<char>>, separate: bool)
    ensures
        with_line_feeds(glued(a, b, gap(separate))) == glued_text(
            with_line_feeds(a),
            with_line_feeds(b),
            separator(separate),
        ),
        with_line_feeds(a).len() == 0 <==> a.len() == 0,
        with_line_feeds(b).len() == 0 <==> b.len() == 0,
{
    lemma_line_feeds_of_gap(separate);
    lemma_line_feeds_add(a, gap(separate));
    lemma_line_feeds_add(a + gap(separate), b);
}

/// Joining the blocks that hold something is gluing all blocks.
pub proof fn lemma_joined_is_glued(blocks: Seq<Seq<char>>, sep: Seq<char>)
    ensures
        joined(blocks.filter(is_present()), sep) == glued_blocks(blocks, sep),
        blocks.filter(is_present()).len() == 0 <==> glued_blocks(blocks, sep).len() == 0,
    decreases blocks.len(),
{
    let pick = is_present();
    if blocks.len() == 0 {
        assert(blocks.filter(pick) =~= Seq::<Seq<char>>::empty());
    } else {
        let rest = blocks.drop_last();
        let last = blocks.last();
        lemma_joined_is_glued(rest, sep);
        assert(blocks =~= rest.push(last));
        rest.lemma_filter_push(last, pick);
        let kept = rest.filter(pick);
        if pick(last) {
            assert(kept.push(last).drop_last() =~= kept);
            assert(kept.push(last).last() == last);
            if kept.len() == 0 {
                assert(kept.push(last)[0] == last);
            }
        }
    }
}

/// Three blocks glued.
pub proof fn lemma_glued_three(x: Seq<char>, y: Seq<char>, z: Seq<char>, sep: Seq<char>)
    ensures
        glued_blocks(seq![x, y, z], sep) == glued_text(glued_text(x, y, sep), z, sep),
{
    let all = seq![x, y, z];
    let two = seq![x, y];
    let one = seq![x];
    assert(all.drop_last() =~= two);
    assert(two.drop_last() =~= one);
    let none = Seq::<Seq<char>>::empty();
    assert(one.drop_last() =~= none);
    assert(glued_blocks(none, sep) =~= Seq::<char>::empty());
    assert(glued_blocks(one, sep) == x);
    assert(glued_blocks(two, sep) == glued_text(x, y, sep));
}

/// The lines of lines strung together, with more text behind them, are the
/// lines, each without the carriage return at its end, and then the lines of
/// what follows.
pub proof fn lemma_lines_before(lines: Seq<Seq<char>>, tail: Seq<char>)
    requires
        are_single_lines(lines),
    ensures
        lines_of(with_line_feeds(lines) + tail) == lines.map_values(
            |line: Seq<char>| without_return(line),
        ) + lines_of(tail),
    decreases lines.len(),
{
    let strip = |line: Seq<char>| without_return(line);
    if lines.len() == 0 {
        assert(lines.map_values(strip) =~= Seq::<Seq<char>>::empty());
        assert(with_line_feeds(lines) + tail =~= tail);
        assert(lines.map_values(strip) + lines_of(tail) =~= lines_of(tail));
    } else {
        let first = lines[0];
        let head = first.push('\n');
        let rest = lines.drop_first();
        let behind = with_line_feeds(rest) + tail;
        let text = head + behind;
        assert(with_line_feeds(lines) + tail =~= text);
        assert(are_single_lines(rest)) by {
            assert forall|k: int, i: int|
                0 <= k < rest.len() && 0 <= i < rest[k].len() implies #[trigger] rest[k][i]
                != '\n' by {
                assert(rest[k] == lines[k + 1]);
            }
        }
        lemma_lines_before(rest, tail);
        assert forall|i: int| 0 <= i < first.len() implies text[i] != '\n' by {
            assert(text[i] == lines[0][i]);
        }
        assert(text[first.len() as int] == '\n');
        lemma_position_stops(text, '\n', 0, first.len() as int);
        assert(text.subrange(0, first.len() as int) =~= first);
        if first.len() > 0 {
            assert(text[first.len() - 1] == first.last());
            assert(text.subrange(0, first.len() - 1) =~= first.drop_last());
        }
        assert(line_at(text, 0) == without_return(first));
        lemma_lines_behind(head, behind, 0);
        assert(lines_of(text) =~= seq![without_return(first)] + lines_of(behind));
        assert(lines.map_values(strip) =~= seq![without_return(first)] + rest.map_values(strip));
        assert(lines_of(text) =~= lines.map_values(strip) + lines_of(tail));
    }
}

/// A text without a line feed that is not empty is one line.
pub proof fn lemma_one_line(line: Seq<char>)
    requires
        line.len() > 0,
        forall|i: int| 0 <= i < line.len() ==> line[i] != '\n',
    ensures
        lines_of(line) == seq![line],
{
    lemma_position_stops(line, '\n', 0, line.len() as int);
    assert(line.subrange(0, line.len() as int) =~= line);
    assert(line_at(line, 0) == line);
}

/// Where the first and the last line are clean, cutting the whitespace
/// around lines strung together takes the last line feed away and nothing
/// else: what is left splits into the same lines, each without the carriage
/// return at its end.
pub proof fn lemma_trimmed_lines(lines: Seq<Seq<char>>)
    requires
        are_single_lines(lines),
        has_clean_edges(lines),
    ensures
        lines_of(trimmed(with_line_feeds(lines))) == lines.map_values(
            |line: Seq<char>| without_return(line),
        ),
{
    let strip = |line: Seq<char>| without_return(line);
    let text = with_line_feeds(lines);
    if lines.len() == 0 {
        assert(trimmed(text) =~= Seq::<char>::empty());
        assert(lines_of(Seq::<char>::empty()) =~= Seq::<Seq<char>>::empty());
        assert(lines.map_values(strip) =~= Seq::<Seq<char>>::empty());
    } else {
        let front = lines.drop_last();
        let last = lines.last();
        let kept = with_line_feeds(front) + last;
        assert(lines =~= front + seq![last]);
        lemma_line_feeds_add(front, seq![last]);
        lemma_line_feeds_of_one(last);
        assert(text =~= kept.push('\n'));
        // Nothing is cut in front.
        assert(text[0] == lines[0][0]) by {
            if front.len() > 0 {
                assert(front[0] == lines[0]);
                assert(with_line_feeds(front)[0] == front[0].push('\n')[0]);
            }
        }
        lemma_skip_whitespace_stops(text, 0, 0);
        // The line feed at the end is cut, and nothing before it.
        assert(text.last() == '\n');
        assert(text.drop_last() =~= kept);
        assert(kept.last() == last.last());
        assert(trim_end(kept) == kept.len());
        assert(trim_end(text) == kept.len());
        assert(trimmed(text) =~= kept);
        assert(are_single_lines(front)) by {
            assert forall|k: int, i: int|
                0 <= k < front.len() && 0 <= i < front[k].len() implies #[trigger] front[k][i]
                != '\n' by {
                assert(front[k] == lines[k]);
            }
        }
        lemma_lines_before(front, last);
        assert forall|i: int| 0 <= i < last.len() implies last[i] != '\n' by {
            assert(lines[lines.len() - 1][i] != '\n');
        }
        lemma_one_line(last);
        assert(without_return(last) == last);
        assert(lines.map_values(strip) =~= front.map_values(strip) + seq![last]);
    }
}

/// The blocks of three kinds whose lines are given as they are shown: each
/// kind in the order of the output, its lines strung together.
pub open spec fn blocks_of(
    exact: Seq<Seq<char>>,
    direct: Seq<Seq<char>>,
    indirect: Seq<Seq<char>>,
    flip: bool,
) -> Seq<Seq<char>> {
    seq![
        with_line_feeds(arranged(exact, flip)),
        with_line_feeds(arranged(direct, flip)),
        with_line_feeds(arranged(indirect, flip)),
    ]
}

/// The output is its lines strung together, with the whitespace around the
/// whole cut off.
pub proof fn lemma_output_is_lines(
    exact: Seq<Seq<char>>,
    direct: Seq<Seq<char>>,
    indirect: Seq<Seq<char>>,
    flip: bool,
    separate: bool,
)
    ensures
        assembled(blocks_of(exact, direct, indirect, flip), flip, separate) == trimmed(
            with_line_feeds(output_lines(exact, direct, indirect, flip, separate)),
        ),
{
    let blocks = blocks_of(exact, direct, indirect, flip);
    let sep = separator(separate);
    if flip {
        lemma_joined_is_glued(blocks, sep);
        lemma_glued_three(blocks[0], blocks[1], blocks[2], sep);
        assert(blocks =~= seq![blocks[0], blocks[1], blocks[2]]);
        lemma_line_feeds_glued(exact, direct, separate);
        lemma_line_feeds_glued(glued(exact, direct, gap(separate)), indirect, separate);
    } else {
        let turned = seq![blocks[2], blocks[1], blocks[0]];
        lemma_filter_reverse(blocks, is_present());
        assert(blocks.reverse() =~= turned);
        lemma_joined_is_glued(turned, sep);
        lemma_glued_three(blocks[2], blocks[1], blocks[0], sep);
        lemma_line_feeds_glued(indirect.reverse(), direct.reverse(), separate);
        lemma_line_feeds_glued(
            glued(indirect.reverse(), direct.reverse(), gap(separate)),
            exact.reverse(),
            separate,
        );
    }
}

/// Gluing turned around is gluing the parts turned around, in the other
/// order.
pub proof fn lemma_glued_reverse(a: Seq<Seq<char>>, b: Seq<Seq<char>>, separate: bool)
    ensures
        glued(a, b, gap(separate)).reverse() == glued(b.reverse(), a.reverse(), gap(separate)),
{
    let between = gap(separate);
    assert(between.reverse() =~= between);
    assert((a + between + b).reverse() =~= b.reverse() + between.reverse() + a.reverse());
    assert(glued(a, b, between).reverse() =~= glued(b.reverse(), a.reverse(), between));
}

/// Gluing three runs of lines gives the same whichever two are glued first.
pub proof fn lemma_glued_twice(
    a: Seq<Seq<char>>,
    b: Seq<Seq<char>>,
    c: Seq<Seq<char>>,
    separate: bool,
)
    ensures
        glued(glued(a, b, gap(separate)), c, gap(separate)) == glued(
            a,
            glued(b, c, gap(separate)),
            gap(separate),
        ),
{
    assert(glued(glued(a, b, gap(separate)), c, gap(separate)) =~= glued(
        a,
        glued(b, c, gap(separate)),
        gap(separate),
    ));
}

/// The lines of the unflipped output, before whitespace is cut, are those of
/// the flipped output in reverse order.
pub proof fn lemma_output_lines_reverse(
    exact: Seq<Seq<char>>,
    direct: Seq<Seq<char>>,
    indirect: Seq<Seq<char>>,
    separate: bool,
)
    ensures
        output_lines(exact, direct, indirect, false, separate) == output_lines(
            exact,
            direct,
            indirect,
            true,
            separate,
        ).reverse(),
{
    let between = gap(separate);
    lemma_glued_reverse(glued(exact, direct, between), indirect, separate);
    lemma_glued_reverse(exact, direct, separate);
    lemma_glued_twice(indirect.reverse(), direct.reverse(), exact.reverse(), separate);
}

/// Lines glued are single lines where the parts are.
pub proof fn lemma_glued_single(a: Seq<Seq<char>>, b: Seq<Seq<char>>, separate: bool)
    requires
        are_single_lines(a),
        are_single_lines(b),
    ensures
        are_single_lines(glued(a, b, gap(separate))),
{
    let all = glued(a, b, gap(separate));
    assert forall|k: int, i: int| 0 <= k < all.len() && 0 <= i < all[k].len() implies #[trigger] all[k][i]
        != '\n' by {
        if a.len() > 0 && b.len() > 0 {
            if k < a.len() {
                assert(all[k] == a[k]);
            } else if k < a.len() + gap(separate).len() {
                assert(all[k] == gap(separate)[k - a.len()]);
            } else {
                assert(all[k] == b[k - a.len() - gap(separate).len()]);
            }
        }
    }
}

/// What is left of a single line once the whitespace around it is cut is at
/// most one line.
pub proof fn lemma_trimmed_single_line(lines: Seq<Seq<char>>)
    requires
        are_single_lines(lines),
        lines.len() <= 1,
    ensures
        lines_of(trimmed(with_line_feeds(lines))).len() <= 1,
{
    let text = with_line_feeds(lines);
    let left = trimmed(text);
    if lines.len() == 0 {
        assert(text =~= Seq::<char>::empty());
        assert(left =~= Seq::<char>::empty());
    } else {
        let line = lines[0];
        assert(lines =~= seq![line]);
        lemma_line_feeds_of_one(line);
        assert(text.drop_last() =~= line);
        lemma_trim_end(line);
        assert(trim_end(text) == trim_end(line));
        lemma_skip_whitespace(text, 0);
        if left.len() > 0 {
            assert forall|i: int| 0 <= i < left.len() implies left[i] != '\n' by {
                assert(left[i] == lines[0][skip_whitespace(text, 0) + i]);
            }
            lemma_one_line(left);
        }
    }
}

/// No line that is shown holds a line feed.
pub proof fn lemma_shown_lines_are_single(
    lines: Seq<Seq<char>>,
    term: Seq<char>,
    ignore_case: bool,
    color: Colors,
    use_color: bool,
)
    requires
        shown_lines(lines, term, ignore_case, color, use_color) is Some,
    ensures
        are_single_lines(shown_lines(lines, term, ignore_case, color, use_color).unwrap()),
{
    if lines.len() > 0 {
        let text = joined(lines, seq!['\n']);
        let spans = if use_color {
            occurrences_in(term, ignore_case, text).unwrap()
        } else {
            Seq::empty()
        };
        lemma_pieces_are_single(marked(text, spans, emphasis_on(color), emphasis_off()), 0);
    }
}

/// The lines of the flipped output are the lines of the unflipped output in
/// reverse order: the order of the kinds and the order of the lines within
/// each kind are both turned around, the empty line between two kinds stays
/// between them, and no line is changed.
///
/// The lines are given as they are shown, marks and all, and none of them
/// holds a line feed. Unless the output is a single line, its first and its
/// last line have to be clean, so that cutting the whitespace around the
/// whole takes nothing of them away: what is cut is cut in front of the
/// first line and behind the last, and flipping makes the first line the
/// last.
pub proof fn lemma_flip_reverses_the_lines(
    exact: Seq<Seq<char>>,
    direct: Seq<Seq<char>>,
    indirect: Seq<Seq<char>>,
    separate: bool,
)
    requires
        are_single_lines(exact),
        are_single_lines(direct),
        are_single_lines(indirect),
        survives_trimming(output_lines(exact, direct, indirect, true, separate)),
    ensures
        lines_of(assembled(blocks_of(exact, direct, indirect, true), true, separate)) == lines_of(
            assembled(blocks_of(exact, direct, indirect, false), false, separate),
        ).reverse(),
{
    let strip = |line: Seq<char>| without_return(line);
    let flipped = output_lines(exact, direct, indirect, true, separate);
    let unflipped = output_lines(exact, direct, indirect, false, separate);
    lemma_glued_single(exact, direct, separate);
    lemma_glued_single(glued(exact, direct, gap(separate)), indirect, separate);
    lemma_output_lines_reverse(exact, direct, indirect, separate);
    if flipped.len() <= 1 {
        assert(unflipped =~= flipped);
        lemma_output_is_lines(exact, direct, indirect, true, separate);
        lemma_output_is_lines(exact, direct, indirect, false, separate);
        lemma_trimmed_single_line(flipped);
        let left = lines_of(trimmed(with_line_feeds(flipped)));
        assert(left.reverse() =~= left);
        return ;
    }
    assert(are_single_lines(unflipped)) by {
        assert forall|k: int, i: int|
            0 <= k < unflipped.len() && 0 <= i < unflipped[k].len() implies #[trigger] unflipped[k][i]
            != '\n' by {
            assert(unflipped[k] == flipped[flipped.len() - 1 - k]);
        }
    }
    assert(has_clean_edges(unflipped)) by {
        if unflipped.len() > 0 {
            assert(unflipped.first() == flipped.last());
            assert(unflipped.last() == flipped.first());
        }
    }
    lemma_output_is_lines(exact, direct, indirect, true, separate);
    lemma_output_is_lines(exact, direct, indirect, false, separate);
    lemma_trimmed_lines(flipped);
    lemma_trimmed_lines(unflipped);
    assert(unflipped.map_values(strip).reverse() =~= flipped.map_values(strip));
}

/// The lines of the flipped output of a search are the lines of its
/// unflipped output in reverse order, with or without colors: flipping turns
/// the order of the kinds and the order of the lines within each kind
/// around, the empty line between two kinds stays between them, and every
/// line is marked alike in both.
///
/// Unless the output is a single line, its first and its last line, as they
/// are shown, have to be clean, so that cutting the whitespace around the
/// whole takes nothing of them away.
pub proof fn lemma_flipped_search_reverses_the_lines(
    exact: Seq<Seq<char>>,
    direct: Seq<Seq<char>>,
    indirect: Seq<Seq<char>>,
    colors: (Colors, Colors, Colors),
    term: Seq<char>,
    ignore_case: bool,
    use_color: bool,
    separate: bool,
)
    requires
        shown_lines(exact, term, ignore_case, colors.0, use_color) is Some,
        shown_lines(direct, term, ignore_case, colors.1, use_color) is Some,
        shown_lines(indirect, term, ignore_case, colors.2, use_color) is Some,
        survives_trimming(
            output_lines(
                shown_lines(exact, term, ignore_case, colors.0, use_color).unwrap(),
                shown_lines(direct, term, ignore_case, colors.1, use_color).unwrap(),
                shown_lines(indirect, term, ignore_case, colors.2, use_color).unwrap(),
                true,
                separate,
            ),
        ),
    ensures
        output_of(exact, direct, indirect, colors, term, ignore_case, use_color, true, separate)
            is Some,
        output_of(exact, direct, indirect, colors, term, ignore_case, use_color, false, separate)
            is Some,
        lines_of(
            output_of(
                exact,
                direct,
                indirect,
                colors,
                term,
                ignore_case,
                use_color,
                true,
                separate,
            ).unwrap(),
        ) == lines_of(
            output_of(
                exact,
                direct,
                indirect,
                colors,
                term,
                ignore_case,
                use_color,
                false,
                separate,
            ).unwrap(),
        ).reverse(),
{
    let first = shown_lines(exact, term, ignore_case, colors.0, use_color).unwrap();
    let second = shown_lines(direct, term, ignore_case, colors.1, use_color).unwrap();
    let third = shown_lines(indirect, term, ignore_case, colors.2, use_color).unwrap();
    lemma_shown_lines_are_single(exact, term, ignore_case, colors.0, use_color);
    lemma_shown_lines_are_single(direct, term, ignore_case, colors.1, use_color);
    lemma_shown_lines_are_single(indirect, term, ignore_case, colors.2, use_color);
    assert(seq![
        shown(exact, term, ignore_case, true, colors.0, use_color).unwrap(),
        shown(direct, term, ignore_case, true, colors.1, use_color).unwrap(),
        shown(indirect, term, ignore_case, true, colors.2, use_color).unwrap(),
    ] =~= blocks_of(first, second, third, true));
    assert(seq![
        shown(exact, term, ignore_case, false, colors.0, use_color).unwrap(),
        shown(direct, term, ignore_case, false, colors.1, use_color).unwrap(),
        shown(indirect, term, ignore_case, false, colors.2, use_color).unwrap(),
    ] =~= blocks_of(first, second, third, false));
    lemma_flip_reverses_the_lines(first, second, third, separate);
}

/// Without colors, the lines of the flipped output are the lines of the
/// three kinds themselves, with the gap between kinds and each without the
/// carriage return at its end, where the first and the last of them are
/// clean.
pub proof fn lemma_plain_output_lines(
    exact: Seq<Seq<char>>,
    direct: Seq<Seq<char>>,
    indirect: Seq<Seq<char>>,
    colors: (Colors, Colors, Colors),
    term: Seq<char>,
    ignore_case: bool,
    separate: bool,
)
    requires
        are_single_lines(exact),
        are_single_lines(direct),
        are_single_lines(indirect),
        has_clean_edges(output_lines(exact, direct, indirect, true, separate)),
    ensures
        output_of(exact, direct, indirect, colors, term, ignore_case, false, true, separate)
            == Some(
            trimmed(with_line_feeds(output_lines(exact, direct, indirect, true, separate))),
        ),
        lines_of(
            trimmed(with_line_feeds(output_lines(exact, direct, indirect, true, separate))),
        ) == output_lines(exact, direct, indirect, true, separate).map_values(
            |line: Seq<char>| without_return(line),
        ),
{
    lemma_plain_lines_are_shown(exact, term, ignore_case, colors.0);
    lemma_plain_lines_are_shown(direct, term, ignore_case, colors.1);
    lemma_plain_lines_are_shown(indirect, term, ignore_case, colors.2);
    let first = shown(exact, term, ignore_case, true, colors.0, false);
    let second = shown(direct, term, ignore_case, true, colors.1, false);
    let third = shown(indirect, term, ignore_case, true, colors.2, false);
    assert(first == Some(with_line_feeds(arranged(exact, true))));
    assert(second == Some(with_line_feeds(arranged(direct, true))));
    assert(third == Some(with_line_feeds(arranged(indirect, true))));
    assert(seq![first.unwrap(), second.unwrap(), third.unwrap()] =~= blocks_of(
        exact,
        direct,
        indirect,
        true,
    ));
    lemma_output_is_lines(exact, direct, indirect, true, separate);
    lemma_glued_single(exact, direct, separate);
    lemma_glued_single(glued(exact, direct, gap(separate)), indirect, separate);
    lemma_trimmed_lines(output_lines(exact, direct, indirect, true, separate));
}

} // verus!
