//! Where a search term occurs in a text.
//!
//! The matcher of the `grep` crate proposes the occurrences, as byte ranges
//! of the UTF-8 text. The rest of the search counts in characters, so the
//! ranges are first located on the characters of the text; ranges that do
//! not fit the text are not used at all. Of the spans that result, those
//! count as occurrences that are not empty, stay in one line and cover the
//! term itself, compared as the search compares: so every occurrence holds
//! the term, whatever the matcher says, an empty term occurs nowhere, and
//! nothing is ever marked across a line feed.

use crate::text::{
    byte_len, char_width, chars_of, convert_case, find, folded, lemma_position, line_end,
    push_range, same_text, string_of, to_lowercase, utf8_width,
};
use grep::matcher::Matcher;
use grep::regex::RegexMatcherBuilder;
use vstd::prelude::*;

verus! {

/// The error that `grep` reports for a term it cannot build a matcher for.
#[verifier::external_type_specification]
#[verifier::external_body]
pub struct ExMatcherError(grep::regex::Error);

/// The byte ranges at which the `grep` matcher finds a term in a text, in the
/// order in which it reports them; `None` where it cannot build a matcher for
/// the term.
pub uninterp spec fn term_spans(term: Seq<char>, ignore_case: bool, text: Seq<char>) -> Option<
    Seq<(usize, usize)>,
>;

/// Builds a matcher for the literal `term` with `RegexMatcherBuilder::build`
/// (case-insensitive if `ignore_case`) and walks the text with
/// `Matcher::find_iter`, which visits successive non-overlapping matches.
/// The result holds start and end of each match, and is [`term_spans`] of the
/// arguments; an error comes exactly where that is `None`.
#[verifier::external_body]
pub(crate) fn find_term(term: &str, ignore_case: bool, text: &str) -> (r: Result<
    Vec<(usize, usize)>,
    grep::regex::Error,
>)
    ensures
        match r {
            Ok(found) => term_spans(term@, ignore_case, text@) == Some(found@),
            Err(_) => term_spans(term@, ignore_case, text@) is None,
        },
{
    let mut builder = RegexMatcherBuilder::new();
    let matcher = builder.case_insensitive(ignore_case).fixed_strings(true).build(term)?;
    let mut found = Vec::new();
    let _ = matcher.find_iter(text.as_bytes(), |m| { found.push((m.start(), m.end())); true });
    Ok(found)
}

/// The message of a matcher error, as its `Display` writes it.
#[verifier::external_body]
pub(crate) fn matcher_message(error: &grep::regex::Error) -> String {
    error.to_string()
}

/// Why a search could not be carried out.
#[derive(Debug)]
pub enum SearchError {
    /// No matcher can be built for the term. Carries the matcher's message.
    Term(String),
}

/// A range of characters of a text, from `start` up to `end`.
#[derive(Clone, Copy, Debug, PartialEq, Eq)]
pub struct Span {
    pub start: usize,
    pub end: usize,
}

/// Number of bytes that the first `i` characters of a text occupy.
pub open spec fn offset(text: Seq<char>, i: int) -> nat {
    byte_len(text.take(i))
}

/// True when `span` lies in the text and covers the bytes from `range.0` to
/// `range.1`.
pub open spec fn covers(text: Seq<char>, span: Span, range: (usize, usize)) -> bool {
    &&& span.start <= span.end <= text.len()
    &&& offset(text, span.start as int) == range.0
    &&& offset(text, span.end as int) == range.1
}

/// True when no span begins before an earlier one has ended.
pub open spec fn in_order(spans: Seq<Span>) -> bool {
    forall|i: int, j: int| 0 <= i < j < spans.len() ==> spans[i].end <= spans[j].start
}

/// True when `spans` are the byte ranges `ranges` counted in characters:
/// one span for each range, inside the text, on character boundaries, and in
/// order.
pub open spec fn fits(text: Seq<char>, ranges: Seq<(usize, usize)>, spans: Seq<Span>) -> bool {
    &&& spans.len() == ranges.len()
    &&& forall|k: int| 0 <= k < spans.len() ==> covers(text, #[trigger] spans[k], ranges[k])
    &&& in_order(spans)
}

/// The spans that the search works with: the byte ranges counted in
/// characters where they fit the text, and no span at all where they do not.
pub open spec fn usable_spans(text: Seq<char>, ranges: Seq<(usize, usize)>) -> Seq<Span> {
    if exists|spans: Seq<Span>| fits(text, ranges, spans) {
        choose|spans: Seq<Span>| fits(text, ranges, spans)
    } else {
        Seq::empty()
    }
}

/// Taking one more character adds its width to the offset.
pub proof fn lemma_offset_step(text: Seq<char>, i: int)
    requires
        0 <= i < text.len(),
    ensures
        offset(text, i + 1) == offset(text, i) + utf8_width(text[i]),
        offset(text, 0) == 0,
{
    assert(text.take(i + 1).drop_last() =~= text.take(i));
    assert(text.take(0) =~= Seq::<char>::empty());
}

/// Offsets grow with the index, by at least one and at most four bytes per
/// character.
pub proof fn lemma_offset_grows(text: Seq<char>, i: int, j: int)
    requires
        0 <= i <= j <= text.len(),
    ensures
        offset(text, i) + (j - i) <= offset(text, j) <= offset(text, i) + 4 * (j - i),
    decreases j - i,
{
    if i < j {
        lemma_offset_grows(text, i, j - 1);
        lemma_offset_step(text, j - 1);
    }
}

/// Two indices with the same offset are the same index.
pub proof fn lemma_offset_injective(text: Seq<char>, i: int, j: int)
    requires
        0 <= i <= text.len(),
        0 <= j <= text.len(),
        offset(text, i) == offset(text, j),
    ensures
        i == j,
{
    if i < j {
        lemma_offset_grows(text, i, j);
    } else if j < i {
        lemma_offset_grows(text, j, i);
    }
}

/// At most one sequence of spans fits given byte ranges.
pub proof fn lemma_fits_unique(
    text: Seq<char>,
    ranges: Seq<(usize, usize)>,
    a: Seq<Span>,
    b: Seq<Span>,
)
    requires
        fits(text, ranges, a),
        fits(text, ranges, b),
    ensures
        a == b,
{
    assert forall|k: int| 0 <= k < a.len() implies a[k] == b[k] by {
        assert(covers(text, a[k], ranges[k]));
        assert(covers(text, b[k], ranges[k]));
        lemma_offset_injective(text, a[k].start as int, b[k].start as int);
        lemma_offset_injective(text, a[k].end as int, b[k].end as int);
    }
    assert(a =~= b);
}

/// Walks forward from index `from`, whose offset is `at`, to the first index
/// whose offset is not below `target`, or to the end of the text.
fn seek(text: &Vec<char>, from: usize, at: u128, target: u128) -> (r: (usize, u128))
    requires
        from <= text@.len(),
        at == offset(text@, from as int),
    ensures
        from <= r.0 <= text@.len(),
        r.1 == offset(text@, r.0 as int),
        r.1 >= target || r.0 == text@.len(),
        forall|m: int| from <= m < r.0 ==> offset(text@, m) < target,
{
    let mut index: usize = from;
    let mut bytes: u128 = at;
    while index < text.len() && bytes < target
        invariant
            from <= index <= text@.len(),
            bytes == offset(text@, index as int),
            forall|m: int| from <= m < index ==> offset(text@, m) < target,
        decreases text@.len() - index,
    {
        proof {
            lemma_offset_step(text@, index as int);
            lemma_offset_grows(text@, 0, index as int);
            assert(text@.take(0) =~= Seq::<char>::empty());
        }
        bytes = bytes + char_width(text[index]);
        index += 1;
    }
    (index, bytes)
}

/// Counts byte ranges in characters: computes [`usable_spans`].
pub fn locate(text: &Vec<char>, ranges: &Vec<(usize, usize)>) -> (r: Vec<Span>)
    ensures
        r@ == usable_spans(text@, ranges@),
{
    let mut spans: Vec<Span> = Vec::new();
    let mut pos: usize = 0;
    let mut at: u128 = 0;
    let mut k: usize = 0;
    assert(text@.take(0) =~= Seq::<char>::empty());
    while k < ranges.len()
        invariant
            k <= ranges@.len(),
            spans@.len() == k,
            pos <= text@.len(),
            at == offset(text@, pos as int),
            k == 0 ==> pos == 0,
            k > 0 ==> pos == spans@[k - 1].end,
            forall|m: int| 0 <= m < k ==> covers(text@, #[trigger] spans@[m], ranges@[m]),
            in_order(spans@),
        decreases ranges@.len() - k,
    {
        let range = ranges[k];
        let ghost done = spans@;
        // What any fitting sequence must agree on, up to here.
        proof {
            assert forall|other: Seq<Span>| fits(text@, ranges@, other) implies pos
                <= #[trigger] other[k as int].start by {
                assert(covers(text@, other[k as int], ranges@[k as int]));
                if k > 0 {
                    assert(covers(text@, other[k - 1], ranges@[k - 1]));
                    assert(covers(text@, done[k - 1], ranges@[k - 1]));
                    lemma_offset_injective(
                        text@,
                        other[k - 1].end as int,
                        done[k - 1].end as int,
                    );
                }
            }
        }
        if (range.0 as u128) < at {
            proof {
                assert forall|other: Seq<Span>| !fits(text@, ranges@, other) by {
                    if fits(text@, ranges@, other) {
                        assert(covers(text@, other[k as int], ranges@[k as int]));
                        lemma_offset_grows(text@, pos as int, other[k as int].start as int);
                    }
                }
            }
            return Vec::new();
        }
        let (start, start_at) = seek(text, pos, at, range.0 as u128);
        if start_at != range.0 as u128 {
            proof {
                assert forall|other: Seq<Span>| !fits(text@, ranges@, other) by {
                    if fits(text@, ranges@, other) {
                        let a = other[k as int].start as int;
                        assert(covers(text@, other[k as int], ranges@[k as int]));
                        if a >= start {
                            lemma_offset_grows(text@, start as int, a);
                        }
                    }
                }
            }
            return Vec::new();
        }
        if range.1 < range.0 {
            proof {
                assert forall|other: Seq<Span>| !fits(text@, ranges@, other) by {
                    if fits(text@, ranges@, other) {
                        assert(covers(text@, other[k as int], ranges@[k as int]));
                        lemma_offset_grows(
                            text@,
                            other[k as int].start as int,
                            other[k as int].end as int,
                        );
                    }
                }
            }
            return Vec::new();
        }
        let (end, end_at) = seek(text, start, start_at, range.1 as u128);
        if end_at != range.1 as u128 {
            proof {
                assert forall|other: Seq<Span>| !fits(text@, ranges@, other) by {
                    if fits(text@, ranges@, other) {
                        let a = other[k as int].start as int;
                        let b = other[k as int].end as int;
                        assert(covers(text@, other[k as int], ranges@[k as int]));
                        lemma_offset_injective(text@, a, start as int);
                        if b >= end {
                            lemma_offset_grows(text@, end as int, b);
                        }
                    }
                }
            }
            return Vec::new();
        }
        spans.push(Span { start, end });
        pos = end;
        at = end_at;
        k += 1;
    }
    proof {
        assert(fits(text@, ranges@, spans@));
        lemma_fits_unique(text@, ranges@, spans@, usable_spans(text@, ranges@));
    }
    spans
}

/// True when the spans lie in the text, one after the other.
pub open spec fn within(text: Seq<char>, spans: Seq<Span>) -> bool {
    &&& forall|k: int| 0 <= k < spans.len() ==> (#[trigger] spans[k]).start <= spans[k].end
        <= text.len()
    &&& in_order(spans)
}

/// True when the piece of text holds the term: it is not empty, it holds no
/// line feed, and it is the term, compared as the search compares.
pub open spec fn holds_term(piece: Seq<char>, term: Seq<char>, ignore_case: bool) -> bool {
    &&& piece.len() > 0
    &&& line_end(piece, 0) == piece.len()
    &&& folded(piece, ignore_case) == folded(term, ignore_case)
}

/// The test for a span that holds the term: the piece of text that it covers
/// is not empty, stays in one line and is the term. So an empty term occurs
/// nowhere, and no occurrence runs over a line feed.
pub open spec fn is_occurrence(text: Seq<char>, term: Seq<char>, ignore_case: bool) -> spec_fn(
    Span,
) -> bool {
    |span: Span| holds_term(text.subrange(span.start as int, span.end as int), term, ignore_case)
}

/// The occurrences of `term` in `text`: of the spans that the matcher
/// reports, those that hold the term. `None` where no matcher can be built.
pub open spec fn occurrences_in(term: Seq<char>, ignore_case: bool, text: Seq<char>) -> Option<
    Seq<Span>,
> {
    match term_spans(term, ignore_case, text) {
        Some(ranges) => Some(
            usable_spans(text, ranges).filter(is_occurrence(text, term, ignore_case)),
        ),
        None => None,
    }
}

/// Keeps the spans that hold the term: those that are not empty, stay in one
/// line and cover the term itself. This is what makes of the spans that the
/// matcher proposed the occurrences that the search works with.
pub fn confirm(text: &Vec<char>, spans: Vec<Span>, term: &str, ignore_case: bool) -> (r: Vec<Span>)
    requires
        within(text@, spans@),
    ensures
        r@ == spans@.filter(is_occurrence(text@, term@, ignore_case)),
        within(text@, r@),
{
    let needle = chars_of(convert_case(term, ignore_case).as_str());
    let ghost holds = is_occurrence(text@, term@, ignore_case);
    let mut kept: Vec<Span> = Vec::new();
    let mut k: usize = 0;
    assert(spans@.take(0) =~= Seq::<Span>::empty());
    while k < spans.len()
        invariant
            k <= spans@.len(),
            within(text@, spans@),
            needle@ == folded(term@, ignore_case),
            holds == is_occurrence(text@, term@, ignore_case),
            kept@ == spans@.take(k as int).filter(holds),
            within(text@, kept@),
            k > 0 ==> forall|m: int|
                0 <= m < kept@.len() ==> (#[trigger] kept@[m]).end <= spans@[k - 1].end,
            k == 0 ==> kept@.len() == 0,
        decreases spans@.len() - k,
    {
        let span = spans[k];
        let mut piece: Vec<char> = Vec::new();
        push_range(&mut piece, text, span.start, span.end);
        let same = if span.start == span.end || find(&piece, '\n', 0) < piece.len() {
            false
        } else if ignore_case {
            let lowered = chars_of(to_lowercase(string_of(&piece).as_str()).as_str());
            same_text(&lowered, &needle)
        } else {
            same_text(&piece, &needle)
        };
        proof {
            let seen = spans@.take(k as int);
            assert(spans@.take(k + 1) =~= seen.push(span));
            seen.lemma_filter_push(span, holds);
            assert(same == holds(span));
            if k > 0 {
                assert(spans@[k - 1].end <= spans@[k as int].start);
            }
        }
        if same {
            kept.push(span);
        }
        k += 1;
    }
    assert(spans@.take(spans@.len() as int) =~= spans@);
    kept
}

/// Finds the occurrences of the literal `term` in `text`.
///
/// The matcher proposes where the term occurs; its byte ranges are counted
/// in characters, and a span counts only if the text it covers is the term.
/// The occurrences lie in the text, one after the other. The search fails
/// only where no matcher can be built for the term.
pub fn occurrences(term: &str, ignore_case: bool, text: &str) -> (r: Result<Vec<Span>, SearchError>)
    ensures
        match r {
            Ok(spans) => {
                &&& occurrences_in(term@, ignore_case, text@) == Some(spans@)
                &&& within(text@, spans@)
            },
            Err(_) => occurrences_in(term@, ignore_case, text@) is None,
        },
{
    match find_term(term, ignore_case, text) {
        Ok(ranges) => {
            let chars = chars_of(text);
            let spans = locate(&chars, &ranges);
            proof {
                lemma_usable_spans_fit(chars@, ranges@);
            }
            Ok(confirm(&chars, spans, term, ignore_case))
        },
        Err(error) => Err(SearchError::Term(matcher_message(&error))),
    }
}

/// Every occurrence holds the term, is not empty and lies in one line: where
/// case counts, the piece of text it covers is the term itself.
pub proof fn lemma_occurrences_hold_the_term(
    term: Seq<char>,
    ignore_case: bool,
    text: Seq<char>,
    k: int,
)
    requires
        occurrences_in(term, ignore_case, text) is Some,
        0 <= k < occurrences_in(term, ignore_case, text).unwrap().len(),
    ensures
        ({
            let span = occurrences_in(term, ignore_case, text).unwrap()[k];
            let piece = text.subrange(span.start as int, span.end as int);
            &&& span.start < span.end <= text.len()
            &&& folded(piece, ignore_case) == folded(term, ignore_case)
            &&& !ignore_case ==> piece == term
            &&& forall|i: int| span.start <= i < span.end ==> text[i] != '\n'
            &&& span.end <= line_end(text, span.start as int)
        }),
{
    let ranges = term_spans(term, ignore_case, text).unwrap();
    let located = usable_spans(text, ranges);
    let holds = is_occurrence(text, term, ignore_case);
    located.lemma_filter_pred(holds, k);
    let span = located.filter(holds)[k];
    let piece = text.subrange(span.start as int, span.end as int);
    lemma_usable_spans_fit(text, ranges);
    located.lemma_filter_contains_rev(holds, span);
    assert(located.filter(holds).contains(span));
    let j = choose|j: int| 0 <= j < located.len() && located[j] == span;
    assert(located[j].start <= located[j].end <= text.len());
    lemma_position(piece, '\n', 0);
    assert forall|i: int| span.start <= i < span.end implies text[i] != '\n' by {
        assert(text[i] == piece[i - span.start]);
    }
    lemma_position(text, '\n', span.start as int);
}

/// Spans that were located are spans of the text, one after the other.
pub proof fn lemma_usable_spans_fit(text: Seq<char>, ranges: Seq<(usize, usize)>)
    ensures
        within(text, usable_spans(text, ranges)),
{
    let spans = usable_spans(text, ranges);
    if exists|spans: Seq<Span>| fits(text, ranges, spans) {
        assert(fits(text, ranges, spans));
        assert forall|k: int| 0 <= k < spans.len() implies (#[trigger] spans[k]).start
            <= spans[k].end <= text.len() by {
            assert(covers(text, spans[k], ranges[k]));
        }
    }
}

} // verus!
