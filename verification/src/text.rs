//! Character-level building blocks shared by every stage of the search.
//!
//! Text is modelled as `Seq<char>`; executable code works on `Vec<char>` and
//! converts at the boundary of the public functions.

use vstd::prelude::*;

verus! {

/// The characters that separate the fields of a record: the code points with
/// the Unicode property `White_Space`.
pub open spec fn is_whitespace(c: char) -> bool {
    let v = c as u32;
    ||| 0x09 <= v <= 0x0D
    ||| v == 0x20
    ||| v == 0x85
    ||| v == 0xA0
    ||| v == 0x1680
    ||| 0x2000 <= v <= 0x200A
    ||| v == 0x2028
    ||| v == 0x2029
    ||| v == 0x202F
    ||| v == 0x205F
    ||| v == 0x3000
}

/// Decides [`is_whitespace`].
pub fn whitespace(c: char) -> (r: bool)
    ensures
        r == is_whitespace(c),
{
    let v: u32 = c as u32;
    (0x09 <= v && v <= 0x0D) || v == 0x20 || v == 0x85 || v == 0xA0 || v == 0x1680 || (0x2000 <= v
        && v <= 0x200A) || v == 0x2028 || v == 0x2029 || v == 0x202F || v == 0x205F || v == 0x3000
}

/// Number of bytes that `c` occupies in UTF-8.
pub open spec fn utf8_width(c: char) -> nat {
    let v = c as u32;
    if v < 0x80 {
        1
    } else if v < 0x800 {
        2
    } else if v < 0x1_0000 {
        3
    } else {
        4
    }
}

/// Length of `s` in bytes once encoded as UTF-8.
pub open spec fn byte_len(s: Seq<char>) -> nat
    decreases s.len(),
{
    if s.len() == 0 {
        0
    } else {
        byte_len(s.drop_last()) + utf8_width(s.last())
    }
}

/// Computes [`utf8_width`].
pub fn char_width(c: char) -> (r: u128)
    ensures
        r == utf8_width(c),
{
    let v: u32 = c as u32;
    if v < 0x80 {
        1
    } else if v < 0x800 {
        2
    } else if v < 0x1_0000 {
        3
    } else {
        4
    }
}

/// A text takes at least one byte and at most four bytes per character.
pub proof fn lemma_byte_len_bounds(s: Seq<char>)
    ensures
        s.len() <= byte_len(s) <= 4 * s.len(),
    decreases s.len(),
{
    if s.len() > 0 {
        lemma_byte_len_bounds(s.drop_last());
    }
}

/// Computes [`byte_len`].
pub fn byte_length(s: &Vec<char>) -> (r: u128)
    ensures
        r == byte_len(s@),
{
    let mut total: u128 = 0;
    let mut i: usize = 0;
    while i < s.len()
        invariant
            i <= s@.len(),
            total == byte_len(s@.take(i as int)),
        decreases s@.len() - i,
    {
        proof {
            lemma_byte_len_bounds(s@.take(i as int));
            assert(s@.take(i + 1).drop_last() =~= s@.take(i as int));
        }
        total = total + char_width(s[i]);
        i += 1;
    }
    assert(s@.take(s@.len() as int) =~= s@);
    total
}

/// The views of a vector of strings, element by element.
pub open spec fn views(v: Seq<String>) -> Seq<Seq<char>> {
    Seq::new(v.len(), |i: int| v[i]@)
}

/// What `str::to_lowercase` makes of a text.
pub uninterp spec fn lowercase(s: Seq<char>) -> Seq<char>;

/// A text as it is compared: lowercased when case is ignored, untouched
/// otherwise.
pub open spec fn folded(s: Seq<char>, ignore_case: bool) -> Seq<char> {
    if ignore_case {
        lowercase(s)
    } else {
        s
    }
}

/// The characters of `s`, in order.
pub fn chars_of(s: &str) -> (r: Vec<char>)
    ensures
        r@ == s@,
{
    broadcast use vstd::string::group_string_axioms;

    let mut out: Vec<char> = Vec::new();
    for c in it: s.chars()
        invariant
            it.seq() == s@,
            out@ == it.seq().take(it.index()),
    {
        out.push(c);
    }
    out
}

/// Builds a `String` with `String::from_iter`: the string holds exactly the
/// given characters, in order.
#[verifier::external_body]
pub(crate) fn string_of(chars: &Vec<char>) -> (r: String)
    ensures
        r@ == chars@,
{
    String::from_iter(chars)
}

/// Calls `str::to_lowercase`; the result is [`lowercase`] of the argument.
#[verifier::external_body]
pub(crate) fn to_lowercase(s: &str) -> (r: String)
    ensures
        r@ == lowercase(s@),
{
    s.to_lowercase()
}

/// Prepares a text for comparison: lowercased if `ignore_case`, copied
/// unchanged otherwise.
pub fn convert_case(string: &str, ignore_case: bool) -> (r: String)
    ensures
        r@ == folded(string@, ignore_case),
{
    if ignore_case {
        to_lowercase(string)
    } else {
        string.to_owned()
    }
}

/// Index of the first `c` at or after `from`, or the length of the text
/// where there is none.
pub open spec fn position(text: Seq<char>, c: char, from: int) -> int
    decreases text.len() - from,
{
    if from >= text.len() {
        text.len() as int
    } else if text[from] == c {
        from
    } else {
        position(text, c, from + 1)
    }
}

/// [`position`] stays inside the text and stops at the first `c`.
pub proof fn lemma_position(text: Seq<char>, c: char, from: int)
    requires
        0 <= from <= text.len(),
    ensures
        from <= position(text, c, from) <= text.len(),
        position(text, c, from) < text.len() ==> text[position(text, c, from)] == c,
        forall|i: int| from <= i < position(text, c, from) ==> text[i] != c,
    decreases text.len() - from,
{
    if from < text.len() && text[from] != c {
        lemma_position(text, c, from + 1);
    }
}

/// [`position`] is the index of `c` before which no `c` stands.
pub proof fn lemma_position_stops(text: Seq<char>, c: char, from: int, to: int)
    requires
        0 <= from <= to <= text.len(),
        forall|i: int| from <= i < to ==> text[i] != c,
        to == text.len() || text[to] == c,
    ensures
        position(text, c, from) == to,
    decreases to - from,
{
    if from < to {
        lemma_position_stops(text, c, from + 1, to);
    }
}

/// Computes [`position`].
pub fn find(text: &Vec<char>, c: char, from: usize) -> (r: usize)
    requires
        from <= text@.len(),
    ensures
        r == position(text@, c, from as int),
        from <= r <= text@.len(),
{
    let mut i: usize = from;
    while i < text.len() && text[i] != c
        invariant
            from <= i <= text@.len(),
            position(text@, c, from as int) == position(text@, c, i as int),
        decreases text@.len() - i,
    {
        i += 1;
    }
    i
}

/// Where the line that begins at `from` ends: at the next line feed, or at
/// the end of the text.
pub open spec fn line_end(text: Seq<char>, from: int) -> int {
    position(text, '\n', from)
}

/// Index of the first character at or after `from` that is not whitespace.
pub open spec fn skip_whitespace(s: Seq<char>, from: int) -> int
    decreases s.len() - from,
{
    if from < s.len() && is_whitespace(s[from]) {
        skip_whitespace(s, from + 1)
    } else {
        from
    }
}

/// Index of the first whitespace character at or after `from`.
pub open spec fn skip_token(s: Seq<char>, from: int) -> int
    decreases s.len() - from,
{
    if from < s.len() && !is_whitespace(s[from]) {
        skip_token(s, from + 1)
    } else {
        from
    }
}

/// [`skip_whitespace`] passes over whitespace only and stops at the first
/// character that is none.
pub proof fn lemma_skip_whitespace(s: Seq<char>, from: int)
    requires
        0 <= from <= s.len(),
    ensures
        from <= skip_whitespace(s, from) <= s.len(),
        forall|i: int| from <= i < skip_whitespace(s, from) ==> is_whitespace(s[i]),
        skip_whitespace(s, from) < s.len() ==> !is_whitespace(s[skip_whitespace(s, from)]),
    decreases s.len() - from,
{
    if from < s.len() && is_whitespace(s[from]) {
        lemma_skip_whitespace(s, from + 1);
    }
}

/// [`skip_token`] passes over a block free of whitespace and stops at the
/// first whitespace character.
pub proof fn lemma_skip_token(s: Seq<char>, from: int)
    requires
        0 <= from <= s.len(),
    ensures
        from <= skip_token(s, from) <= s.len(),
        forall|i: int| from <= i < skip_token(s, from) ==> !is_whitespace(s[i]),
        skip_token(s, from) < s.len() ==> is_whitespace(s[skip_token(s, from)]),
    decreases s.len() - from,
{
    if from < s.len() && !is_whitespace(s[from]) {
        lemma_skip_token(s, from + 1);
    }
}

/// [`skip_whitespace`] stops exactly where the whitespace ends.
pub proof fn lemma_skip_whitespace_stops(s: Seq<char>, from: int, to: int)
    requires
        0 <= from <= to <= s.len(),
        forall|i: int| from <= i < to ==> is_whitespace(s[i]),
        to == s.len() || !is_whitespace(s[to]),
    ensures
        skip_whitespace(s, from) == to,
    decreases to - from,
{
    if from < to {
        lemma_skip_whitespace_stops(s, from + 1, to);
    }
}

/// [`skip_token`] stops exactly where the block free of whitespace ends.
pub proof fn lemma_skip_token_stops(s: Seq<char>, from: int, to: int)
    requires
        0 <= from <= to <= s.len(),
        forall|i: int| from <= i < to ==> !is_whitespace(s[i]),
        to == s.len() || is_whitespace(s[to]),
    ensures
        skip_token(s, from) == to,
    decreases to - from,
{
    if from < to {
        lemma_skip_token_stops(s, from + 1, to);
    }
}

/// Computes [`skip_whitespace`].
pub fn after_whitespace(s: &Vec<char>, from: usize) -> (r: usize)
    requires
        from <= s@.len(),
    ensures
        r == skip_whitespace(s@, from as int),
        from <= r <= s@.len(),
{
    let mut i: usize = from;
    while i < s.len() && whitespace(s[i])
        invariant
            from <= i <= s@.len(),
            skip_whitespace(s@, from as int) == skip_whitespace(s@, i as int),
        decreases s@.len() - i,
    {
        i += 1;
    }
    i
}

/// Computes [`skip_token`].
pub fn after_token(s: &Vec<char>, from: usize) -> (r: usize)
    requires
        from <= s@.len(),
    ensures
        r == skip_token(s@, from as int),
        from <= r <= s@.len(),
{
    let mut i: usize = from;
    while i < s.len() && !whitespace(s[i])
        invariant
            from <= i <= s@.len(),
            skip_token(s@, from as int) == skip_token(s@, i as int),
        decreases s@.len() - i,
    {
        i += 1;
    }
    i
}

/// Copies `src[from..to]` to the end of `dst`.
pub fn push_range(dst: &mut Vec<char>, src: &Vec<char>, from: usize, to: usize)
    requires
        from <= to <= src@.len(),
    ensures
        final(dst)@ == old(dst)@ + src@.subrange(from as int, to as int),
{
    let mut i: usize = from;
    while i < to
        invariant
            from <= i <= to <= src@.len(),
            dst@ == old(dst)@ + src@.subrange(from as int, i as int),
        decreases to - i,
    {
        dst.push(src[i]);
        i += 1;
    }
}

/// The line that begins at `from`, without the line feed that ends it and
/// without a carriage return directly before that line feed.
pub open spec fn line_at(text: Seq<char>, from: int) -> Seq<char> {
    let end = line_end(text, from);
    if from < end < text.len() && text[end - 1] == '\r' {
        text.subrange(from, end - 1)
    } else {
        text.subrange(from, end)
    }
}

/// The lines of the text from `from` on. A line feed ends a line; what
/// follows the last line feed is a line of its own unless it is empty.
pub open spec fn lines_from(text: Seq<char>, from: int) -> Seq<Seq<char>>
    decreases text.len() - from,
{
    if from < 0 || from >= text.len() {
        Seq::empty()
    } else {
        let end = line_end(text, from);
        if end >= text.len() {
            seq![line_at(text, from)]
        } else {
            proof {
                lemma_position(text, '\n', from);
            }
            seq![line_at(text, from)] + lines_from(text, end + 1)
        }
    }
}

/// The lines of a text.
pub open spec fn lines_of(text: Seq<char>) -> Seq<Seq<char>> {
    lines_from(text, 0)
}

/// What stands before a position makes no difference to the lines that begin
/// behind it.
pub proof fn lemma_lines_behind(before: Seq<char>, text: Seq<char>, from: int)
    requires
        0 <= from <= text.len(),
    ensures
        lines_from(before + text, before.len() + from) == lines_from(text, from),
    decreases text.len() - from,
{
    let whole = before + text;
    let shift = before.len() as int;
    if from < text.len() {
        let end = line_end(text, from);
        lemma_position(text, '\n', from);
        assert forall|i: int| shift + from <= i < shift + end implies whole[i] != '\n' by {
            assert(whole[i] == text[i - shift]);
        }
        if end < text.len() {
            assert(whole[shift + end] == text[end]);
        }
        lemma_position_stops(whole, '\n', shift + from, shift + end);
        if from < end {
            assert(whole[shift + end - 1] == text[end - 1]);
        }
        assert(whole.subrange(shift + from, shift + end) =~= text.subrange(from, end));
        if from < end {
            assert(whole.subrange(shift + from, shift + end - 1) =~= text.subrange(from, end - 1));
        }
        assert(line_at(whole, shift + from) == line_at(text, from));
        if end < text.len() {
            lemma_lines_behind(before, text, end + 1);
        }
    }
}

/// The views of a vector of character vectors, element by element.
pub open spec fn rows(v: Seq<Vec<char>>) -> Seq<Seq<char>> {
    Seq::new(v.len(), |i: int| v[i]@)
}

/// Splits a text into its lines.
pub fn split_lines(text: &Vec<char>) -> (r: Vec<Vec<char>>)
    ensures
        rows(r@) == lines_of(text@),
{
    let mut lines: Vec<Vec<char>> = Vec::new();
    let mut pos: usize = 0;
    while pos < text.len()
        invariant
            pos <= text@.len(),
            lines_of(text@) == rows(lines@) + lines_from(text@, pos as int),
        decreases text@.len() - pos,
    {
        let end = find(text, '\n', pos);
        let stop = if pos < end && end < text.len() && text[end - 1] == '\r' {
            end - 1
        } else {
            end
        };
        let mut line: Vec<char> = Vec::new();
        push_range(&mut line, text, pos, stop);
        let ghost before = rows(lines@);
        lines.push(line);
        assert(rows(lines@) =~= before.push(line_at(text@, pos as int)));
        assert(lines_of(text@) =~= rows(lines@) + lines_from(text@, end + 1));
        if end >= text.len() {
            pos = text.len();
        } else {
            pos = end + 1;
        }
    }
    assert(lines_of(text@) =~= rows(lines@));
    lines
}

/// Decides whether `text` begins with `prefix`.
pub fn starts_with(text: &Vec<char>, prefix: &Vec<char>) -> (r: bool)
    ensures
        r == prefix@.is_prefix_of(text@),
{
    if prefix.len() > text.len() {
        return false;
    }
    let mut i: usize = 0;
    while i < prefix.len()
        invariant
            i <= prefix@.len() <= text@.len(),
            prefix@.subrange(0, i as int) =~= text@.subrange(0, i as int),
        decreases prefix@.len() - i,
    {
        if prefix[i] != text[i] {
            assert(prefix@[i as int] != text@.subrange(0, prefix@.len() as int)[i as int]);
            return false;
        }
        assert(prefix@.subrange(0, i + 1) =~= prefix@.subrange(0, i as int).push(prefix@[i as int]));
        assert(text@.subrange(0, i + 1) =~= text@.subrange(0, i as int).push(text@[i as int]));
        i += 1;
    }
    assert(prefix@.subrange(0, prefix@.len() as int) =~= prefix@);
    true
}

/// Decides whether two texts are equal.
pub fn same_text(a: &Vec<char>, b: &Vec<char>) -> (r: bool)
    ensures
        r == (a@ == b@),
{
    let r = a.len() == b.len() && starts_with(a, b);
    proof {
        if r {
            assert(a@.subrange(0, b@.len() as int) =~= a@);
        }
    }
    r
}

/// Appends every character of `src` to `dst`.
pub fn push_all(dst: &mut Vec<char>, src: &Vec<char>)
    ensures
        final(dst)@ == old(dst)@ + src@,
{
    push_range(dst, src, 0, src.len());
    assert(src@.subrange(0, src@.len() as int) =~= src@);
}

/// The lines one after the other, each ended by a line feed.
pub open spec fn with_line_feeds(lines: Seq<Seq<char>>) -> Seq<char>
    decreases lines.len(),
{
    if lines.len() == 0 {
        Seq::empty()
    } else {
        lines[0].push('\n') + with_line_feeds(lines.drop_first())
    }
}

/// True when no line holds a line feed.
pub open spec fn are_single_lines(lines: Seq<Seq<char>>) -> bool {
    forall|k: int, i: int|
        0 <= k < lines.len() && 0 <= i < lines[k].len() ==> #[trigger] lines[k][i] != '\n'
}

/// Stringing lines together goes run by run.
pub proof fn lemma_line_feeds_add(a: Seq<Seq<char>>, b: Seq<Seq<char>>)
    ensures
        with_line_feeds(a + b) == with_line_feeds(a) + with_line_feeds(b),
    decreases a.len(),
{
    if a.len() == 0 {
        assert(a + b =~= b);
    } else {
        lemma_line_feeds_add(a.drop_first(), b);
        assert((a + b).drop_first() =~= a.drop_first() + b);
        assert((a + b)[0] == a[0]);
        assert(with_line_feeds(a + b) =~= with_line_feeds(a) + with_line_feeds(b));
    }
}

/// One line strung is the line and a line feed.
pub proof fn lemma_line_feeds_of_one(line: Seq<char>)
    ensures
        with_line_feeds(seq![line]) == line.push('\n'),
{
    let no_lines = Seq::<Seq<char>>::empty();
    assert(with_line_feeds(no_lines) =~= Seq::<char>::empty());
    assert(seq![line].drop_first() =~= no_lines);
    assert(with_line_feeds(seq![line]) =~= line.push('\n'));
}

/// The pieces of the text from `from` on that line feeds cut it into. There
/// is always one more piece than there are line feeds: a text that ends in a
/// line feed has an empty last piece.
pub open spec fn pieces_from(text: Seq<char>, from: int) -> Seq<Seq<char>>
    decreases text.len() - from,
{
    if from < 0 || from > text.len() {
        Seq::empty()
    } else {
        let end = line_end(text, from);
        if end >= text.len() {
            seq![text.subrange(from, end)]
        } else {
            proof {
                lemma_position(text, '\n', from);
            }
            seq![text.subrange(from, end)] + pieces_from(text, end + 1)
        }
    }
}

/// The pieces that line feeds cut a text into.
pub open spec fn pieces(text: Seq<char>) -> Seq<Seq<char>> {
    pieces_from(text, 0)
}

/// No piece holds a line feed.
pub proof fn lemma_pieces_are_single(text: Seq<char>, from: int)
    requires
        0 <= from <= text.len(),
    ensures
        are_single_lines(pieces_from(text, from)),
        pieces_from(text, from).len() > 0,
    decreases text.len() - from,
{
    lemma_position(text, '\n', from);
    let end = line_end(text, from);
    let all = pieces_from(text, from);
    if end < text.len() {
        lemma_pieces_are_single(text, end + 1);
        let rest = pieces_from(text, end + 1);
        assert forall|k: int, i: int| 0 <= k < all.len() && 0 <= i < all[k].len() implies #[trigger] all[k][i]
            != '\n' by {
            if k > 0 {
                assert(all[k] == rest[k - 1]);
            }
        }
    }
}

/// What stands before a position makes no difference to the pieces that
/// begin behind it.
pub proof fn lemma_pieces_behind(before: Seq<char>, text: Seq<char>, from: int)
    requires
        0 <= from <= text.len(),
    ensures
        pieces_from(before + text, before.len() + from) == pieces_from(text, from),
    decreases text.len() - from,
{
    let whole = before + text;
    let shift = before.len() as int;
    let end = line_end(text, from);
    lemma_position(text, '\n', from);
    assert forall|i: int| shift + from <= i < shift + end implies whole[i] != '\n' by {
        assert(whole[i] == text[i - shift]);
    }
    if end < text.len() {
        assert(whole[shift + end] == text[end]);
    }
    lemma_position_stops(whole, '\n', shift + from, shift + end);
    assert(whole.subrange(shift + from, shift + end) =~= text.subrange(from, end));
    if end < text.len() {
        lemma_pieces_behind(before, text, end + 1);
    }
}

/// The pieces of a text, joined by line feeds, are the text again.
pub proof fn lemma_joined_pieces(text: Seq<char>, from: int)
    requires
        0 <= from <= text.len(),
    ensures
        joined(pieces_from(text, from), seq!['\n']) == text.skip(from),
    decreases text.len() - from,
{
    let end = line_end(text, from);
    let sep = seq!['\n'];
    lemma_position(text, '\n', from);
    let piece = text.subrange(from, end);
    if end >= text.len() {
        assert(pieces_from(text, from) =~= seq![piece]);
        assert(joined(seq![piece], sep) == piece);
        assert(piece =~= text.skip(from));
    } else {
        lemma_joined_pieces(text, end + 1);
        lemma_pieces_are_single(text, end + 1);
        lemma_joined_front(piece, pieces_from(text, end + 1), sep);
        assert(text.skip(from) =~= piece + sep + text.skip(end + 1));
    }
}

/// Cutting lines that were joined by line feeds gives the lines back, where
/// none of them holds a line feed.
pub proof fn lemma_pieces_of_joined(lines: Seq<Seq<char>>)
    requires
        lines.len() > 0,
        are_single_lines(lines),
    ensures
        pieces(joined(lines, seq!['\n'])) == lines,
    decreases lines.len(),
{
    let first = lines[0];
    let rest = lines.drop_first();
    let sep = seq!['\n'];
    assert(lines =~= seq![first] + rest);
    assert forall|i: int| 0 <= i < first.len() implies first[i] != '\n' by {
        assert(lines[0][i] != '\n');
    }
    if rest.len() == 0 {
        assert(joined(lines, sep) == first);
        lemma_position_stops(first, '\n', 0, first.len() as int);
        assert(first.subrange(0, first.len() as int) =~= first);
        assert(pieces(first) =~= seq![first]);
    } else {
        assert(are_single_lines(rest)) by {
            assert forall|k: int, i: int|
                0 <= k < rest.len() && 0 <= i < rest[k].len() implies #[trigger] rest[k][i]
                != '\n' by {
                assert(rest[k] == lines[k + 1]);
            }
        }
        lemma_pieces_of_joined(rest);
        lemma_joined_front(first, rest, sep);
        let head = first + sep;
        let tail = joined(rest, sep);
        let text = head + tail;
        assert(joined(lines, sep) =~= text);
        assert forall|i: int| 0 <= i < first.len() implies text[i] != '\n' by {
            assert(text[i] == first[i]);
        }
        assert(text[first.len() as int] == '\n');
        lemma_position_stops(text, '\n', 0, first.len() as int);
        assert(text.subrange(0, first.len() as int) =~= first);
        lemma_pieces_behind(head, tail, 0);
        assert(pieces(text) =~= seq![first] + pieces(tail));
    }
}

/// Cuts a text into its pieces.
pub fn split_pieces(text: &Vec<char>) -> (r: Vec<Vec<char>>)
    ensures
        rows(r@) == pieces(text@),
{
    let mut found: Vec<Vec<char>> = Vec::new();
    let mut pos: usize = 0;
    loop
        invariant_except_break
            pos <= text@.len(),
            pieces(text@) == rows(found@) + pieces_from(text@, pos as int),
        ensures
            rows(found@) == pieces(text@),
        decreases text@.len() - pos,
    {
        let end = find(text, '\n', pos);
        let mut piece: Vec<char> = Vec::new();
        push_range(&mut piece, text, pos, end);
        let ghost before = rows(found@);
        found.push(piece);
        assert(rows(found@) =~= before.push(text@.subrange(pos as int, end as int)));
        if end >= text.len() {
            assert(pieces(text@) =~= rows(found@));
            break ;
        }
        assert(pieces(text@) =~= rows(found@) + pieces_from(text@, end + 1));
        pos = end + 1;
    }
    found
}

/// Strings lines together: computes [`with_line_feeds`].
pub fn string_lines(lines: &Vec<Vec<char>>) -> (r: Vec<char>)
    ensures
        r@ == with_line_feeds(rows(lines@)),
{
    let mut out: Vec<char> = Vec::new();
    let mut i: usize = 0;
    assert(rows(lines@).take(0) =~= Seq::<Seq<char>>::empty());
    while i < lines.len()
        invariant
            i <= lines@.len(),
            out@ == with_line_feeds(rows(lines@).take(i as int)),
        decreases lines@.len() - i,
    {
        proof {
            let seen = rows(lines@).take(i as int);
            let line = lines@[i as int]@;
            assert(rows(lines@).take(i + 1) =~= seen + seq![line]);
            lemma_line_feeds_add(seen, seq![line]);
            lemma_line_feeds_of_one(line);
        }
        push_all(&mut out, &lines[i]);
        out.push('\n');
        assert(out@ =~= with_line_feeds(rows(lines@).take(i as int)) + lines@[i as int]@.push('\n'));
        i += 1;
    }
    assert(rows(lines@).take(lines@.len() as int) =~= rows(lines@));
    out
}

/// The parts in order, with `sep` between each two neighbours.
pub open spec fn joined(parts: Seq<Seq<char>>, sep: Seq<char>) -> Seq<char>
    decreases parts.len(),
{
    if parts.len() == 0 {
        Seq::empty()
    } else if parts.len() == 1 {
        parts[0]
    } else {
        joined(parts.drop_last(), sep) + sep + parts.last()
    }
}

/// The characters of each string.
pub fn rows_of(parts: &Vec<String>) -> (r: Vec<Vec<char>>)
    ensures
        rows(r@) == views(parts@),
{
    let mut out: Vec<Vec<char>> = Vec::new();
    let mut i: usize = 0;
    while i < parts.len()
        invariant
            i <= parts@.len(),
            rows(out@) == views(parts@).take(i as int),
        decreases parts@.len() - i,
    {
        let ghost before = rows(out@);
        out.push(chars_of(parts[i].as_str()));
        assert(rows(out@) =~= before.push(parts@[i as int]@));
        assert(views(parts@).take(i + 1) =~= views(parts@).take(i as int).push(parts@[i as int]@));
        i += 1;
    }
    assert(views(parts@).take(parts@.len() as int) =~= views(parts@));
    out
}

/// Joining begins with the first part and the separator, where more parts
/// follow.
pub proof fn lemma_joined_front(first: Seq<char>, rest: Seq<Seq<char>>, sep: Seq<char>)
    requires
        rest.len() > 0,
    ensures
        joined(seq![first] + rest, sep) == first + sep + joined(rest, sep),
    decreases rest.len(),
{
    let all = seq![first] + rest;
    let front = rest.drop_last();
    let last = rest.last();
    assert(all.drop_last() =~= seq![first] + front);
    assert(all.last() == last);
    if front.len() == 0 {
        assert(seq![first] + front =~= seq![first]);
        assert(joined(seq![first], sep) == first);
        assert(joined(rest, sep) == last);
    } else {
        lemma_joined_front(first, front, sep);
        assert(joined(all, sep) =~= first + sep + joined(rest, sep));
    }
}

/// Computes [`joined`].
pub fn join_rows(parts: &Vec<Vec<char>>, sep: &Vec<char>) -> (r: Vec<char>)
    ensures
        r@ == joined(rows(parts@), sep@),
{
    let mut out: Vec<char> = Vec::new();
    let mut i: usize = 0;
    while i < parts.len()
        invariant
            i <= parts@.len(),
            out@ == joined(rows(parts@).take(i as int), sep@),
        decreases parts@.len() - i,
    {
        if i > 0 {
            push_all(&mut out, sep);
        }
        push_all(&mut out, &parts[i]);
        proof {
            let before = rows(parts@).take(i as int);
            let now = rows(parts@).take(i + 1);
            assert(now.drop_last() =~= before);
            assert(now.last() == parts@[i as int]@);
        }
        i += 1;
    }
    assert(rows(parts@).take(parts@.len() as int) =~= rows(parts@));
    out
}

/// Computes [`joined`] for strings.
pub fn join(parts: &Vec<String>, sep: &str) -> (r: String)
    ensures
        r@ == joined(views(parts@), sep@),
{
    string_of(&join_rows(&rows_of(parts), &chars_of(sep)))
}

} // verus!
