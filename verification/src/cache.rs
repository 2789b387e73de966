//! Turning the output of a package listing into the lines of the cache.
//!
//! A listing comes in one of two shapes: plain lines whose fields are
//! separated by runs of whitespace, or a JSON object that maps identifiers to
//! packages. Either way the cache holds one line per package, its three
//! fields separated by single spaces.

use crate::record::{
    description_start, lemma_boundaries, lemma_missing_fields_empty, lemma_parsed_decomposes,
    name_start, no_whitespace, parsed, version_end, version_start, RecordFields,
};
use crate::order::{sort_lines, text_order};
use crate::text::{
    after_token, after_whitespace, chars_of, find, is_whitespace, join_rows, joined,
    lemma_position, lemma_skip_token_stops, lemma_skip_whitespace_stops, line_end, position,
    push_all, push_range, rows_of, string_of, views,
};
use serde_json::Value;
use std::collections::BTreeMap;
use vstd::prelude::*;

verus! {

/// The line of the cache that lists a package with these fields.
pub open spec fn canonical(fields: RecordFields) -> Seq<char> {
    fields.name + seq![' '] + fields.version + seq![' '] + fields.description
}

/// True when a plain line begins with a name that is followed by whitespace,
/// a version, and whitespace again: the lines that [`normalized`] rewrites.
pub open spec fn has_three_fields(line: Seq<char>) -> bool {
    &&& name_start(line) == 0
    &&& version_start(line) < version_end(line)
    &&& version_end(line) < description_start(line)
}

/// A plain line with the whitespace after its name and after its version
/// replaced by one space each. Any other line is left as it is.
pub open spec fn normalized(line: Seq<char>) -> Seq<char> {
    if has_three_fields(line) {
        canonical(parsed(line))
    } else {
        line
    }
}

/// The text from `from` on with each of its lines [`normalized`]. Line feeds
/// stay where they are.
pub open spec fn normalized_text(text: Seq<char>, from: int) -> Seq<char>
    decreases text.len() - from,
{
    if from < 0 || from > text.len() {
        Seq::empty()
    } else {
        let end = line_end(text, from);
        let head = normalized(text.subrange(from, end));
        if end >= text.len() {
            head
        } else {
            proof {
                lemma_position(text, '\n', from);
            }
            head.push('\n') + normalized_text(text, end + 1)
        }
    }
}

/// A line of the cache holds the record it was written for: written with a
/// name and a version that are not empty and hold no whitespace, and a
/// description that does not begin with whitespace, the line splits into
/// these fields again.
pub proof fn lemma_canonical_parses_back(fields: RecordFields)
    requires
        fields.name.len() > 0,
        no_whitespace(fields.name),
        fields.version.len() > 0,
        no_whitespace(fields.version),
        fields.description.len() > 0 ==> !is_whitespace(fields.description[0]),
    ensures
        parsed(canonical(fields)) == fields,
{
    let line = canonical(fields);
    let n = fields.name.len() as int;
    let v = fields.version.len() as int;
    assert(forall|i: int| 0 <= i < n ==> line[i] == fields.name[i]);
    assert(line[n] == ' ');
    assert(forall|i: int| n + 1 <= i < n + 1 + v ==> line[i] == fields.version[i - n - 1]);
    assert(line[n + 1 + v] == ' ');
    assert(forall|i: int|
        n + v + 2 <= i < line.len() ==> line[i] == fields.description[i - n - v - 2]);
    lemma_skip_whitespace_stops(line, 0, 0);
    lemma_skip_token_stops(line, 0, n);
    lemma_skip_whitespace_stops(line, n, n + 1);
    lemma_skip_token_stops(line, n + 1, n + 1 + v);
    lemma_skip_whitespace_stops(line, n + 1 + v, n + v + 2);
    assert(parsed(line).name =~= fields.name);
    assert(parsed(line).version =~= fields.version);
    assert(parsed(line).description =~= fields.description);
}

/// Normalizing a line changes its whitespace only: the line holds the same
/// record as before.
pub proof fn lemma_normalized_keeps_record(line: Seq<char>)
    ensures
        parsed(normalized(line)) == parsed(line),
{
    if has_three_fields(line) {
        lemma_parsed_decomposes(line);
        lemma_boundaries(line);
        lemma_missing_fields_empty(line);
        lemma_canonical_parses_back(parsed(line));
    }
}

/// Appends [`normalized`] of `line` to `out`.
fn normalize_line(out: &mut Vec<char>, line: &Vec<char>)
    ensures
        final(out)@ == old(out)@ + normalized(line@),
{
    proof {
        lemma_boundaries(line@);
    }
    let n0 = after_whitespace(line, 0);
    let n1 = after_token(line, n0);
    let v0 = after_whitespace(line, n1);
    let v1 = after_token(line, v0);
    let d0 = after_whitespace(line, v1);
    if n0 == 0 && v0 < v1 && v1 < d0 {
        push_range(out, line, n0, n1);
        out.push(' ');
        push_range(out, line, v0, v1);
        out.push(' ');
        push_range(out, line, d0, line.len());
        assert(out@ =~= old(out)@ + canonical(parsed(line@)));
    } else {
        push_all(out, line);
    }
}

/// Rewrites a plain listing line by line: in each line that has a name, a
/// version and whitespace after both, the two runs of whitespace become
/// single spaces.
pub fn normalize_listing(listing: &str) -> (r: String)
    ensures
        r@ == normalized_text(listing@, 0),
{
    let text = chars_of(listing);
    let mut out: Vec<char> = Vec::new();
    let mut pos: usize = 0;
    loop
        invariant_except_break
            pos <= text@.len(),
            normalized_text(text@, 0) == out@ + normalized_text(text@, pos as int),
        ensures
            out@ == normalized_text(text@, 0),
        decreases text@.len() - pos,
    {
        let end = find(&text, '\n', pos);
        let mut line: Vec<char> = Vec::new();
        push_range(&mut line, &text, pos, end);
        let ghost before = out@;
        normalize_line(&mut out, &line);
        if end >= text.len() {
            break ;
        }
        out.push('\n');
        assert(out@ =~= before + normalized(line@).push('\n'));
        pos = end + 1;
    }
    string_of(&out)
}

/// The error that `serde_json` reports for a text it cannot decode.
#[verifier::external_type_specification]
#[verifier::external_body]
pub struct ExJsonError(serde_json::Error);

/// One entry of a JSON listing: the identifier that the listing maps, and the
/// members of the object it is mapped to. A member that holds a string
/// carries its text; any other member carries `None`.
#[derive(Debug)]
pub struct ListedPackage {
    pub identifier: String,
    pub members: Vec<(String, Option<String>)>,
}

/// A member of a listed package as plain values.
pub type Member = (Seq<char>, Option<Seq<char>>);

/// A [`ListedPackage`] as plain values.
pub struct ListedFields {
    pub identifier: Seq<char>,
    pub members: Seq<Member>,
}

/// The plain value of one member.
pub open spec fn member_view(member: (String, Option<String>)) -> Member {
    (
        member.0@,
        match member.1 {
            Some(text) => Some(text@),
            None => None,
        },
    )
}

impl View for ListedPackage {
    type V = ListedFields;

    open spec fn view(&self) -> ListedFields {
        ListedFields {
            identifier: self.identifier@,
            members: Seq::new(self.members@.len(), |i: int| member_view(self.members@[i])),
        }
    }
}

/// The plain values of a listing, entry by entry.
pub open spec fn listing_view(listing: Seq<ListedPackage>) -> Seq<ListedFields> {
    Seq::new(listing.len(), |i: int| listing[i]@)
}

/// What `serde_json` decodes a text to, read as an object of objects: the
/// entries in the order in which its map yields them, or `None` where the
/// text is no such JSON.
pub uninterp spec fn decoded_listing(raw: Seq<char>) -> Option<Seq<ListedFields>>;

/// Decodes `raw` with `serde_json::from_str` into a map from identifiers to
/// maps of members, and hands the entries over in the order of the map's
/// iterator. The result is [`decoded_listing`] of the text; an error comes
/// exactly where that is `None`.
#[verifier::external_body]
pub(crate) fn decode_listing(raw: &str) -> (r: Result<Vec<ListedPackage>, serde_json::Error>)
    ensures
        match r {
            Ok(listing) => decoded_listing(raw@) == Some(listing_view(listing@)),
            Err(_) => decoded_listing(raw@) is None,
        },
{
    let map: BTreeMap<String, BTreeMap<String, Value>> = serde_json::from_str(raw)?;
    let text = |value: Value| match value { Value::String(text) => Some(text), _ => None };
    let members = |object: BTreeMap<String, Value>| object.into_iter().map(|(key, value)| (key, text(value))).collect();
    Ok(map.into_iter().map(|(identifier, object)| ListedPackage { identifier, members: members(object) }).collect())
}

/// The message of a decoding error, as its `Display` writes it.
#[verifier::external_body]
pub(crate) fn decoding_message(error: &serde_json::Error) -> String {
    error.to_string()
}

/// Why a JSON listing yields no cache.
#[derive(Debug)]
pub enum CacheError {
    /// The text is not a JSON object of objects. Carries the decoder's message.
    Malformed(String),
    /// An entry has no `version` or no `description` that is a string.
    MissingField,
    /// An identifier has fewer than three segments, so nothing is left for
    /// the name.
    MissingName,
}

/// The text of the first member called `key` at or after `from`; `None` where
/// no member has that key or the member is no string.
pub open spec fn member_text(members: Seq<Member>, key: Seq<char>, from: int) -> Option<
    Seq<char>,
>
    decreases members.len() - from,
{
    if from < 0 || from >= members.len() {
        None
    } else if members[from].0 == key {
        members[from].1
    } else {
        member_text(members, key, from + 1)
    }
}

/// The name of a package: its identifier without the first two segments,
/// where segments are separated by dots. `None` for an identifier with fewer
/// than two dots.
pub open spec fn package_name(identifier: Seq<char>) -> Option<Seq<char>> {
    let first = position(identifier, '.', 0);
    let second = position(identifier, '.', first + 1);
    if first < identifier.len() && second < identifier.len() {
        Some(identifier.subrange(second + 1, identifier.len() as int))
    } else {
        None
    }
}

/// True when the entry has a version and a description.
pub open spec fn is_complete(entry: ListedFields) -> bool {
    &&& member_text(entry.members, "version"@, 0) is Some
    &&& member_text(entry.members, "description"@, 0) is Some
}

/// The cache line of a complete entry whose identifier has a name.
pub open spec fn listed_line(entry: ListedFields) -> Seq<char> {
    canonical(
        RecordFields {
            name: package_name(entry.identifier).unwrap(),
            version: member_text(entry.members, "version"@, 0).unwrap(),
            description: member_text(entry.members, "description"@, 0).unwrap(),
        },
    )
}

/// True when every entry is complete.
pub open spec fn all_complete(listing: Seq<ListedFields>) -> bool {
    forall|i: int| 0 <= i < listing.len() ==> is_complete(#[trigger] listing[i])
}

/// True when every identifier has a name.
pub open spec fn all_named(listing: Seq<ListedFields>) -> bool {
    forall|i: int| 0 <= i < listing.len() ==> package_name(#[trigger] listing[i].identifier) is Some
}

/// The cache lines of a listing, entry by entry.
pub open spec fn listed_lines(listing: Seq<ListedFields>) -> Seq<Seq<char>> {
    Seq::new(listing.len(), |i: int| listed_line(listing[i]))
}

/// Looks a member up by its key.
fn text_of_member<'a>(members: &'a Vec<(String, Option<String>)>, key: &str) -> (r: Option<
    &'a String,
>)
    ensures
        match r {
            Some(text) => member_text(
                Seq::new(members@.len(), |i: int| member_view(members@[i])),
                key@,
                0,
            ) == Some(text@),
            None => member_text(
                Seq::new(members@.len(), |i: int| member_view(members@[i])),
                key@,
                0,
            ) is None,
        },
{
    let wanted = key.to_owned();
    let ghost plain = Seq::new(members@.len(), |i: int| member_view(members@[i]));
    let mut i: usize = 0;
    while i < members.len()
        invariant
            i <= members@.len(),
            wanted@ == key@,
            plain == Seq::new(members@.len(), |i: int| member_view(members@[i])),
            member_text(plain, key@, 0) == member_text(plain, key@, i as int),
        decreases members@.len() - i,
    {
        if members[i].0 == wanted {
            return match &members[i].1 {
                Some(text) => Some(text),
                None => None,
            };
        }
        i += 1;
    }
    None
}

/// Computes [`package_name`].
fn name_of(identifier: &str) -> (r: Option<Vec<char>>)
    ensures
        match r {
            Some(name) => package_name(identifier@) == Some(name@),
            None => package_name(identifier@) is None,
        },
{
    let chars = chars_of(identifier);
    let first = find(&chars, '.', 0);
    if first >= chars.len() {
        return None;
    }
    let second = find(&chars, '.', first + 1);
    if second >= chars.len() {
        return None;
    }
    let mut name: Vec<char> = Vec::new();
    push_range(&mut name, &chars, second + 1, chars.len());
    Some(name)
}

/// Writes the cache line of every entry of a decoded listing.
///
/// An entry that lacks a version or a description fails the whole listing
/// with `MissingField`; if all are complete, an identifier without a name
/// fails it with `MissingName`.
pub fn lines_of_listing(listing: &Vec<ListedPackage>) -> (r: Result<Vec<String>, CacheError>)
    ensures
        match r {
            Ok(lines) => {
                &&& all_complete(listing_view(listing@))
                &&& all_named(listing_view(listing@))
                &&& views(lines@) == listed_lines(listing_view(listing@))
            },
            Err(CacheError::MissingField) => !all_complete(listing_view(listing@)),
            Err(CacheError::MissingName) => {
                &&& all_complete(listing_view(listing@))
                &&& !all_named(listing_view(listing@))
            },
            Err(CacheError::Malformed(_)) => false,
        },
{
    let ghost plain = listing_view(listing@);
    let mut lines: Vec<String> = Vec::new();
    let mut nameless: bool = false;
    let mut i: usize = 0;
    while i < listing.len()
        invariant
            i <= listing@.len(),
            plain == listing_view(listing@),
            forall|k: int| 0 <= k < i ==> is_complete(#[trigger] plain[k]),
            nameless <==> exists|k: int| 0 <= k < i && package_name(plain[k].identifier) is None,
            !nameless ==> views(lines@) == listed_lines(plain.take(i as int)),
        decreases listing@.len() - i,
    {
        let entry = &listing[i];
        assert(plain[i as int] == entry@);
        let version = match text_of_member(&entry.members, "version") {
            Some(text) => text,
            None => {
                return Err(CacheError::MissingField);
            },
        };
        let description = match text_of_member(&entry.members, "description") {
            Some(text) => text,
            None => {
                return Err(CacheError::MissingField);
            },
        };
        match name_of(entry.identifier.as_str()) {
            Some(name) => {
                if !nameless {
                    let mut line = name;
                    line.push(' ');
                    push_all(&mut line, &chars_of(version.as_str()));
                    line.push(' ');
                    push_all(&mut line, &chars_of(description.as_str()));
                    assert(line@ =~= listed_line(plain[i as int]));
                    let ghost before = views(lines@);
                    lines.push(string_of(&line));
                    assert(views(lines@) =~= before.push(line@));
                    assert(listed_lines(plain.take(i + 1)) =~= listed_lines(
                        plain.take(i as int),
                    ).push(line@));
                }
            },
            None => {
                nameless = true;
            },
        }
        i += 1;
    }
    assert(plain.take(listing@.len() as int) =~= plain);
    if nameless {
        Err(CacheError::MissingName)
    } else {
        Ok(lines)
    }
}

/// The cache of a listing whose entries are complete and named: its lines in
/// the order of [`crate::order::text_le`], joined by line feeds.
pub open spec fn cache_of(listing: Seq<ListedFields>) -> Seq<char> {
    joined(listed_lines(listing).sort_by(text_order()), seq!['\n'])
}

/// What a listing yields, given what the decoder made of it: the cache, or
/// the reason why there is none.
pub open spec fn is_outcome(decoded: Option<Seq<ListedFields>>, r: Result<String, CacheError>) -> bool {
    match r {
        Ok(cache) => {
            &&& decoded matches Some(listing)
            &&& all_complete(listing)
            &&& all_named(listing)
            &&& cache@ == cache_of(listing)
        },
        Err(CacheError::Malformed(_)) => decoded is None,
        Err(CacheError::MissingField) => {
            &&& decoded matches Some(listing)
            &&& !all_complete(listing)
        },
        Err(CacheError::MissingName) => {
            &&& decoded matches Some(listing)
            &&& all_complete(listing)
            &&& !all_named(listing)
        },
    }
}

/// Sorts the cache lines of a decoded listing and joins them with line feeds.
pub fn cache_from_listing(listing: &Vec<ListedPackage>) -> (r: Result<String, CacheError>)
    ensures
        is_outcome(Some(listing_view(listing@)), r),
{
    let lines = match lines_of_listing(listing) {
        Ok(lines) => lines,
        Err(error) => {
            return Err(error);
        },
    };
    let sorted = sort_lines(&rows_of(&lines));
    let mut line_feed: Vec<char> = Vec::new();
    line_feed.push('\n');
    assert(line_feed@ =~= seq!['\n']);
    Ok(string_of(&join_rows(&sorted, &line_feed)))
}

/// Decodes a JSON listing and writes the cache for it: one line per package,
/// `name version description`, the lines sorted and joined by line feeds.
///
/// The name is the identifier without its first two dot-separated segments.
/// The listing has to be a JSON object that maps each identifier to an object
/// with the string members `version` and `description`.
pub fn parse_json_to_lines(raw_output: &str) -> (r: Result<String, CacheError>)
    ensures
        is_outcome(decoded_listing(raw_output@), r),
{
    match decode_listing(raw_output) {
        Ok(listing) => cache_from_listing(&listing),
        Err(error) => Err(CacheError::Malformed(decoding_message(&error))),
    }
}

} // verus!
