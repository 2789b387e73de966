//! One line of the cache, split into the three fields of a package record.

use crate::text::{
    after_token, after_whitespace, chars_of, is_whitespace, lemma_skip_token,
    lemma_skip_token_stops, lemma_skip_whitespace, lemma_skip_whitespace_stops, push_range,
    skip_token, skip_whitespace, string_of,
};
use vstd::prelude::*;

verus! {

/// A package as the cache lists it. Fields that a line lacks are empty.
#[derive(Debug, PartialEq, Eq)]
pub struct PackageRecord {
    pub name: String,
    pub version: String,
    pub description: String,
}

impl Clone for PackageRecord {
    fn clone(&self) -> (r: PackageRecord)
        ensures
            r == *self,
    {
        PackageRecord {
            name: self.name.clone(),
            version: self.version.clone(),
            description: self.description.clone(),
        }
    }
}

/// The three fields of a record as plain character sequences.
pub struct RecordFields {
    pub name: Seq<char>,
    pub version: Seq<char>,
    pub description: Seq<char>,
}

impl View for PackageRecord {
    type V = RecordFields;

    open spec fn view(&self) -> RecordFields {
        RecordFields { name: self.name@, version: self.version@, description: self.description@ }
    }
}

/// Where the name of a line begins: after its leading whitespace.
pub open spec fn name_start(line: Seq<char>) -> int {
    skip_whitespace(line, 0)
}

/// Where the name ends.
pub open spec fn name_end(line: Seq<char>) -> int {
    skip_token(line, name_start(line))
}

/// Where the version begins: after the whitespace that follows the name.
pub open spec fn version_start(line: Seq<char>) -> int {
    skip_whitespace(line, name_end(line))
}

/// Where the version ends.
pub open spec fn version_end(line: Seq<char>) -> int {
    skip_token(line, version_start(line))
}

/// Where the description begins: after the whitespace that follows the
/// version. It runs to the end of the line.
pub open spec fn description_start(line: Seq<char>) -> int {
    skip_whitespace(line, version_end(line))
}

/// The record that a line stands for. The name and the version are the first
/// two blocks of characters free of whitespace; the description is all that
/// follows the whitespace after the version, verbatim.
pub open spec fn parsed(line: Seq<char>) -> RecordFields {
    RecordFields {
        name: line.subrange(name_start(line), name_end(line)),
        version: line.subrange(version_start(line), version_end(line)),
        description: line.subrange(description_start(line), line.len() as int),
    }
}

/// True when `s` holds whitespace only.
pub open spec fn all_whitespace(s: Seq<char>) -> bool {
    forall|i: int| 0 <= i < s.len() ==> is_whitespace(#[trigger] s[i])
}

/// True when `s` holds no whitespace.
pub open spec fn no_whitespace(s: Seq<char>) -> bool {
    forall|i: int| 0 <= i < s.len() ==> !is_whitespace(#[trigger] s[i])
}

/// The five boundaries of a line are in order and inside the line.
pub proof fn lemma_boundaries(line: Seq<char>)
    ensures
        0 <= name_start(line) <= name_end(line) <= version_start(line) <= version_end(line)
            <= description_start(line) <= line.len(),
{
    lemma_skip_whitespace(line, 0);
    lemma_skip_token(line, name_start(line));
    lemma_skip_whitespace(line, name_end(line));
    lemma_skip_token(line, version_start(line));
    lemma_skip_whitespace(line, version_end(line));
}

/// The fields of a line as characters, for the stages that go on working
/// with them.
pub struct SplitLine {
    pub name: Vec<char>,
    pub version: Vec<char>,
    pub description: Vec<char>,
}

impl View for SplitLine {
    type V = RecordFields;

    open spec fn view(&self) -> RecordFields {
        RecordFields { name: self.name@, version: self.version@, description: self.description@ }
    }
}

/// Splits the characters of one line into name, version and description.
pub fn split_record(line: &Vec<char>) -> (r: SplitLine)
    ensures
        r@ == parsed(line@),
{
    proof {
        lemma_boundaries(line@);
    }
    let n0 = after_whitespace(line, 0);
    let n1 = after_token(line, n0);
    let v0 = after_whitespace(line, n1);
    let v1 = after_token(line, v0);
    let d0 = after_whitespace(line, v1);
    let mut name: Vec<char> = Vec::new();
    push_range(&mut name, line, n0, n1);
    let mut version: Vec<char> = Vec::new();
    push_range(&mut version, line, v0, v1);
    let mut description: Vec<char> = Vec::new();
    push_range(&mut description, line, d0, line.len());
    SplitLine { name, version, description }
}

/// Splits one line of the cache into name, version and description.
///
/// Every line has a record. Fields are separated by runs of whitespace; a
/// field that the line lacks is empty.
pub fn parse_record(line: &str) -> (r: PackageRecord)
    ensures
        r@ == parsed(line@),
{
    let fields = split_record(&chars_of(line));
    PackageRecord {
        name: string_of(&fields.name),
        version: string_of(&fields.version),
        description: string_of(&fields.description),
    }
}

/// Every line is the concatenation of: leading whitespace, the name,
/// whitespace, the version, whitespace, the description. Name and version
/// hold no whitespace, and the description does not begin with any.
pub proof fn lemma_parsed_decomposes(line: Seq<char>)
    ensures
        line == line.subrange(0, name_start(line)) + parsed(line).name + line.subrange(
            name_end(line),
            version_start(line),
        ) + parsed(line).version + line.subrange(version_end(line), description_start(line))
            + parsed(line).description,
        all_whitespace(line.subrange(0, name_start(line))),
        all_whitespace(line.subrange(name_end(line), version_start(line))),
        all_whitespace(line.subrange(version_end(line), description_start(line))),
        no_whitespace(parsed(line).name),
        no_whitespace(parsed(line).version),
        parsed(line).description.len() > 0 ==> !is_whitespace(parsed(line).description[0]),
{
    lemma_boundaries(line);
    lemma_skip_whitespace(line, 0);
    lemma_skip_token(line, name_start(line));
    lemma_skip_whitespace(line, name_end(line));
    lemma_skip_token(line, version_start(line));
    lemma_skip_whitespace(line, version_end(line));
    assert(line =~= line.subrange(0, name_start(line)) + parsed(line).name + line.subrange(
        name_end(line),
        version_start(line),
    ) + parsed(line).version + line.subrange(version_end(line), description_start(line))
        + parsed(line).description);
}

/// The name is empty only for a line without any field: a line that holds a
/// character other than whitespace has a name.
pub proof fn lemma_name_present(line: Seq<char>, i: int)
    requires
        0 <= i < line.len(),
        !is_whitespace(line[i]),
    ensures
        parsed(line).name.len() > 0,
{
    lemma_boundaries(line);
    lemma_skip_whitespace(line, 0);
    lemma_skip_token(line, name_start(line));
}

/// Fields that a line lacks are empty: with the name missing, so are the
/// version and the description; with the version missing, so is the
/// description.
pub proof fn lemma_missing_fields_empty(line: Seq<char>)
    ensures
        parsed(line).name.len() == 0 ==> parsed(line).version.len() == 0,
        parsed(line).version.len() == 0 ==> parsed(line).description.len() == 0,
        all_whitespace(line) ==> parsed(line).name.len() == 0,
{
    lemma_boundaries(line);
    lemma_skip_whitespace(line, 0);
    lemma_skip_token(line, name_start(line));
    lemma_skip_whitespace(line, name_end(line));
    lemma_skip_token(line, version_start(line));
    lemma_skip_whitespace(line, version_end(line));
}

/// Whitespace at the end of a line is no part of its name: without its last
/// character, a line that ends in whitespace has the same name.
pub proof fn lemma_trailing_whitespace_keeps_name(line: Seq<char>)
    requires
        line.len() > 0,
        is_whitespace(line.last()),
    ensures
        parsed(line.drop_last()).name == parsed(line).name,
{
    let short = line.drop_last();
    lemma_boundaries(line);
    lemma_skip_whitespace(line, 0);
    lemma_skip_token(line, name_start(line));
    let begin = name_start(line);
    let end = name_end(line);
    if begin == line.len() {
        assert forall|i: int| 0 <= i < short.len() implies is_whitespace(short[i]) by {
            assert(short[i] == line[i]);
        }
        lemma_skip_whitespace_stops(short, 0, short.len() as int);
        lemma_skip_token_stops(short, short.len() as int, short.len() as int);
        assert(parsed(short).name =~= parsed(line).name);
    } else {
        assert forall|i: int| 0 <= i < begin implies is_whitespace(short[i]) by {
            assert(short[i] == line[i]);
        }
        assert(short[begin] == line[begin]);
        lemma_skip_whitespace_stops(short, 0, begin);
        assert forall|i: int| begin <= i < end implies !is_whitespace(short[i]) by {
            assert(short[i] == line[i]);
        }
        if end < short.len() {
            assert(short[end] == line[end]);
        }
        lemma_skip_token_stops(short, begin, end);
        assert(parsed(short).name =~= parsed(line).name);
    }
}

} // verus!
