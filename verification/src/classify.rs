//! Ranking a match by how its package name relates to the search term.

use crate::text::{
    chars_of, convert_case, folded, push_all, rows, same_text, starts_with,
};
use vstd::prelude::*;

verus! {

/// How well a record matches the search term. The first that applies counts.
#[derive(Clone, Copy, Debug, PartialEq, Eq)]
pub enum MatchKind {
    /// The name is the term.
    Exact,
    /// The name begins with the term.
    Direct,
    /// The term occurs somewhere else in the record.
    Indirect,
}

/// The channel prefixes that a name can carry, in the order in which they are
/// tried.
pub open spec fn channel_prefixes() -> Seq<Seq<char>> {
    seq!["nixos."@, "nixpkgs."@]
}

/// The names that count as the term itself, in the order in which they are
/// tried: first the term as it is compared, then, where names carry a channel
/// prefix, the term behind each prefix.
pub open spec fn wanted_names(term: Seq<char>, ignore_case: bool, experimental: bool) -> Seq<
    Seq<char>,
> {
    let needle = folded(term, ignore_case);
    if experimental {
        seq![needle]
    } else {
        seq![needle] + Seq::new(
            channel_prefixes().len(),
            |k: int| channel_prefixes()[k] + needle,
        )
    }
}

/// True when `name` is one of `wanted`.
pub open spec fn is_any(name: Seq<char>, wanted: Seq<Seq<char>>) -> bool {
    exists|k: int| 0 <= k < wanted.len() && name == #[trigger] wanted[k]
}

/// True when `name` begins with one of `wanted`.
pub open spec fn begins_with_any(name: Seq<char>, wanted: Seq<Seq<char>>) -> bool {
    exists|k: int| 0 <= k < wanted.len() && (#[trigger] wanted[k]).is_prefix_of(name)
}

/// The kind of a name that is already prepared for comparison.
pub open spec fn kind_among(name: Seq<char>, wanted: Seq<Seq<char>>) -> MatchKind {
    if is_any(name, wanted) {
        MatchKind::Exact
    } else if begins_with_any(name, wanted) {
        MatchKind::Direct
    } else {
        MatchKind::Indirect
    }
}

/// The kind of match that a record with this name is for a term.
pub open spec fn kind_of(name: Seq<char>, term: Seq<char>, ignore_case: bool, experimental: bool) -> MatchKind {
    kind_among(folded(name, ignore_case), wanted_names(term, ignore_case, experimental))
}

/// Computes [`wanted_names`].
pub fn names_for(term: &str, ignore_case: bool, experimental: bool) -> (r: Vec<Vec<char>>)
    ensures
        rows(r@) == wanted_names(term@, ignore_case, experimental),
{
    let needle = chars_of(convert_case(term, ignore_case).as_str());
    let mut wanted: Vec<Vec<char>> = Vec::new();
    if experimental {
        wanted.push(needle);
    } else {
        let mut first = chars_of("nixos.");
        push_all(&mut first, &needle);
        let mut second = chars_of("nixpkgs.");
        push_all(&mut second, &needle);
        wanted.push(needle);
        wanted.push(first);
        wanted.push(second);
    }
    assert(rows(wanted@) =~= wanted_names(term@, ignore_case, experimental));
    wanted
}

/// Computes [`kind_among`].
pub fn rank(name: &Vec<char>, wanted: &Vec<Vec<char>>) -> (r: MatchKind)
    ensures
        r == kind_among(name@, rows(wanted@)),
{
    let mut k: usize = 0;
    while k < wanted.len()
        invariant
            k <= wanted@.len(),
            forall|m: int| 0 <= m < k ==> name@ != #[trigger] rows(wanted@)[m],
        decreases wanted@.len() - k,
    {
        if same_text(name, &wanted[k]) {
            assert(name@ == rows(wanted@)[k as int]);
            return MatchKind::Exact;
        }
        k += 1;
    }
    k = 0;
    while k < wanted.len()
        invariant
            k <= wanted@.len(),
            !is_any(name@, rows(wanted@)),
            forall|m: int| 0 <= m < k ==> !(#[trigger] rows(wanted@)[m]).is_prefix_of(name@),
        decreases wanted@.len() - k,
    {
        if starts_with(name, &wanted[k]) {
            assert(rows(wanted@)[k as int].is_prefix_of(name@));
            return MatchKind::Direct;
        }
        k += 1;
    }
    MatchKind::Indirect
}

/// Ranks a record by its name.
///
/// Where case is ignored, name and term are compared in lower case. Where
/// names carry a channel prefix, a name counts with or without the prefix:
/// the term is looked for at the beginning of the name and behind each
/// prefix.
pub fn classify(name: &str, term: &str, ignore_case: bool, experimental: bool) -> (r: MatchKind)
    ensures
        r == kind_of(name@, term@, ignore_case, experimental),
{
    let wanted = names_for(term, ignore_case, experimental);
    let prepared = chars_of(convert_case(name, ignore_case).as_str());
    rank(&prepared, &wanted)
}

/// A name that is the term is an exact match, whether names carry a channel
/// prefix or not. With names compared without regard to case this covers
/// every name that differs from the term in case only.
pub proof fn lemma_same_name_is_exact(
    name: Seq<char>,
    term: Seq<char>,
    ignore_case: bool,
    experimental: bool,
)
    requires
        folded(name, ignore_case) == folded(term, ignore_case),
    ensures
        kind_of(name, term, ignore_case, experimental) == MatchKind::Exact,
{
    assert(wanted_names(term, ignore_case, experimental)[0] == folded(term, ignore_case));
}

/// Where names carry a channel prefix, a name that is the term behind one of
/// the prefixes is an exact match.
pub proof fn lemma_prefixed_name_is_exact(
    name: Seq<char>,
    term: Seq<char>,
    ignore_case: bool,
    k: int,
)
    requires
        0 <= k < channel_prefixes().len(),
        folded(name, ignore_case) == channel_prefixes()[k] + folded(term, ignore_case),
    ensures
        kind_of(name, term, ignore_case, false) == MatchKind::Exact,
{
    assert(wanted_names(term, ignore_case, false)[k + 1] == folded(name, ignore_case));
}

/// Exact are the names that are the term, with or without a channel prefix,
/// and no others.
pub proof fn lemma_exact_is_the_term(
    name: Seq<char>,
    term: Seq<char>,
    ignore_case: bool,
    experimental: bool,
)
    ensures
        kind_of(name, term, ignore_case, experimental) == MatchKind::Exact <==> {
            ||| folded(name, ignore_case) == folded(term, ignore_case)
            ||| !experimental && exists|k: int|
                0 <= k < channel_prefixes().len() && folded(name, ignore_case)
                    == #[trigger] channel_prefixes()[k] + folded(term, ignore_case)
        },
{
    let prepared = folded(name, ignore_case);
    let needle = folded(term, ignore_case);
    let wanted = wanted_names(term, ignore_case, experimental);
    if is_any(prepared, wanted) {
        let k = choose|k: int| 0 <= k < wanted.len() && prepared == #[trigger] wanted[k];
        if k > 0 {
            assert(prepared == channel_prefixes()[k - 1] + needle);
        }
    }
    if prepared == needle {
        assert(wanted[0] == prepared);
    }
    if !experimental {
        if exists|k: int|
            0 <= k < channel_prefixes().len() && prepared == #[trigger] channel_prefixes()[k]
                + needle {
            let k = choose|k: int|
                0 <= k < channel_prefixes().len() && prepared == #[trigger] channel_prefixes()[k]
                    + needle;
            assert(wanted[k + 1] == prepared);
        }
    }
}

/// A record is a direct match exactly when its name begins with the term,
/// with or without a channel prefix, and is not an exact match.
pub proof fn lemma_direct_is_prefix_not_exact(
    name: Seq<char>,
    term: Seq<char>,
    ignore_case: bool,
    experimental: bool,
)
    ensures
        kind_of(name, term, ignore_case, experimental) == MatchKind::Direct <==> {
            &&& begins_with_any(
                folded(name, ignore_case),
                wanted_names(term, ignore_case, experimental),
            )
            &&& kind_of(name, term, ignore_case, experimental) != MatchKind::Exact
        },
        kind_of(name, term, ignore_case, experimental) == MatchKind::Exact ==> begins_with_any(
            folded(name, ignore_case),
            wanted_names(term, ignore_case, experimental),
        ),
{
    let prepared = folded(name, ignore_case);
    let wanted = wanted_names(term, ignore_case, experimental);
    if is_any(prepared, wanted) {
        let k = choose|k: int| 0 <= k < wanted.len() && prepared == #[trigger] wanted[k];
        assert(wanted[k].is_prefix_of(prepared));
    }
}

} // verus!
