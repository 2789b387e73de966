//! Sorting matches into kinds and laying them out in aligned columns.

use crate::classify::{kind_of, names_for, rank, wanted_names, MatchKind};
use crate::record::{parsed, split_record, RecordFields, SplitLine};
use crate::settings::{ColumnsChoice, Settings};
use crate::text::{
    byte_len, byte_length, chars_of, convert_case, lemma_byte_len_bounds, lines_of,
    push_all, rows, split_lines, string_of, views,
};
use vstd::prelude::*;

verus! {

/// The exact, the direct and the indirect matches, in this order.
pub type MatchVecs = (Vec<String>, Vec<String>, Vec<String>);

/// `n` spaces.
pub open spec fn spaces(n: nat) -> Seq<char> {
    Seq::new(n, |i: int| ' ')
}

/// A field filled up with spaces to `width` characters. A field that is
/// longer stays as it is.
pub open spec fn padded(field: Seq<char>, width: nat) -> Seq<char> {
    if field.len() < width {
        field + spaces((width - field.len()) as nat)
    } else {
        field
    }
}

/// The greatest length in bytes among the fields; 0 where there is none.
pub open spec fn widest(fields: Seq<Seq<char>>) -> nat
    decreases fields.len(),
{
    if fields.len() == 0 {
        0
    } else {
        let rest = widest(fields.drop_last());
        let last = byte_len(fields.last());
        if last > rest {
            last
        } else {
            rest
        }
    }
}

/// The names of the records.
pub open spec fn names(records: Seq<RecordFields>) -> Seq<Seq<char>> {
    records.map_values(|record: RecordFields| record.name)
}

/// The versions of the records.
pub open spec fn versions(records: Seq<RecordFields>) -> Seq<Seq<char>> {
    records.map_values(|record: RecordFields| record.version)
}

/// One result line: the chosen columns of a record, left-justified, two
/// spaces between columns. The last column is not filled up. A line that
/// shows the name only ends in one space.
pub open spec fn rendered(
    record: RecordFields,
    columns: ColumnsChoice,
    name_width: nat,
    version_width: nat,
) -> Seq<char> {
    match columns {
        ColumnsChoice::All => padded(record.name, name_width) + spaces(2) + padded(
            record.version,
            version_width,
        ) + spaces(2) + record.description,
        ColumnsChoice::Version => padded(record.name, name_width) + spaces(2) + record.version,
        ColumnsChoice::Description => padded(record.name, name_width) + spaces(2)
            + record.description,
        ColumnsChoice::NameOnly => record.name + spaces(1),
    }
}

/// The records of a text, line by line.
pub open spec fn records_of(raw: Seq<char>) -> Seq<RecordFields> {
    lines_of(raw).map_values(|line: Seq<char>| parsed(line))
}

/// The test that picks the records of one kind.
pub open spec fn of_kind(kind: MatchKind, term: Seq<char>, ignore_case: bool, experimental: bool) -> spec_fn(
    RecordFields,
) -> bool {
    |record: RecordFields| kind_of(record.name, term, ignore_case, experimental) == kind
}

/// The layout of a record among `all` records: each column as wide as its
/// widest field anywhere, so that the columns line up across the kinds.
pub open spec fn layout(all: Seq<RecordFields>, columns: ColumnsChoice) -> spec_fn(
    RecordFields,
) -> Seq<char> {
    |record: RecordFields| rendered(record, columns, widest(names(all)), widest(versions(all)))
}

/// The result lines of one kind: the records of that kind in the order of
/// the input, each laid out among all records.
pub open spec fn bucket(
    records: Seq<RecordFields>,
    kind: MatchKind,
    term: Seq<char>,
    ignore_case: bool,
    experimental: bool,
    columns: ColumnsChoice,
) -> Seq<Seq<char>> {
    records.filter(of_kind(kind, term, ignore_case, experimental)).map_values(
        layout(records, columns),
    )
}

/// Appends `field` to `out`, filled up with spaces to `width` characters.
fn push_padded(out: &mut Vec<char>, field: &Vec<char>, width: u128)
    ensures
        final(out)@ == old(out)@ + padded(field@, width as nat),
{
    push_all(out, field);
    let mut n: u128 = field.len() as u128;
    while n < width
        invariant
            field@.len() <= n,
            n <= width || n == field@.len(),
            out@ == old(out)@ + field@ + spaces((n - field@.len()) as nat),
        decreases width - n,
    {
        out.push(' ');
        assert(out@ =~= old(out)@ + field@ + spaces((n + 1 - field@.len()) as nat));
        n += 1;
    }
    assert(out@ =~= old(out)@ + padded(field@, width as nat));
}

/// Computes [`rendered`].
pub fn render(record: &SplitLine, columns: ColumnsChoice, name_width: u128, version_width: u128) -> (r:
    Vec<char>)
    ensures
        r@ == rendered(record@, columns, name_width as nat, version_width as nat),
{
    let mut out: Vec<char> = Vec::new();
    match columns {
        ColumnsChoice::All => {
            push_padded(&mut out, &record.name, name_width);
            out.push(' ');
            out.push(' ');
            push_padded(&mut out, &record.version, version_width);
            out.push(' ');
            out.push(' ');
            push_all(&mut out, &record.description);
        },
        ColumnsChoice::Version => {
            push_padded(&mut out, &record.name, name_width);
            out.push(' ');
            out.push(' ');
            push_all(&mut out, &record.version);
        },
        ColumnsChoice::Description => {
            push_padded(&mut out, &record.name, name_width);
            out.push(' ');
            out.push(' ');
            push_all(&mut out, &record.description);
        },
        ColumnsChoice::NameOnly => {
            push_all(&mut out, &record.name);
            out.push(' ');
        },
    }
    assert(out@ =~= rendered(record@, columns, name_width as nat, version_width as nat));
    out
}

/// The plain values of split lines, element by element.
pub open spec fn fields_of(records: Seq<SplitLine>) -> Seq<RecordFields> {
    Seq::new(records.len(), |i: int| records[i]@)
}

/// Splits every line and measures the two columns that are filled up.
fn measure(lines: &Vec<Vec<char>>) -> (r: (Vec<SplitLine>, u128, u128))
    ensures
        fields_of(r.0@) == rows(lines@).map_values(|line: Seq<char>| parsed(line)),
        r.1 == widest(names(fields_of(r.0@))),
        r.2 == widest(versions(fields_of(r.0@))),
{
    let mut records: Vec<SplitLine> = Vec::new();
    let mut name_width: u128 = 0;
    let mut version_width: u128 = 0;
    let mut i: usize = 0;
    while i < lines.len()
        invariant
            i <= lines@.len(),
            fields_of(records@) == rows(lines@).take(i as int).map_values(
                |line: Seq<char>| parsed(line),
            ),
            name_width == widest(names(fields_of(records@))),
            version_width == widest(versions(fields_of(records@))),
        decreases lines@.len() - i,
    {
        let record = split_record(&lines[i]);
        let name_bytes = byte_length(&record.name);
        let version_bytes = byte_length(&record.version);
        if name_bytes > name_width {
            name_width = name_bytes;
        }
        if version_bytes > version_width {
            version_width = version_bytes;
        }
        let ghost before = fields_of(records@);
        records.push(record);
        proof {
            let now = fields_of(records@);
            assert(now =~= before.push(parsed(lines@[i as int]@)));
            assert(names(now).drop_last() =~= names(before));
            assert(versions(now).drop_last() =~= versions(before));
            assert(rows(lines@).take(i + 1) =~= rows(lines@).take(i as int).push(lines@[i as int]@));
            assert(now =~= rows(lines@).take(i + 1).map_values(|line: Seq<char>| parsed(line)));
        }
        i += 1;
    }
    assert(rows(lines@).take(lines@.len() as int) =~= rows(lines@));
    (records, name_width, version_width)
}

/// Sorts the matching lines into exact, direct and indirect matches and lays
/// each out in columns.
///
/// Every line of `raw_matches` lands in exactly one of the three kinds, by
/// its name alone; within a kind the lines keep their order. The width of a
/// column is the greatest length in bytes among its fields in all lines
/// together, whatever their kind, and every field is filled up with spaces to
/// that many characters: so the columns line up across the kinds.
pub fn sort_and_pad_matches(cli: &Settings, raw_matches: &str) -> (r: MatchVecs)
    ensures
        views(r.0@) == bucket(
            records_of(raw_matches@),
            MatchKind::Exact,
            cli.search_term@,
            cli.ignore_case,
            cli.experimental,
            cli.columns,
        ),
        views(r.1@) == bucket(
            records_of(raw_matches@),
            MatchKind::Direct,
            cli.search_term@,
            cli.ignore_case,
            cli.experimental,
            cli.columns,
        ),
        views(r.2@) == bucket(
            records_of(raw_matches@),
            MatchKind::Indirect,
            cli.search_term@,
            cli.ignore_case,
            cli.experimental,
            cli.columns,
        ),
{
    let lines = split_lines(&chars_of(raw_matches));
    let (records, name_width, version_width) = measure(&lines);
    let wanted = names_for(cli.search_term.as_str(), cli.ignore_case, cli.experimental);
    let ghost all = records_of(raw_matches@);
    let ghost term = cli.search_term@;
    let ghost is_exact = of_kind(MatchKind::Exact, term, cli.ignore_case, cli.experimental);
    let ghost is_direct = of_kind(MatchKind::Direct, term, cli.ignore_case, cli.experimental);
    let ghost is_indirect = of_kind(MatchKind::Indirect, term, cli.ignore_case, cli.experimental);
    let ghost lay = layout(all, cli.columns);
    let mut exact: Vec<String> = Vec::new();
    let mut direct: Vec<String> = Vec::new();
    let mut indirect: Vec<String> = Vec::new();
    let mut i: usize = 0;
    assert(all.take(0) =~= Seq::<RecordFields>::empty());
    while i < records.len()
        invariant
            i <= records@.len(),
            all == fields_of(records@),
            name_width == widest(names(all)),
            version_width == widest(versions(all)),
            rows(wanted@) == wanted_names(term, cli.ignore_case, cli.experimental),
            is_exact == of_kind(MatchKind::Exact, term, cli.ignore_case, cli.experimental),
            is_direct == of_kind(MatchKind::Direct, term, cli.ignore_case, cli.experimental),
            is_indirect == of_kind(MatchKind::Indirect, term, cli.ignore_case, cli.experimental),
            lay == layout(all, cli.columns),
            views(exact@) == all.take(i as int).filter(is_exact).map_values(lay),
            views(direct@) == all.take(i as int).filter(is_direct).map_values(lay),
            views(indirect@) == all.take(i as int).filter(is_indirect).map_values(lay),
        decreases records@.len() - i,
    {
        let record = &records[i];
        let prepared = chars_of(
            convert_case(string_of(&record.name).as_str(), cli.ignore_case).as_str(),
        );
        let kind = rank(&prepared, &wanted);
        let line = string_of(&render(record, cli.columns, name_width, version_width));
        proof {
            let seen = all.take(i as int);
            let this = all[i as int];
            assert(this == record@);
            assert(all.take(i + 1) =~= seen.push(this));
            assert(kind == kind_of(this.name, term, cli.ignore_case, cli.experimental));
            assert(line@ == lay(this));
            seen.lemma_filter_push(this, is_exact);
            seen.lemma_filter_push(this, is_direct);
            seen.lemma_filter_push(this, is_indirect);
            seen.filter(is_exact).lemma_push_map_commute(lay, this);
            seen.filter(is_direct).lemma_push_map_commute(lay, this);
            seen.filter(is_indirect).lemma_push_map_commute(lay, this);
        }
        let ghost exact_before = views(exact@);
        let ghost direct_before = views(direct@);
        let ghost indirect_before = views(indirect@);
        match kind {
            MatchKind::Exact => {
                exact.push(line);
                assert(views(exact@) =~= exact_before.push(line@));
            },
            MatchKind::Direct => {
                direct.push(line);
                assert(views(direct@) =~= direct_before.push(line@));
            },
            MatchKind::Indirect => {
                indirect.push(line);
                assert(views(indirect@) =~= indirect_before.push(line@));
            },
        }
        i += 1;
    }
    assert(all.take(records@.len() as int) =~= all);
    (exact, direct, indirect)
}

/// No field is longer than [`widest`] says, and a field of that length is
/// among them: `widest` is the greatest length in bytes.
pub proof fn lemma_widest_is_greatest(fields: Seq<Seq<char>>)
    ensures
        forall|i: int| 0 <= i < fields.len() ==> byte_len(#[trigger] fields[i]) <= widest(fields),
        fields.len() > 0 ==> exists|i: int|
            0 <= i < fields.len() && byte_len(#[trigger] fields[i]) == widest(fields),
    decreases fields.len(),
{
    if fields.len() > 0 {
        let rest = fields.drop_last();
        lemma_widest_is_greatest(rest);
        assert forall|i: int| 0 <= i < fields.len() implies byte_len(#[trigger] fields[i])
            <= widest(fields) by {
            if i < rest.len() {
                assert(fields[i] == rest[i]);
            }
        }
        if rest.len() > 0 && widest(rest) >= byte_len(fields.last()) {
            let i = choose|i: int| 0 <= i < rest.len() && byte_len(#[trigger] rest[i]) == widest(rest);
            assert(fields[i] == rest[i]);
        } else {
            assert(byte_len(fields[fields.len() - 1]) == widest(fields));
        }
    }
}

/// A field that is filled up to a width of at least its length in bytes has
/// exactly that many characters.
pub proof fn lemma_padded_len(field: Seq<char>, width: nat)
    requires
        byte_len(field) <= width,
    ensures
        padded(field, width).len() == width,
{
    lemma_byte_len_bounds(field);
}

/// The columns line up across all kinds of matches: in the line of any
/// record, the name takes exactly as many characters as the widest name of
/// all records has bytes, two spaces follow, and where the version is not the
/// last column it takes the width of the widest version, again followed by
/// two spaces.
pub proof fn lemma_columns_line_up(all: Seq<RecordFields>, i: int, columns: ColumnsChoice)
    requires
        0 <= i < all.len(),
        columns != ColumnsChoice::NameOnly,
    ensures
        ({
            let line = layout(all, columns)(all[i]);
            let name_width = widest(names(all)) as int;
            let version_width = widest(versions(all)) as int;
            &&& line.len() >= name_width + 2
            &&& line.subrange(0, name_width) == padded(all[i].name, name_width as nat)
            &&& line.subrange(name_width, name_width + 2) == spaces(2)
            &&& columns == ColumnsChoice::All ==> {
                &&& line.len() >= name_width + version_width + 4
                &&& line.subrange(name_width + 2, name_width + 2 + version_width) == padded(
                    all[i].version,
                    version_width as nat,
                )
                &&& line.subrange(
                    name_width + 2 + version_width,
                    name_width + version_width + 4,
                ) == spaces(2)
                &&& line.skip(name_width + version_width + 4) == all[i].description
            }
            &&& columns == ColumnsChoice::Version ==> line.skip(name_width + 2) == all[i].version
            &&& columns == ColumnsChoice::Description ==> line.skip(name_width + 2)
                == all[i].description
        }),
{
    let line = layout(all, columns)(all[i]);
    lemma_widest_is_greatest(names(all));
    lemma_widest_is_greatest(versions(all));
    assert(names(all)[i] == all[i].name);
    assert(versions(all)[i] == all[i].version);
    lemma_padded_len(all[i].name, widest(names(all)));
    lemma_padded_len(all[i].version, widest(versions(all)));
    let name_width = widest(names(all)) as int;
    let version_width = widest(versions(all)) as int;
    let name = padded(all[i].name, name_width as nat);
    let version = padded(all[i].version, version_width as nat);
    assert(line.subrange(0, name_width) =~= name);
    assert(line.subrange(name_width, name_width + 2) =~= spaces(2));
    match columns {
        ColumnsChoice::All => {
            assert(line.subrange(name_width + 2, name_width + 2 + version_width) =~= version);
            assert(line.subrange(name_width + 2 + version_width, name_width + version_width + 4)
                =~= spaces(2));
            assert(line.skip(name_width + version_width + 4) =~= all[i].description);
        },
        ColumnsChoice::Version => {
            assert(line.skip(name_width + 2) =~= all[i].version);
        },
        ColumnsChoice::Description => {
            assert(line.skip(name_width + 2) =~= all[i].description);
        },
        ColumnsChoice::NameOnly => {},
    }
}

/// No record is left out: the line of every record stands among the lines of
/// the kind that its name gives it.
pub proof fn lemma_every_record_is_shown(
    records: Seq<RecordFields>,
    i: int,
    term: Seq<char>,
    ignore_case: bool,
    experimental: bool,
    columns: ColumnsChoice,
)
    requires
        0 <= i < records.len(),
    ensures
        bucket(
            records,
            kind_of(records[i].name, term, ignore_case, experimental),
            term,
            ignore_case,
            experimental,
            columns,
        ).contains(layout(records, columns)(records[i])),
{
    let kind = kind_of(records[i].name, term, ignore_case, experimental);
    let chosen = records.filter(of_kind(kind, term, ignore_case, experimental));
    records.lemma_filter_contains(of_kind(kind, term, ignore_case, experimental), i);
    let j = choose|j: int| 0 <= j < chosen.len() && chosen[j] == records[i];
    assert(chosen.map_values(layout(records, columns))[j] == layout(records, columns)(records[i]));
}

/// Every record lands in exactly one kind: the three kinds together hold as
/// many lines as there are records.
pub proof fn lemma_kinds_partition(
    records: Seq<RecordFields>,
    term: Seq<char>,
    ignore_case: bool,
    experimental: bool,
    columns: ColumnsChoice,
)
    ensures
        bucket(records, MatchKind::Exact, term, ignore_case, experimental, columns).len() + bucket(
            records,
            MatchKind::Direct,
            term,
            ignore_case,
            experimental,
            columns,
        ).len() + bucket(
            records,
            MatchKind::Indirect,
            term,
            ignore_case,
            experimental,
            columns,
        ).len() == records.len(),
    decreases records.len(),
{
    let is_exact = of_kind(MatchKind::Exact, term, ignore_case, experimental);
    let is_direct = of_kind(MatchKind::Direct, term, ignore_case, experimental);
    let is_indirect = of_kind(MatchKind::Indirect, term, ignore_case, experimental);
    if records.len() == 0 {
        assert(records.filter(is_exact).len() == 0);
        assert(records.filter(is_direct).len() == 0);
        assert(records.filter(is_indirect).len() == 0);
    } else {
        let rest = records.drop_last();
        lemma_kinds_partition(rest, term, ignore_case, experimental, columns);
        assert(records =~= rest.push(records.last()));
        rest.lemma_filter_push(records.last(), is_exact);
        rest.lemma_filter_push(records.last(), is_direct);
        rest.lemma_filter_push(records.last(), is_indirect);
    }
}

} // verus!
