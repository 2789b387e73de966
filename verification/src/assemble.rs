//! Putting the blocks of the three kinds of matches together.

use crate::highlight::{arrange, arranged};
use crate::settings::Settings;
use crate::text::{
    after_whitespace, chars_of, is_whitespace, join, joined, lemma_skip_whitespace, push_range,
    skip_whitespace, string_of, views, whitespace,
};
use vstd::prelude::*;

verus! {

/// The test for a block that holds something.
pub open spec fn is_present() -> spec_fn(Seq<char>) -> bool {
    |block: Seq<char>| block.len() > 0
}

/// What stands between two blocks: an empty line where the kinds are
/// separated, nothing otherwise. Every block ends in a line feed, so one
/// more line feed makes the empty line.
pub open spec fn separator(separate: bool) -> Seq<char> {
    if separate {
        seq!['\n']
    } else {
        Seq::empty()
    }
}

/// Where the whitespace at the end of a text begins.
pub open spec fn trim_end(text: Seq<char>) -> int
    decreases text.len(),
{
    if text.len() > 0 && is_whitespace(text.last()) {
        trim_end(text.drop_last())
    } else {
        text.len() as int
    }
}

/// A text without the whitespace at its beginning and at its end.
pub open spec fn trimmed(text: Seq<char>) -> Seq<char> {
    if skip_whitespace(text, 0) >= trim_end(text) {
        Seq::empty()
    } else {
        text.subrange(skip_whitespace(text, 0), trim_end(text))
    }
}

/// The output of a search: the blocks that hold something, best matches last
/// unless flipped, with the separator between each two, and without
/// whitespace around the whole. `blocks` come in the order exact, direct,
/// indirect.
pub open spec fn assembled(blocks: Seq<Seq<char>>, flip: bool, separate: bool) -> Seq<char> {
    trimmed(joined(arranged(blocks.filter(is_present()), flip), separator(separate)))
}

/// [`trim_end`] lies in the text, only whitespace follows it, and what stands
/// before it is no whitespace.
pub proof fn lemma_trim_end(text: Seq<char>)
    ensures
        0 <= trim_end(text) <= text.len(),
        forall|i: int| trim_end(text) <= i < text.len() ==> is_whitespace(text[i]),
        trim_end(text) > 0 ==> !is_whitespace(text[trim_end(text) - 1]),
    decreases text.len(),
{
    if text.len() > 0 && is_whitespace(text.last()) {
        let shorter = text.drop_last();
        lemma_trim_end(shorter);
        assert forall|i: int| trim_end(text) <= i < text.len() implies is_whitespace(text[i]) by {
            if i < shorter.len() {
                assert(text[i] == shorter[i]);
            }
        }
        if trim_end(text) > 0 {
            assert(text[trim_end(text) - 1] == shorter[trim_end(shorter) - 1]);
        }
    }
}

/// The output of a search neither begins nor ends with whitespace: no empty
/// line leads or trails it, with or without separators.
pub proof fn lemma_no_margin(blocks: Seq<Seq<char>>, flip: bool, separate: bool)
    ensures
        assembled(blocks, flip, separate).len() > 0 ==> {
            &&& !is_whitespace(assembled(blocks, flip, separate).first())
            &&& !is_whitespace(assembled(blocks, flip, separate).last())
        },
{
    let text = joined(arranged(blocks.filter(is_present()), flip), separator(separate));
    lemma_skip_whitespace(text, 0);
    lemma_trim_end(text);
}

/// Computes [`trimmed`].
pub fn trim(text: &Vec<char>) -> (r: Vec<char>)
    ensures
        r@ == trimmed(text@),
{
    let start = after_whitespace(text, 0);
    let mut end: usize = text.len();
    assert(text@.take(end as int) =~= text@);
    while end > 0 && whitespace(text[end - 1])
        invariant
            end <= text@.len(),
            trim_end(text@) == trim_end(text@.take(end as int)),
        decreases end,
    {
        assert(text@.take(end as int).drop_last() =~= text@.take(end - 1));
        end -= 1;
    }
    proof {
        if end > 0 {
            assert(text@.take(end as int).last() == text@[end - 1]);
        }
        assert(trim_end(text@) == end);
    }
    let mut out: Vec<char> = Vec::new();
    if start < end {
        push_range(&mut out, text, start, end);
    }
    out
}

/// Puts the blocks of the three kinds of matches together.
///
/// `colored_matches` holds the blocks of the exact, the direct and the
/// indirect matches. Empty blocks are left out. The others follow each other
/// from indirect to exact, or from exact to indirect where the output is
/// flipped, with one empty line between two blocks where the kinds are
/// separated. Whitespace around the whole is cut off.
pub fn assemble(cli: &Settings, colored_matches: &[String; 3]) -> (r: String)
    ensures
        r@ == assembled(views(colored_matches@), cli.flip, cli.separate),
{
    let ghost all = views(colored_matches@);
    let mut present: Vec<String> = Vec::new();
    let mut i: usize = 0;
    assert(all.take(0) =~= Seq::<Seq<char>>::empty());
    while i < 3
        invariant
            i <= 3,
            all == views(colored_matches@),
            views(present@) == all.take(i as int).filter(is_present()),
        decreases 3 - i,
    {
        proof {
            let seen = all.take(i as int);
            assert(all.take(i + 1) =~= seen.push(all[i as int]));
            seen.lemma_filter_push(all[i as int], is_present());
        }
        if !colored_matches[i].as_str().is_empty() {
            let ghost before = views(present@);
            present.push(colored_matches[i].clone());
            assert(views(present@) =~= before.push(all[i as int]));
        }
        i += 1;
    }
    assert(all.take(3) =~= all);
    let ordered = arrange(&present, cli.flip);
    let text = if cli.separate {
        proof {
            reveal_strlit("\n");
            assert("\n"@ =~= seq!['\n']);
        }
        join(&ordered, "\n")
    } else {
        proof {
            reveal_strlit("");
            assert(""@ =~= Seq::<char>::empty());
        }
        join(&ordered, "")
    };
    string_of(&trim(&chars_of(text.as_str())))
}

/// Picking from a reversed sequence gives the reverse of what is picked from
/// the sequence.
pub proof fn lemma_filter_reverse(blocks: Seq<Seq<char>>, pick: spec_fn(Seq<char>) -> bool)
    ensures
        blocks.reverse().filter(pick) == blocks.filter(pick).reverse(),
    decreases blocks.len(),
{
    if blocks.len() == 0 {
        assert(blocks.reverse() =~= blocks);
        assert(blocks.filter(pick) =~= Seq::<Seq<char>>::empty());
        assert(blocks.filter(pick).reverse() =~= blocks.filter(pick));
    } else {
        let rest = blocks.drop_last();
        let last = blocks.last();
        lemma_filter_reverse(rest, pick);
        assert(blocks =~= rest.push(last));
        rest.lemma_filter_push(last, pick);
        assert(blocks.reverse() =~= seq![last] + rest.reverse());
        Seq::filter_distributes_over_add(seq![last], rest.reverse(), pick);
        Seq::<Seq<char>>::empty().lemma_filter_push(last, pick);
        assert(Seq::<Seq<char>>::empty().push(last) =~= seq![last]);
        assert(Seq::<Seq<char>>::empty().filter(pick) =~= Seq::<Seq<char>>::empty());
        if pick(last) {
            assert(seq![last].filter(pick) =~= seq![last]);
            assert(rest.filter(pick).push(last).reverse() =~= seq![last] + rest.filter(
                pick,
            ).reverse());
        } else {
            assert(seq![last].filter(pick) =~= Seq::<Seq<char>>::empty());
            assert(Seq::<Seq<char>>::empty() + rest.reverse().filter(pick) =~= rest.reverse().filter(
                pick,
            ));
        }
    }
}

/// Flipping the output is the same as handing the blocks over in reverse
/// order.
pub proof fn lemma_flip_reverses_blocks(blocks: Seq<Seq<char>>, separate: bool)
    ensures
        assembled(blocks, true, separate) == assembled(blocks.reverse(), false, separate),
{
    lemma_filter_reverse(blocks, is_present());
    let present = blocks.filter(is_present());
    assert(present.reverse().reverse() =~= present);
}

} // verus!
