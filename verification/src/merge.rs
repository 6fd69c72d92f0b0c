//! Merging the four partial hulls into one cyclic boundary.
//!
//! The quadrants are appended in their fixed cyclic order. Each quadrant's
//! first (smallest-key) entry is dropped when it repeats the identifier just
//! appended; finally, trailing identifiers equal to the first one are dropped
//! so the closing vertex is not listed twice.

use vstd::prelude::*;

use crate::chain::ChainEntry;

verus! {

/// The identifiers of a partial hull, in ascending key order.
pub open spec fn ids_of(ch: Seq<ChainEntry>) -> Seq<usize> {
    ch.map_values(|e: ChainEntry| e.id)
}

/// Appends one quadrant's identifiers to the merged boundary, dropping the
/// quadrant's first entry when it repeats the last identifier so far.
pub open spec fn merge_step(acc: Seq<usize>, ch: Seq<ChainEntry>) -> Seq<usize> {
    if acc.len() == 0 {
        acc + ids_of(ch)
    } else if ch.len() == 0 {
        acc
    } else if ch[0].id == acc.last() {
        acc + ids_of(ch.drop_first())
    } else {
        acc + ids_of(ch)
    }
}

/// Drops trailing identifiers while the last equals the first.
pub open spec fn trim(acc: Seq<usize>) -> Seq<usize>
    decreases acc.len(),
{
    if acc.len() == 0 {
        acc
    } else if acc.last() == acc[0] {
        trim(acc.drop_last())
    } else {
        acc
    }
}

/// The merge of the four quadrants' partial hulls, in cyclic order.
pub open spec fn merged(c1: Seq<ChainEntry>, c2: Seq<ChainEntry>, c3: Seq<ChainEntry>,
    c4: Seq<ChainEntry>) -> Seq<usize> {
    trim(merge_step(merge_step(merge_step(merge_step(Seq::empty(), c1), c2), c3), c4))
}

/// What `trim` keeps is an unchanged front part of its input.
pub proof fn lemma_trim_prefix(acc: Seq<usize>)
    ensures
        trim(acc).len() <= acc.len(),
        forall|i: int| 0 <= i < trim(acc).len() ==> #[trigger] trim(acc)[i] == acc[i],
    decreases acc.len(),
{
    if acc.len() > 0 && acc.last() == acc[0] {
        lemma_trim_prefix(acc.drop_last());
    }
}

/// Law: a trimmed boundary never repeats its first identifier at the end,
/// so the closing vertex of the cycle is listed only once.
pub proof fn lemma_trim_last_ne_first(acc: Seq<usize>)
    ensures
        trim(acc).len() > 0 ==> trim(acc).last() != trim(acc)[0],
    decreases acc.len(),
{
    if acc.len() > 0 && acc.last() == acc[0] {
        lemma_trim_last_ne_first(acc.drop_last());
    }
}

fn append_chain(acc: &mut Vec<usize>, ch: &Vec<ChainEntry>)
    ensures
        final(acc)@ == merge_step(old(acc)@, ch@),
{
    let ghost base = acc@;
    let mut j: usize = 0;
    if acc.len() > 0 && ch.len() > 0 {
        if ch[0].id == acc[acc.len() - 1] {
            j = 1;
        }
    }
    let ghost start = j as int;
    proof {
        assert(acc@ =~= base + ids_of(ch@).subrange(start, start));
    }
    while j < ch.len()
        invariant
            start <= j <= ch@.len(),
            0 <= start <= 1,
            acc@ == base + ids_of(ch@).subrange(start, j as int),
        decreases ch@.len() - j,
    {
        proof {
            assert(ids_of(ch@).subrange(start, j + 1)
                =~= ids_of(ch@).subrange(start, j as int) + seq![ch@[j as int].id]);
        }
        let e = ch[j];
        acc.push(e.id);
        proof {
            assert(acc@ =~= base + ids_of(ch@).subrange(start, j + 1));
        }
        j = j + 1;
    }
    proof {
        if base.len() == 0 {
            assert(start == 0);
            assert(ids_of(ch@).subrange(0, ch@.len() as int) =~= ids_of(ch@));
        } else if ch@.len() == 0 {
            assert(acc@ =~= base);
        } else if start == 1 {
            assert(ch@[0].id == base.last());
            assert(ids_of(ch@).subrange(1, ch@.len() as int) =~= ids_of(ch@.drop_first()));
        } else {
            assert(ch@[0].id != base.last());
            assert(ids_of(ch@).subrange(0, ch@.len() as int) =~= ids_of(ch@));
        }
    }
    assert(acc@ == merge_step(base, ch@));
}

fn trim_last(acc: &mut Vec<usize>)
    ensures
        final(acc)@ == trim(old(acc)@),
{
    while acc.len() > 0 && acc[acc.len() - 1] == acc[0]
        invariant
            trim(acc@) == trim(old(acc)@),
        decreases acc@.len(),
    {
        proof {
            assert(acc@.drop_last() =~= acc@.subrange(0, acc@.len() - 1));
        }
        acc.pop();
    }
}

/// Concatenates the four partial hulls into the final cyclic boundary,
/// deduplicating shared endpoints.
pub fn merge_chains(c1: &Vec<ChainEntry>, c2: &Vec<ChainEntry>, c3: &Vec<ChainEntry>,
    c4: &Vec<ChainEntry>) -> (r: Vec<usize>)
    ensures
        r@ == merged(c1@, c2@, c3@, c4@),
{
    let mut acc: Vec<usize> = Vec::new();
    append_chain(&mut acc, c1);
    append_chain(&mut acc, c2);
    append_chain(&mut acc, c3);
    append_chain(&mut acc, c4);
    trim_last(&mut acc);
    acc
}

} // verus!
