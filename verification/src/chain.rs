//! The partial hull of one quadrant: an ordered map from a signed coordinate
//! key to a point identifier, kept as a vector sorted by strictly increasing
//! key. Inserting an existing key replaces that key's entry.

use vstd::prelude::*;

use crate::geometry::Point;
use crate::geometry::in_bounds;

verus! {

/// One entry of a partial hull: the ordering key, the point's identifier and
/// the point itself.
#[derive(Clone, Copy, PartialEq, Eq, Structural, Debug)]
pub struct ChainEntry {
    pub key: i64,
    pub id: usize,
    pub p: Point,
}

/// Well-formed partial hull: keys strictly increase and all points are within
/// the coordinate bound.
pub open spec fn chain_wf(s: Seq<ChainEntry>) -> bool {
    &&& forall|i: int, j: int| 0 <= i < j < s.len() ==> #[trigger] s[i].key < #[trigger] s[j].key
    &&& forall|i: int| 0 <= i < s.len() ==> in_bounds(#[trigger] s[i].p)
}

/// The first position whose key is at least `k` (the length if none is).
pub open spec fn ins_pos(s: Seq<ChainEntry>, k: i64) -> int
    decreases s.len(),
{
    if s.len() == 0 {
        0
    } else if s[0].key >= k {
        0
    } else {
        1 + ins_pos(s.subrange(1, s.len() as int), k)
    }
}

/// Whether some entry of the chain carries key `k`.
pub open spec fn chain_has_key(s: Seq<ChainEntry>, k: i64) -> bool {
    ins_pos(s, k) < s.len() && s[ins_pos(s, k)].key == k
}

/// Inserts an entry, replacing the entry with the same key if one exists.
pub open spec fn chain_insert(s: Seq<ChainEntry>, e: ChainEntry) -> Seq<ChainEntry> {
    let pos = ins_pos(s, e.key);
    if pos < s.len() && s[pos].key == e.key {
        s.update(pos, e)
    } else {
        s.insert(pos, e)
    }
}

/// Removes the entry keyed `k`, if present.
pub open spec fn chain_remove(s: Seq<ChainEntry>, k: i64) -> Seq<ChainEntry> {
    if chain_has_key(s, k) {
        s.remove(ins_pos(s, k))
    } else {
        s
    }
}

/// The entry with the greatest key strictly below `k`.
pub open spec fn chain_pred(s: Seq<ChainEntry>, k: i64) -> Option<ChainEntry> {
    let pos = ins_pos(s, k);
    if pos > 0 {
        Some(s[pos - 1])
    } else {
        None
    }
}

/// The entry with the smallest key strictly above `k`.
pub open spec fn chain_succ(s: Seq<ChainEntry>, k: i64) -> Option<ChainEntry> {
    let pos = ins_pos(s, k);
    let pos2: int = if pos < s.len() && s[pos].key == k {
        pos + 1
    } else {
        pos
    };
    if pos2 < s.len() {
        Some(s[pos2])
    } else {
        None
    }
}

pub proof fn lemma_ins_pos(s: Seq<ChainEntry>, k: i64)
    ensures
        0 <= ins_pos(s, k) <= s.len(),
        forall|i: int| 0 <= i < ins_pos(s, k) ==> #[trigger] s[i].key < k,
        ins_pos(s, k) < s.len() ==> s[ins_pos(s, k)].key >= k,
    decreases s.len(),
{
    if s.len() > 0 && s[0].key < k {
        let t = s.subrange(1, s.len() as int);
        lemma_ins_pos(t, k);
        assert(forall|i: int| 0 <= i < t.len() ==> #[trigger] t[i] == s[i + 1]);
        assert forall|i: int| 0 <= i < ins_pos(s, k) implies #[trigger] s[i].key < k by {
            if i >= 1 {
                assert(t[i - 1] == s[i]);
            }
        }
    }
}

/// The first position with key at least `k` is the only position with
/// everything below it keyed less than `k`.
pub proof fn lemma_ins_pos_unique(s: Seq<ChainEntry>, k: i64, n: int)
    requires
        0 <= n <= s.len(),
        forall|i: int| 0 <= i < n ==> #[trigger] s[i].key < k,
        n < s.len() ==> s[n].key >= k,
    ensures
        n == ins_pos(s, k),
    decreases s.len(),
{
    if s.len() > 0 && s[0].key < k {
        let t = s.subrange(1, s.len() as int);
        assert(forall|i: int| 0 <= i < t.len() ==> #[trigger] t[i] == s[i + 1]);
        lemma_ins_pos_unique(t, k, n - 1);
    }
}

/// A member of a well-formed chain sits exactly at the first position keyed
/// at least its own key.
pub proof fn lemma_member_at(s: Seq<ChainEntry>, j: int)
    requires
        chain_wf(s),
        0 <= j < s.len(),
    ensures
        ins_pos(s, s[j].key) == j,
        chain_has_key(s, s[j].key),
{
    lemma_ins_pos_unique(s, s[j].key, j);
}

/// A member of a well-formed chain is found again by its own key.
pub proof fn lemma_member_has_key(s: Seq<ChainEntry>, e: ChainEntry)
    requires
        chain_wf(s),
        s.contains(e),
    ensures
        chain_has_key(s, e.key),
        s[ins_pos(s, e.key)] == e,
{
    let j = choose|j: int| 0 <= j < s.len() && s[j] == e;
    lemma_member_at(s, j);
}

/// An entry found at its own key position is a bounded member of the chain.
pub proof fn lemma_keyed_entry(s: Seq<ChainEntry>, e: ChainEntry)
    requires
        chain_wf(s),
        chain_has_key(s, e.key),
        s[ins_pos(s, e.key)] == e,
    ensures
        in_bounds(e.p),
        s.contains(e),
{
    lemma_ins_pos(s, e.key);
    let pos = ins_pos(s, e.key);
    assert(in_bounds(s[pos].p));
    assert(s[pos] == e);
}

pub proof fn lemma_insert_wf(s: Seq<ChainEntry>, e: ChainEntry)
    requires
        chain_wf(s),
        in_bounds(e.p),
    ensures
        chain_wf(chain_insert(s, e)),
{
    lemma_ins_pos(s, e.key);
    let pos = ins_pos(s, e.key);
    let r = chain_insert(s, e);
    if pos < s.len() && s[pos].key == e.key {
        assert forall|i: int, j: int| 0 <= i < j < r.len() implies
            #[trigger] r[i].key < #[trigger] r[j].key by {
            assert(s[i].key < s[j].key);
        }
    } else {
        assert forall|i: int, j: int| 0 <= i < j < r.len() implies
            #[trigger] r[i].key < #[trigger] r[j].key by {
            if j < pos {
                assert(r[i] == s[i] && r[j] == s[j]);
            } else if j == pos {
                assert(r[j] == e);
                assert(r[i] == s[i] && s[i].key < e.key);
            } else if i == pos {
                assert(r[i] == e);
                assert(r[j] == s[j - 1] && s[j - 1].key >= e.key);
                assert(s[j - 1].key != e.key);
            } else if i > pos {
                assert(r[i] == s[i - 1] && r[j] == s[j - 1]);
            } else {
                assert(r[i] == s[i] && r[j] == s[j - 1]);
                if pos < s.len() {
                    assert(s[i].key < s[pos].key || i == pos);
                }
                assert(s[i].key < e.key);
                assert(s[j - 1].key >= e.key);
                assert(s[j - 1].key != e.key);
            }
        }
        assert forall|i: int| 0 <= i < r.len() implies in_bounds(#[trigger] r[i].p) by {
            if i < pos {
                assert(r[i] == s[i]);
            } else if i == pos {
                assert(r[i] == e);
            } else {
                assert(r[i] == s[i - 1]);
            }
        }
    }
}

pub proof fn lemma_remove_wf(s: Seq<ChainEntry>, k: i64)
    requires
        chain_wf(s),
    ensures
        chain_wf(chain_remove(s, k)),
{
    lemma_ins_pos(s, k);
    let r = chain_remove(s, k);
    if chain_has_key(s, k) {
        let pos = ins_pos(s, k);
        assert forall|i: int, j: int| 0 <= i < j < r.len() implies
            #[trigger] r[i].key < #[trigger] r[j].key by {
            let i0: int = if i < pos { i } else { i + 1 };
            let j0: int = if j < pos { j } else { j + 1 };
            assert(r[i] == s[i0] && r[j] == s[j0]);
        }
        assert forall|i: int| 0 <= i < r.len() implies in_bounds(#[trigger] r[i].p) by {
            let i0: int = if i < pos { i } else { i + 1 };
            assert(r[i] == s[i0]);
        }
    }
}

/// Everything in the chain after an insertion is the new entry or was already
/// there.
pub proof fn lemma_insert_members(s: Seq<ChainEntry>, e: ChainEntry)
    ensures
        forall|i: int| 0 <= i < chain_insert(s, e).len() ==>
            #[trigger] chain_insert(s, e)[i] == e || s.contains(chain_insert(s, e)[i]),
{
    lemma_ins_pos(s, e.key);
    let pos = ins_pos(s, e.key);
    let r = chain_insert(s, e);
    assert forall|i: int| 0 <= i < r.len() implies
        #[trigger] r[i] == e || s.contains(r[i]) by {
        if pos < s.len() && s[pos].key == e.key {
            if i != pos {
                assert(r[i] == s[i]);
            }
        } else {
            if i < pos {
                assert(r[i] == s[i]);
            } else if i > pos {
                assert(r[i] == s[i - 1]);
            }
        }
    }
}

/// Everything in the chain after a removal was already there.
pub proof fn lemma_remove_members(s: Seq<ChainEntry>, k: i64)
    ensures
        forall|i: int| 0 <= i < chain_remove(s, k).len() ==>
            s.contains(#[trigger] chain_remove(s, k)[i]),
{
    lemma_ins_pos(s, k);
    let r = chain_remove(s, k);
    if chain_has_key(s, k) {
        let pos = ins_pos(s, k);
        assert forall|i: int| 0 <= i < r.len() implies s.contains(#[trigger] r[i]) by {
            let i0: int = if i < pos { i } else { i + 1 };
            assert(r[i] == s[i0]);
        }
    } else {
        assert forall|i: int| 0 <= i < r.len() implies s.contains(#[trigger] r[i]) by {
            assert(r[i] == s[i]);
        }
    }
}

/// Removing one key keeps every entry with a different key.
pub proof fn lemma_remove_keeps(s: Seq<ChainEntry>, k: i64, e: ChainEntry)
    requires
        chain_wf(s),
        s.contains(e),
        e.key != k,
    ensures
        chain_remove(s, k).contains(e),
{
    let j = choose|j: int| 0 <= j < s.len() && s[j] == e;
    lemma_ins_pos(s, k);
    let r = chain_remove(s, k);
    if chain_has_key(s, k) {
        let pos = ins_pos(s, k);
        assert(j != pos);
        let j2: int = if j < pos { j } else { j - 1 };
        assert(r[j2] == e);
    }
}

/// The neighbors found for a key are members of the chain and bracket it.
pub proof fn lemma_neighbors(s: Seq<ChainEntry>, k: i64)
    requires
        chain_wf(s),
    ensures
        chain_pred(s, k) is Some ==> s.contains(chain_pred(s, k).unwrap())
            && chain_pred(s, k).unwrap().key < k,
        chain_succ(s, k) is Some ==> s.contains(chain_succ(s, k).unwrap())
            && chain_succ(s, k).unwrap().key > k,
{
    lemma_ins_pos(s, k);
    let pos = ins_pos(s, k);
    if pos > 0 {
        assert(s[pos - 1] == chain_pred(s, k).unwrap());
    }
    match chain_succ(s, k) {
        Some(b) => {
            let pos2: int = if pos < s.len() && s[pos].key == k {
                pos + 1
            } else {
                pos
            };
            assert(s[pos2] == b);
            if pos2 == pos + 1 {
                assert(s[pos].key < s[pos2].key);
            }
        },
        None => {},
    }
}

/// Finds the first position whose key is at least `k`.
fn find_pos(ch: &Vec<ChainEntry>, k: i64) -> (r: usize)
    ensures
        r == ins_pos(ch@, k),
{
    let mut i: usize = 0;
    while i < ch.len() && ch[i].key < k
        invariant
            0 <= i <= ch.len(),
            forall|j: int| 0 <= j < i ==> #[trigger] ch@[j].key < k,
        decreases ch.len() - i,
    {
        i = i + 1;
    }
    proof {
        lemma_ins_pos_unique(ch@, k, i as int);
    }
    i
}

/// Inserts an entry into the partial hull, replacing the entry with the same
/// key if one exists.
pub fn chain_insert_exec(ch: &mut Vec<ChainEntry>, e: ChainEntry)
    requires
        chain_wf(old(ch)@),
        in_bounds(e.p),
    ensures
        final(ch)@ == chain_insert(old(ch)@, e),
        chain_wf(final(ch)@),
{
    proof {
        lemma_ins_pos(ch@, e.key);
        lemma_insert_wf(ch@, e);
    }
    let pos = find_pos(ch, e.key);
    if pos < ch.len() && ch[pos].key == e.key {
        ch.set(pos, e);
        proof {
            assert(ch@ =~= chain_insert(old(ch)@, e));
        }
    } else {
        ch.insert(pos, e);
    }
}

/// Removes the entry keyed `k` from the partial hull, if present.
pub fn chain_remove_exec(ch: &mut Vec<ChainEntry>, k: i64)
    requires
        chain_wf(old(ch)@),
    ensures
        final(ch)@ == chain_remove(old(ch)@, k),
        chain_wf(final(ch)@),
{
    proof {
        lemma_ins_pos(ch@, k);
        lemma_remove_wf(ch@, k);
    }
    let pos = find_pos(ch, k);
    if pos < ch.len() && ch[pos].key == k {
        ch.remove(pos);
    }
}

/// Returns the entry with the greatest key strictly below `k`, if any.
pub fn chain_pred_exec(ch: &Vec<ChainEntry>, k: i64) -> (r: Option<ChainEntry>)
    ensures
        r == chain_pred(ch@, k),
{
    proof {
        lemma_ins_pos(ch@, k);
    }
    let pos = find_pos(ch, k);
    if pos > 0 {
        Some(ch[pos - 1])
    } else {
        None
    }
}

/// Returns the entry with the smallest key strictly above `k`, if any.
pub fn chain_succ_exec(ch: &Vec<ChainEntry>, k: i64) -> (r: Option<ChainEntry>)
    ensures
        r == chain_succ(ch@, k),
{
    proof {
        lemma_ins_pos(ch@, k);
    }
    let pos = find_pos(ch, k);
    let pos2 = if pos < ch.len() && ch[pos].key == k {
        pos + 1
    } else {
        pos
    };
    if pos2 < ch.len() {
        Some(ch[pos2])
    } else {
        None
    }
}

} // verus!
