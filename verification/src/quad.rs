//! The partial hull builder for one quadrant: a Graham-scan-like incremental
//! elimination over the ordered chain, run once per quadrant.
//!
//! For each real candidate point C that is not a quadrant endpoint:
//! points on the axis-aligned boundary shared with the neighboring quadrant
//! are inserted directly; otherwise C's bracketing chain neighbors A
//! (immediate predecessor by oriented key) and B (immediate successor) are
//! located and the orientation of C against the line A->B decides: left of it
//! C is dominated and dropped, collinear C is inserted, right of it C is
//! inserted and the chain neighbors walking left from A and right from B are
//! evicted while they are dominated by the new point.

use vstd::prelude::*;

use crate::chain::ChainEntry;
use crate::chain::chain_has_key;
use crate::chain::chain_insert;
use crate::chain::chain_insert_exec;
use crate::chain::chain_pred;
use crate::chain::chain_pred_exec;
use crate::chain::chain_remove;
use crate::chain::chain_remove_exec;
use crate::chain::chain_succ;
use crate::chain::chain_succ_exec;
use crate::chain::chain_wf;
use crate::chain::ins_pos;
use crate::chain::lemma_insert_members;
use crate::chain::lemma_member_has_key;
use crate::chain::lemma_neighbors;
use crate::chain::lemma_remove_keeps;
use crate::chain::lemma_remove_members;
use crate::geometry::Entry;
use crate::geometry::Point;
use crate::geometry::PointValue;
use crate::geometry::cross;
use crate::geometry::cross_exec;
use crate::geometry::entries_wf;
use crate::geometry::in_bounds;
use crate::geometry::is_real;
use crate::geometry::point_of;
use crate::extremes::entry_from;

verus! {

/// Everything one quadrant's builder needs besides the point source: the
/// quadrant number, the boundary leader point shared with the neighboring
/// quadrant, whether the quadrant is degenerate (fewer than two distinct
/// initial boundary entries), and the eight extreme identifiers that are
/// excluded as candidates.
#[derive(Clone, Copy, PartialEq, Eq, Structural, Debug)]
pub struct QuadCtx {
    pub quadrant: usize,
    pub bp: Point,
    pub degenerate: bool,
    pub end1: usize,
    pub end2: usize,
    pub end3: usize,
    pub end4: usize,
    pub end5: usize,
    pub end6: usize,
    pub end7: usize,
    pub end8: usize,
}

/// The identifier is one of the eight extreme identifiers.
pub open spec fn is_endpoint(ctx: QuadCtx, id: usize) -> bool {
    ||| id == ctx.end1
    ||| id == ctx.end2
    ||| id == ctx.end3
    ||| id == ctx.end4
    ||| id == ctx.end5
    ||| id == ctx.end6
    ||| id == ctx.end7
    ||| id == ctx.end8
}

/// The chain ordering key of a point: quadrants 1 and 2 are traversed by
/// falling x, quadrants 3 and 4 by rising x, so the sign of the x-coordinate
/// is flipped for the first two.
pub open spec fn okey(q: int, c: Point) -> i64 {
    if q < 2 {
        (-c.x) as i64
    } else {
        c.x
    }
}

/// Whether the candidate lies exactly on the boundary shared with the next
/// quadrant: equal y to the y-leader for quadrants 1 and 3, equal x to the
/// x-leader for quadrants 2 and 4.
pub open spec fn on_boundary(ctx: QuadCtx, c: Point) -> bool {
    if ctx.quadrant == 0 || ctx.quadrant == 2 {
        c.y == ctx.bp.y
    } else {
        c.x == ctx.bp.x
    }
}

/// The chain key of a boundary candidate: the oriented x-coordinate on the
/// horizontal boundaries, the oriented x+y diagonal offset by the leader's y
/// on the diagonal ones.
pub open spec fn bkey(ctx: QuadCtx, c: Point) -> i64 {
    if ctx.quadrant == 0 {
        (-c.x) as i64
    } else if ctx.quadrant == 1 {
        (-(c.x + c.y - ctx.bp.y)) as i64
    } else if ctx.quadrant == 2 {
        c.x
    } else {
        (c.x + c.y - ctx.bp.y) as i64
    }
}

/// Walks left from A: while A's immediate predecessor D sees A strictly left
/// of the line D->C, A is evicted and the walk continues from D.
pub open spec fn evict_left(ch: Seq<ChainEntry>, c: Point, a: ChainEntry) -> Seq<ChainEntry>
    decreases ch.len(),
    via evict_left_dec
{
    if !chain_has_key(ch, a.key) {
        ch
    } else {
        match chain_pred(ch, a.key) {
            None => ch,
            Some(d) => if cross(d.p, c, a.p) > 0 {
                evict_left(chain_remove(ch, a.key), c, d)
            } else {
                ch
            },
        }
    }
}

/// Walks right from B: while B's immediate successor D sees B strictly left
/// of the line C->D, B is evicted and the walk continues from D.
#[via_fn]
proof fn evict_left_dec(ch: Seq<ChainEntry>, c: Point, a: ChainEntry) {
    crate::chain::lemma_ins_pos(ch, a.key);
}

pub open spec fn evict_right(ch: Seq<ChainEntry>, c: Point, b: ChainEntry) -> Seq<ChainEntry>
    decreases ch.len(),
    via evict_right_dec
{
    if !chain_has_key(ch, b.key) {
        ch
    } else {
        match chain_succ(ch, b.key) {
            None => ch,
            Some(d) => if cross(c, d.p, b.p) > 0 {
                evict_right(chain_remove(ch, b.key), c, d)
            } else {
                ch
            },
        }
    }
}

#[via_fn]
proof fn evict_right_dec(ch: Seq<ChainEntry>, c: Point, b: ChainEntry) {
    crate::chain::lemma_ins_pos(ch, b.key);
}

/// Feeds one source entry into the quadrant's partial hull.
pub open spec fn quad_step(ch: Seq<ChainEntry>, ctx: QuadCtx, id: usize, v: PointValue)
    -> Seq<ChainEntry> {
    if !is_real(v) {
        ch
    } else {
        let c = point_of(v);
        if is_endpoint(ctx, id) {
            ch
        } else if on_boundary(ctx, c) {
            chain_insert(ch, ChainEntry { key: bkey(ctx, c), id, p: c })
        } else if ctx.degenerate {
            ch
        } else {
            let k = okey(ctx.quadrant as int, c);
            match (chain_pred(ch, k), chain_succ(ch, k)) {
                (Some(a), Some(b)) => {
                    let cr = cross(a.p, b.p, c);
                    if cr > 0 {
                        ch
                    } else if cr == 0 {
                        chain_insert(ch, ChainEntry { key: k, id, p: c })
                    } else {
                        let ch1 = evict_left(ch, c, a);
                        let ch2 = evict_right(ch1, c, b);
                        chain_insert(ch2, ChainEntry { key: k, id, p: c })
                    }
                },
                _ => ch,
            }
        }
    }
}

/// The quadrant's partial hull after all entries were offered to it, starting
/// from the chain holding the quadrant's boundary extremes.
pub open spec fn build_quad(s: Seq<Entry>, init: Seq<ChainEntry>, ctx: QuadCtx)
    -> Seq<ChainEntry>
    decreases s.len(),
{
    if s.len() == 0 {
        init
    } else {
        quad_step(build_quad(s.drop_last(), init, ctx), ctx, s.last().0, s.last().1)
    }
}

/// Every entry of the chain pairs an identifier with its real point from `s`.
pub open spec fn chain_from(ch: Seq<ChainEntry>, s: Seq<Entry>) -> bool {
    forall|i: int| 0 <= i < ch.len() ==>
        entry_from(#[trigger] ch[i].id, ch[i].p, s)
}

proof fn lemma_evict_left_from(ch: Seq<ChainEntry>, c: Point, a: ChainEntry, s: Seq<Entry>)
    requires
        chain_from(ch, s),
    ensures
        chain_from(evict_left(ch, c, a), s),
    decreases ch.len(),
{
    if chain_has_key(ch, a.key) {
        match chain_pred(ch, a.key) {
            Some(d) => {
                if cross(d.p, c, a.p) > 0 {
                    crate::chain::lemma_ins_pos(ch, a.key);
                    let ch2 = chain_remove(ch, a.key);
                    lemma_remove_members(ch, a.key);
                    assert forall|i: int| 0 <= i < ch2.len() implies
                        entry_from(#[trigger] ch2[i].id, ch2[i].p, s) by {
                        let j = choose|j: int| 0 <= j < ch.len() && ch[j] == ch2[i];
                        assert(entry_from(ch[j].id, ch[j].p, s));
                    }
                    lemma_evict_left_from(ch2, c, d, s);
                }
            },
            None => {},
        }
    }
}

proof fn lemma_evict_right_from(ch: Seq<ChainEntry>, c: Point, b: ChainEntry, s: Seq<Entry>)
    requires
        chain_from(ch, s),
    ensures
        chain_from(evict_right(ch, c, b), s),
    decreases ch.len(),
{
    if chain_has_key(ch, b.key) {
        match chain_succ(ch, b.key) {
            Some(d) => {
                if cross(c, d.p, b.p) > 0 {
                    crate::chain::lemma_ins_pos(ch, b.key);
                    let ch2 = chain_remove(ch, b.key);
                    lemma_remove_members(ch, b.key);
                    assert forall|i: int| 0 <= i < ch2.len() implies
                        entry_from(#[trigger] ch2[i].id, ch2[i].p, s) by {
                        let j = choose|j: int| 0 <= j < ch.len() && ch[j] == ch2[i];
                        assert(entry_from(ch[j].id, ch[j].p, s));
                    }
                    lemma_evict_right_from(ch2, c, d, s);
                }
            },
            None => {},
        }
    }
}

pub proof fn lemma_insert_from(ch: Seq<ChainEntry>, e: ChainEntry, s: Seq<Entry>)
    requires
        chain_from(ch, s),
        entry_from(e.id, e.p, s),
    ensures
        chain_from(chain_insert(ch, e), s),
{
    let ch2 = chain_insert(ch, e);
    lemma_insert_members(ch, e);
    assert forall|i: int| 0 <= i < ch2.len() implies
        entry_from(#[trigger] ch2[i].id, ch2[i].p, s) by {
        if ch2[i] != e {
            let j = choose|j: int| 0 <= j < ch.len() && ch[j] == ch2[i];
            assert(entry_from(ch[j].id, ch[j].p, s));
        }
    }
}

proof fn lemma_step_from(ch: Seq<ChainEntry>, ctx: QuadCtx, id: usize, v: PointValue,
    s: Seq<Entry>)
    requires
        chain_from(ch, s),
        is_real(v) ==> entry_from(id, point_of(v), s),
    ensures
        chain_from(quad_step(ch, ctx, id, v), s),
{
    if is_real(v) && !is_endpoint(ctx, id) {
        let c = point_of(v);
        if on_boundary(ctx, c) {
            lemma_insert_from(ch, ChainEntry { key: bkey(ctx, c), id, p: c }, s);
        } else if !ctx.degenerate {
            let k = okey(ctx.quadrant as int, c);
            match (chain_pred(ch, k), chain_succ(ch, k)) {
                (Some(a), Some(b)) => {
                    let cr = cross(a.p, b.p, c);
                    if cr == 0 {
                        lemma_insert_from(ch, ChainEntry { key: k, id, p: c }, s);
                    } else if cr < 0 {
                        let ch1 = evict_left(ch, c, a);
                        lemma_evict_left_from(ch, c, a, s);
                        let ch2 = evict_right(ch1, c, b);
                        lemma_evict_right_from(ch1, c, b, s);
                        lemma_insert_from(ch2, ChainEntry { key: k, id, p: c }, s);
                    }
                },
                _ => {},
            }
        }
    }
}

/// Every entry of a built partial hull pairs an identifier with its real
/// point from the source.
pub proof fn lemma_build_from(s: Seq<Entry>, init: Seq<ChainEntry>, ctx: QuadCtx)
    requires
        chain_from(init, s),
    ensures
        chain_from(build_quad(s, init, ctx), s),
{
    lemma_build_from_full(s, init, ctx, s.len() as int);
    assert(s.take(s.len() as int) =~= s);
}

/// Helper: membership in the full sequence is preserved along the recursion
/// over its prefixes.
proof fn lemma_build_from_full(s: Seq<Entry>, init: Seq<ChainEntry>, ctx: QuadCtx, m: int)
    requires
        chain_from(init, s),
        0 <= m <= s.len(),
    ensures
        chain_from(build_quad(s.take(m), init, ctx), s),
    decreases m,
{
    if m == 0 {
        assert(s.take(0).len() == 0);
    } else {
        let t = s.take(m);
        lemma_build_from_full(s, init, ctx, m - 1);
        assert(t.drop_last() =~= s.take(m - 1));
        let prev = build_quad(t.drop_last(), init, ctx);
        let last = t.last();
        assert(last == s[m - 1]);
        if is_real(last.1) {
            assert(s[m - 1] == (last.0, PointValue::Real(point_of(last.1))));
        }
        lemma_step_from(prev, ctx, last.0, last.1, s);
    }
}

/// Whether the identifier is one of the eight extreme identifiers.
fn is_endpoint_exec(ctx: &QuadCtx, id: usize) -> (r: bool)
    ensures
        r == is_endpoint(*ctx, id),
{
    id == ctx.end1 || id == ctx.end2 || id == ctx.end3 || id == ctx.end4
        || id == ctx.end5 || id == ctx.end6 || id == ctx.end7 || id == ctx.end8
}

/// Runs one quadrant's elimination over all entries, starting from the chain
/// of the quadrant's boundary extremes.
pub fn build_quadrant(entries: &Vec<Entry>, init: Vec<ChainEntry>, ctx: QuadCtx) -> (r: Vec<
    ChainEntry>)
    requires
        entries_wf(entries@),
        chain_wf(init@),
        ctx.quadrant < 4,
        in_bounds(ctx.bp),
    ensures
        r@ == build_quad(entries@, init@, ctx),
        chain_wf(r@),
{
    let ghost init_view = init@;
    let mut ch = init;
    let mut i: usize = 0;
    while i < entries.len()
        invariant
            0 <= i <= entries.len(),
            ch@ == build_quad(entries@.take(i as int), init_view, ctx),
            chain_wf(ch@),
            entries_wf(entries@),
            ctx.quadrant < 4,
            in_bounds(ctx.bp),
        decreases entries.len() - i,
    {
        let ghost prev = ch@;
        let (id, v) = entries[i];
        proof {
            assert(entries@.take(i + 1).drop_last() =~= entries@.take(i as int));
            assert(entries@.take(i + 1).last() == entries@[i as int]);
        }
        match v {
            PointValue::NonReal => {},
            PointValue::Real(c) => {
                assert(in_bounds(c));
                if is_endpoint_exec(&ctx, id) {
                } else if quad_on_boundary(&ctx, c) {
                    let key = boundary_key(&ctx, c);
                    chain_insert_exec(&mut ch, ChainEntry { key, id, p: c });
                } else if ctx.degenerate {
                } else {
                    let k: i64 = if ctx.quadrant < 2 {
                        -c.x
                    } else {
                        c.x
                    };
                    assert(k == okey(ctx.quadrant as int, c));
                    let pa = chain_pred_exec(&ch, k);
                    let pb = chain_succ_exec(&ch, k);
                    match (pa, pb) {
                        (Some(a), Some(b)) => {
                            proof {
                                lemma_neighbors(ch@, k);
                                lemma_member_has_key(ch@, a);
                                lemma_member_has_key(ch@, b);
                            }
                            let cr = cross_exec(a.p, b.p, c);
                            if cr > 0 {
                            } else if cr == 0 {
                                chain_insert_exec(&mut ch, ChainEntry { key: k, id, p: c });
                            } else {
                                evict_left_exec(&mut ch, c, a, b);
                                evict_right_exec(&mut ch, c, b);
                                chain_insert_exec(&mut ch, ChainEntry { key: k, id, p: c });
                            }
                        },
                        _ => {},
                    }
                }
            },
        }
        proof {
            assert(ch@ == quad_step(prev, ctx, id, v));
        }
        i = i + 1;
    }
    proof {
        assert(entries@.take(entries@.len() as int) =~= entries@);
    }
    ch
}

/// Whether the candidate lies on the boundary shared with the next quadrant.
fn quad_on_boundary(ctx: &QuadCtx, c: Point) -> (r: bool)
    requires
        ctx.quadrant < 4,
    ensures
        r == on_boundary(*ctx, c),
{
    if ctx.quadrant == 0 || ctx.quadrant == 2 {
        c.y == ctx.bp.y
    } else {
        c.x == ctx.bp.x
    }
}

/// The chain key of a boundary candidate.
fn boundary_key(ctx: &QuadCtx, c: Point) -> (r: i64)
    requires
        ctx.quadrant < 4,
        in_bounds(ctx.bp),
        in_bounds(c),
    ensures
        r == bkey(*ctx, c),
{
    if ctx.quadrant == 0 {
        -c.x
    } else if ctx.quadrant == 1 {
        -(c.x + c.y - ctx.bp.y)
    } else if ctx.quadrant == 2 {
        c.x
    } else {
        c.x + c.y - ctx.bp.y
    }
}

/// Walks left from A, evicting dominated chain points.
fn evict_left_exec(ch: &mut Vec<ChainEntry>, c: Point, a: ChainEntry, b: ChainEntry)
    requires
        chain_wf(old(ch)@),
        in_bounds(c),
        chain_has_key(old(ch)@, a.key),
        old(ch)@[ins_pos(old(ch)@, a.key)] == a,
        chain_has_key(old(ch)@, b.key),
        old(ch)@[ins_pos(old(ch)@, b.key)] == b,
        a.key < b.key,
    ensures
        final(ch)@ == evict_left(old(ch)@, c, a),
        chain_wf(final(ch)@),
        chain_has_key(final(ch)@, b.key),
        final(ch)@[ins_pos(final(ch)@, b.key)] == b,
{
    let ghost ch0 = ch@;
    let mut cur = a;
    let mut done = false;
    while !done
        invariant
            chain_wf(ch@),
            in_bounds(c),
            chain_has_key(ch@, cur.key),
            ch@[ins_pos(ch@, cur.key)] == cur,
            chain_has_key(ch@, b.key),
            ch@[ins_pos(ch@, b.key)] == b,
            cur.key < b.key,
            evict_left(ch@, c, cur) == evict_left(ch0, c, a),
            done ==> evict_left(ch@, c, cur) == ch@,
        decreases ch@.len() + (if done { 0int } else { 1int }),
    {
        match chain_pred_exec(ch, cur.key) {
            None => {
                done = true;
            },
            Some(d) => {
                proof {
                    lemma_neighbors(ch@, cur.key);
                    lemma_member_has_key(ch@, d);
                    crate::chain::lemma_keyed_entry(ch@, cur);
                    crate::chain::lemma_keyed_entry(ch@, d);
                    crate::chain::lemma_keyed_entry(ch@, b);
                }
                let cr = cross_exec(d.p, c, cur.p);
                if cr > 0 {
                    proof {
                        crate::chain::lemma_ins_pos(ch@, cur.key);
                        lemma_remove_keeps(ch@, cur.key, d);
                        lemma_remove_keeps(ch@, cur.key, b);
                    }
                    chain_remove_exec(ch, cur.key);
                    proof {
                        lemma_member_has_key(ch@, d);
                        lemma_member_has_key(ch@, b);
                    }
                    cur = d;
                } else {
                    done = true;
                }
            },
        }
    }
}

/// Walks right from B, evicting dominated chain points.
fn evict_right_exec(ch: &mut Vec<ChainEntry>, c: Point, b: ChainEntry)
    requires
        chain_wf(old(ch)@),
        in_bounds(c),
        chain_has_key(old(ch)@, b.key),
        old(ch)@[ins_pos(old(ch)@, b.key)] == b,
    ensures
        final(ch)@ == evict_right(old(ch)@, c, b),
        chain_wf(final(ch)@),
{
    let ghost ch0 = ch@;
    let mut cur = b;
    let mut done = false;
    while !done
        invariant
            chain_wf(ch@),
            in_bounds(c),
            chain_has_key(ch@, cur.key),
            ch@[ins_pos(ch@, cur.key)] == cur,
            evict_right(ch@, c, cur) == evict_right(ch0, c, b),
            done ==> evict_right(ch@, c, cur) == ch@,
        decreases ch@.len() + (if done { 0int } else { 1int }),
    {
        match chain_succ_exec(ch, cur.key) {
            None => {
                done = true;
            },
            Some(d) => {
                proof {
                    lemma_neighbors(ch@, cur.key);
                    lemma_member_has_key(ch@, d);
                    crate::chain::lemma_keyed_entry(ch@, cur);
                    crate::chain::lemma_keyed_entry(ch@, d);
                }
                let cr = cross_exec(c, d.p, cur.p);
                if cr > 0 {
                    proof {
                        crate::chain::lemma_ins_pos(ch@, cur.key);
                        lemma_remove_keeps(ch@, cur.key, d);
                    }
                    chain_remove_exec(ch, cur.key);
                    proof {
                        lemma_member_has_key(ch@, d);
                    }
                    cur = d;
                } else {
                    done = true;
                }
            },
        }
    }
}

} // verus!
