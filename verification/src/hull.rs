//! Top-level orchestration: the hull of a sequence of source entries, as one
//! mathematical function, the executable computation proved equal to it, and
//! the laws that hold of it.

use vstd::prelude::*;

use crate::chain::ChainEntry;
use crate::chain::chain_insert;
use crate::chain::chain_insert_exec;
use crate::extremes::Extreme;
use crate::extremes::Extremes;
use crate::extremes::entry_from;
use crate::extremes::lemma_scan_ok;
use crate::extremes::lemma_scan_some;
use crate::extremes::lemma_unique_real;
use crate::extremes::real_count;
use crate::extremes::role_ok;
use crate::extremes::scan;
use crate::extremes::scan_entries;
use crate::geometry::Entry;
use crate::geometry::Point;
use crate::geometry::PointValue;
use crate::geometry::entries_wf;
use crate::geometry::in_bounds;
use crate::geometry::is_real;
use crate::merge::merge_chains;
use crate::merge::merge_step;
use crate::merge::merged;
use crate::merge::lemma_trim_prefix;
use crate::quad::QuadCtx;
use crate::quad::build_quad;
use crate::quad::build_quadrant;
use crate::quad::chain_from;
use crate::quad::lemma_build_from;
use crate::quad::lemma_insert_from;

verus! {

/// A chain entry keyed `key` for an extreme point.
pub open spec fn entry_of(key: i64, x: Extreme) -> ChainEntry {
    ChainEntry { key, id: x.id, p: x.p }
}

/// The initial partial hull of one quadrant: its x-leader and y-leader, both
/// keyed by their oriented x-coordinate (so two leaders sharing an
/// x-coordinate leave a single entry).
pub open spec fn init_q(e: Extremes, q: int) -> Seq<ChainEntry> {
    if q == 0 {
        chain_insert(
            chain_insert(Seq::empty(), entry_of((-e.q1x.unwrap().p.x) as i64, e.q1x.unwrap())),
            entry_of((-e.q1y.unwrap().p.x) as i64, e.q1y.unwrap()),
        )
    } else if q == 1 {
        chain_insert(
            chain_insert(Seq::empty(), entry_of((-e.q2x.unwrap().p.x) as i64, e.q2x.unwrap())),
            entry_of((-e.q2y.unwrap().p.x) as i64, e.q2y.unwrap()),
        )
    } else if q == 2 {
        chain_insert(
            chain_insert(Seq::empty(), entry_of(e.q3x.unwrap().p.x, e.q3x.unwrap())),
            entry_of(e.q3y.unwrap().p.x, e.q3y.unwrap()),
        )
    } else {
        chain_insert(
            chain_insert(Seq::empty(), entry_of(e.q4x.unwrap().p.x, e.q4x.unwrap())),
            entry_of(e.q4y.unwrap().p.x, e.q4y.unwrap()),
        )
    }
}

/// One quadrant's builder context: its boundary leader, its degeneracy flag
/// and the eight excluded extreme identifiers.
pub open spec fn ctx_q(e: Extremes, q: int) -> QuadCtx {
    QuadCtx {
        quadrant: q as usize,
        bp: if q == 0 {
            e.q1y.unwrap().p
        } else if q == 1 {
            e.q2x.unwrap().p
        } else if q == 2 {
            e.q3y.unwrap().p
        } else {
            e.q4x.unwrap().p
        },
        degenerate: init_q(e, q).len() < 2,
        end1: e.q1x.unwrap().id,
        end2: e.q1y.unwrap().id,
        end3: e.q2x.unwrap().id,
        end4: e.q2y.unwrap().id,
        end5: e.q3x.unwrap().id,
        end6: e.q3y.unwrap().id,
        end7: e.q4x.unwrap().id,
        end8: e.q4y.unwrap().id,
    }
}

/// The finished partial hull of one quadrant.
pub open spec fn quad_result(s: Seq<Entry>, q: int) -> Seq<ChainEntry> {
    build_quad(s, init_q(scan(s), q), ctx_q(scan(s), q))
}

/// The whole hull computation as a function of the source entries: the
/// identifiers of the counter-clockwise hull boundary. A source without real
/// points yields the empty boundary; one with a single real point yields that
/// point's identifier; otherwise the four quadrants' partial hulls are built
/// and merged.
pub open spec fn hull_model(s: Seq<Entry>) -> Seq<usize> {
    if real_count(s) == 0 {
        Seq::empty()
    } else if real_count(s) == 1 {
        seq![scan(s).q1x.unwrap().id]
    } else {
        merged(quad_result(s, 0), quad_result(s, 1), quad_result(s, 2), quad_result(s, 3))
    }
}

proof fn lemma_role_bounded(r: Option<Extreme>, s: Seq<Entry>)
    requires
        entries_wf(s),
        role_ok(r, s),
        r is Some,
    ensures
        in_bounds(r.unwrap().p),
{
    let x = r.unwrap();
    let j = choose|j: int| 0 <= j < s.len() && s[j] == (x.id, PointValue::Real(x.p));
    assert(is_real(s[j].1));
}

/// The four initial partial hulls and builder contexts, ready to run.
struct Prepared {
    c1: Vec<ChainEntry>,
    c2: Vec<ChainEntry>,
    c3: Vec<ChainEntry>,
    c4: Vec<ChainEntry>,
    x1: QuadCtx,
    x2: QuadCtx,
    x3: QuadCtx,
    x4: QuadCtx,
}

/// Builds the four quadrants' initial chains and contexts from the extremes.
fn prepare(ex: Extremes, entries: &Vec<Entry>) -> (r: Prepared)
    requires
        entries_wf(entries@),
        ex == scan(entries@),
        real_count(entries@) > 0,
    ensures
        r.c1@ == init_q(ex, 0) && crate::chain::chain_wf(r.c1@) && r.x1 == ctx_q(ex, 0),
        r.c2@ == init_q(ex, 1) && crate::chain::chain_wf(r.c2@) && r.x2 == ctx_q(ex, 1),
        r.c3@ == init_q(ex, 2) && crate::chain::chain_wf(r.c3@) && r.x3 == ctx_q(ex, 2),
        r.c4@ == init_q(ex, 3) && crate::chain::chain_wf(r.c4@) && r.x4 == ctx_q(ex, 3),
        in_bounds(r.x1.bp) && in_bounds(r.x2.bp) && in_bounds(r.x3.bp) && in_bounds(r.x4.bp),
{
    proof {
        lemma_scan_some(entries@);
        lemma_scan_ok(entries@);
        lemma_role_bounded(ex.q1x, entries@);
        lemma_role_bounded(ex.q1y, entries@);
        lemma_role_bounded(ex.q2x, entries@);
        lemma_role_bounded(ex.q2y, entries@);
        lemma_role_bounded(ex.q3x, entries@);
        lemma_role_bounded(ex.q3y, entries@);
        lemma_role_bounded(ex.q4x, entries@);
        lemma_role_bounded(ex.q4y, entries@);
    }
    let q1x = ex.q1x.unwrap();
    let q1y = ex.q1y.unwrap();
    let q2x = ex.q2x.unwrap();
    let q2y = ex.q2y.unwrap();
    let q3x = ex.q3x.unwrap();
    let q3y = ex.q3y.unwrap();
    let q4x = ex.q4x.unwrap();
    let q4y = ex.q4y.unwrap();

    let mut c1: Vec<ChainEntry> = Vec::new();
    chain_insert_exec(&mut c1, ChainEntry { key: -q1x.p.x, id: q1x.id, p: q1x.p });
    chain_insert_exec(&mut c1, ChainEntry { key: -q1y.p.x, id: q1y.id, p: q1y.p });
    let mut c2: Vec<ChainEntry> = Vec::new();
    chain_insert_exec(&mut c2, ChainEntry { key: -q2x.p.x, id: q2x.id, p: q2x.p });
    chain_insert_exec(&mut c2, ChainEntry { key: -q2y.p.x, id: q2y.id, p: q2y.p });
    let mut c3: Vec<ChainEntry> = Vec::new();
    chain_insert_exec(&mut c3, ChainEntry { key: q3x.p.x, id: q3x.id, p: q3x.p });
    chain_insert_exec(&mut c3, ChainEntry { key: q3y.p.x, id: q3y.id, p: q3y.p });
    let mut c4: Vec<ChainEntry> = Vec::new();
    chain_insert_exec(&mut c4, ChainEntry { key: q4x.p.x, id: q4x.id, p: q4x.p });
    chain_insert_exec(&mut c4, ChainEntry { key: q4y.p.x, id: q4y.id, p: q4y.p });

    let x1 = QuadCtx {
        quadrant: 0, bp: q1y.p, degenerate: c1.len() < 2,
        end1: q1x.id, end2: q1y.id, end3: q2x.id, end4: q2y.id,
        end5: q3x.id, end6: q3y.id, end7: q4x.id, end8: q4y.id,
    };
    let x2 = QuadCtx { quadrant: 1, bp: q2x.p, degenerate: c2.len() < 2, ..x1 };
    let x3 = QuadCtx { quadrant: 2, bp: q3y.p, degenerate: c3.len() < 2, ..x1 };
    let x4 = QuadCtx { quadrant: 3, bp: q4x.p, degenerate: c4.len() < 2, ..x1 };
    Prepared { c1, c2, c3, c4, x1, x2, x3, x4 }
}

/// Computes the identifiers of the convex hull boundary of the entries, in
/// counter-clockwise order, running the four quadrant builders one after the
/// other.
pub fn hull_ids(entries: &Vec<Entry>) -> (r: Vec<usize>)
    requires
        entries_wf(entries@),
    ensures
        r@ == hull_model(entries@),
{
    let (ex, count) = scan_entries(entries);
    if count == 0 {
        let r: Vec<usize> = Vec::new();
        return r;
    }
    if count == 1 {
        proof {
            lemma_scan_some(entries@);
        }
        let mut r: Vec<usize> = Vec::new();
        r.push(ex.q1x.unwrap().id);
        proof {
            assert(r@ =~= seq![scan(entries@).q1x.unwrap().id]);
        }
        return r;
    }

    let pr = prepare(ex, entries);
    let r1 = build_quadrant(entries, pr.c1, pr.x1);
    let r2 = build_quadrant(entries, pr.c2, pr.x2);
    let r3 = build_quadrant(entries, pr.c3, pr.x3);
    let r4 = build_quadrant(entries, pr.c4, pr.x4);
    merge_chains(&r1, &r2, &r3, &r4)
}

/// Relies on rayon::join: it runs the two closures, possibly in parallel, and
/// returns the pair of their results. The closures only call the verified
/// quadrant builder, whose contract gives the two clauses below.
#[verifier::external_body]
fn join_builds(entries: &Vec<Entry>, ca: Vec<ChainEntry>, xa: QuadCtx, cb: Vec<ChainEntry>,
    xb: QuadCtx) -> (r: (Vec<ChainEntry>, Vec<ChainEntry>))
    requires
        entries_wf(entries@),
        crate::chain::chain_wf(ca@),
        xa.quadrant < 4,
        in_bounds(xa.bp),
        crate::chain::chain_wf(cb@),
        xb.quadrant < 4,
        in_bounds(xb.bp),
    ensures
        r.0@ == build_quad(entries@, ca@, xa) && crate::chain::chain_wf(r.0@),
        r.1@ == build_quad(entries@, cb@, xb) && crate::chain::chain_wf(r.1@),
{
    rayon::join(
        || build_quadrant(entries, ca, xa),
        || build_quadrant(entries, cb, xb),
    )
}

/// Computes the same hull as [`hull_ids`], with the four independent quadrant
/// builders run as fork/join tasks after the sequential extreme-point scan.
pub fn hull_ids_parallel(entries: &Vec<Entry>) -> (r: Vec<usize>)
    requires
        entries_wf(entries@),
    ensures
        r@ == hull_model(entries@),
{
    let (ex, count) = scan_entries(entries);
    if count == 0 {
        let r: Vec<usize> = Vec::new();
        return r;
    }
    if count == 1 {
        proof {
            lemma_scan_some(entries@);
        }
        let mut r: Vec<usize> = Vec::new();
        r.push(ex.q1x.unwrap().id);
        proof {
            assert(r@ =~= seq![scan(entries@).q1x.unwrap().id]);
        }
        return r;
    }

    let pr = prepare(ex, entries);
    let (r1, r2) = join_builds(entries, pr.c1, pr.x1, pr.c2, pr.x2);
    let (r3, r4) = join_builds(entries, pr.c3, pr.x3, pr.c4, pr.x4);
    merge_chains(&r1, &r2, &r3, &r4)
}

/// The identifier belongs to a real entry of the source.
pub open spec fn id_of_real_entry(id: usize, s: Seq<Entry>) -> bool {
    exists|j: int| 0 <= j < s.len() && (#[trigger] s[j]).0 == id && is_real(s[j].1)
}

proof fn lemma_entry_from_real(id: usize, p: Point, s: Seq<Entry>)
    requires
        entry_from(id, p, s),
    ensures
        id_of_real_entry(id, s),
{
    let j = choose|j: int| 0 <= j < s.len() && s[j] == (id, PointValue::Real(p));
    assert(s[j].0 == id && is_real(s[j].1));
}

proof fn lemma_merge_step_ids(acc: Seq<usize>, ch: Seq<ChainEntry>, s: Seq<Entry>)
    requires
        forall|i: int| 0 <= i < acc.len() ==> id_of_real_entry(#[trigger] acc[i], s),
        chain_from(ch, s),
    ensures
        forall|i: int| 0 <= i < merge_step(acc, ch).len()
            ==> id_of_real_entry(#[trigger] merge_step(acc, ch)[i], s),
{
    let r = merge_step(acc, ch);
    assert forall|i: int| 0 <= i < r.len() implies id_of_real_entry(r[i], s) by {
        if i < acc.len() {
            assert(r[i] == acc[i]);
        } else if acc.len() == 0 || ch.len() == 0 || ch[0].id != acc.last() {
            let j = i - acc.len();
            assert(r[i] == ch[j].id);
            lemma_entry_from_real(ch[j].id, ch[j].p, s);
        } else {
            let j = i - acc.len();
            assert(r[i] == ch.drop_first()[j].id);
            assert(ch.drop_first()[j] == ch[j + 1]);
            lemma_entry_from_real(ch[j + 1].id, ch[j + 1].p, s);
        }
    }
}

proof fn lemma_init_from(s: Seq<Entry>, q: int)
    requires
        real_count(s) > 0,
        0 <= q < 4,
    ensures
        chain_from(init_q(scan(s), q), s),
{
    lemma_scan_some(s);
    lemma_scan_ok(s);
    let e = scan(s);
    let empty = Seq::<ChainEntry>::empty();
    assert(chain_from(empty, s));
    if q == 0 {
        lemma_insert_from(empty, entry_of((-e.q1x.unwrap().p.x) as i64, e.q1x.unwrap()), s);
        lemma_insert_from(
            chain_insert(empty, entry_of((-e.q1x.unwrap().p.x) as i64, e.q1x.unwrap())),
            entry_of((-e.q1y.unwrap().p.x) as i64, e.q1y.unwrap()), s);
    } else if q == 1 {
        lemma_insert_from(empty, entry_of((-e.q2x.unwrap().p.x) as i64, e.q2x.unwrap()), s);
        lemma_insert_from(
            chain_insert(empty, entry_of((-e.q2x.unwrap().p.x) as i64, e.q2x.unwrap())),
            entry_of((-e.q2y.unwrap().p.x) as i64, e.q2y.unwrap()), s);
    } else if q == 2 {
        lemma_insert_from(empty, entry_of(e.q3x.unwrap().p.x, e.q3x.unwrap()), s);
        lemma_insert_from(
            chain_insert(empty, entry_of(e.q3x.unwrap().p.x, e.q3x.unwrap())),
            entry_of(e.q3y.unwrap().p.x, e.q3y.unwrap()), s);
    } else {
        lemma_insert_from(empty, entry_of(e.q4x.unwrap().p.x, e.q4x.unwrap()), s);
        lemma_insert_from(
            chain_insert(empty, entry_of(e.q4x.unwrap().p.x, e.q4x.unwrap())),
            entry_of(e.q4y.unwrap().p.x, e.q4y.unwrap()), s);
    }
}

/// Law: every identifier of the hull was yielded by the point source, and it
/// identifies a real point — non-real entries never reach the output.
pub proof fn lemma_hull_ids_from_source(s: Seq<Entry>)
    ensures
        forall|i: int| 0 <= i < hull_model(s).len()
            ==> id_of_real_entry(#[trigger] hull_model(s)[i], s),
{
    if real_count(s) == 0 {
    } else if real_count(s) == 1 {
        lemma_scan_some(s);
        lemma_scan_ok(s);
        let x = scan(s).q1x.unwrap();
        lemma_entry_from_real(x.id, x.p, s);
        assert(hull_model(s)[0] == x.id);
    } else {
        lemma_scan_some(s);
        let e = scan(s);
        lemma_init_from(s, 0);
        lemma_init_from(s, 1);
        lemma_init_from(s, 2);
        lemma_init_from(s, 3);
        lemma_build_from(s, init_q(e, 0), ctx_q(e, 0));
        lemma_build_from(s, init_q(e, 1), ctx_q(e, 1));
        lemma_build_from(s, init_q(e, 2), ctx_q(e, 2));
        lemma_build_from(s, init_q(e, 3), ctx_q(e, 3));
        let empty = Seq::<usize>::empty();
        let m1 = merge_step(empty, quad_result(s, 0));
        let m2 = merge_step(m1, quad_result(s, 1));
        let m3 = merge_step(m2, quad_result(s, 2));
        let m4 = merge_step(m3, quad_result(s, 3));
        lemma_merge_step_ids(empty, quad_result(s, 0), s);
        lemma_merge_step_ids(m1, quad_result(s, 1), s);
        lemma_merge_step_ids(m2, quad_result(s, 2), s);
        lemma_merge_step_ids(m3, quad_result(s, 3), s);
        lemma_trim_prefix(m4);
    }
}

/// Law: when the hull boundary lists at least two identifiers, the last is
/// not the first over again — the closing vertex appears only once even
/// though the boundary is cyclic.
pub proof fn lemma_hull_no_closing_dup(s: Seq<Entry>)
    ensures
        hull_model(s).len() >= 2 ==> hull_model(s).last() != hull_model(s)[0],
{
    if real_count(s) >= 2 {
        let m = merge_step(
            merge_step(
                merge_step(merge_step(Seq::<usize>::empty(), quad_result(s, 0)),
                    quad_result(s, 1)), quad_result(s, 2)), quad_result(s, 3));
        crate::merge::lemma_trim_last_ne_first(m);
    }
}

/// Law: a source with no real points yields the empty hull.
pub proof fn lemma_hull_empty(s: Seq<Entry>)
    requires
        real_count(s) == 0,
    ensures
        hull_model(s) == Seq::<usize>::empty(),
{
}

/// Law: a source with exactly one real point yields exactly that point's
/// identifier, whichever entry it is.
pub proof fn lemma_hull_singleton(s: Seq<Entry>, j: int)
    requires
        real_count(s) == 1,
        0 <= j < s.len(),
        is_real(s[j].1),
    ensures
        hull_model(s) == seq![s[j].0],
{
    lemma_scan_some(s);
    lemma_scan_ok(s);
    let x = scan(s).q1x.unwrap();
    let k = choose|k: int| 0 <= k < s.len() && s[k] == (x.id, PointValue::Real(x.p));
    assert(is_real(s[k].1));
    if j < k {
        lemma_unique_real(s, j, k);
        assert(false);
    } else if k < j {
        lemma_unique_real(s, k, j);
        assert(false);
    }
    assert(s[j].0 == x.id);
    assert(hull_model(s) =~= seq![s[j].0]);
}

} // verus!
