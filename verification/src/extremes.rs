//! One sequential pass over the point source that finds the eight extreme
//! points bounding the four angular quadrants, and counts the real points.
//!
//! Each of the eight roles has a primary ordering coordinate and a strict
//! tie-break coordinate; a later candidate replaces the current holder only
//! when it is strictly better, so among equal points the first one seen wins.
//! Every role's tie-break, the fourth quadrant's y-leader included, compares
//! against and updates that role's own holder.

use vstd::prelude::*;

use crate::geometry::Entry;
use crate::geometry::Point;
use crate::geometry::is_real;
use crate::geometry::point_of;

verus! {

/// One extreme role's holder: the identifier and the point it was seen with.
#[derive(Clone, Copy, PartialEq, Eq, Structural, Debug)]
pub struct Extreme {
    pub id: usize,
    pub p: Point,
}

/// The eight quadrant-boundary extreme points. `None` means no real point has
/// been seen. Role `qNx` is extremal in x (tie-broken by y); role `qNy` is
/// extremal in y (tie-broken by x).
#[derive(Clone, Copy, PartialEq, Eq, Structural, Debug)]
pub struct Extremes {
    pub q1x: Option<Extreme>,
    pub q1y: Option<Extreme>,
    pub q2x: Option<Extreme>,
    pub q2y: Option<Extreme>,
    pub q3x: Option<Extreme>,
    pub q3y: Option<Extreme>,
    pub q4x: Option<Extreme>,
    pub q4y: Option<Extreme>,
}

/// The identifier `id` is paired with the real point `p` somewhere in `s`.
pub open spec fn entry_from(id: usize, p: Point, s: Seq<Entry>) -> bool {
    exists|j: int| 0 <= j < s.len() && s[j] == (id, crate::geometry::PointValue::Real(p))
}

/// Whether `new` strictly beats `cur` for the given extreme role.
/// Roles in order: q1x, q1y, q2x, q2y, q3x, q3y, q4x, q4y.
pub open spec fn better(role: int, new: Point, cur: Point) -> bool {
    if role == 0 {
        new.x > cur.x || (new.x == cur.x && new.y > cur.y)
    } else if role == 1 {
        new.y > cur.y || (new.y == cur.y && new.x > cur.x)
    } else if role == 2 {
        new.x < cur.x || (new.x == cur.x && new.y > cur.y)
    } else if role == 3 {
        new.y > cur.y || (new.y == cur.y && new.x < cur.x)
    } else if role == 4 {
        new.x < cur.x || (new.x == cur.x && new.y < cur.y)
    } else if role == 5 {
        new.y < cur.y || (new.y == cur.y && new.x < cur.x)
    } else if role == 6 {
        new.x > cur.x || (new.x == cur.x && new.y < cur.y)
    } else {
        new.y < cur.y || (new.y == cur.y && new.x > cur.x)
    }
}

/// The holder of one role, by the role order of `better`.
pub open spec fn role_of(e: Extremes, role: int) -> Option<Extreme> {
    if role == 0 {
        e.q1x
    } else if role == 1 {
        e.q1y
    } else if role == 2 {
        e.q2x
    } else if role == 3 {
        e.q2y
    } else if role == 4 {
        e.q3x
    } else if role == 5 {
        e.q3y
    } else if role == 6 {
        e.q4x
    } else {
        e.q4y
    }
}

/// Updates one role's holder with a real candidate.
pub open spec fn upd_role(role: int, cur: Option<Extreme>, id: usize, p: Point) -> Option<Extreme> {
    match cur {
        None => Some(Extreme { id, p }),
        Some(e) => if better(role, p, e.p) {
            Some(Extreme { id, p })
        } else {
            cur
        },
    }
}

/// Feeds one source entry into the scan state.
pub open spec fn scan_step(st: Extremes, id: usize, v: crate::geometry::PointValue) -> Extremes {
    if !is_real(v) {
        st
    } else {
        let p = point_of(v);
        Extremes {
            q1x: upd_role(0, st.q1x, id, p),
            q1y: upd_role(1, st.q1y, id, p),
            q2x: upd_role(2, st.q2x, id, p),
            q2y: upd_role(3, st.q2y, id, p),
            q3x: upd_role(4, st.q3x, id, p),
            q3y: upd_role(5, st.q3y, id, p),
            q4x: upd_role(6, st.q4x, id, p),
            q4y: upd_role(7, st.q4y, id, p),
        }
    }
}

/// The scan state with no points seen yet.
pub open spec fn scan_empty() -> Extremes {
    Extremes {
        q1x: None, q1y: None, q2x: None, q2y: None,
        q3x: None, q3y: None, q4x: None, q4y: None,
    }
}

/// The eight extreme points of the whole entry sequence.
pub open spec fn scan(s: Seq<Entry>) -> Extremes
    decreases s.len(),
{
    if s.len() == 0 {
        scan_empty()
    } else {
        scan_step(scan(s.drop_last()), s.last().0, s.last().1)
    }
}

/// How many entries of the sequence are real points.
pub open spec fn real_count(s: Seq<Entry>) -> nat
    decreases s.len(),
{
    if s.len() == 0 {
        0
    } else {
        real_count(s.drop_last()) + if is_real(s.last().1) { 1nat } else { 0nat }
    }
}

pub proof fn lemma_real_count_le(s: Seq<Entry>)
    ensures
        real_count(s) <= s.len(),
    decreases s.len(),
{
    if s.len() > 0 {
        lemma_real_count_le(s.drop_last());
    }
}

/// A role holder, when present, was paired with its point somewhere in `s`.
pub open spec fn role_ok(r: Option<Extreme>, s: Seq<Entry>) -> bool {
    r is Some ==> entry_from(r.unwrap().id, r.unwrap().p, s)
}

/// All eight role holders come from entries of `s`.
pub open spec fn scan_ok(e: Extremes, s: Seq<Entry>) -> bool {
    &&& role_ok(e.q1x, s)
    &&& role_ok(e.q1y, s)
    &&& role_ok(e.q2x, s)
    &&& role_ok(e.q2y, s)
    &&& role_ok(e.q3x, s)
    &&& role_ok(e.q3y, s)
    &&& role_ok(e.q4x, s)
    &&& role_ok(e.q4y, s)
}

proof fn lemma_role_ok_grow(r: Option<Extreme>, s: Seq<Entry>)
    requires
        s.len() > 0,
        role_ok(r, s.drop_last()),
    ensures
        role_ok(r, s),
{
    if r is Some {
        let e = r.unwrap();
        let j = choose|j: int|
            0 <= j < s.drop_last().len()
                && s.drop_last()[j] == (e.id, crate::geometry::PointValue::Real(e.p));
        assert(s[j] == (e.id, crate::geometry::PointValue::Real(e.p)));
    }
}

/// Every extreme found by the scan is one of the scanned real entries.
pub proof fn lemma_scan_ok(s: Seq<Entry>)
    ensures
        scan_ok(scan(s), s),
    decreases s.len(),
{
    if s.len() > 0 {
        let pre = s.drop_last();
        lemma_scan_ok(pre);
        let st = scan(pre);
        lemma_role_ok_grow(st.q1x, s);
        lemma_role_ok_grow(st.q1y, s);
        lemma_role_ok_grow(st.q2x, s);
        lemma_role_ok_grow(st.q2y, s);
        lemma_role_ok_grow(st.q3x, s);
        lemma_role_ok_grow(st.q3y, s);
        lemma_role_ok_grow(st.q4x, s);
        lemma_role_ok_grow(st.q4y, s);
        let last = s.last();
        if is_real(last.1) {
            let j = s.len() - 1;
            assert(s[j] == (last.0, crate::geometry::PointValue::Real(point_of(last.1))));
        }
    }
}

/// Each role is held by some point exactly when at least one real point was
/// scanned.
pub proof fn lemma_scan_some(s: Seq<Entry>)
    ensures
        (real_count(s) > 0) <==> scan(s).q1x is Some,
        scan(s).q1x is Some <==> scan(s).q1y is Some,
        scan(s).q1x is Some <==> scan(s).q2x is Some,
        scan(s).q1x is Some <==> scan(s).q2y is Some,
        scan(s).q1x is Some <==> scan(s).q3x is Some,
        scan(s).q1x is Some <==> scan(s).q3y is Some,
        scan(s).q1x is Some <==> scan(s).q4x is Some,
        scan(s).q1x is Some <==> scan(s).q4y is Some,
    decreases s.len(),
{
    if s.len() > 0 {
        lemma_scan_some(s.drop_last());
    }
}

pub proof fn lemma_real_count_grow(s: Seq<Entry>, m: int)
    requires
        0 <= m <= s.len(),
    ensures
        real_count(s.take(m)) <= real_count(s),
    decreases s.len() - m,
{
    if m < s.len() {
        lemma_real_count_grow(s, m + 1);
        assert(s.take(m + 1).drop_last() =~= s.take(m));
        assert(real_count(s.take(m)) <= real_count(s.take(m + 1)));
    } else {
        assert(s.take(m) =~= s);
    }
}

/// A sequence with exactly one real entry has no two distinct real indices.
pub proof fn lemma_unique_real(s: Seq<Entry>, j: int, k: int)
    requires
        real_count(s) == 1,
        0 <= j < k < s.len(),
        is_real(s[j].1),
    ensures
        !is_real(s[k].1),
{
    if is_real(s[k].1) {
        assert(s.take(j + 1).drop_last() =~= s.take(j));
        assert(s.take(j + 1).last() == s[j]);
        assert(real_count(s.take(j + 1)) >= 1);
        lemma_real_count_mono(s, j + 1, k);
        assert(s.take(k + 1).drop_last() =~= s.take(k));
        assert(s.take(k + 1).last() == s[k]);
        assert(real_count(s.take(k + 1)) >= 2);
        lemma_real_count_grow(s, k + 1);
    }
}

proof fn lemma_real_count_mono(s: Seq<Entry>, m: int, m2: int)
    requires
        0 <= m <= m2 <= s.len(),
    ensures
        real_count(s.take(m)) <= real_count(s.take(m2)),
    decreases m2 - m,
{
    if m < m2 {
        lemma_real_count_mono(s, m, m2 - 1);
        assert(s.take(m2).drop_last() =~= s.take(m2 - 1));
    }
}

/// A real entry anywhere makes the real count positive.
pub proof fn lemma_real_exists(s: Seq<Entry>, j: int)
    requires
        0 <= j < s.len(),
        is_real(s[j].1),
    ensures
        real_count(s) > 0,
{
    assert(s.take(j + 1).drop_last() =~= s.take(j));
    assert(s.take(j + 1).last() == s[j]);
    lemma_real_count_grow(s, j + 1);
}

/// Law: the scan picks, for each extreme role, a maximal point in that
/// role's order — no real entry of the source strictly beats the holder.
pub proof fn lemma_scan_extremal(s: Seq<Entry>, role: int, j: int)
    requires
        0 <= role < 8,
        0 <= j < s.len(),
        is_real(s[j].1),
    ensures
        role_of(scan(s), role) is Some,
        !better(role, point_of(s[j].1), role_of(scan(s), role).unwrap().p),
    decreases s.len(),
{
    lemma_real_exists(s, j);
    lemma_scan_some(s);
    let pre = s.drop_last();
    let last = s.last();
    if j < s.len() - 1 {
        lemma_scan_extremal(pre, role, j);
        assert(pre[j] == s[j]);
        let cur = role_of(scan(pre), role).unwrap();
        if is_real(last.1) {
            let pnew = point_of(last.1);
            if better(role, pnew, cur.p) {
                assert(!better(role, point_of(s[j].1), pnew));
            }
        }
    }
}

/// Updates one extreme role with a real candidate point.
fn upd_role_exec(role: usize, cur: Option<Extreme>, id: usize, p: Point) -> (r: Option<Extreme>)
    requires
        role < 8,
    ensures
        r == upd_role(role as int, cur, id, p),
{
    match cur {
        None => Some(Extreme { id, p }),
        Some(e) => {
            let wins: bool = if role == 0 {
                p.x > e.p.x || (p.x == e.p.x && p.y > e.p.y)
            } else if role == 1 {
                p.y > e.p.y || (p.y == e.p.y && p.x > e.p.x)
            } else if role == 2 {
                p.x < e.p.x || (p.x == e.p.x && p.y > e.p.y)
            } else if role == 3 {
                p.y > e.p.y || (p.y == e.p.y && p.x < e.p.x)
            } else if role == 4 {
                p.x < e.p.x || (p.x == e.p.x && p.y < e.p.y)
            } else if role == 5 {
                p.y < e.p.y || (p.y == e.p.y && p.x < e.p.x)
            } else if role == 6 {
                p.x > e.p.x || (p.x == e.p.x && p.y < e.p.y)
            } else {
                p.y < e.p.y || (p.y == e.p.y && p.x > e.p.x)
            };
            if wins {
                Some(Extreme { id, p })
            } else {
                Some(e)
            }
        },
    }
}

/// Scans all entries once, returning the eight extreme points and the number
/// of real points.
pub fn scan_entries(entries: &Vec<Entry>) -> (r: (Extremes, usize))
    ensures
        r.0 == scan(entries@),
        r.1 == real_count(entries@),
{
    let mut st = Extremes {
        q1x: None, q1y: None, q2x: None, q2y: None,
        q3x: None, q3y: None, q4x: None, q4y: None,
    };
    let mut count: usize = 0;
    let mut i: usize = 0;
    while i < entries.len()
        invariant
            0 <= i <= entries.len(),
            st == scan(entries@.take(i as int)),
            count == real_count(entries@.take(i as int)),
        decreases entries.len() - i,
    {
        let (id, v) = entries[i];
        proof {
            assert(entries@.take(i + 1).drop_last() =~= entries@.take(i as int));
            assert(entries@.take(i + 1).last() == entries@[i as int]);
            lemma_real_count_le(entries@.take(i as int));
        }
        match v {
            crate::geometry::PointValue::Real(p) => {
                st = Extremes {
                    q1x: upd_role_exec(0, st.q1x, id, p),
                    q1y: upd_role_exec(1, st.q1y, id, p),
                    q2x: upd_role_exec(2, st.q2x, id, p),
                    q2y: upd_role_exec(3, st.q2y, id, p),
                    q3x: upd_role_exec(4, st.q3x, id, p),
                    q3y: upd_role_exec(5, st.q3y, id, p),
                    q4x: upd_role_exec(6, st.q4x, id, p),
                    q4y: upd_role_exec(7, st.q4y, id, p),
                };
                count = count + 1;
            },
            crate::geometry::PointValue::NonReal => {},
        }
        i = i + 1;
    }
    proof {
        assert(entries@.take(entries@.len() as int) =~= entries@);
    }
    (st, count)
}

} // verus!
