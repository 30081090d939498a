//! Laws of flattening, proved over the state that `FlatModel::from_md2` and
//! `FlatModel::from_mdl` are specified by.
use vstd::prelude::*;

use crate::flat_model::{
    emitted, md2_base_len, md2_corners, md2_flattened, md2_triangle, md2_uvs, place, plain_uv, seam_emitted,
    seam_unify, seam_uv, spread, unify, well_formed, Unified,
};
use crate::{md2, mdl};

verus! {

/// Every corner refers to one of the first `n` positions.
pub open spec fn positions_below<T>(corners: Seq<(usize, T)>, n: nat) -> bool {
    forall|j: int| 0 <= j < corners.len() ==> #[trigger] corners[j].0 < n
}

/// The slots after all corners can be numbered by a `usize`: what a flattened model's
/// texture coordinate list, whose length is that number, shows.
pub open spec fn slots_fit(corners: Seq<(usize, usize)>, uvs: Seq<(i64, i64)>, n: nat) -> bool {
    unify(corners, uvs, n, corners.len()).origin.len() <= usize::MAX
}

/// The slots after all MDL corners can be numbered by a `usize`.
pub open spec fn seam_slots_fit(corners: Seq<(usize, bool)>, recs: Seq<mdl::TexCoord>, w: i32, n: nat) -> bool {
    seam_unify(corners, recs, w, n, corners.len()).origin.len() <= usize::MAX
}

/// There is at least one frame, and each holds `n` positions.
pub open spec fn frames_of_len(base: Seq<Seq<[u8; 3]>>, n: nat) -> bool {
    &&& base.len() > 0
    &&& n <= usize::MAX
    &&& forall|f: int| 0 <= f < base.len() ==> #[trigger] base[f].len() == n
}

/// Two different (position, texture coordinate index) pairs never share a slot, and
/// a slot numbered below `n` belongs to the position of that number.
pub open spec fn distinct_slots(u: Unified, n: nat) -> bool {
    &&& forall|p1: usize, t1: usize, p2: usize, t2: usize|
        #![trigger u.slots[p1][t1], u.slots[p2][t2]]
        u.slots.contains_key(p1) && u.slots[p1].contains_key(t1) && u.slots.contains_key(p2)
            && u.slots[p2].contains_key(t2) && (p1 != p2 || t1 != t2) ==> u.slots[p1][t1] != u.slots[p2][t2]
    &&& forall|p: usize, t: usize|
        u.slots.contains_key(p) && #[trigger] u.slots[p].contains_key(t) && u.slots[p][t] < n ==> u.slots[p][t] == p
}

/// Each (position, texture coordinate index) pair with a slot was met among the
/// first `k` corners.
pub open spec fn slots_met(u: Unified, corners: Seq<(usize, usize)>, k: nat) -> bool {
    forall|p: usize, t: usize|
        u.slots.contains_key(p) && #[trigger] u.slots[p].contains_key(t)
            ==> exists|i: int| 0 <= i < k && #[trigger] corners[i] == (p, t)
}

proof fn lemma_unify_step(corners: Seq<(usize, usize)>, uvs: Seq<(i64, i64)>, base: Seq<Seq<[u8; 3]>>, n: nat, k: nat)
    requires
        frames_of_len(base, n),
        positions_below(corners, n),
        slots_fit(corners, uvs, n),
        k < corners.len(),
        well_formed(unify(corners, uvs, n, k), base, n),
        distinct_slots(unify(corners, uvs, n, k), n),
        slots_met(unify(corners, uvs, n, k), corners, k),
        unify(corners, uvs, n, k).origin.len() <= usize::MAX,
    ensures
        well_formed(unify(corners, uvs, n, k + 1), base, n),
        distinct_slots(unify(corners, uvs, n, k + 1), n),
        slots_met(unify(corners, uvs, n, k + 1), corners, k + 1),
        emitted(corners, uvs, n, k) < unify(corners, uvs, n, k + 1).origin.len(),
        unify(corners, uvs, n, k + 1).slots.contains_key(corners[k as int].0),
        unify(corners, uvs, n, k + 1).slots[corners[k as int].0].contains_key(corners[k as int].1),
        unify(corners, uvs, n, k + 1).slots[corners[k as int].0][corners[k as int].1] == emitted(corners, uvs, n, k),
{
    let u = unify(corners, uvs, n, k);
    let c = corners[k as int];
    let v = unify(corners, uvs, n, k + 1);
    assert(v == place(u, c.0, c.1, uvs[c.1 as int]));
    assert forall|p1: usize, t1: usize, p2: usize, t2: usize|
        v.slots.contains_key(p1) && v.slots[p1].contains_key(t1) && v.slots.contains_key(p2)
            && v.slots[p2].contains_key(t2) && (p1 != p2 || t1 != t2)
        implies #[trigger] v.slots[p1][t1] != #[trigger] v.slots[p2][t2] by {
        let new1 = p1 == c.0 && t1 == c.1;
        let new2 = p2 == c.0 && t2 == c.1;
        if !u.slots.contains_key(c.0) {
            if new1 {
                assert(u.slots.contains_key(p2) && u.slots[p2].contains_key(t2));
                if u.slots[p2][t2] < n {
                    assert(u.slots[p2][t2] == p2);
                }
            } else if new2 {
                assert(u.slots.contains_key(p1) && u.slots[p1].contains_key(t1));
                if u.slots[p1][t1] < n {
                    assert(u.slots[p1][t1] == p1);
                }
            } else {
                assert(u.slots[p1][t1] != u.slots[p2][t2]);
            }
        } else if !u.slots[c.0].contains_key(c.1) {
            if new1 {
                assert(u.slots[p2][t2] < u.origin.len());
            } else if new2 {
                assert(u.slots[p1][t1] < u.origin.len());
            } else {
                assert(u.slots[p1][t1] != u.slots[p2][t2]);
            }
        } else {
            assert(u.slots[p1][t1] != u.slots[p2][t2]);
        }
    }
    assert forall|p: usize, t: usize| v.slots.contains_key(p) && #[trigger] v.slots[p].contains_key(t)
        implies exists|i: int| 0 <= i < k + 1 && #[trigger] corners[i] == (p, t) by {
        if p == c.0 && t == c.1 {
            assert(corners[k as int] == (p, t));
        } else {
            assert(u.slots.contains_key(p) && u.slots[p].contains_key(t));
            let i = choose|i: int| 0 <= i < k && #[trigger] corners[i] == (p, t);
            assert(0 <= i < k + 1 && corners[i] == (p, t));
        }
    }
}

/// What flattening keeps true at every corner: the state is well formed, the slots of
/// one position are distinct, and each pair with a slot was met.
pub proof fn lemma_unify_invariant(
    corners: Seq<(usize, usize)>,
    uvs: Seq<(i64, i64)>,
    base: Seq<Seq<[u8; 3]>>,
    n: nat,
    k: nat,
)
    requires
        frames_of_len(base, n),
        positions_below(corners, n),
        slots_fit(corners, uvs, n),
        k <= corners.len(),
    ensures
        well_formed(unify(corners, uvs, n, k), base, n),
        distinct_slots(unify(corners, uvs, n, k), n),
        slots_met(unify(corners, uvs, n, k), corners, k),
        unify(corners, uvs, n, k).origin.len() <= usize::MAX,
    decreases k,
{
    lemma_unify_grows(corners, uvs, n, k, corners.len());
    if k > 0 {
        lemma_unify_invariant(corners, uvs, base, n, (k - 1) as nat);
        lemma_unify_step(corners, uvs, base, n, (k - 1) as nat);
    }
}

/// Slots only ever come: what the state has after `j` corners it still has after `k`.
pub proof fn lemma_unify_grows(corners: Seq<(usize, usize)>, uvs: Seq<(i64, i64)>, n: nat, j: nat, k: nat)
    requires
        j <= k,
    ensures
        unify(corners, uvs, n, j).origin.len() <= unify(corners, uvs, n, k).origin.len(),
        unify(corners, uvs, n, k).origin.take(unify(corners, uvs, n, j).origin.len() as int)
            == unify(corners, uvs, n, j).origin,
        forall|p: usize, t: usize|
            unify(corners, uvs, n, j).slots.contains_key(p) && #[trigger] unify(corners, uvs, n, j).slots[p].contains_key(t)
                ==> unify(corners, uvs, n, k).slots.contains_key(p) && unify(corners, uvs, n, k).slots[p].contains_key(t)
                && unify(corners, uvs, n, k).slots[p][t] == unify(corners, uvs, n, j).slots[p][t],
    decreases k - j,
{
    if j < k {
        lemma_unify_grows(corners, uvs, n, j, (k - 1) as nat);
        let a = unify(corners, uvs, n, j);
        let b = unify(corners, uvs, n, (k - 1) as nat);
        let c = unify(corners, uvs, n, k);
        assert(c.origin.take(b.origin.len() as int) =~= b.origin);
        assert(c.origin.take(a.origin.len() as int) =~= b.origin.take(a.origin.len() as int));
    }
}

/// Frames and texture coordinates keep one length: after any number of corners,
/// every frame has exactly one position per texture coordinate.
pub proof fn lemma_frame_lengths(
    corners: Seq<(usize, usize)>,
    uvs: Seq<(i64, i64)>,
    base: Seq<Seq<[u8; 3]>>,
    n: nat,
    k: nat,
)
    requires
        frames_of_len(base, n),
        positions_below(corners, n),
        slots_fit(corners, uvs, n),
        k <= corners.len(),
    ensures
        forall|f: int| 0 <= f < base.len()
            ==> #[trigger] spread(base, unify(corners, uvs, n, k).origin)[f].len() == unify(corners, uvs, n, k).uv.len(),
{
    lemma_unify_invariant(corners, uvs, base, n, k);
}

/// Every slot handed to a corner exists: it is below the number of texture
/// coordinates when it is handed out and at every later corner.
pub proof fn lemma_emitted_in_range(
    corners: Seq<(usize, usize)>,
    uvs: Seq<(i64, i64)>,
    base: Seq<Seq<[u8; 3]>>,
    n: nat,
    j: nat,
    k: nat,
)
    requires
        frames_of_len(base, n),
        positions_below(corners, n),
        slots_fit(corners, uvs, n),
        j < k <= corners.len(),
    ensures
        emitted(corners, uvs, n, j) < unify(corners, uvs, n, k).uv.len(),
{
    lemma_unify_invariant(corners, uvs, base, n, j);
    lemma_unify_step(corners, uvs, base, n, j);
    lemma_unify_grows(corners, uvs, n, j + 1, k);
    lemma_unify_invariant(corners, uvs, base, n, k);
}

/// Two corners with the same position index and texture coordinate index get the
/// same slot.
pub proof fn lemma_reuse(
    corners: Seq<(usize, usize)>,
    uvs: Seq<(i64, i64)>,
    base: Seq<Seq<[u8; 3]>>,
    n: nat,
    j: nat,
    k: nat,
)
    requires
        frames_of_len(base, n),
        positions_below(corners, n),
        slots_fit(corners, uvs, n),
        j < k < corners.len(),
        corners[j as int] == corners[k as int],
    ensures
        emitted(corners, uvs, n, j) == emitted(corners, uvs, n, k),
{
    lemma_unify_invariant(corners, uvs, base, n, j);
    lemma_unify_step(corners, uvs, base, n, j);
    lemma_unify_grows(corners, uvs, n, j + 1, k);
}

/// Two corners get the same slot exactly when they have the same position index and
/// the same texture coordinate index: the slots handed out and the distinct pairs met
/// correspond one to one.
pub proof fn lemma_slot_iff_pair(
    corners: Seq<(usize, usize)>,
    uvs: Seq<(i64, i64)>,
    base: Seq<Seq<[u8; 3]>>,
    n: nat,
    j: nat,
    k: nat,
)
    requires
        frames_of_len(base, n),
        positions_below(corners, n),
        slots_fit(corners, uvs, n),
        j < k < corners.len(),
    ensures
        emitted(corners, uvs, n, j) == emitted(corners, uvs, n, k) <==> corners[j as int] == corners[k as int],
{
    if corners[j as int] == corners[k as int] {
        lemma_reuse(corners, uvs, base, n, j, k);
    } else {
        lemma_unify_invariant(corners, uvs, base, n, j);
        lemma_unify_step(corners, uvs, base, n, j);
        lemma_unify_grows(corners, uvs, n, j + 1, k + 1);
        lemma_unify_invariant(corners, uvs, base, n, k);
        lemma_unify_step(corners, uvs, base, n, k);
        let v = unify(corners, uvs, n, k + 1);
        let (pj, tj) = corners[j as int];
        let (pk, tk) = corners[k as int];
        assert(v.slots[pj][tj] == emitted(corners, uvs, n, j));
        assert(v.slots[pk][tk] == emitted(corners, uvs, n, k));
        assert(v.slots[pj][tj] != v.slots[pk][tk]);
    }
}

/// The (position, texture coordinate index) pairs of the first `k` corners.
pub open spec fn pairs_met(corners: Seq<(usize, usize)>, k: nat) -> Set<(usize, usize)>
    decreases k,
{
    if k == 0 || k > corners.len() {
        Set::empty()
    } else {
        pairs_met(corners, (k - 1) as nat).insert(corners[k - 1])
    }
}

/// The position indices of the first `k` corners.
pub open spec fn positions_met(corners: Seq<(usize, usize)>, k: nat) -> Set<usize>
    decreases k,
{
    if k == 0 || k > corners.len() {
        Set::empty()
    } else {
        positions_met(corners, (k - 1) as nat).insert(corners[k - 1].0)
    }
}

/// After any number of corners there is one slot per position, plus one more for each
/// further texture coordinate index met with a position: the number of slots, and of
/// texture coordinates, is `n` plus the number of distinct pairs met minus the number
/// of distinct positions met.
pub proof fn lemma_slot_count(
    corners: Seq<(usize, usize)>,
    uvs: Seq<(i64, i64)>,
    base: Seq<Seq<[u8; 3]>>,
    n: nat,
    k: nat,
)
    requires
        frames_of_len(base, n),
        positions_below(corners, n),
        slots_fit(corners, uvs, n),
        k <= corners.len(),
    ensures
        pairs_met(corners, k).finite(),
        positions_met(corners, k).finite(),
        unify(corners, uvs, n, k).uv.len() + positions_met(corners, k).len() == n + pairs_met(corners, k).len(),
        forall|p: usize| #[trigger] unify(corners, uvs, n, k).slots.contains_key(p) <==> positions_met(corners, k).contains(p),
        forall|p: usize, t: usize| #[trigger] pairs_met(corners, k).contains((p, t))
            <==> unify(corners, uvs, n, k).slots.contains_key(p) && unify(corners, uvs, n, k).slots[p].contains_key(t),
    decreases k,
{
    lemma_unify_invariant(corners, uvs, base, n, k);
    if k > 0 {
        let j = (k - 1) as nat;
        lemma_slot_count(corners, uvs, base, n, j);
        lemma_unify_invariant(corners, uvs, base, n, j);
        let u = unify(corners, uvs, n, j);
        let v = unify(corners, uvs, n, k);
        let c = corners[j as int];
        assert(v == place(u, c.0, c.1, uvs[c.1 as int]));
        let pj = pairs_met(corners, j);
        let qj = positions_met(corners, j);
        assert(pairs_met(corners, k) == pj.insert(c));
        assert(positions_met(corners, k) == qj.insert(c.0));
        if !u.slots.contains_key(c.0) {
            assert(!qj.contains(c.0));
            assert(!pj.contains(c));
        } else if u.slots[c.0].contains_key(c.1) {
            assert(qj.contains(c.0));
            assert(pj.contains(c));
            assert(pairs_met(corners, k) =~= pj);
            assert(positions_met(corners, k) =~= qj);
        } else {
            assert(qj.contains(c.0));
            assert(!pj.contains(c));
            assert(positions_met(corners, k) =~= qj);
        }
    }
}

/// Flattening reads corners in order: the state after `k` corners depends on those
/// corners alone.
pub proof fn lemma_unify_prefix(
    a: Seq<(usize, usize)>,
    b: Seq<(usize, usize)>,
    uvs: Seq<(i64, i64)>,
    n: nat,
    k: nat,
)
    requires
        k <= a.len(),
        k <= b.len(),
        a.take(k as int) == b.take(k as int),
    ensures
        unify(a, uvs, n, k) == unify(b, uvs, n, k),
    decreases k,
{
    if k > 0 {
        assert(a.take(k - 1) =~= a.take(k as int).take(k - 1));
        assert(b.take(k - 1) =~= b.take(k as int).take(k - 1));
        assert(a[k - 1] == a.take(k as int)[k - 1]);
        assert(b[k - 1] == b.take(k as int)[k - 1]);
        lemma_unify_prefix(a, b, uvs, n, (k - 1) as nat);
    }
}

/// Texture coordinates of slots already handed out are never written again: the first
/// corner to take a slot fixes its coordinate, and frames only grow at their end.
pub proof fn lemma_first_writer_wins(
    corners: Seq<(usize, usize)>,
    uvs: Seq<(i64, i64)>,
    base: Seq<Seq<[u8; 3]>>,
    n: nat,
    i: nat,
    j: nat,
    k: nat,
)
    requires
        frames_of_len(base, n),
        positions_below(corners, n),
        slots_fit(corners, uvs, n),
        i < j <= k <= corners.len(),
    ensures
        unify(corners, uvs, n, k).uv[emitted(corners, uvs, n, i) as int] == unify(corners, uvs, n, j).uv[emitted(
            corners,
            uvs,
            n,
            i,
        ) as int],
        unify(corners, uvs, n, k).uv.len() >= unify(corners, uvs, n, j).uv.len(),
        forall|f: int| 0 <= f < base.len() ==> #[trigger] spread(base, unify(corners, uvs, n, k).origin)[f].take(
            unify(corners, uvs, n, j).origin.len() as int,
        ) == spread(base, unify(corners, uvs, n, j).origin)[f],
    decreases k - j,
{
    let a = unify(corners, uvs, n, j);
    let b = unify(corners, uvs, n, k);
    lemma_unify_grows(corners, uvs, n, j, k);
    lemma_unify_invariant(corners, uvs, base, n, j);
    lemma_unify_invariant(corners, uvs, base, n, k);
    assert forall|f: int| 0 <= f < base.len() implies #[trigger] spread(base, b.origin)[f].take(a.origin.len() as int)
        == spread(base, a.origin)[f] by {
        assert(spread(base, b.origin)[f].take(a.origin.len() as int) =~= spread(base, a.origin)[f]);
    }
    if j < k {
        lemma_first_writer_wins(corners, uvs, base, n, i, j, (k - 1) as nat);
        lemma_unify_invariant(corners, uvs, base, n, i);
        lemma_unify_step(corners, uvs, base, n, i);
        lemma_unify_grows(corners, uvs, n, i + 1, (k - 1) as nat);
        lemma_unify_invariant(corners, uvs, base, n, (k - 1) as nat);
        let u = unify(corners, uvs, n, (k - 1) as nat);
        let c = corners[k - 1];
        let s = emitted(corners, uvs, n, i);
        let (pi, ti) = corners[i as int];
        assert(u.slots.contains_key(pi) && u.slots[pi].contains_key(ti) && u.slots[pi][ti] == s);
        assert(b == place(u, c.0, c.1, uvs[c.1 as int]));
        if !u.slots.contains_key(c.0) && s == c.0 {
            assert(s < n);
            assert(u.slots[pi][ti] == pi);
        }
    }
}

/// Flattening an MD2 model cut to its first `k` triangles gives the state after their
/// corners, and the same first `k` triangles, as flattening the whole model does.
pub proof fn lemma_md2_prefix(m: md2::Model, cut: md2::Model, k: nat)
    requires
        k <= m.faces@.len(),
        cut.faces@ == m.faces@.take(k as int),
        cut.frames@ == m.frames@,
        cut.texcoords@ == m.texcoords@,
    ensures
        md2_flattened(cut) == unify(md2_corners(m.faces@), md2_uvs(m.texcoords@), md2_base_len(m), 3 * k),
        forall|i: int| 0 <= i < k ==> #[trigger] md2_triangle(cut, i) == md2_triangle(m, i),
{
    let a = md2_corners(m.faces@);
    let b = md2_corners(cut.faces@);
    assert(b =~= a.take(3 * k as int));
    assert(a.take(3 * k as int).take(3 * k as int) =~= a.take(3 * k as int));
    lemma_unify_prefix(a, b, md2_uvs(m.texcoords@), md2_base_len(m), 3 * k);
    assert forall|i: int| 0 <= i < k implies #[trigger] md2_triangle(cut, i) == md2_triangle(m, i) by {
        let uv = md2_uvs(m.texcoords@);
        let n = md2_base_len(m);
        assert forall|q: nat| q < 3 * k implies #[trigger] emitted(b, uv, n, q) == emitted(a, uv, n, q) by {
            assert(a.take(q as int) =~= b.take(q as int));
            lemma_unify_prefix(a, b, uv, n, q);
        }
        assert(emitted(b, uv, n, (3 * i) as nat) == emitted(a, uv, n, (3 * i) as nat));
        assert(emitted(b, uv, n, (3 * i + 1) as nat) == emitted(a, uv, n, (3 * i + 1) as nat));
        assert(emitted(b, uv, n, (3 * i + 2) as nat) == emitted(a, uv, n, (3 * i + 2) as nat));
    }
}

/// A position met with two different texture coordinate indices gets two different
/// slots.
pub proof fn lemma_split_distinct(
    corners: Seq<(usize, usize)>,
    uvs: Seq<(i64, i64)>,
    base: Seq<Seq<[u8; 3]>>,
    n: nat,
    j: nat,
    k: nat,
)
    requires
        frames_of_len(base, n),
        positions_below(corners, n),
        slots_fit(corners, uvs, n),
        j < k < corners.len(),
        corners[j as int].0 == corners[k as int].0,
        corners[j as int].1 != corners[k as int].1,
    ensures
        emitted(corners, uvs, n, j) != emitted(corners, uvs, n, k),
{
    lemma_unify_invariant(corners, uvs, base, n, j);
    lemma_unify_step(corners, uvs, base, n, j);
    lemma_unify_grows(corners, uvs, n, j + 1, k);
    lemma_unify_invariant(corners, uvs, base, n, k);
    let u = unify(corners, uvs, n, k);
    let p = corners[k as int].0;
    let tj = corners[j as int].1;
    let tk = corners[k as int].1;
    assert(u.slots.contains_key(p) && u.slots[p].contains_key(tj));
    assert(u.slots[p][tj] < u.origin.len());
    if u.slots[p].contains_key(tk) {
        assert(u.slots[p][tj] != u.slots[p][tk]);
    }
}

/// The first time a known position is met with a new texture coordinate index, its
/// corner gets a new slot at the end, and every frame grows by exactly one entry: a
/// copy of that frame's own value of the position.
pub proof fn lemma_split_copies(
    corners: Seq<(usize, usize)>,
    uvs: Seq<(i64, i64)>,
    base: Seq<Seq<[u8; 3]>>,
    n: nat,
    j: nat,
    k: nat,
)
    requires
        frames_of_len(base, n),
        positions_below(corners, n),
        slots_fit(corners, uvs, n),
        j < k < corners.len(),
        corners[j as int].0 == corners[k as int].0,
        forall|i: int| 0 <= i < k ==> corners[i] != corners[k as int],
    ensures
        emitted(corners, uvs, n, k) == unify(corners, uvs, n, k).origin.len(),
        unify(corners, uvs, n, k + 1).uv.len() == unify(corners, uvs, n, k).uv.len() + 1,
        forall|f: int| 0 <= f < base.len() ==> #[trigger] spread(base, unify(corners, uvs, n, k + 1).origin)[f]
            == spread(base, unify(corners, uvs, n, k).origin)[f].push(base[f][corners[k as int].0 as int]),
{
    lemma_unify_invariant(corners, uvs, base, n, j);
    lemma_unify_step(corners, uvs, base, n, j);
    lemma_unify_grows(corners, uvs, n, j + 1, k);
    lemma_unify_invariant(corners, uvs, base, n, k);
    let u = unify(corners, uvs, n, k);
    let p = corners[k as int].0;
    let t = corners[k as int].1;
    assert(u.slots.contains_key(p));
    if u.slots[p].contains_key(t) {
        let i = choose|i: int| 0 <= i < k && #[trigger] corners[i] == (p, t);
        assert(corners[i] == corners[k as int]);
    }
    let v = unify(corners, uvs, n, k + 1);
    assert(v.origin == u.origin.push(p));
    assert forall|f: int| 0 <= f < base.len() implies #[trigger] spread(base, v.origin)[f]
        == spread(base, u.origin)[f].push(base[f][p as int]) by {
        assert(spread(base, v.origin)[f] =~= spread(base, u.origin)[f].push(base[f][p as int]));
    }
}

/// What MDL flattening keeps true at every corner.
pub proof fn lemma_seam_invariant(
    corners: Seq<(usize, bool)>,
    recs: Seq<mdl::TexCoord>,
    w: i32,
    base: Seq<Seq<[u8; 3]>>,
    n: nat,
    k: nat,
)
    requires
        frames_of_len(base, n),
        positions_below(corners, n),
        seam_slots_fit(corners, recs, w, n),
        k <= corners.len(),
    ensures
        well_formed(seam_unify(corners, recs, w, n, k), base, n),
        seam_unify(corners, recs, w, n, k).slots == Map::<usize, Map<usize, usize>>::empty(),
        seam_unify(corners, recs, w, n, k).origin.len() <= usize::MAX,
    decreases k,
{
    lemma_seam_grows(corners, recs, w, n, k, corners.len());
    if k > 0 {
        lemma_seam_invariant(corners, recs, w, base, n, (k - 1) as nat);
    }
}

/// MDL frames and texture coordinates keep one length: after any number of corners,
/// every frame has exactly one position per texture coordinate.
pub proof fn lemma_seam_frame_lengths(
    corners: Seq<(usize, bool)>,
    recs: Seq<mdl::TexCoord>,
    w: i32,
    base: Seq<Seq<[u8; 3]>>,
    n: nat,
    k: nat,
)
    requires
        frames_of_len(base, n),
        positions_below(corners, n),
        seam_slots_fit(corners, recs, w, n),
        k <= corners.len(),
    ensures
        forall|f: int| 0 <= f < base.len() ==> #[trigger] spread(base, seam_unify(corners, recs, w, n, k).origin)[f].len()
            == seam_unify(corners, recs, w, n, k).uv.len(),
{
    lemma_seam_invariant(corners, recs, w, base, n, k);
}

proof fn lemma_seam_grows(corners: Seq<(usize, bool)>, recs: Seq<mdl::TexCoord>, w: i32, n: nat, j: nat, k: nat)
    requires
        j <= k,
    ensures
        seam_unify(corners, recs, w, n, j).origin.len() <= seam_unify(corners, recs, w, n, k).origin.len(),
    decreases k - j,
{
    if j < k {
        lemma_seam_grows(corners, recs, w, n, j, (k - 1) as nat);
    }
}

/// Every slot handed to an MDL corner exists at every later corner.
pub proof fn lemma_seam_emitted_in_range(
    corners: Seq<(usize, bool)>,
    recs: Seq<mdl::TexCoord>,
    w: i32,
    base: Seq<Seq<[u8; 3]>>,
    n: nat,
    j: nat,
    k: nat,
)
    requires
        frames_of_len(base, n),
        positions_below(corners, n),
        seam_slots_fit(corners, recs, w, n),
        j < k <= corners.len(),
    ensures
        seam_emitted(corners, recs, w, n, j) < seam_unify(corners, recs, w, n, k).uv.len(),
{
    lemma_seam_invariant(corners, recs, w, base, n, j);
    lemma_seam_grows(corners, recs, w, n, j + 1, k);
    lemma_seam_invariant(corners, recs, w, base, n, k);
}

proof fn lemma_seam_keeps(
    corners: Seq<(usize, bool)>,
    recs: Seq<mdl::TexCoord>,
    w: i32,
    base: Seq<Seq<[u8; 3]>>,
    n: nat,
    j: nat,
    k: nat,
    s: int,
)
    requires
        frames_of_len(base, n),
        positions_below(corners, n),
        seam_slots_fit(corners, recs, w, n),
        j <= k <= corners.len(),
        0 <= s < seam_unify(corners, recs, w, n, j).uv.len(),
        s >= n || seam_unify(corners, recs, w, n, j).uv[s] == plain_uv(recs[s]),
    ensures
        seam_unify(corners, recs, w, n, k).uv[s] == seam_unify(corners, recs, w, n, j).uv[s],
    decreases k - j,
{
    if j < k {
        lemma_seam_keeps(corners, recs, w, base, n, j, (k - 1) as nat, s);
        lemma_seam_invariant(corners, recs, w, base, n, j);
        lemma_seam_invariant(corners, recs, w, base, n, (k - 1) as nat);
        lemma_seam_grows(corners, recs, w, n, j, (k - 1) as nat);
    }
}

/// A seam position used by a front-facing and by a back-facing triangle ends with two
/// texture coordinates: the unshifted one at its own slot and, at the back corner's
/// new slot, one shifted by exactly half the skin: `w` halves of a texel over a
/// denominator of `2 * w`.
pub proof fn lemma_seam_two_sides(
    corners: Seq<(usize, bool)>,
    recs: Seq<mdl::TexCoord>,
    w: i32,
    base: Seq<Seq<[u8; 3]>>,
    n: nat,
    j: nat,
    k: nat,
)
    requires
        frames_of_len(base, n),
        positions_below(corners, n),
        seam_slots_fit(corners, recs, w, n),
        j < corners.len(),
        k < corners.len(),
        corners[j as int].0 == corners[k as int].0,
        !corners[j as int].1,
        corners[k as int].1,
        recs[corners[k as int].0 as int].onseam > 0,
    ensures
        ({
            let p = corners[k as int].0;
            let u = seam_unify(corners, recs, w, n, corners.len());
            let s = seam_emitted(corners, recs, w, n, k);
            &&& s != p
            &&& u.uv[p as int] == plain_uv(recs[p as int])
            &&& u.uv[s as int] == seam_uv(recs[p as int], w)
            &&& seam_uv(recs[p as int], w).0 == plain_uv(recs[p as int]).0 + w
            &&& seam_uv(recs[p as int], w).1 == plain_uv(recs[p as int]).1
        }),
{
    let p = corners[k as int].0;
    let len = corners.len();
    lemma_seam_invariant(corners, recs, w, base, n, j);
    lemma_seam_invariant(corners, recs, w, base, n, j + 1);
    assert(seam_unify(corners, recs, w, n, j + 1).uv[p as int] == plain_uv(recs[p as int]));
    lemma_seam_keeps(corners, recs, w, base, n, j + 1, len, p as int);
    lemma_seam_invariant(corners, recs, w, base, n, k);
    lemma_seam_invariant(corners, recs, w, base, n, k + 1);
    let s = seam_emitted(corners, recs, w, n, k);
    assert(s == seam_unify(corners, recs, w, n, k).origin.len());
    assert(seam_unify(corners, recs, w, n, k + 1).uv[s as int] == seam_uv(recs[p as int], w));
    lemma_seam_keeps(corners, recs, w, base, n, k + 1, len, s as int);
}

} // verus!
