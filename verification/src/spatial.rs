//! Broad-phase spatial index over axis-aligned boxes.
//!
//! A broad phase owes its callers a superset of the true overlaps: every
//! entity whose box touches the query box must come back, and a precise
//! circular test follows.  This index keeps a plain list of box records,
//! one per entity, and a query returns exactly the records whose boxes
//! overlap the query box, all in fixed-point coordinates.

use vstd::prelude::*;
use crate::fixed::{sat64, fp_add};

verus! {

/// One record of the index: an entity's axis-aligned box in fixed-point
/// coordinates.
#[derive(Clone, Copy, PartialEq, Eq, Structural, Debug)]
pub struct SolverEntry {
    pub id: u64,
    pub x: i64,
    pub y: i64,
    pub width: i64,
    pub height: i64,
    pub radius: i64,
}

/// An axis-aligned query box.
#[derive(Clone, Copy, PartialEq, Eq, Structural, Debug)]
pub struct Query {
    pub x: i64,
    pub y: i64,
    pub width: i64,
    pub height: i64,
}

/// The spans `[a, a+aw]` and `[b, b+bw]` overlap: neither ends before the
/// other starts (ends computed with saturation).
pub open spec fn spans_overlap(a: i64, aw: i64, b: i64, bw: i64) -> bool {
    sat64(a + aw) >= b && sat64(b + bw) >= a
}

/// The record's box overlaps the query box on both axes.
pub open spec fn entry_hits(e: SolverEntry, q: Query) -> bool {
    spans_overlap(e.x, e.width, q.x, q.width) && spans_overlap(e.y, e.height, q.y, q.height)
}

/// The records of a run whose boxes overlap the query box, in order.
pub open spec fn spec_solve(entries: Seq<SolverEntry>, q: Query) -> Seq<SolverEntry>
    decreases entries.len(),
{
    if entries.len() == 0 {
        Seq::empty()
    } else {
        (if entry_hits(entries[0], q) {
            seq![entries[0]]
        } else {
            Seq::empty()
        }) + spec_solve(entries.skip(1), q)
    }
}

/// Extending the searched prefix by one record appends its hit, if any.
pub proof fn lemma_spec_solve_snoc(entries: Seq<SolverEntry>, q: Query, i: int)
    requires
        0 <= i < entries.len(),
    ensures
        spec_solve(entries.take(i + 1), q) == spec_solve(entries.take(i), q) + (if entry_hits(
            entries[i],
            q,
        ) {
            seq![entries[i]]
        } else {
            Seq::empty()
        }),
    decreases i,
{
    if i == 0 {
        assert(entries.take(1)[0] == entries[0]);
        assert(entries.take(1).skip(1) =~= Seq::<SolverEntry>::empty());
        assert(spec_solve(entries.take(1).skip(1), q) == Seq::<SolverEntry>::empty());
        assert(entries.take(0) =~= Seq::<SolverEntry>::empty());
        if entry_hits(entries[0], q) {
            assert(spec_solve(entries.take(1), q) =~= seq![entries[0]]);
            assert(spec_solve(entries.take(0), q) + seq![entries[0]] =~= seq![entries[0]]);
        } else {
            assert(spec_solve(entries.take(1), q) =~= Seq::<SolverEntry>::empty());
            assert(spec_solve(entries.take(0), q) + Seq::<SolverEntry>::empty() =~= Seq::<
                SolverEntry,
            >::empty());
        }
    } else {
        let t = entries.skip(1);
        lemma_spec_solve_snoc(t, q, i - 1);
        assert(entries.take(i + 1)[0] == entries[0]);
        assert(entries.take(i)[0] == entries[0]);
        assert(entries.take(i + 1).skip(1) =~= t.take(i));
        assert(entries.take(i).skip(1) =~= t.take(i - 1));
        assert(t[i - 1] == entries[i]);
        let h0 = if entry_hits(entries[0], q) {
            seq![entries[0]]
        } else {
            Seq::<SolverEntry>::empty()
        };
        let hi = if entry_hits(entries[i], q) {
            seq![entries[i]]
        } else {
            Seq::<SolverEntry>::empty()
        };
        assert(spec_solve(entries.take(i + 1), q) == h0 + spec_solve(t.take(i), q));
        assert(spec_solve(entries.take(i), q) == h0 + spec_solve(t.take(i - 1), q));
        assert(h0 + (spec_solve(t.take(i - 1), q) + hi) =~= (h0 + spec_solve(t.take(i - 1), q))
            + hi);
    }
}

/// The broad-phase index: a list of box records with pairwise distinct
/// identifiers.
pub struct BroadSolver {
    pub entries: Vec<SolverEntry>,
    pub width: u32,
    pub height: u32,
    pub depth: u32,
}

impl BroadSolver {
    /// No two records name the same entity.
    pub open spec fn ids_unique(&self) -> bool {
        forall|i: int, j: int|
            0 <= i < j < self.entries@.len() ==> (#[trigger] self.entries@[i]).id != (
            #[trigger] self.entries@[j]).id
    }

    /// Some record names this entity.
    pub open spec fn contains_id(&self, id: u64) -> bool {
        exists|i: int| 0 <= i < self.entries@.len() && (#[trigger] self.entries@[i]).id == id
    }

    /// An empty index for a world of the given size.
    pub fn new(width: u32, height: u32, depth: u32) -> (r: Self)
        ensures
            r.entries@.len() == 0,
            r.width == width,
            r.height == height,
            r.depth == depth,
            r.ids_unique(),
    {
        BroadSolver { entries: Vec::new(), width, height, depth }
    }

    /// Add a record for an entity the index does not know yet.
    pub fn insert(&mut self, e: &SolverEntry)
        requires
            old(self).ids_unique(),
            !old(self).contains_id(e.id),
        ensures
            final(self).entries@ == old(self).entries@.push(*e),
            final(self).ids_unique(),
            final(self).width == old(self).width,
            final(self).height == old(self).height,
            final(self).depth == old(self).depth,
    {
        self.entries.push(*e);
    }

    /// Update in place the record of the entity the argument names; without
    /// such a record the index is unchanged.
    pub fn mutate(&mut self, e: &SolverEntry)
        requires
            old(self).ids_unique(),
        ensures
            final(self).ids_unique(),
            final(self).entries@.len() == old(self).entries@.len(),
            final(self).width == old(self).width,
            final(self).height == old(self).height,
            final(self).depth == old(self).depth,
            old(self).contains_id(e.id) ==> exists|i: int|
                0 <= i < old(self).entries@.len() && (#[trigger] old(self).entries@[i]).id == e.id
                    && final(self).entries@ == old(self).entries@.update(i, *e),
            !old(self).contains_id(e.id) ==> final(self).entries@ == old(self).entries@,
    {
        let n = self.entries.len();
        let mut i: usize = 0;
        while i < n
            invariant
                i <= n,
                n == old(self).entries@.len(),
                *self == *old(self),
                old(self).ids_unique(),
                forall|k: int| 0 <= k < i ==> (#[trigger] old(self).entries@[k]).id != e.id,
            decreases n - i,
        {
            if self.entries[i].id == e.id {
                self.entries.set(i, *e);
                proof {
                    assert((#[trigger] old(self).entries@[i as int]).id == e.id);
                    assert(self.entries@ == old(self).entries@.update(i as int, *e));
                    assert forall|k: int| 0 <= k < self.entries@.len() implies (
                    #[trigger] self.entries@[k]).id == (#[trigger] old(self).entries@[k]).id by {
                        if k != i {
                            assert(old(self).entries@.update(i as int, *e)[k] == old(
                                self,
                            ).entries@[k]);
                        } else {
                            assert(old(self).entries@.update(i as int, *e)[k] == *e);
                        }
                    }
                }
                return ;
            }
            i = i + 1;
        }
    }

    /// Remove the record of the named entity; without one the index is
    /// unchanged.
    pub fn delete(&mut self, id: u64)
        requires
            old(self).ids_unique(),
        ensures
            final(self).ids_unique(),
            final(self).width == old(self).width,
            final(self).height == old(self).height,
            final(self).depth == old(self).depth,
            !final(self).contains_id(id),
            old(self).contains_id(id) ==> exists|i: int|
                0 <= i < old(self).entries@.len() && (#[trigger] old(self).entries@[i]).id == id
                    && final(self).entries@ == old(self).entries@.remove(i),
            !old(self).contains_id(id) ==> final(self).entries@ == old(self).entries@,
    {
        let n = self.entries.len();
        let mut i: usize = 0;
        while i < n
            invariant
                i <= n,
                n == old(self).entries@.len(),
                *self == *old(self),
                old(self).ids_unique(),
                forall|k: int| 0 <= k < i ==> (#[trigger] old(self).entries@[k]).id != id,
            decreases n - i,
        {
            if self.entries[i].id == id {
                self.entries.remove(i);
                proof {
                    assert((#[trigger] old(self).entries@[i as int]).id == id);
                    old(self).entries@.remove_ensures(i as int);
                    assert forall|k: int| 0 <= k < self.entries@.len() implies (
                    #[trigger] self.entries@[k]).id != id by {
                        if k < i {
                            assert(old(self).entries@.remove(i as int)[k] == old(self).entries@[k]);
                        } else {
                            assert(old(self).entries@.remove(i as int)[k] == old(self).entries@[k + 1]);
                            assert((old(self).entries@[k + 1]).id
                                != (old(self).entries@[i as int]).id);
                        }
                    }
                    assert forall|k: int, l: int|
                        0 <= k < l < self.entries@.len() implies (
                    #[trigger] self.entries@[k]).id != (#[trigger] self.entries@[l]).id by {
                        let k0 = if k < i { k } else { k + 1 };
                        let l0 = if l < i { l } else { l + 1 };
                        assert(old(self).entries@.remove(i as int)[k] == old(self).entries@[k0]);
                        assert(old(self).entries@.remove(i as int)[l] == old(self).entries@[l0]);
                        assert((old(self).entries@[k0]).id != (old(self).entries@[l0]).id);
                    }
                }
                return ;
            }
            i = i + 1;
        }
    }

    /// The broad-phase query: exactly the records whose boxes overlap the
    /// query box, in index order.
    pub fn solve(&self, q: &Query) -> (r: Vec<SolverEntry>)
        ensures
            r@ == spec_solve(self.entries@, *q),
            forall|k: int| 0 <= k < r@.len() ==> entry_hits(#[trigger] r@[k], *q),
    {
        let mut r: Vec<SolverEntry> = Vec::new();
        let n = self.entries.len();
        let mut i: usize = 0;
        proof {
            assert(self.entries@.take(0) =~= Seq::<SolverEntry>::empty());
            assert(r@ =~= spec_solve(self.entries@.take(0), *q));
        }
        while i < n
            invariant
                i <= n,
                n == self.entries@.len(),
                r@ == spec_solve(self.entries@.take(i as int), *q),
                forall|k: int| 0 <= k < r@.len() ==> entry_hits(#[trigger] r@[k], *q),
            decreases n - i,
        {
            let e = self.entries[i];
            let hit_x = fp_add(e.x, e.width) >= q.x && fp_add(q.x, q.width) >= e.x;
            let hit_y = fp_add(e.y, e.height) >= q.y && fp_add(q.y, q.height) >= e.y;
            proof {
                lemma_spec_solve_snoc(self.entries@, *q, i as int);
            }
            if hit_x && hit_y {
                r.push(e);
                proof {
                    assert(r@ =~= spec_solve(self.entries@.take(i as int), *q) + seq![e]);
                }
            } else {
                proof {
                    assert(spec_solve(self.entries@.take(i as int), *q) + Seq::<
                        SolverEntry,
                    >::empty() =~= r@);
                }
            }
            i = i + 1;
        }
        proof {
            assert(self.entries@.take(n as int) =~= self.entries@);
        }
        r
    }
}

} // verus!
