//! Assign a "write" component from changes to two "read" components, two to
//! one.
//!
//! Whenever either source component of an entity changed, the mapped value
//! of the pair is assigned to the target — provided both sources are
//! present. An entity that lost either source component loses its target
//! component, and declining the pair deletes it as well.

use vstd::prelude::*;

use crate::storage::Storage;
use crate::update_one_to_one::eq_is_structural;

verus! {

/// One tracked source storage together with its change sets: the entities
/// inserted, modified, and removed or deleted since the last reset.
pub struct ChangeView<T> {
    pub storage: Storage<T>,
    pub inserted: Vec<u64>,
    pub modified: Vec<u64>,
    pub removed: Vec<u64>,
}

/// A shipyard-style view triple for two-to-one updates: two tracked sources
/// and the target storage the update writes.
pub struct UpdateTwoToOne<T1, T2, U> {
    pub first: ChangeView<T1>,
    pub second: ChangeView<T2>,
    pub target: Storage<U>,
}

impl<T1, T2, U> UpdateTwoToOne<T1, T2, U> {
    pub open spec fn wf(self) -> bool {
        &&& self.first.storage.wf()
        &&& self.second.storage.wf()
        &&& self.target.wf()
    }

    /// Either source lost this entity's component.
    pub open spec fn spec_removed(self, e: u64) -> bool {
        self.first.removed@.contains(e) || self.second.removed@.contains(e)
    }

    /// Either source component of this entity changed (and neither was
    /// removed, which takes precedence).
    pub open spec fn spec_changed(self, e: u64) -> bool {
        ||| self.first.inserted@.contains(e)
        ||| self.second.inserted@.contains(e)
        ||| self.first.modified@.contains(e)
        ||| self.second.modified@.contains(e)
    }
}

/// What a two-to-one update leaves at a changed entity: with both source
/// components present, the mapped value of the pair decides (a produced
/// value is stored, a declined pair is deleted); with either source absent,
/// the target is untouched.
pub open spec fn pair_done_at<T1, T2, U, F: Fn(u64, &T1, &T2) -> Option<U>>(
    v: UpdateTwoToOne<T1, T2, U>,
    f: F,
    e: u64,
    out: Option<U>,
) -> bool {
    match (v.first.storage.spec_get(e), v.second.storage.spec_get(e)) {
        (Some(t1), Some(t2)) => exists|o: Option<U>|
            #[trigger] call_ensures(f, (e, &t1, &t2), o) && out == o,
        _ => out == v.target.spec_get(e),
    }
}

/// The new target at entity `e` after a two-to-one update: entities removed
/// from either source lose their component; entities with either source
/// changed carry the mapped value of the pair; everything else is
/// untouched.
pub open spec fn two_to_one_at<T1, T2, U, F: Fn(u64, &T1, &T2) -> Option<U>>(
    v: UpdateTwoToOne<T1, T2, U>,
    f: F,
    r: Storage<U>,
    e: u64,
) -> bool {
    if v.spec_removed(e) {
        r.spec_get(e) is None
    } else if v.spec_changed(e) {
        pair_done_at(v, f, e, r.spec_get(e))
    } else {
        r.spec_get(e) == v.target.spec_get(e)
    }
}

fn ids_contain(v: &Vec<u64>, e: u64) -> (r: bool)
    ensures
        r == v@.contains(e),
{
    let n = v.len();
    let mut i: usize = 0;
    while i < n
        invariant
            n == v.len(),
            0 <= i <= n,
            forall|j: int| 0 <= j < i ==> v@[j] != e,
        decreases n - i,
    {
        if v[i] == e {
            return true;
        }
        i += 1;
    }
    false
}

/// Taking one more element extends prefix membership by exactly that
/// element.
proof fn lemma_take_contains_step(s: Seq<u64>, x: int)
    requires
        0 <= x < s.len(),
    ensures
        forall|e: u64|
            #[trigger] s.take(x + 1).contains(e) <==> (s.take(x).contains(e) || e == s[x]),
{
    assert forall|e: u64|
        #[trigger] s.take(x + 1).contains(e) <==> (s.take(x).contains(e) || e == s[x]) by {
        if s.take(x + 1).contains(e) {
            let j = choose|j: int| 0 <= j < x + 1 && (#[trigger] s.take(x + 1)[j]) == e;
            if j < x {
                assert(s.take(x)[j] == e);
            } else {
                assert(e == s[x]);
            }
        }
        if s.take(x).contains(e) {
            let j = choose|j: int| 0 <= j < x && (#[trigger] s.take(x)[j]) == e;
            assert(s.take(x + 1)[j] == e);
        }
        if e == s[x] {
            assert(s.take(x + 1)[x] == e);
        }
    }
}

impl<T1, T2, U: PartialEq> UpdateTwoToOne<T1, T2, U> {
    /// Deletes the target component of every entity removed from either
    /// source, then assigns the mapped value of the source pair for every
    /// entity either source changed — deleting the target component when
    /// the pair is declined or either source component is absent from its
    /// storage alongside a change.
    pub fn update_or_delete<F: Fn(u64, &T1, &T2) -> Option<U>>(self, update_fn: F) -> (r: Storage<
        U,
    >)
        requires
            self.wf(),
            eq_is_structural::<U>(),
            forall|e: u64, t1: T1, t2: T2| #[trigger] call_requires(update_fn, (e, &t1, &t2)),
        ensures
            r.wf(),
            forall|e: u64| #[trigger] two_to_one_at(self, update_fn, r, e),
    {
        let UpdateTwoToOne { first, second, target } = self;
        let mut target = target;
        let ghost target0 = target;
        let ghost v = self;

        let n1 = first.removed.len();
        let mut x: usize = 0;
        #[verifier::loop_isolation(false)]
        while x < n1
            invariant
                0 <= x <= n1,
                target.wf(),
                forall|e: u64|
                    #![trigger target.spec_get(e)]
                    if first.removed@.take(x as int).contains(e) {
                        target.spec_get(e) is None
                    } else {
                        target.spec_get(e) == target0.spec_get(e)
                    },
            decreases n1 - x,
        {
            proof {
                lemma_take_contains_step(first.removed@, x as int);
            }
            target.delete(first.removed[x]);
            x += 1;
        }
        proof {
            assert(first.removed@.take(n1 as int) =~= first.removed@);
        }
        let n2 = second.removed.len();
        let mut x2: usize = 0;
        #[verifier::loop_isolation(false)]
        while x2 < n2
            invariant
                0 <= x2 <= n2,
                target.wf(),
                forall|e: u64|
                    #![trigger target.spec_get(e)]
                    if first.removed@.contains(e) || second.removed@.take(x2 as int).contains(e) {
                        target.spec_get(e) is None
                    } else {
                        target.spec_get(e) == target0.spec_get(e)
                    },
            decreases n2 - x2,
        {
            proof {
                lemma_take_contains_step(second.removed@, x2 as int);
            }
            target.delete(second.removed[x2]);
            x2 += 1;
        }
        proof {
            assert(second.removed@.take(n2 as int) =~= second.removed@);
        }

        let m1 = first.inserted.len();
        let mut y1: usize = 0;
        #[verifier::loop_isolation(false)]
        while y1 < m1
            invariant
                0 <= y1 <= m1,
                target.wf(),
                forall|e: u64|
                    #![trigger target.spec_get(e)]
                    if v.spec_removed(e) {
                        target.spec_get(e) is None
                    } else if first.inserted@.take(y1 as int).contains(e) {
                        pair_done_at(v, update_fn, e, target.spec_get(e))
                    } else {
                        target.spec_get(e) == target0.spec_get(e)
                    },
            decreases m1 - y1,
        {
            proof {
                lemma_take_contains_step(first.inserted@, y1 as int);
            }
            let e = first.inserted[y1];
            if !ids_contain(&first.removed, e) && !ids_contain(&second.removed, e) {
                apply_pair(&mut target, &first.storage, &second.storage, e, &update_fn);
            }
            y1 += 1;
        }
        proof {
            assert(first.inserted@.take(m1 as int) =~= first.inserted@);
        }

        let m2 = second.inserted.len();
        let mut y2: usize = 0;
        #[verifier::loop_isolation(false)]
        while y2 < m2
            invariant
                0 <= y2 <= m2,
                target.wf(),
                forall|e: u64|
                    #![trigger target.spec_get(e)]
                    if v.spec_removed(e) {
                        target.spec_get(e) is None
                    } else if first.inserted@.contains(e) || second.inserted@.take(
                        y2 as int,
                    ).contains(e) {
                        pair_done_at(v, update_fn, e, target.spec_get(e))
                    } else {
                        target.spec_get(e) == target0.spec_get(e)
                    },
            decreases m2 - y2,
        {
            proof {
                lemma_take_contains_step(second.inserted@, y2 as int);
            }
            let e = second.inserted[y2];
            if !ids_contain(&first.removed, e) && !ids_contain(&second.removed, e) && !ids_contain(
                &first.inserted,
                e,
            ) {
                apply_pair(&mut target, &first.storage, &second.storage, e, &update_fn);
            }
            y2 += 1;
        }
        proof {
            assert(second.inserted@.take(m2 as int) =~= second.inserted@);
        }

        let k1 = first.modified.len();
        let mut z1: usize = 0;
        #[verifier::loop_isolation(false)]
        while z1 < k1
            invariant
                0 <= z1 <= k1,
                target.wf(),
                forall|e: u64|
                    #![trigger target.spec_get(e)]
                    if v.spec_removed(e) {
                        target.spec_get(e) is None
                    } else if first.inserted@.contains(e) || second.inserted@.contains(e)
                        || first.modified@.take(z1 as int).contains(e) {
                        pair_done_at(v, update_fn, e, target.spec_get(e))
                    } else {
                        target.spec_get(e) == target0.spec_get(e)
                    },
            decreases k1 - z1,
        {
            proof {
                lemma_take_contains_step(first.modified@, z1 as int);
            }
            let e = first.modified[z1];
            if !ids_contain(&first.removed, e) && !ids_contain(&second.removed, e) && !ids_contain(
                &first.inserted,
                e,
            ) && !ids_contain(&second.inserted, e) {
                apply_pair(&mut target, &first.storage, &second.storage, e, &update_fn);
            }
            z1 += 1;
        }
        proof {
            assert(first.modified@.take(k1 as int) =~= first.modified@);
        }

        let k2 = second.modified.len();
        let mut z2: usize = 0;
        #[verifier::loop_isolation(false)]
        while z2 < k2
            invariant
                0 <= z2 <= k2,
                target.wf(),
                forall|e: u64|
                    #![trigger target.spec_get(e)]
                    if v.spec_removed(e) {
                        target.spec_get(e) is None
                    } else if first.inserted@.contains(e) || second.inserted@.contains(e)
                        || first.modified@.contains(e) || second.modified@.take(
                        z2 as int,
                    ).contains(e) {
                        pair_done_at(v, update_fn, e, target.spec_get(e))
                    } else {
                        target.spec_get(e) == target0.spec_get(e)
                    },
            decreases k2 - z2,
        {
            proof {
                lemma_take_contains_step(second.modified@, z2 as int);
            }
            let e = second.modified[z2];
            if !ids_contain(&first.removed, e) && !ids_contain(&second.removed, e) && !ids_contain(
                &first.inserted,
                e,
            ) && !ids_contain(&second.inserted, e) && !ids_contain(&first.modified, e) {
                apply_pair(&mut target, &first.storage, &second.storage, e, &update_fn);
            }
            z2 += 1;
        }
        proof {
            assert(second.modified@.take(k2 as int) =~= second.modified@);
            assert forall|e: u64| #[trigger] two_to_one_at(v, update_fn, target, e) by {
                // mention the term the loop invariant triggers on
                assert(target.spec_get(e) == target.spec_get(e));
            }
        }
        target
    }
}

/// Applies the mapped value of one entity's source pair to the target: a
/// produced value is stored, a declined pair is deleted, and an entity with
/// either source component absent is left untouched.
fn apply_pair<T1, T2, U, F: Fn(u64, &T1, &T2) -> Option<U>>(
    target: &mut Storage<U>,
    s1: &Storage<T1>,
    s2: &Storage<T2>,
    e: u64,
    update_fn: &F,
)
    requires
        old(target).wf(),
        forall|e2: u64, t1: T1, t2: T2| #[trigger] call_requires(*update_fn, (e2, &t1, &t2)),
    ensures
        final(target).wf(),
        match (s1.spec_get(e), s2.spec_get(e)) {
            (Some(t1), Some(t2)) => exists|o: Option<U>|
                #[trigger] call_ensures(*update_fn, (e, &t1, &t2), o) && final(target).spec_get(e)
                    == o,
            _ => final(target).spec_get(e) == old(target).spec_get(e),
        },
        forall|x: u64| x != e ==> #[trigger] final(target).spec_get(x) == old(target).spec_get(x),
{
    let t1 = s1.get(e);
    let t2 = s2.get(e);
    match (t1, t2) {
        (Some(t1), Some(t2)) => {
            match update_fn(e, t1, t2) {
                Some(u) => {
                    target.insert(e, u);
                },
                None => {
                    target.delete(e);
                },
            }
        },
        _ => {},
    }
}

} // verus!
