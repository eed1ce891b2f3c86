//! Keep a target component in one-to-one correspondence with a changed
//! source component, updating the pair in place.

use vstd::prelude::*;

use crate::storage::Storage;
use crate::type_names::assoc_find;
use crate::update_one_to_one::{
    disjoint_keys, distinct_keys, eq_is_structural, lemma_disjoint_find,
    lemma_find_in_take_unaffected, lemma_take_step,
};

verus! {

/// A one-to-one updater that owns its target: the source's change sets and
/// the target storage the update rewrites in place.
pub struct ChangedOneToOne<T, U> {
    /// entities whose source component was inserted since the last reset,
    /// with the source value
    pub inserted: Vec<(u64, T)>,
    /// entities whose source component was modified since the last reset,
    /// with the source value
    pub modified: Vec<(u64, T)>,
    /// entities whose source component was removed or deleted
    pub removed: Vec<u64>,
    /// the target storage
    pub target: Storage<U>,
}

impl<T, U> ChangedOneToOne<T, U> {
    /// The change sets describe one tracked storage: an entity is inserted
    /// or modified, never both, and each at most once.
    pub open spec fn wf(self) -> bool {
        &&& self.target.wf()
        &&& distinct_keys(self.inserted@)
        &&& distinct_keys(self.modified@)
        &&& disjoint_keys(self.inserted@, self.modified@)
    }
}

impl<T, U: PartialEq> ChangedOneToOne<T, U> {
    /// Assigns `update_fn`'s value for every inserted or modified source
    /// component, removes the target component of removed entities, and
    /// leaves every other entity untouched. An equal value is never
    /// rewritten.
    pub fn update<F: Fn(u64, &T) -> U>(&mut self, update_fn: F)
        requires
            old(self).wf(),
            eq_is_structural::<U>(),
            forall|e: u64, t: T| #[trigger] call_requires(update_fn, (e, &t)),
        ensures
            final(self).wf(),
            final(self).inserted == old(self).inserted,
            final(self).modified == old(self).modified,
            final(self).removed == old(self).removed,
            forall|e: u64|
                old(self).removed@.contains(e) ==> (#[trigger] final(self).target.spec_get(e))
                    is None,
            forall|e: u64|
                #![trigger final(self).target.spec_get(e)]
                !old(self).removed@.contains(e) ==> match assoc_find(old(self).inserted@, e) {
                    Some(t) => exists|u: U|
                        #[trigger] call_ensures(update_fn, (e, &t), u)
                            && final(self).target.spec_get(e) == Some(u),
                    None => match assoc_find(old(self).modified@, e) {
                        Some(t) => exists|u: U|
                            #[trigger] call_ensures(update_fn, (e, &t), u)
                                && final(self).target.spec_get(e) == Some(u),
                        None => final(self).target.spec_get(e) == old(self).target.spec_get(e),
                    },
                },
    {
        let ghost target0 = self.target;
        let n = self.inserted.len();
        let mut i: usize = 0;
        #[verifier::loop_isolation(false)]
        while i < n
            invariant
                0 <= i <= n,
                self.target.wf(),
                self.inserted == old(self).inserted,
                self.modified == old(self).modified,
                self.removed == old(self).removed,
                forall|e: u64|
                    #![trigger self.target.spec_get(e)]
                    match assoc_find(self.inserted@.take(i as int), e) {
                        Some(t) => exists|u: U|
                            #[trigger] call_ensures(update_fn, (e, &t), u)
                                && self.target.spec_get(e) == Some(u),
                        None => self.target.spec_get(e) == target0.spec_get(e),
                    },
            decreases n - i,
        {
            let e = self.inserted[i].0;
            let u = update_fn(e, &self.inserted[i].1);
            proof {
                lemma_take_step(self.inserted@, i as int);
            }
            self.target.insert(e, u);
            proof {
                lemma_find_in_take_unaffected(self.inserted@, i as int, e);
            }
            i += 1;
        }
        let ghost target1 = self.target;
        proof {
            assert(self.inserted@.take(n as int) =~= self.inserted@);
            assert forall|e: u64|
                #![trigger target1.spec_get(e)]
                match assoc_find(self.inserted@, e) {
                    Some(t) => exists|u: U|
                        #[trigger] call_ensures(update_fn, (e, &t), u) && target1.spec_get(e)
                            == Some(u),
                    None => target1.spec_get(e) == target0.spec_get(e),
                } by {
                assert(self.target.spec_get(e) == target1.spec_get(e));
                assert(assoc_find(self.inserted@.take(i as int), e) == assoc_find(
                    self.inserted@,
                    e,
                ));
            }
        }
        let m = self.modified.len();
        let mut k: usize = 0;
        #[verifier::loop_isolation(false)]
        while k < m
            invariant
                0 <= k <= m,
                self.target.wf(),
                self.inserted == old(self).inserted,
                self.modified == old(self).modified,
                self.removed == old(self).removed,
                forall|e: u64|
                    #![trigger self.target.spec_get(e)]
                    match assoc_find(self.modified@.take(k as int), e) {
                        Some(t) => exists|u: U|
                            #[trigger] call_ensures(update_fn, (e, &t), u)
                                && self.target.spec_get(e) == Some(u),
                        None => self.target.spec_get(e) == target1.spec_get(e),
                    },
            decreases m - k,
        {
            let e = self.modified[k].0;
            let u = update_fn(e, &self.modified[k].1);
            proof {
                lemma_take_step(self.modified@, k as int);
            }
            let mut must_write = true;
            match self.target.get(e) {
                Some(exist) => {
                    if exist.eq(&u) {
                        must_write = false;
                        proof {
                            assert(self.target.spec_get(e) == Some(u));
                        }
                    }
                },
                None => {},
            }
            if must_write {
                self.target.insert(e, u);
            }
            proof {
                lemma_find_in_take_unaffected(self.modified@, k as int, e);
            }
            k += 1;
        }
        let ghost target2 = self.target;
        proof {
            assert(self.modified@.take(m as int) =~= self.modified@);
            assert forall|e: u64|
                #![trigger target2.spec_get(e)]
                match assoc_find(self.modified@, e) {
                    Some(t) => exists|u: U|
                        #[trigger] call_ensures(update_fn, (e, &t), u) && target2.spec_get(e)
                            == Some(u),
                    None => target2.spec_get(e) == target1.spec_get(e),
                } by {
                assert(self.target.spec_get(e) == target2.spec_get(e));
                assert(assoc_find(self.modified@.take(k as int), e) == assoc_find(
                    self.modified@,
                    e,
                ));
            }
        }
        let nr = self.removed.len();
        let mut x: usize = 0;
        #[verifier::loop_isolation(false)]
        while x < nr
            invariant
                0 <= x <= nr,
                self.target.wf(),
                self.inserted == old(self).inserted,
                self.modified == old(self).modified,
                self.removed == old(self).removed,
                forall|e: u64|
                    self.removed@.take(x as int).contains(e) ==> #[trigger] self.target.spec_get(
                        e,
                    ) is None,
                forall|e: u64|
                    !self.removed@.take(x as int).contains(e) ==> #[trigger] self.target.spec_get(
                        e,
                    ) == target2.spec_get(e),
            decreases nr - x,
        {
            let e = self.removed[x];
            self.target.delete(e);
            proof {
                assert forall|e2: u64|
                    self.removed@.take(x as int + 1).contains(e2) implies #[trigger]
                    self.target.spec_get(e2) is None by {
                    if e2 != e {
                        assert(self.removed@.take(x as int).contains(e2)) by {
                            let j = choose|j: int|
                                0 <= j < x + 1 && (#[trigger] self.removed@.take(x as int + 1)[j])
                                    == e2;
                            assert(self.removed@.take(x as int)[j] == e2);
                        }
                    }
                }
                assert forall|e2: u64|
                    !self.removed@.take(x as int + 1).contains(e2) implies #[trigger]
                    self.target.spec_get(e2) == target2.spec_get(e2) by {
                    assert(e2 != e) by {
                        if e2 == e {
                            assert(self.removed@.take(x as int + 1)[x as int] == e);
                        }
                    }
                    assert(!self.removed@.take(x as int).contains(e2)) by {
                        if self.removed@.take(x as int).contains(e2) {
                            let j = choose|j: int|
                                0 <= j < x && (#[trigger] self.removed@.take(x as int)[j]) == e2;
                            assert(self.removed@.take(x as int + 1)[j] == e2);
                        }
                    }
                }
            }
            x += 1;
        }
        proof {
            assert(self.removed@.take(nr as int) =~= self.removed@);
            assert forall|e: u64|
                !self.removed@.contains(e) && assoc_find(self.inserted@, e) is None && assoc_find(
                    self.modified@,
                    e,
                ) is None implies #[trigger] self.target.spec_get(e) == target0.spec_get(e) by {
                assert(target1.spec_get(e) == target0.spec_get(e));
                assert(target2.spec_get(e) == target1.spec_get(e));
            }
            assert forall|e: u64|
                !self.removed@.contains(e) && assoc_find(self.inserted@, e) is Some implies
                assoc_find(self.modified@, e) is None && target2.spec_get(e) == target1.spec_get(
                e,
            ) by {
                lemma_disjoint_find(self.inserted@, self.modified@, e);
            }
        }
    }
}

} // verus!
