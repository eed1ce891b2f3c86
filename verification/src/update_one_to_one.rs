//! Assign a "write" component from changes to a "read" component, one to
//! one.
//!
//! Given the change sets of a tracked source storage (inserted, modified and
//! removed entities) and the current target storage, the update computes the
//! new target: mapped values for inserted and modified entities, deletion
//! for removed ones. An equal value is never rewritten, so a change-tracked
//! target stays clean when nothing actually changed.

use vstd::prelude::*;

use vstd::std_specs::cmp::PartialEqSpec;

use crate::storage::Storage;
use crate::type_names::assoc_find;

verus! {

/// Distinct keys in a change list.
pub open spec fn distinct_keys<T>(s: Seq<(u64, T)>) -> bool {
    forall|i: int, j: int|
        0 <= i < j < s.len() ==> (#[trigger] s[i]).0 != (#[trigger] s[j]).0
}

/// No key occurs in both change lists.
pub open spec fn disjoint_keys<T>(a: Seq<(u64, T)>, b: Seq<(u64, T)>) -> bool {
    forall|i: int, j: int|
        0 <= i < a.len() && 0 <= j < b.len() ==> (#[trigger] a[i]).0 != (#[trigger] b[j]).0
}

/// The component type's `==` agrees with real equality, and Verus knows its
/// specification; the update helpers rely on this to skip rewriting a value
/// equal to the one already stored.
pub open spec fn eq_is_structural<U: PartialEq>() -> bool {
    &&& U::obeys_eq_spec()
    &&& forall|x: U, y: U| #[trigger] x.eq_spec(&y) <==> x == y
}

/// What one mapped value does to the target at its entity: a produced value
/// is stored; no value either leaves the previous component (ignore) or
/// deletes it.
pub open spec fn apply_result<U>(o: Option<U>, prev: Option<U>, delete_on_none: bool) -> Option<
    U,
> {
    match o {
        Some(u) => Some(u),
        None => if delete_on_none {
            None
        } else {
            prev
        },
    }
}

/// The target holds at `e` some output of `f` for the changed source value
/// `t`, applied over the previous component `prev`.
pub open spec fn map_output_at<T, U, F: Fn(u64, &T) -> Option<U>>(
    f: F,
    e: u64,
    t: T,
    prev: Option<U>,
    delete_on_none: bool,
    out: Option<U>,
) -> bool {
    exists|o: Option<U>|
        #[trigger] call_ensures(f, (e, &t), o) && out == apply_result(o, prev, delete_on_none)
}

/// A shipyard-style view pair for one-to-one updates: the source's change
/// sets and the target storage the update writes.
pub struct UpdateOneToOne<T, U> {
    /// entities whose source component was inserted since the last reset,
    /// with the source value
    pub inserted: Vec<(u64, T)>,
    /// entities whose source component was modified since the last reset,
    /// with the source value
    pub modified: Vec<(u64, T)>,
    /// entities whose source component was removed or deleted
    pub removed: Vec<u64>,
    /// the target storage
    pub target: Storage<U>,
}

impl<T, U> UpdateOneToOne<T, U> {
    /// The change sets describe one tracked storage: an entity is inserted
    /// or modified, never both, and each at most once.
    pub open spec fn wf(self) -> bool {
        &&& self.target.wf()
        &&& distinct_keys(self.inserted@)
        &&& distinct_keys(self.modified@)
        &&& disjoint_keys(self.inserted@, self.modified@)
    }
}

/// The new target at entity `e` after a one-to-one update: removed entities
/// lose their component; inserted and modified entities carry a mapped
/// value, applied over the previous component; everything else is
/// untouched.
pub open spec fn one_to_one_result<T, U, F: Fn(u64, &T) -> Option<U>>(
    v: UpdateOneToOne<T, U>,
    f: F,
    delete_on_none: bool,
    r: Storage<U>,
    e: u64,
) -> bool {
    if v.removed@.contains(e) {
        r.spec_get(e) is None
    } else {
        match assoc_find(v.inserted@, e) {
            Some(t) => map_output_at(f, e, t, v.target.spec_get(e), delete_on_none, r.spec_get(e)),
            None => match assoc_find(v.modified@, e) {
                Some(t) => map_output_at(
                    f,
                    e,
                    t,
                    v.target.spec_get(e),
                    delete_on_none,
                    r.spec_get(e),
                ),
                None => r.spec_get(e) == v.target.spec_get(e),
            },
        }
    }
}

impl<T, U: PartialEq> UpdateOneToOne<T, U> {
    /// Assigns `update_fn`'s value for every inserted or modified source
    /// component and removes the target component of removed entities.
    pub fn update<F: Fn(u64, &T) -> U>(self, update_fn: F) -> (r: Storage<U>)
        requires
            self.wf(),
            eq_is_structural::<U>(),
            forall|e: u64, t: T| #[trigger] call_requires(update_fn, (e, &t)),
        ensures
            r.wf(),
            forall|e: u64|
                self.removed@.contains(e) ==> (#[trigger] r.spec_get(e)) is None,
            forall|e: u64|
                #![trigger r.spec_get(e)]
                !self.removed@.contains(e) ==> match assoc_find(self.inserted@, e) {
                    Some(t) => exists|u: U|
                        #[trigger] call_ensures(update_fn, (e, &t), u) && r.spec_get(e) == Some(u),
                    None => match assoc_find(self.modified@, e) {
                        Some(t) => exists|u: U|
                            #[trigger] call_ensures(update_fn, (e, &t), u) && r.spec_get(e)
                                == Some(u),
                        None => r.spec_get(e) == self.target.spec_get(e),
                    },
                },
    {
        let UpdateOneToOne { inserted, modified, removed, target } = self;
        let mut target = target;
        let ghost target0 = target;
        let n = inserted.len();
        let mut i: usize = 0;
        #[verifier::loop_isolation(false)]
        while i < n
            invariant
                0 <= i <= n,
                target.wf(),
                forall|e: u64|
                    #![trigger target.spec_get(e)]
                    match assoc_find(inserted@.take(i as int), e) {
                        Some(t) => exists|u: U|
                            #[trigger] call_ensures(update_fn, (e, &t), u) && target.spec_get(e)
                                == Some(u),
                        None => target.spec_get(e) == target0.spec_get(e),
                    },
            decreases n - i,
        {
            let e = inserted[i].0;
            let u = update_fn(e, &inserted[i].1);
            proof {
                lemma_take_step(inserted@, i as int);
            }
            target.insert(e, u);
            proof {
                lemma_find_in_take_unaffected(inserted@, i as int, e);
            }
            i += 1;
        }
        let ghost target1 = target;
        proof {
            assert(inserted@.take(n as int) =~= inserted@);
            assert forall|e: u64|
                #![trigger target1.spec_get(e)]
                match assoc_find(inserted@, e) {
                    Some(t) => exists|u: U|
                        #[trigger] call_ensures(update_fn, (e, &t), u) && target1.spec_get(e)
                            == Some(u),
                    None => target1.spec_get(e) == target0.spec_get(e),
                } by {
                assert(target.spec_get(e) == target1.spec_get(e));
                assert(assoc_find(inserted@.take(i as int), e) == assoc_find(inserted@, e));
            }
        }
        let m = modified.len();
        let mut k: usize = 0;
        #[verifier::loop_isolation(false)]
        while k < m
            invariant
                0 <= k <= m,
                target.wf(),
                forall|e: u64|
                    #![trigger target.spec_get(e)]
                    match assoc_find(modified@.take(k as int), e) {
                        Some(t) => exists|u: U|
                            #[trigger] call_ensures(update_fn, (e, &t), u) && target.spec_get(e)
                                == Some(u),
                        None => target.spec_get(e) == target1.spec_get(e),
                    },
            decreases m - k,
        {
            let e = modified[k].0;
            let u = update_fn(e, &modified[k].1);
            proof {
                lemma_take_step(modified@, k as int);
            }
            let mut must_write = true;
            match target.get(e) {
                Some(exist) => {
                    if exist.eq(&u) {
                        must_write = false;
                        proof {
                            assert(target.spec_get(e) == Some(u));
                        }
                    }
                },
                None => {},
            }
            if must_write {
                target.insert(e, u);
            }
            proof {
                lemma_find_in_take_unaffected(modified@, k as int, e);
            }
            k += 1;
        }
        let ghost target2 = target;
        proof {
            assert(modified@.take(m as int) =~= modified@);
            assert forall|e: u64|
                #![trigger target2.spec_get(e)]
                match assoc_find(modified@, e) {
                    Some(t) => exists|u: U|
                        #[trigger] call_ensures(update_fn, (e, &t), u) && target2.spec_get(e)
                            == Some(u),
                    None => target2.spec_get(e) == target1.spec_get(e),
                } by {
                assert(target.spec_get(e) == target2.spec_get(e));
                assert(assoc_find(modified@.take(k as int), e) == assoc_find(modified@, e));
            }
        }
        let nr = removed.len();
        let mut x: usize = 0;
        #[verifier::loop_isolation(false)]
        while x < nr
            invariant
                0 <= x <= nr,
                target.wf(),
                forall|e: u64|
                    removed@.take(x as int).contains(e) ==> #[trigger] target.spec_get(e) is None,
                forall|e: u64|
                    !removed@.take(x as int).contains(e) ==> #[trigger] target.spec_get(e)
                        == target2.spec_get(e),
            decreases nr - x,
        {
            let e = removed[x];
            target.delete(e);
            proof {
                assert forall|e2: u64| removed@.take(x as int + 1).contains(e2) implies #[trigger]
                    target.spec_get(e2) is None by {
                    if e2 != e {
                        assert(removed@.take(x as int).contains(e2)) by {
                            let j = choose|j: int|
                                0 <= j < x + 1 && (#[trigger] removed@.take(x as int + 1)[j])
                                    == e2;
                            assert(removed@.take(x as int)[j] == e2);
                        }
                    }
                }
                assert forall|e2: u64|
                    !removed@.take(x as int + 1).contains(e2) implies #[trigger] target.spec_get(
                    e2,
                ) == target2.spec_get(e2) by {
                    assert(e2 != e) by {
                        if e2 == e {
                            assert(removed@.take(x as int + 1)[x as int] == e);
                        }
                    }
                    assert(!removed@.take(x as int).contains(e2)) by {
                        if removed@.take(x as int).contains(e2) {
                            let j = choose|j: int|
                                0 <= j < x && (#[trigger] removed@.take(x as int)[j]) == e2;
                            assert(removed@.take(x as int + 1)[j] == e2);
                        }
                    }
                }
            }
            x += 1;
        }
        proof {
            assert(removed@.take(nr as int) =~= removed@);
            assert forall|e: u64|
                !removed@.contains(e) && assoc_find(inserted@, e) is None && assoc_find(
                    modified@,
                    e,
                ) is None implies #[trigger] target.spec_get(e) == target0.spec_get(e) by {
                assert(target1.spec_get(e) == target0.spec_get(e));
                assert(target2.spec_get(e) == target1.spec_get(e));
            }
            assert forall|e: u64|
                !removed@.contains(e) && assoc_find(inserted@, e) is Some implies assoc_find(
                modified@,
                e,
            ) is None && target2.spec_get(e) == target1.spec_get(e) by {
                lemma_disjoint_find(inserted@, modified@, e);
            }
        }
        target
    }
}

impl<T, U: PartialEq> UpdateOneToOne<T, U> {
    /// Like [`UpdateOneToOne::update`], but `update_fn` may decline an
    /// entity by returning no value: the target component is then left as
    /// it is.
    pub fn update_or_ignore<F: Fn(u64, &T) -> Option<U>>(self, update_fn: F) -> (r: Storage<U>)
        requires
            self.wf(),
            eq_is_structural::<U>(),
            forall|e: u64, t: T| #[trigger] call_requires(update_fn, (e, &t)),
        ensures
            r.wf(),
            forall|e: u64| #[trigger] one_to_one_result(self, update_fn, false, r, e),
    {
        self.apply_changes(update_fn, false)
    }

    /// Like [`UpdateOneToOne::update`], but `update_fn` may decline an
    /// entity by returning no value: the target component is then deleted.
    pub fn update_or_delete<F: Fn(u64, &T) -> Option<U>>(self, update_fn: F) -> (r: Storage<U>)
        requires
            self.wf(),
            eq_is_structural::<U>(),
            forall|e: u64, t: T| #[trigger] call_requires(update_fn, (e, &t)),
        ensures
            r.wf(),
            forall|e: u64| #[trigger] one_to_one_result(self, update_fn, true, r, e),
    {
        self.apply_changes(update_fn, true)
    }

    /// Walks inserted, then modified, then removed entities, applying the
    /// mapped value of each; a declined entity is ignored or deleted
    /// depending on `delete_on_none`.
    fn apply_changes<F: Fn(u64, &T) -> Option<U>>(self, update_fn: F, delete_on_none: bool) -> (r:
        Storage<U>)
        requires
            self.wf(),
            eq_is_structural::<U>(),
            forall|e: u64, t: T| #[trigger] call_requires(update_fn, (e, &t)),
        ensures
            r.wf(),
            forall|e: u64| #[trigger] one_to_one_result(self, update_fn, delete_on_none, r, e),
    {
        let UpdateOneToOne { inserted, modified, removed, target } = self;
        let mut target = target;
        let ghost target0 = target;
        let n = inserted.len();
        let mut i: usize = 0;
        #[verifier::loop_isolation(false)]
        while i < n
            invariant
                0 <= i <= n,
                target.wf(),
                forall|e: u64|
                    #![trigger target.spec_get(e)]
                    match assoc_find(inserted@.take(i as int), e) {
                        Some(t) => map_output_at(
                            update_fn,
                            e,
                            t,
                            target0.spec_get(e),
                            delete_on_none,
                            target.spec_get(e),
                        ),
                        None => target.spec_get(e) == target0.spec_get(e),
                    },
            decreases n - i,
        {
            let e = inserted[i].0;
            let o = update_fn(e, &inserted[i].1);
            proof {
                lemma_take_step(inserted@, i as int);
            }
            match o {
                Some(u) => {
                    target.insert(e, u);
                },
                None => {
                    if delete_on_none {
                        target.delete(e);
                    }
                },
            }
            proof {
                lemma_find_in_take_unaffected(inserted@, i as int, e);
            }
            i += 1;
        }
        let ghost target1 = target;
        proof {
            assert(inserted@.take(n as int) =~= inserted@);
            assert forall|e: u64|
                #![trigger target1.spec_get(e)]
                match assoc_find(inserted@, e) {
                    Some(t) => map_output_at(
                        update_fn,
                        e,
                        t,
                        target0.spec_get(e),
                        delete_on_none,
                        target1.spec_get(e),
                    ),
                    None => target1.spec_get(e) == target0.spec_get(e),
                } by {
                assert(target.spec_get(e) == target1.spec_get(e));
                assert(assoc_find(inserted@.take(i as int), e) == assoc_find(inserted@, e));
            }
        }
        let m = modified.len();
        let mut k: usize = 0;
        #[verifier::loop_isolation(false)]
        while k < m
            invariant
                0 <= k <= m,
                target.wf(),
                forall|e: u64|
                    #![trigger target.spec_get(e)]
                    match assoc_find(modified@.take(k as int), e) {
                        Some(t) => map_output_at(
                            update_fn,
                            e,
                            t,
                            target1.spec_get(e),
                            delete_on_none,
                            target.spec_get(e),
                        ),
                        None => target.spec_get(e) == target1.spec_get(e),
                    },
            decreases m - k,
        {
            let e = modified[k].0;
            let o = update_fn(e, &modified[k].1);
            proof {
                lemma_take_step(modified@, k as int);
            }
            match o {
                Some(u) => {
                    let mut must_write = true;
                    match target.get(e) {
                        Some(exist) => {
                            if exist.eq(&u) {
                                must_write = false;
                                proof {
                                    assert(target.spec_get(e) == Some(u));
                                }
                            }
                        },
                        None => {},
                    }
                    if must_write {
                        target.insert(e, u);
                    }
                },
                None => {
                    if delete_on_none {
                        target.delete(e);
                    }
                },
            }
            proof {
                lemma_find_in_take_unaffected(modified@, k as int, e);
            }
            k += 1;
        }
        let ghost target2 = target;
        proof {
            assert(modified@.take(m as int) =~= modified@);
            assert forall|e: u64|
                #![trigger target2.spec_get(e)]
                match assoc_find(modified@, e) {
                    Some(t) => map_output_at(
                        update_fn,
                        e,
                        t,
                        target1.spec_get(e),
                        delete_on_none,
                        target2.spec_get(e),
                    ),
                    None => target2.spec_get(e) == target1.spec_get(e),
                } by {
                assert(target.spec_get(e) == target2.spec_get(e));
                assert(assoc_find(modified@.take(k as int), e) == assoc_find(modified@, e));
            }
        }
        let nr = removed.len();
        let mut x: usize = 0;
        #[verifier::loop_isolation(false)]
        while x < nr
            invariant
                0 <= x <= nr,
                target.wf(),
                forall|e: u64|
                    removed@.take(x as int).contains(e) ==> #[trigger] target.spec_get(e) is None,
                forall|e: u64|
                    !removed@.take(x as int).contains(e) ==> #[trigger] target.spec_get(e)
                        == target2.spec_get(e),
            decreases nr - x,
        {
            let e = removed[x];
            target.delete(e);
            proof {
                assert forall|e2: u64| removed@.take(x as int + 1).contains(e2) implies #[trigger]
                    target.spec_get(e2) is None by {
                    if e2 != e {
                        assert(removed@.take(x as int).contains(e2)) by {
                            let j = choose|j: int|
                                0 <= j < x + 1 && (#[trigger] removed@.take(x as int + 1)[j])
                                    == e2;
                            assert(removed@.take(x as int)[j] == e2);
                        }
                    }
                }
                assert forall|e2: u64|
                    !removed@.take(x as int + 1).contains(e2) implies #[trigger] target.spec_get(
                    e2,
                ) == target2.spec_get(e2) by {
                    assert(e2 != e) by {
                        if e2 == e {
                            assert(removed@.take(x as int + 1)[x as int] == e);
                        }
                    }
                    assert(!removed@.take(x as int).contains(e2)) by {
                        if removed@.take(x as int).contains(e2) {
                            let j = choose|j: int|
                                0 <= j < x && (#[trigger] removed@.take(x as int)[j]) == e2;
                            assert(removed@.take(x as int + 1)[j] == e2);
                        }
                    }
                }
            }
            x += 1;
        }
        proof {
            assert(removed@.take(nr as int) =~= removed@);
            assert forall|e: u64| #[trigger]
                one_to_one_result(self, update_fn, delete_on_none, target, e) by {
                if removed@.contains(e) {
                } else {
                    assert(target.spec_get(e) == target2.spec_get(e));
                    match assoc_find(inserted@, e) {
                        Some(t) => {
                            lemma_disjoint_find(inserted@, modified@, e);
                            assert(target2.spec_get(e) == target1.spec_get(e));
                        },
                        None => {},
                    }
                }
            }
        }
        target
    }
}

/// Extending the processed prefix by one entry: the new entry's key was not
/// in the prefix, and lookups of other keys are unchanged.
pub(crate) proof fn lemma_take_step<T>(s: Seq<(u64, T)>, i: int)
    requires
        0 <= i < s.len(),
        distinct_keys(s),
    ensures
        assoc_find(s.take(i), s[i].0) is None,
        assoc_find(s.take(i + 1), s[i].0) == Some(s[i].1),
        forall|e: u64|
            e != s[i].0 ==> #[trigger] assoc_find(s.take(i + 1), e) == assoc_find(s.take(i), e),
{
    assert(forall|j: int| 0 <= j < i ==> (#[trigger] s.take(i)[j]).0 != s[i].0);
    crate::type_names::lemma_assoc_find_none(s.take(i), s[i].0);
    assert(s.take(i + 1) =~= s.take(i).push(s[i]));
    crate::type_names::lemma_assoc_find_push(s.take(i), s[i], s[i].0);
    assert forall|e: u64|
        e != s[i].0 implies #[trigger] assoc_find(s.take(i + 1), e) == assoc_find(
        s.take(i),
        e,
    ) by {
        crate::type_names::lemma_assoc_find_push(s.take(i), s[i], e);
    }
}

/// After writing the `i`-th entry's key, every key of the processed prefix
/// still maps as before except the written one.
pub(crate) proof fn lemma_find_in_take_unaffected<T>(s: Seq<(u64, T)>, i: int, e: u64)
    requires
        0 <= i < s.len(),
        distinct_keys(s),
        e == s[i].0,
    ensures
        forall|e2: u64|
            assoc_find(s.take(i), e2) is Some ==> e2 != e && #[trigger] assoc_find(
                s.take(i + 1),
                e2,
            ) == assoc_find(s.take(i), e2),
{
    assert forall|e2: u64| assoc_find(s.take(i), e2) is Some implies e2 != e && #[trigger]
        assoc_find(s.take(i + 1), e2) == assoc_find(s.take(i), e2) by {
        crate::type_names::lemma_assoc_find_some_has(s.take(i), e2);
        let j = choose|j: int| 0 <= j < i && (#[trigger] s.take(i)[j]).0 == e2;
        assert(s[j].0 == e2);
        assert(e2 != e);
        lemma_take_step(s, i);
    }
}

/// A key found in one of two disjoint change lists is absent from the
/// other.
pub(crate) proof fn lemma_disjoint_find<T>(a: Seq<(u64, T)>, b: Seq<(u64, T)>, e: u64)
    requires
        disjoint_keys(a, b),
        assoc_find(a, e) is Some,
    ensures
        assoc_find(b, e) is None,
{
    crate::type_names::lemma_assoc_find_some_has(a, e);
    let i = choose|i: int| 0 <= i < a.len() && (#[trigger] a[i]).0 == e;
    assert(forall|j: int| 0 <= j < b.len() ==> (#[trigger] b[j]).0 != e);
    crate::type_names::lemma_assoc_find_none(b, e);
}

} // verus!
