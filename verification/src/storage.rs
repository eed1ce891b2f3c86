//! A plain model of one component storage: entity identifier to component
//! value, with at most one component per entity. The world's storage engine
//! owns the real data; the update helpers in this crate compute over this
//! model, so their decisions are plain functions of plain values.

use vstd::prelude::*;

use crate::type_names::{assoc_find, lemma_assoc_find_at, lemma_assoc_find_none};

verus! {

/// A component storage: each entity (identified by a `u64`) holds at most
/// one component of type `U`.
#[derive(Debug)]
pub struct Storage<U> {
    entries: Vec<(u64, U)>,
}

impl<U> View for Storage<U> {
    type V = Seq<(u64, U)>;

    closed spec fn view(&self) -> Seq<(u64, U)> {
        self.entries@
    }
}

impl<U> Storage<U> {
    /// The component of entity `e`, if any.
    pub open spec fn spec_get(self, e: u64) -> Option<U> {
        assoc_find(self@, e)
    }

    /// Each entity occurs at most once.
    pub open spec fn wf(self) -> bool {
        forall|i: int, j: int|
            0 <= i < j < self@.len() ==> (#[trigger] self@[i]).0 != (#[trigger] self@[j]).0
    }

    pub fn new() -> (r: Storage<U>)
        ensures
            r.wf(),
            r@ =~= Seq::<(u64, U)>::empty(),
            forall|e: u64| #[trigger] r.spec_get(e) is None,
    {
        let r = Storage { entries: Vec::new() };
        proof {
            assert forall|e: u64| #[trigger] r.spec_get(e) is None by {
                lemma_assoc_find_none(r@, e);
            }
        }
        r
    }

    pub fn len(&self) -> (r: usize)
        ensures
            r == self@.len(),
    {
        self.entries.len()
    }

    /// Position of entity `e`, scanning front to back.
    fn find_index(&self, e: u64) -> (r: Option<usize>)
        ensures
            match r {
                Some(i) => i < self@.len() && self@[i as int].0 == e && self.spec_get(e) == Some(
                    self@[i as int].1,
                ),
                None => self.spec_get(e) is None,
            },
    {
        let n = self.entries.len();
        let mut i: usize = 0;
        while i < n
            invariant
                n == self@.len(),
                0 <= i <= n,
                forall|j: int| 0 <= j < i ==> (#[trigger] self@[j]).0 != e,
            decreases n - i,
        {
            if self.entries[i].0 == e {
                proof {
                    lemma_assoc_find_at(self@, e, i as int);
                }
                return Some(i);
            }
            i += 1;
        }
        proof {
            lemma_assoc_find_none(self@, e);
        }
        None
    }

    /// The component of entity `e`, if any.
    pub fn get(&self, e: u64) -> (r: Option<&U>)
        ensures
            match r {
                Some(u) => self.spec_get(e) == Some(*u),
                None => self.spec_get(e) is None,
            },
    {
        match self.find_index(e) {
            Some(i) => Some(&self.entries[i].1),
            None => None,
        }
    }

    pub fn contains(&self, e: u64) -> (r: bool)
        ensures
            r == (self.spec_get(e) is Some),
    {
        self.find_index(e).is_some()
    }

    /// Assigns entity `e`'s component, overwriting any previous value.
    pub fn insert(&mut self, e: u64, value: U)
        requires
            old(self).wf(),
        ensures
            final(self).wf(),
            final(self).spec_get(e) == Some(value),
            forall|x: u64| x != e ==> #[trigger] final(self).spec_get(x) == old(self).spec_get(x),
            final(self)@.len() <= old(self)@.len() + 1,
    {
        let ghost old_view = self@;
        match self.find_index(e) {
            Some(i) => {
                let _ = self.entries.remove(i);
                self.entries.insert(i, (e, value));
                proof {
                    assert(self@ =~= old_view.update(i as int, (e, value)));
                    lemma_assoc_find_at(self@, e, i as int);
                    assert forall|x: u64|
                        x != e implies #[trigger] final(self).spec_get(x) == old(self).spec_get(
                        x,
                    ) by {
                        lemma_get_after_update(old_view, i as int, (e, value), x);
                    }
                }
            },
            None => {
                self.entries.push((e, value));
                proof {
                    crate::type_names::lemma_assoc_find_some_has(old_view, e);
                    assert(!crate::type_names::assoc_has(old_view, e));
                    assert forall|j: int| 0 <= j < old_view.len() implies (#[trigger] old_view[j]).0
                        != e by {
                        if old_view[j].0 == e {
                            assert(crate::type_names::assoc_has(old_view, e));
                        }
                    }
                    lemma_assoc_find_at(self@, e, self@.len() - 1);
                    assert forall|x: u64|
                        x != e implies #[trigger] final(self).spec_get(x) == old(self).spec_get(
                        x,
                    ) by {
                        crate::type_names::lemma_assoc_find_push(old_view, (e, value), x);
                    }
                }
            },
        }
    }

    /// Removes entity `e`'s component, if present.
    pub fn delete(&mut self, e: u64)
        requires
            old(self).wf(),
        ensures
            final(self).wf(),
            final(self).spec_get(e) is None,
            forall|x: u64| x != e ==> #[trigger] final(self).spec_get(x) == old(self).spec_get(x),
    {
        let ghost old_view = self@;
        match self.find_index(e) {
            Some(i) => {
                let _ = self.entries.remove(i);
                proof {
                    assert(self@ =~= old_view.remove(i as int));
                    assert forall|x: u64| #[trigger]
                        final(self).spec_get(x) == (if x == e {
                            None::<U>
                        } else {
                            assoc_find(old_view, x)
                        }) by {
                        lemma_get_after_remove(old_view, i as int, x);
                    }
                }
            },
            None => {},
        }
    }

    /// The entries as stored, in insertion order.
    pub fn entries(&self) -> (r: &Vec<(u64, U)>)
        ensures
            r@ == self@,
    {
        &self.entries
    }
}

/// Updating one entry changes only that entity's component, provided the
/// keys are distinct and the key is kept.
proof fn lemma_get_after_update<U>(s: Seq<(u64, U)>, i: int, p: (u64, U), x: u64)
    requires
        0 <= i < s.len(),
        s[i].0 == p.0,
        forall|a: int, b: int| 0 <= a < b < s.len() ==> (#[trigger] s[a]).0 != (#[trigger] s[b]).0,
        x != p.0,
    ensures
        assoc_find(s.update(i, p), x) == assoc_find(s, x),
{
    let s2 = s.update(i, p);
    assert(forall|j: int| 0 <= j < s2.len() ==> (#[trigger] s2[j]).0 == (if j == i {
        p.0
    } else {
        s[j].0
    }));
    if exists|j: int| 0 <= j < s.len() && (#[trigger] s[j]).0 == x {
        let j = choose|j: int| 0 <= j < s.len() && (#[trigger] s[j]).0 == x;
        assert(j != i);
        assert(forall|a: int| 0 <= a < j ==> (#[trigger] s[a]).0 != x);
        lemma_assoc_find_at(s, x, j);
        assert(s2[j].0 == x);
        assert(forall|a: int| 0 <= a < j ==> (#[trigger] s2[a]).0 != x);
        lemma_assoc_find_at(s2, x, j);
        assert(s2[j].1 == s[j].1);
    } else {
        assert(forall|j: int| 0 <= j < s.len() ==> (#[trigger] s[j]).0 != x);
        assert(forall|j: int| 0 <= j < s2.len() ==> (#[trigger] s2[j]).0 != x);
        lemma_assoc_find_none(s, x);
        lemma_assoc_find_none(s2, x);
    }
}

/// Removing one entry removes only that entity's component, provided the
/// keys are distinct.
proof fn lemma_get_after_remove<U>(s: Seq<(u64, U)>, i: int, x: u64)
    requires
        0 <= i < s.len(),
        forall|a: int, b: int| 0 <= a < b < s.len() ==> (#[trigger] s[a]).0 != (#[trigger] s[b]).0,
    ensures
        assoc_find(s.remove(i), x) == (if x == s[i].0 {
            None::<U>
        } else {
            assoc_find(s, x)
        }),
{
    let s2 = s.remove(i);
    assert(forall|j: int|
        0 <= j < s2.len() ==> #[trigger] s2[j] == (if j < i {
            s[j]
        } else {
            s[j + 1]
        }));
    if x == s[i].0 {
        assert(forall|j: int| 0 <= j < s2.len() ==> (#[trigger] s2[j]).0 != x);
        lemma_assoc_find_none(s2, x);
    } else if exists|j: int| 0 <= j < s.len() && (#[trigger] s[j]).0 == x {
        let j = choose|j: int| 0 <= j < s.len() && (#[trigger] s[j]).0 == x;
        assert(forall|a: int| 0 <= a < j ==> (#[trigger] s[a]).0 != x);
        lemma_assoc_find_at(s, x, j);
        if j < i {
            assert(s2[j].0 == x);
            assert(forall|a: int| 0 <= a < j ==> (#[trigger] s2[a]).0 != x);
            lemma_assoc_find_at(s2, x, j);
        } else {
            assert(j != i);
            assert(s2[j - 1].0 == x);
            assert(forall|a: int| 0 <= a < j - 1 ==> (#[trigger] s2[a]).0 != x);
            lemma_assoc_find_at(s2, x, j - 1);
        }
    } else {
        assert(forall|j: int| 0 <= j < s.len() ==> (#[trigger] s[j]).0 != x);
        assert(forall|j: int| 0 <= j < s2.len() ==> (#[trigger] s2[j]).0 != x);
        lemma_assoc_find_none(s, x);
        lemma_assoc_find_none(s2, x);
    }
}

} // verus!
