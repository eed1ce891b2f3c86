//! Opaque type identities and the registry of their display names.
//!
//! A [`TypeIdentity`] stands in for "the logical type itself": two identities
//! are equal exactly when they denote the same logical type. Callers assign
//! the underlying keys (an interned identifier chosen the first time a
//! logical type is named); the registry only attaches a human-readable name
//! to each identity for diagnostics, recorded once on first encounter.

use vstd::prelude::*;

verus! {

/// An opaque, equality-comparable token uniquely identifying a resource's
/// logical type (a unique value's type, a storage's component type, or a
/// plugin's own type).
#[derive(Clone, Copy, PartialEq, Eq, Structural, Hash, Debug)]
pub struct TypeIdentity {
    pub key: u64,
}

impl TypeIdentity {
    pub fn new(key: u64) -> (r: TypeIdentity)
        ensures
            r.key == key,
    {
        TypeIdentity { key }
    }
}

/// A type identity together with the display name under which it was
/// declared. Registration operations take a `TypeRef` so that every ledger
/// can report the human-readable name of the types it has seen.
#[derive(Debug)]
pub struct TypeRef {
    pub ident: TypeIdentity,
    pub name: String,
}

impl View for TypeRef {
    type V = (TypeIdentity, Seq<char>);

    open spec fn view(&self) -> (TypeIdentity, Seq<char>) {
        (self.ident, self.name@)
    }
}

impl TypeRef {
    pub fn new(key: u64, name: &str) -> (r: TypeRef)
        ensures
            r.ident.key == key,
            r.name@ == name@,
    {
        TypeRef { ident: TypeIdentity { key }, name: name.to_owned() }
    }
}

impl Clone for TypeRef {
    fn clone(&self) -> (r: Self)
        ensures
            r@ == self@,
    {
        TypeRef { ident: self.ident, name: self.name.clone() }
    }
}

/// Looks up the value associated with the first occurrence of `k` in an
/// association sequence, front to back.
pub open spec fn assoc_find<K, T>(s: Seq<(K, T)>, k: K) -> Option<T>
    decreases s.len(),
{
    if s.len() == 0 {
        None
    } else if s[0].0 == k {
        Some(s[0].1)
    } else {
        assoc_find(s.drop_first(), k)
    }
}

/// Whether `k` occurs as a key in an association sequence.
pub open spec fn assoc_has<K, T>(s: Seq<(K, T)>, k: K) -> bool {
    exists|i: int| 0 <= i < s.len() && (#[trigger] s[i]).0 == k
}

pub proof fn lemma_assoc_find_at<K, T>(s: Seq<(K, T)>, k: K, i: int)
    requires
        0 <= i < s.len(),
        s[i].0 == k,
        forall|j: int| 0 <= j < i ==> (#[trigger] s[j]).0 != k,
    ensures
        assoc_find(s, k) == Some(s[i].1),
    decreases i,
{
    if i == 0 {
    } else {
        assert(s.drop_first()[i - 1] == s[i]);
        assert(forall|j: int| 0 <= j < i - 1 ==> (#[trigger] s.drop_first()[j]).0 != k);
        lemma_assoc_find_at(s.drop_first(), k, i - 1);
    }
}

pub proof fn lemma_assoc_find_none<K, T>(s: Seq<(K, T)>, k: K)
    requires
        forall|j: int| 0 <= j < s.len() ==> (#[trigger] s[j]).0 != k,
    ensures
        assoc_find(s, k) is None,
    decreases s.len(),
{
    if s.len() > 0 {
        assert(forall|j: int| 0 <= j < s.len() - 1 ==> (#[trigger] s.drop_first()[j]).0 != k);
        lemma_assoc_find_none(s.drop_first(), k);
    }
}

pub proof fn lemma_assoc_find_some_has<K, T>(s: Seq<(K, T)>, k: K)
    ensures
        assoc_find(s, k) is Some ==> assoc_has(s, k),
        assoc_has(s, k) ==> assoc_find(s, k) is Some,
    decreases s.len(),
{
    if s.len() == 0 {
    } else if s[0].0 == k {
    } else {
        lemma_assoc_find_some_has(s.drop_first(), k);
        if assoc_find(s, k) is Some {
            let i = choose|i: int| 0 <= i < s.drop_first().len() && (#[trigger] s.drop_first()[i]).0
                == k;
            assert(s[i + 1] == s.drop_first()[i]);
        }
        if assoc_has(s, k) {
            let i = choose|i: int| 0 <= i < s.len() && (#[trigger] s[i]).0 == k;
            assert(s.drop_first()[i - 1] == s[i]);
        }
    }
}

pub proof fn lemma_assoc_find_push<K, T>(s: Seq<(K, T)>, p: (K, T), k: K)
    ensures
        assoc_find(s.push(p), k) == if assoc_find(s, k) is Some {
            assoc_find(s, k)
        } else if p.0 == k {
            Some(p.1)
        } else {
            None::<T>
        },
    decreases s.len(),
{
    let sp = s.push(p);
    if s.len() == 0 {
        assert(sp[0] == p);
        assert(sp.len() == 1);
        if p.0 == k {
            assert(assoc_find(sp, k) == Some(p.1));
        } else {
            assert(sp.drop_first() =~= Seq::<(K, T)>::empty());
            assert(assoc_find(sp, k) == assoc_find(sp.drop_first(), k));
            assert(assoc_find(sp.drop_first(), k) is None);
        }
    } else {
        assert(sp[0] == s[0]);
        lemma_assoc_find_push(s.drop_first(), p, k);
        if s[0].0 == k {
            assert(assoc_find(sp, k) == Some(s[0].1));
            assert(assoc_find(s, k) == Some(s[0].1));
        } else {
            assert(sp.drop_first() =~= s.drop_first().push(p));
            assert(assoc_find(sp, k) == assoc_find(sp.drop_first(), k));
            assert(assoc_find(s, k) == assoc_find(s.drop_first(), k));
        }
    }
}

/// Registry from type identity to the display name recorded on first
/// encounter. It only grows; there is no removal operation.
#[derive(Debug)]
pub struct TypeNames {
    names: Vec<(TypeIdentity, String)>,
}

impl View for TypeNames {
    type V = Seq<(TypeIdentity, Seq<char>)>;

    closed spec fn view(&self) -> Seq<(TypeIdentity, Seq<char>)> {
        self.names@.map_values(|p: (TypeIdentity, String)| (p.0, p.1@))
    }
}

impl TypeNames {
    /// The name this registry associates with `ty`, if any.
    pub open spec fn spec_lookup(self, ty: TypeIdentity) -> Option<Seq<char>> {
        assoc_find(self@, ty)
    }

    pub open spec fn wf(self) -> bool {
        forall|i: int, j: int|
            0 <= i < j < self@.len() ==> (#[trigger] self@[i]).0 != (#[trigger] self@[j]).0
    }

    pub fn new() -> (r: TypeNames)
        ensures
            r@ =~= Seq::<(TypeIdentity, Seq<char>)>::empty(),
            r.wf(),
    {
        TypeNames { names: Vec::new() }
    }

    /// Records `ty`'s display name if this is the first encounter, and hands
    /// the identity back. The recorded name of an identity never changes.
    pub fn tracked_type_id_of(&mut self, ty: &TypeRef) -> (r: TypeIdentity)
        requires
            old(self).wf(),
        ensures
            r == ty.ident,
            final(self).wf(),
            final(self)@ == spec_record(old(self)@, ty@),
            final(self).spec_lookup(ty.ident) is Some,
    {
        let n = self.names.len();
        let mut i: usize = 0;
        while i < n
            invariant
                n == self.names.len(),
                0 <= i <= n,
                *self == *old(self),
                self.wf(),
                forall|j: int| 0 <= j < i ==> (#[trigger] self@[j]).0 != ty.ident,
            decreases n - i,
        {
            if self.names[i].0.key == ty.ident.key {
                proof {
                    assert(self@[i as int].0 == ty.ident);
                    lemma_assoc_find_at(self@, ty.ident, i as int);
                }
                return ty.ident;
            }
            i += 1;
        }
        proof {
            lemma_assoc_find_none(self@, ty.ident);
        }
        self.names.push((ty.ident, ty.name.clone()));
        proof {
            assert(self@ =~= old(self)@.push((ty.ident, ty.name@)));
            lemma_assoc_find_at(self@, ty.ident, self@.len() - 1);
        }
        ty.ident
    }

    /// Diagnostic lookup of a recorded display name; identities never seen by
    /// [`TypeNames::tracked_type_id_of`] have none.
    pub fn lookup_name(&self, ty: &TypeIdentity) -> (r: Option<&String>)
        requires
            self.wf(),
        ensures
            match r {
                Some(name) => self.spec_lookup(*ty) == Some(name@),
                None => self.spec_lookup(*ty) is None,
            },
    {
        let n = self.names.len();
        let mut i: usize = 0;
        while i < n
            invariant
                n == self.names.len(),
                0 <= i <= n,
                forall|j: int| 0 <= j < i ==> (#[trigger] self@[j]).0 != *ty,
            decreases n - i,
        {
            if self.names[i].0.key == ty.key {
                proof {
                    assert(self@[i as int].0 == *ty);
                    lemma_assoc_find_at(self@, *ty, i as int);
                }
                return Some(&self.names[i].1);
            }
            i += 1;
        }
        proof {
            lemma_assoc_find_none(self@, *ty);
        }
        None
    }
}

/// What one registration step does to the registry: record the name on first
/// encounter, keep the registry unchanged otherwise.
pub open spec fn spec_record(
    names: Seq<(TypeIdentity, Seq<char>)>,
    ty: (TypeIdentity, Seq<char>),
) -> Seq<(TypeIdentity, Seq<char>)> {
    if assoc_find(names, ty.0) is Some {
        names
    } else {
        names.push(ty)
    }
}

} // verus!
