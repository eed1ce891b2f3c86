//! The generic association ledger: a multi-map from a resource's type
//! identity to the ordered list of claims made against it.
//!
//! One ledger shape backs several distinct relations (who provides a unique
//! value, who depends on one, who exclusively tracks a storage), because
//! their validation rules are structurally identical: "claimed by more than
//! one owner" and "claimed by zero owners". The "was this the first claim"
//! signal is explicit in [`AssociateResult`] so callers can perform one-time
//! side effects exactly once. A ledger never errors: a type with zero claims
//! simply has no entry.

use vstd::prelude::*;

use crate::plugin_id::PluginId;
use crate::type_names::{TypeIdentity, TypeRef};

verus! {

/// Mathematical model of one recorded claim: the owning plugin identity path
/// and the human-readable reason given for the claim.
pub struct ClaimModel {
    pub owner: Seq<TypeIdentity>,
    pub reason: Seq<char>,
}

/// One recorded claim: which plugin identity claimed, and why. Immutable
/// once recorded.
#[derive(Debug)]
pub struct PluginAssociated {
    pub plugin: PluginId,
    pub reason: String,
}

impl View for PluginAssociated {
    type V = ClaimModel;

    open spec fn view(&self) -> ClaimModel {
        ClaimModel { owner: self.plugin@, reason: self.reason@ }
    }
}

impl Clone for PluginAssociated {
    fn clone(&self) -> (r: Self)
        ensures
            r@ == self@,
    {
        PluginAssociated { plugin: self.plugin.clone(), reason: self.reason.clone() }
    }
}

/// Whether a claim was the first ever recorded for its type in this ledger,
/// or the `n`-th (counting from 1).
#[derive(Clone, Copy, PartialEq, Eq, Structural, Debug)]
pub enum AssociateResult {
    First,
    Nth(usize),
}

impl AssociateResult {
    pub fn is_first(&self) -> (r: bool)
        ensures
            r == (*self == AssociateResult::First),
    {
        match self {
            AssociateResult::First => true,
            AssociateResult::Nth(_) => false,
        }
    }
}

/// One ledger entry in the mathematical model: the claimed type's identity,
/// its display name, and the claims in the order they were recorded.
pub type BucketModel<X> = (TypeIdentity, Seq<char>, Seq<X>);

/// A claim list viewed mathematically.
pub open spec fn claims_view(s: Seq<PluginAssociated>) -> Seq<ClaimModel> {
    s.map_values(|a: PluginAssociated| a@)
}

/// A ledger entry list viewed mathematically.
pub open spec fn entries_view(s: Seq<(TypeIdentity, String, Vec<PluginAssociated>)>) -> Seq<
    BucketModel<ClaimModel>,
> {
    s.map_values(
        |e: (TypeIdentity, String, Vec<PluginAssociated>)| (e.0, e.1@, claims_view(e.2@)),
    )
}

/// Copies a claim list, preserving its mathematical content.
pub fn clone_claims(v: &Vec<PluginAssociated>) -> (r: Vec<PluginAssociated>)
    ensures
        claims_view(r@) == claims_view(v@),
{
    let mut r: Vec<PluginAssociated> = Vec::new();
    let n = v.len();
    let mut i: usize = 0;
    while i < n
        invariant
            n == v.len(),
            0 <= i <= n,
            r@.len() == i,
            forall|j: int| 0 <= j < i ==> (#[trigger] r@[j])@ == v@[j]@,
        decreases n - i,
    {
        r.push(v[i].clone());
        i += 1;
    }
    proof {
        assert(claims_view(r@) =~= claims_view(v@));
    }
    r
}

/// Whether the ledger has an entry for `ty`.
pub open spec fn buckets_has<X>(b: Seq<BucketModel<X>>, ty: TypeIdentity) -> bool {
    exists|i: int| 0 <= i < b.len() && (#[trigger] b[i]).0 == ty
}

/// The index of `ty`'s entry (meaningful only when the keys are distinct and
/// `buckets_has(b, ty)` holds).
pub open spec fn key_index<X>(b: Seq<BucketModel<X>>, ty: TypeIdentity) -> int {
    choose|i: int| 0 <= i < b.len() && (#[trigger] b[i]).0 == ty
}

/// The claims recorded for `ty`, empty when `ty` was never claimed.
pub open spec fn buckets_claims<X>(b: Seq<BucketModel<X>>, ty: TypeIdentity) -> Seq<X> {
    if buckets_has(b, ty) {
        b[key_index(b, ty)].2
    } else {
        Seq::empty()
    }
}

/// What recording one claim does to the ledger model: append to `ty`'s entry
/// if present, otherwise add a new entry at the end holding this one claim.
pub open spec fn buckets_assoc<X>(
    b: Seq<BucketModel<X>>,
    ty: TypeIdentity,
    name: Seq<char>,
    claim: X,
) -> Seq<BucketModel<X>> {
    if buckets_has(b, ty) {
        let i = key_index(b, ty);
        b.update(i, (b[i].0, b[i].1, b[i].2.push(claim)))
    } else {
        b.push((ty, name, seq![claim]))
    }
}

/// Distinct keys, and no entry without at least one claim.
pub open spec fn buckets_wf<X>(b: Seq<BucketModel<X>>) -> bool {
    &&& forall|i: int, j: int| 0 <= i < j < b.len() ==> (#[trigger] b[i]).0 != (#[trigger] b[j]).0
    &&& forall|i: int| 0 <= i < b.len() ==> (#[trigger] b[i]).2.len() >= 1
}

pub proof fn lemma_buckets_assoc_wf<X>(
    b: Seq<BucketModel<X>>,
    ty: TypeIdentity,
    name: Seq<char>,
    claim: X,
)
    requires
        buckets_wf(b),
    ensures
        buckets_wf(buckets_assoc(b, ty, name, claim)),
        buckets_claims(buckets_assoc(b, ty, name, claim), ty) == buckets_claims(b, ty).push(claim),
        forall|other: TypeIdentity|
            other != ty ==> buckets_claims(buckets_assoc(b, ty, name, claim), other)
                == buckets_claims(b, other),
        forall|other: TypeIdentity|
            #[trigger] buckets_has(buckets_assoc(b, ty, name, claim), other) <==> (buckets_has(
                b,
                other,
            ) || other == ty),
{
    let b2 = buckets_assoc(b, ty, name, claim);
    if buckets_has(b, ty) {
        let i = key_index(b, ty);
        assert(forall|other: TypeIdentity| #[trigger]
            buckets_has(b2, other) ==> buckets_has(b, other)) by {
            assert forall|other: TypeIdentity| #[trigger] buckets_has(b2, other) implies buckets_has(
                b,
                other,
            ) by {
                let j = choose|j: int| 0 <= j < b2.len() && (#[trigger] b2[j]).0 == other;
                assert(b[j].0 == other);
            }
        }
        assert forall|other: TypeIdentity| #[trigger]
            buckets_has(b, other) implies buckets_has(b2, other) by {
            let j = choose|j: int| 0 <= j < b.len() && (#[trigger] b[j]).0 == other;
            assert(b2[j].0 == other);
        }
        assert(buckets_has(b2, ty)) by {
            assert(b2[i].0 == ty);
        }
        assert(key_index(b2, ty) == i) by {
            let k = key_index(b2, ty);
            assert(b2[k].0 == ty);
            if k != i {
                assert(b[k].0 == ty);
            }
        }
        assert forall|other: TypeIdentity|
            other != ty implies buckets_claims(b2, other) == buckets_claims(b, other) by {
            if buckets_has(b, other) {
                let k = key_index(b, other);
                assert(k != i);
                assert(b2[k] == b[k]);
                assert(key_index(b2, other) == k) by {
                    let k2 = key_index(b2, other);
                    assert(b2[k2].0 == other);
                    if k2 != k {
                        if k2 == i {
                            assert(b2[i].0 == ty);
                        } else {
                            assert(b[k2].0 == other);
                        }
                    }
                }
            }
        }
    } else {
        assert(forall|j: int| 0 <= j < b.len() ==> (#[trigger] b[j]).0 != ty);
        assert(b2[b.len() as int].0 == ty);
        assert(buckets_has(b2, ty));
        assert forall|other: TypeIdentity| #[trigger]
            buckets_has(b2, other) implies (buckets_has(b, other) || other == ty) by {
            let j = choose|j: int| 0 <= j < b2.len() && (#[trigger] b2[j]).0 == other;
            if j < b.len() {
                assert(b[j].0 == other);
            }
        }
        assert forall|other: TypeIdentity| #[trigger]
            buckets_has(b, other) implies buckets_has(b2, other) by {
            let j = choose|j: int| 0 <= j < b.len() && (#[trigger] b[j]).0 == other;
            assert(b2[j].0 == other);
        }
        assert(key_index(b2, ty) == b.len()) by {
            let k = key_index(b2, ty);
            assert(b2[k].0 == ty);
            if k < b.len() {
                assert(b[k] == b2[k]);
            }
        }
        assert(buckets_claims(b2, ty) =~= buckets_claims(b, ty).push(claim));
        assert forall|other: TypeIdentity|
            other != ty implies buckets_claims(b2, other) == buckets_claims(b, other) by {
            assert forall|j: int| 0 <= j < b2.len() && (#[trigger] b2[j]).0 == other implies j
                < b.len() by {
                if j == b.len() {
                    assert(b2[j].0 == ty);
                }
            }
            if buckets_has(b2, other) {
                let k = key_index(b2, other);
                assert(b[k].0 == other);
                assert(buckets_has(b, other));
            }
            if buckets_has(b, other) {
                let k = key_index(b, other);
                assert(b2[k].0 == other);
                assert(buckets_has(b2, other));
                assert(key_index(b2, other) < b.len());
                assert(b2[key_index(b2, other)] == b[key_index(b2, other)]);
                assert(key_index(b, other) == key_index(b2, other)) by {
                    let k1 = key_index(b, other);
                    let k2 = key_index(b2, other);
                    assert(b[k1].0 == other);
                    assert(b[k2].0 == other);
                }
            }
        }
    }
}

/// A parametric associative-claims ledger: type identity to ordered claims of
/// type `V`, instantiated once per relation the builder and the cycle
/// validator track.
#[derive(Debug)]
pub struct TypeIdBuckets<V: View> {
    name: String,
    buckets: Vec<(TypeIdentity, String, Vec<V>)>,
}

impl<V: View> View for TypeIdBuckets<V> {
    type V = Seq<BucketModel<<V as View>::V>>;

    closed spec fn view(&self) -> Seq<BucketModel<<V as View>::V>> {
        self.buckets@.map_values(
            |e: (TypeIdentity, String, Vec<V>)| (e.0, e.1@, e.2@.map_values(|v: V| v@)),
        )
    }
}

impl<V: View> TypeIdBuckets<V> {
    pub open spec fn wf(self) -> bool {
        buckets_wf(self@)
    }

    /// The display name of the relation this ledger records (diagnostics
    /// only).
    pub closed spec fn spec_name(self) -> Seq<char> {
        self.name@
    }

    pub fn new(name: &str) -> (r: TypeIdBuckets<V>)
        ensures
            r@ =~= Seq::<BucketModel<<V as View>::V>>::empty(),
            r.wf(),
            r.spec_name() == name@,
    {
        TypeIdBuckets { name: name.to_owned(), buckets: Vec::new() }
    }

    /// Appends a claim to the list for `ty`, and reports whether it was the
    /// first-ever claim for `ty` in this ledger or the `n`-th.
    pub fn associate(&mut self, ty: &TypeRef, value: V) -> (r: AssociateResult)
        requires
            old(self).wf(),
        ensures
            final(self).wf(),
            final(self).spec_name() == old(self).spec_name(),
            final(self)@ == buckets_assoc(old(self)@, ty.ident, ty.name@, value@),
            r == AssociateResult::First <==> !buckets_has(old(self)@, ty.ident),
            r matches AssociateResult::Nth(n) ==> n == buckets_claims(final(self)@, ty.ident).len(),
    {
        let n = self.buckets.len();
        let mut i: usize = 0;
        while i < n
            invariant
                n == self.buckets.len(),
                0 <= i <= n,
                *self == *old(self),
                old(self).wf(),
                forall|j: int| 0 <= j < i ==> (#[trigger] self@[j]).0 != ty.ident,
            decreases n - i,
        {
            if self.buckets[i].0.key == ty.ident.key {
                proof {
                    assert(self@[i as int].0 == ty.ident);
                    assert(buckets_has(self@, ty.ident));
                    assert(key_index(self@, ty.ident) == i) by {
                        let k = key_index(self@, ty.ident);
                        assert(self@[k].0 == ty.ident);
                    }
                }
                proof {
                    lemma_buckets_assoc_wf(old(self)@, ty.ident, ty.name@, value@);
                }
                let ghost old_buckets = self.buckets@;
                let (ety, ename, mut eclaims) = self.buckets.remove(i);
                eclaims.push(value);
                let new_count = eclaims.len();
                proof {
                    assert(eclaims@ =~= old_buckets[i as int].2@.push(value));
                }
                let ghost eclaims_snap = eclaims@;
                self.buckets.insert(i, (ety, ename, eclaims));
                proof {
                    assert(self.buckets@ =~= old_buckets.update(
                        i as int,
                        (old_buckets[i as int].0, old_buckets[i as int].1, self.buckets@[i as int].2),
                    ));
                    let b2 = buckets_assoc(old(self)@, ty.ident, ty.name@, value@);
                    assert forall|j: int| 0 <= j < self@.len() implies self@[j] == b2[j] by {
                        if j == i {
                            assert(self.buckets@[j].2@ == eclaims_snap);
                            assert(self.buckets@[j].2@.map_values(|v: V| v@)
                                =~= old_buckets[j].2@.map_values(|v: V| v@).push(value@));
                        } else {
                            assert(self.buckets@[j] == old_buckets[j]);
                        }
                    }
                    assert(self@ =~= b2);
                    assert(buckets_claims(old(self)@, ty.ident) == old(self)@[i as int].2);
                    assert(buckets_claims(self@, ty.ident).len() == old_buckets[i as int].2@.len()
                        + 1);
                }
                return AssociateResult::Nth(new_count);
            }
            i += 1;
        }
        self.buckets.push((ty.ident, ty.name.clone(), vec![value]));
        proof {
            lemma_buckets_assoc_wf(old(self)@, ty.ident, ty.name@, value@);
            assert(!buckets_has(old(self)@, ty.ident));
            let b2 = buckets_assoc(old(self)@, ty.ident, ty.name@, value@);
            assert forall|j: int| 0 <= j < self@.len() implies self@[j] == b2[j] by {
                if j == old(self)@.len() {
                    assert(self.buckets@[j].2@ =~= seq![value]);
                    assert(self.buckets@[j].2@.map_values(|v: V| v@) =~= seq![value@]);
                } else {
                    assert(self.buckets@[j] == old(self).buckets@[j]);
                }
            }
            assert(self@ =~= b2);
        }
        AssociateResult::First
    }

    /// Whether any claim has been recorded for `ty`.
    pub fn has(&self, ty: TypeIdentity) -> (r: bool)
        ensures
            r == buckets_has(self@, ty),
    {
        let n = self.buckets.len();
        let mut i: usize = 0;
        while i < n
            invariant
                n == self.buckets.len(),
                0 <= i <= n,
                forall|j: int| 0 <= j < i ==> (#[trigger] self@[j]).0 != ty,
            decreases n - i,
        {
            if self.buckets[i].0.key == ty.key {
                proof {
                    assert(self@[i as int].0 == ty);
                }
                return true;
            }
            i += 1;
        }
        false
    }

    /// The recorded entries, in the order the types were first claimed. Each
    /// entry pairs the type's identity and display name with its claims in
    /// recording order.
    pub fn entries(&self) -> (r: &Vec<(TypeIdentity, String, Vec<V>)>)
        ensures
            r@.len() == self@.len(),
            forall|i: int|
                0 <= i < r@.len() ==> #[trigger] self@[i] == (
                    r@[i].0,
                    r@[i].1@,
                    r@[i].2@.map_values(|v: V| v@),
                ),
    {
        &self.buckets
    }
}

} // verus!
