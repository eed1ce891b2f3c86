//! The nesting path of the plugin currently being built.
//!
//! A [`PluginId`] is the ordered sequence of plugin type identities from the
//! outermost registered plugin down to the one currently building (displayed
//! as path segments joined by `>`). It is the "owner" attached to every claim
//! a plugin makes. Two plugin identities are equal exactly when their
//! sequences are equal element-wise.

use vstd::prelude::*;

use crate::type_names::{TypeIdentity, TypeNames};

verus! {

/// The identity path of the currently building plugin; mutated only by
/// [`PluginId::push`] when entering a nested plugin's build and
/// [`PluginId::pop`] when leaving it.
#[derive(Debug)]
pub struct PluginId {
    path: Vec<TypeIdentity>,
}

impl View for PluginId {
    type V = Seq<TypeIdentity>;

    closed spec fn view(&self) -> Seq<TypeIdentity> {
        self.path@
    }
}

impl Clone for PluginId {
    fn clone(&self) -> (r: Self)
        ensures
            r@ == self@,
    {
        let mut path: Vec<TypeIdentity> = Vec::new();
        let n = self.path.len();
        let mut i: usize = 0;
        while i < n
            invariant
                n == self.path.len(),
                0 <= i <= n,
                path@ == self.path@.take(i as int),
            decreases n - i,
        {
            path.push(self.path[i]);
            proof {
                assert(path@ =~= self.path@.take(i + 1));
            }
            i += 1;
        }
        proof {
            assert(self.path@.take(n as int) =~= self.path@);
        }
        PluginId { path }
    }
}

impl PartialEq for PluginId {
    fn eq(&self, other: &Self) -> (r: bool) {
        let n = self.path.len();
        if n != other.path.len() {
            proof {
                assert(self@ != other@) by {
                    assert(self@.len() != other@.len());
                }
            }
            return false;
        }
        let mut i: usize = 0;
        while i < n
            invariant
                n == self.path.len(),
                n == other.path.len(),
                0 <= i <= n,
                forall|j: int| 0 <= j < i ==> self@[j] == other@[j],
            decreases n - i,
        {
            if self.path[i].key != other.path[i].key {
                return false;
            }
            i += 1;
        }
        proof {
            assert(self@ =~= other@);
        }
        true
    }
}

impl Eq for PluginId {}

impl vstd::std_specs::cmp::PartialEqSpecImpl for PluginId {
    open spec fn obeys_eq_spec() -> bool {
        true
    }

    open spec fn eq_spec(&self, other: &Self) -> bool {
        self@ == other@
    }
}

impl PluginId {
    pub fn new() -> (r: PluginId)
        ensures
            r@ =~= Seq::<TypeIdentity>::empty(),
    {
        PluginId { path: Vec::new() }
    }

    /// Appends the identity of the plugin whose build is being entered.
    pub fn push(&mut self, ty: TypeIdentity)
        ensures
            final(self)@ == old(self)@.push(ty),
    {
        self.path.push(ty);
    }

    /// Removes the identity of the plugin whose build has finished; always
    /// paired with a preceding [`PluginId::push`] so the path is restored
    /// even when a nested build aborts the composition.
    pub fn pop(&mut self)
        requires
            old(self)@.len() > 0,
        ensures
            final(self)@ == old(self)@.drop_last(),
    {
        let _ = self.path.pop();
    }

    /// Whether `ty` already occurs on the path; used to detect a plugin
    /// nesting into itself before its own build has finished.
    pub fn contains(&self, ty: TypeIdentity) -> (r: bool)
        ensures
            r == self@.contains(ty),
    {
        let n = self.path.len();
        let mut i: usize = 0;
        while i < n
            invariant
                n == self.path.len(),
                0 <= i <= n,
                forall|j: int| 0 <= j < i ==> self@[j] != ty,
            decreases n - i,
        {
            if self.path[i].key == ty.key {
                proof {
                    assert(self@[i as int] == ty);
                }
                return true;
            }
            i += 1;
        }
        false
    }

    pub fn len(&self) -> (r: usize)
        ensures
            r == self@.len(),
    {
        self.path.len()
    }

    /// The path rendered for diagnostics: segment names looked up in the
    /// registry, joined by `>`; identities without a recorded name render as
    /// an empty segment.
    pub fn path_string(&self, names: &TypeNames) -> (r: String)
        requires
            names.wf(),
        ensures
            r@ == spec_path_string(self@, *names),
    {
        let mut out = String::new();
        let n = self.path.len();
        let mut i: usize = 0;
        proof {
            assert(self@.take(0) =~= Seq::<TypeIdentity>::empty());
        }
        #[verifier::loop_isolation(false)]
        while i < n
            invariant
                0 <= i <= n,
                out@ == spec_path_string(self@.take(i as int), *names),
            decreases n - i,
        {
            proof {
                assert(self@.take(i as int + 1).drop_last() =~= self@.take(i as int));
                assert(self@.take(i as int + 1).last() == self@[i as int]);
            }
            if i > 0 {
                out = out.concat(">");
            }
            match names.lookup_name(&self.path[i]) {
                Some(name) => {
                    out = out.concat(name.as_str());
                },
                None => {
                    proof {
                        assert(out@ + spec_segment(self@[i as int], *names) =~= out@);
                    }
                },
            }
            i += 1;
        }
        proof {
            assert(self@.take(n as int) =~= self@);
        }
        out
    }
}

/// One rendered path segment: the identity's recorded name, or nothing.
pub open spec fn spec_segment(ty: TypeIdentity, names: TypeNames) -> Seq<char> {
    match names.spec_lookup(ty) {
        Some(name) => name,
        None => Seq::empty(),
    }
}

/// A rendered identity path: the segments in order, joined by `>`.
pub open spec fn spec_path_string(ids: Seq<TypeIdentity>, names: TypeNames) -> Seq<char>
    decreases ids.len(),
{
    if ids.len() == 0 {
        Seq::empty()
    } else if ids.len() == 1 {
        spec_segment(ids[0], names)
    } else {
        spec_path_string(ids.drop_last(), names) + ">"@ + spec_segment(ids.last(), names)
    }
}

} // verus!
