//! A small change tracker to wrap around a unique value, so systems can ask
//! whether the value changed since the tracking was last reset.

use vstd::prelude::*;

use crate::plugin::{Plugin, PluginDef, PluginOp};
use crate::type_names::TypeRef;

verus! {

enum InnerTrackedState {
    New,
    Modified,
    NoChanges,
}

/// A unique value together with its change-tracking state. A fresh value is
/// `New`; writing marks it `Modified`; the scheduled reset at the end of
/// every execution returns it to `NoChanges`, so "new or modified" is
/// always scoped to one execution.
pub struct TrackedValue<T> {
    state: InnerTrackedState,
    value: T,
}

impl<T> TrackedValue<T> {
    /// The wrapped value.
    pub closed spec fn spec_value(self) -> T {
        self.value
    }

    /// Whether the value was created or written since the last reset.
    pub closed spec fn spec_is_new_or_modified(self) -> bool {
        !(self.state is NoChanges)
    }

    pub fn new(value: T) -> (r: TrackedValue<T>)
        ensures
            r.spec_value() == value,
            r.spec_is_new_or_modified(),
    {
        TrackedValue { state: InnerTrackedState::New, value }
    }

    /// Clears the change flag; the value itself is kept.
    pub fn reset_tracking(&mut self)
        ensures
            final(self).spec_value() == old(self).spec_value(),
            !final(self).spec_is_new_or_modified(),
    {
        self.state = InnerTrackedState::NoChanges;
    }

    pub fn is_new_or_modified(&self) -> (r: bool)
        ensures
            r == self.spec_is_new_or_modified(),
    {
        match self.state {
            InnerTrackedState::NoChanges => false,
            _ => true,
        }
    }

    /// Reads the value without touching the change flag.
    pub fn get(&self) -> (r: &T)
        ensures
            *r == self.spec_value(),
    {
        &self.value
    }

    /// Writes the value, marking it modified.
    pub fn set(&mut self, value: T)
        ensures
            final(self).spec_value() == value,
            final(self).spec_is_new_or_modified(),
    {
        self.state = InnerTrackedState::Modified;
        self.value = value;
    }
}

/// The reset scheduled for every tracked unique value: clears its change
/// flag at the end of one execution of the unit of work.
pub fn reset_tracked_unique<T>(uvm_tracked_unique_t: &mut TrackedValue<T>)
    ensures
        final(uvm_tracked_unique_t).spec_value() == old(uvm_tracked_unique_t).spec_value(),
        !final(uvm_tracked_unique_t).spec_is_new_or_modified(),
{
    uvm_tracked_unique_t.reset_tracking();
}

/// Provides a unique value of type `T` wrapped in a [`TrackedValue`], claims
/// exclusive tracking of it, and thereby schedules the tracking reset at the
/// end of every execution.
pub struct TrackedUniquePlugin<T> {
    plugin_ty: TypeRef,
    value_ty: TypeRef,
    initial: T,
}

impl<T> TrackedUniquePlugin<T> {
    /// `plugin_ty` is this plugin's own type identity; `value_ty` is the
    /// identity of the tracked unique value it provides.
    pub fn new(plugin_ty: TypeRef, value_ty: TypeRef, initial_value: T) -> (r: TrackedUniquePlugin<
        T,
    >)
        ensures
            r.spec_initial_value() == initial_value,
    {
        TrackedUniquePlugin { plugin_ty, value_ty, initial: initial_value }
    }

    /// The value the world should install when this plugin's unit is set up.
    pub fn initial_value(&self) -> (r: &T)
        ensures
            *r == self.spec_initial_value(),
    {
        &self.initial
    }

    /// The value the world should install, as an abstract accessor.
    pub closed spec fn spec_initial_value(self) -> T {
        self.initial
    }
}

impl<T> Plugin for TrackedUniquePlugin<T> {
    fn build(&self) -> PluginDef {
        let mut def = PluginDef::new(self.plugin_ty.clone());
        def.op(PluginOp::AddUnique { ty: self.value_ty.clone() });
        def.op(
            PluginOp::Tracks { ty: self.value_ty.clone(), reason: "tracked unique".to_owned() },
        );
        def
    }
}

} // verus!
