//! Double-buffered event queues, and the plugin that registers one.
//!
//! Events sent during one update become readable during the next update and
//! are dropped after it, so every reader sees each event exactly once as
//! long as the update system runs every cycle.

use vstd::prelude::*;

use crate::plugin::{Plugin, PluginDef, PluginOp, SystemDesc};
use crate::type_names::TypeRef;

verus! {

/// A double-buffered event queue: `send` appends to the pending buffer, and
/// the per-update rotation makes pending events current and drops the
/// previous current ones.
pub struct Events<T> {
    pending: Vec<T>,
    current: Vec<T>,
}

impl<T> Events<T> {
    pub closed spec fn spec_pending(self) -> Seq<T> {
        self.pending@
    }

    pub closed spec fn spec_current(self) -> Seq<T> {
        self.current@
    }

    pub fn new() -> (r: Events<T>)
        ensures
            r.spec_pending() =~= Seq::<T>::empty(),
            r.spec_current() =~= Seq::<T>::empty(),
    {
        Events { pending: Vec::new(), current: Vec::new() }
    }

    /// Queues an event for the next update.
    pub fn send(&mut self, event: T)
        ensures
            final(self).spec_pending() == old(self).spec_pending().push(event),
            final(self).spec_current() == old(self).spec_current(),
    {
        self.pending.push(event);
    }

    /// Rotates the buffers: pending events become current, and the previous
    /// current events are dropped.
    pub fn update(&mut self)
        ensures
            final(self).spec_current() == old(self).spec_pending(),
            final(self).spec_pending() =~= Seq::<T>::empty(),
    {
        let mut fresh: Vec<T> = Vec::new();
        core::mem::swap(&mut self.pending, &mut fresh);
        self.current = fresh;
    }

    /// The events sent during the previous update, in send order.
    pub fn current(&self) -> (r: &Vec<T>)
        ensures
            r@ == self.spec_current(),
    {
        &self.current
    }
}

/// The per-update system of an [`EventPlugin`]: rotates the event buffers.
pub fn update_events<T>(uvm_events: &mut Events<T>)
    ensures
        final(uvm_events).spec_current() == old(uvm_events).spec_pending(),
        final(uvm_events).spec_pending() =~= Seq::<T>::empty(),
{
    uvm_events.update();
}

/// Registers an [`Events`] queue of type `T` as a unique value, together
/// with the system that rotates it every update.
pub struct EventPlugin<T> {
    plugin_ty: TypeRef,
    events_ty: TypeRef,
    update_system: String,
    marker: core::marker::PhantomData<T>,
}

impl<T> EventPlugin<T> {
    /// `plugin_ty` is this plugin's own type identity, `events_ty` the
    /// identity of the `Events<T>` unique value it provides, and
    /// `update_system` the name under which the world knows the rotation
    /// system.
    pub fn new(plugin_ty: TypeRef, events_ty: TypeRef, update_system: &str) -> EventPlugin<T> {
        EventPlugin {
            plugin_ty,
            events_ty,
            update_system: update_system.to_owned(),
            marker: core::marker::PhantomData,
        }
    }
}

impl<T> Plugin for EventPlugin<T> {
    fn build(&self) -> PluginDef {
        let mut def = PluginDef::new(self.plugin_ty.clone());
        def.op(PluginOp::AddUnique { ty: self.events_ty.clone() });
        def.op(
            PluginOp::AddSystem { system: SystemDesc::Named(self.update_system.clone()) },
        );
        def
    }
}

} // verus!
