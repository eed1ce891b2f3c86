//! Plugins as data: what a plugin registers when it is built.
//!
//! A plugin's build is a [`PluginDef`]: its own type identity, whether it may
//! be added more than once, and the ordered registrations it performs —
//! including further nested plugins. Dispatching over such a descriptor
//! (rather than through an opaque callback) keeps every registration a plain
//! value the builder can walk and validate. The [`Plugin`] capability has the
//! single required operation `build`, which produces that descriptor.

use vstd::prelude::*;

use crate::type_names::{TypeIdentity, TypeRef};

verus! {

/// Mathematical model of one schedulable system.
pub enum SystemModel {
    /// An ordinary system, identified by name for the world to run.
    Named(Seq<char>),
    /// The scheduled reset that clears a storage's inserted/modified
    /// tracking at the end of every execution of the unit of work.
    ResetUpdatePack(TypeIdentity),
    /// The scheduled reset that clears a tracked unique value's change flag
    /// at the end of every execution of the unit of work.
    ResetTrackedUnique(TypeIdentity),
}

/// One schedulable system of a unit of work. The world executes these; the
/// composition core only decides which ones run and in what order.
#[derive(Debug)]
pub enum SystemDesc {
    /// An ordinary system, identified by name for the world to run.
    Named(String),
    /// Clears the inserted/modified tracking of the storage with this
    /// component type at the end of every execution.
    ResetUpdatePack(TypeIdentity),
    /// Clears the change flag of the tracked unique value with this type at
    /// the end of every execution.
    ResetTrackedUnique(TypeIdentity),
}

impl View for SystemDesc {
    type V = SystemModel;

    open spec fn view(&self) -> SystemModel {
        match self {
            SystemDesc::Named(name) => SystemModel::Named(name@),
            SystemDesc::ResetUpdatePack(ty) => SystemModel::ResetUpdatePack(*ty),
            SystemDesc::ResetTrackedUnique(ty) => SystemModel::ResetTrackedUnique(*ty),
        }
    }
}

impl Clone for SystemDesc {
    fn clone(&self) -> (r: Self)
        ensures
            r@ == self@,
    {
        match self {
            SystemDesc::Named(name) => SystemDesc::Named(name.clone()),
            SystemDesc::ResetUpdatePack(ty) => SystemDesc::ResetUpdatePack(*ty),
            SystemDesc::ResetTrackedUnique(ty) => SystemDesc::ResetTrackedUnique(*ty),
        }
    }
}

/// One registration a plugin performs against the builder, in the order
/// written.
#[derive(Debug)]
pub enum PluginOp {
    /// Register a nested plugin; fails if it was already added (unless it
    /// allows multiple additions) or if it would nest into itself.
    AddPlugin(Box<PluginDef>),
    /// Provide the unique value of this type (the world installs the value;
    /// the last provider wins).
    AddUnique { ty: TypeRef },
    /// Declare that the composed unit depends on the unique value of this
    /// type being provided by someone before `finish`.
    DependsOnUnique { ty: TypeRef, reason: String },
    /// Declare a dependency on a plugin that must already have been added.
    DependsOnPlugin { ty: TypeRef, reason: String },
    /// Claim exclusive update tracking of the storage with this component
    /// type; the first claim schedules the corresponding reset system.
    UpdatePack { ty: TypeRef, reason: String },
    /// Claim exclusive tracking of the unique value with this type; the
    /// first claim schedules the corresponding reset system.
    Tracks { ty: TypeRef, reason: String },
    /// Register an ordinary system.
    AddSystem { system: SystemDesc },
    /// Register a system that must run among the absolute last systems.
    AddResetSystem { system: SystemDesc, reason: String },
}

/// What building one plugin registers: the plugin's own type, whether it may
/// be added multiple times (default: no), and its registrations in order.
#[derive(Debug)]
pub struct PluginDef {
    pub ty: TypeRef,
    pub multiple: bool,
    pub ops: Vec<PluginOp>,
}

impl PluginDef {
    /// An empty descriptor for a plugin that may be added only once.
    pub fn new(ty: TypeRef) -> (r: PluginDef)
        ensures
            r.ty == ty,
            r.multiple == false,
            r.ops@ =~= Seq::<PluginOp>::empty(),
    {
        PluginDef { ty, multiple: false, ops: Vec::new() }
    }

    /// Declares that this plugin type may be added more than once.
    pub fn allow_multiple(&mut self)
        ensures
            final(self).ty == old(self).ty,
            final(self).multiple == true,
            final(self).ops == old(self).ops,
    {
        self.multiple = true;
    }

    /// Appends one registration.
    pub fn op(&mut self, op: PluginOp)
        ensures
            final(self).ty == old(self).ty,
            final(self).multiple == old(self).multiple,
            final(self).ops@ == old(self).ops@.push(op),
    {
        self.ops.push(op);
    }
}

/// A collection of app logic and configuration. A plugin is identified
/// solely by its declared type identity; two instances of the same plugin
/// type are the same identity regardless of their field values.
pub trait Plugin {
    /// Describes what this plugin registers when it is built.
    fn build(&self) -> PluginDef;
}

} // verus!
