//! Composition core for plugin-based applications.
//!
//! Independently authored plugins are composed into a runnable unit of work
//! ("workload") against a shared world. Before anything executes, the
//! composition is validated: no plugin silently overwrites another plugin's
//! exclusive claim on a resource, no plugin nests into itself through a chain
//! of nested registrations, and no two units of work composed into one cycle
//! fight over the same exclusively tracked storage.
//!
//! The world/storage engine itself is an external collaborator: this crate
//! only records and validates the declarations plugins make about typed
//! resources, and decides the order in which systems run. Resources are named
//! by opaque interned identities ([`type_names::TypeIdentity`]) rather than by
//! language-level type tokens, which keeps every decision a plain function of
//! plain values.

pub mod add_distinct;
pub mod app;
pub mod app_add_cycle;
pub mod app_builder;
pub mod app_changed;
pub mod associations;
pub mod event_plugin;
pub mod plugin;
pub mod plugin_id;
pub mod prelude;
pub mod reordering;
pub mod storage;
pub mod tracked_unique;
pub mod type_names;
pub mod update_one_to_one;
pub mod update_two_to_one;
pub mod workloads;

pub use app::{App, BuildWorkloadError};
pub use app_add_cycle::{CycleCheckError, CyclePluginAssociations};
pub use app_builder::{
    AddPluginError, AppBuilder, AppWorkload, AppWorkloadInfo, CycleWorkload, FinishError,
    SingleWorkload, WorkloadSignature, DEFAULT_STAGE,
};
pub use app_changed::ChangedOneToOne;
pub use associations::{AssociateResult, PluginAssociated, TypeIdBuckets};
pub use event_plugin::{update_events, EventPlugin, Events};
pub use plugin::{Plugin, PluginDef, PluginOp, SystemDesc};
pub use plugin_id::PluginId;
pub use reordering::{tree_reordering, ChildOf, MoveCmd, MoveToPlace, Ordered, ParentIndex};
pub use storage::Storage;
pub use tracked_unique::{reset_tracked_unique, TrackedUniquePlugin, TrackedValue};
pub use type_names::{TypeIdentity, TypeNames, TypeRef};
pub use update_one_to_one::UpdateOneToOne;
pub use update_two_to_one::{ChangeView, UpdateTwoToOne};
pub use workloads::Workloads;
