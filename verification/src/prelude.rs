//! The items most compositions need.

pub use crate::app::App;
pub use crate::app_builder::{AppBuilder, AppWorkload};
pub use crate::plugin::{Plugin, PluginDef, PluginOp, SystemDesc};
pub use crate::storage::Storage;
pub use crate::tracked_unique::{TrackedUniquePlugin, TrackedValue};
pub use crate::type_names::{TypeIdentity, TypeRef};
