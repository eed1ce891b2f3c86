//! The container of app composition: builds plugin workloads and composes
//! validated cycles of them.

use vstd::prelude::*;

use crate::app_builder::{
    spec_add_plugin, spec_empty_model, spec_finish_outcome, AddPluginError, AppBuilder,
    AppWorkload, AppWorkloadInfo, FinishError,
};
use crate::plugin::{Plugin, PluginDef};

verus! {

/// Handle through which plugins are composed into units of work and units of
/// work are composed into cycles. The world that executes them is an
/// external collaborator; an `App` only performs the composition-time
/// bookkeeping and validation.
#[derive(Debug)]
pub struct App {
    _private: (),
}

/// Why building one plugin into its own unit of work failed.
#[derive(Debug)]
pub enum BuildWorkloadError {
    /// A registration was refused while the plugin was being added.
    Add(AddPluginError),
    /// The plugin left unique-value dependencies unmet.
    Finish(FinishError),
}

/// Whether building `def` into its own unit of work, from a fresh builder,
/// leads exactly to the outcome `r`. The unit is named after the plugin and
/// carries the plugin's type as its identity for duplicate skipping.
pub open spec fn spec_workload_outcome(
    def: PluginDef,
    r: Result<(AppWorkload, AppWorkloadInfo), BuildWorkloadError>,
) -> bool {
    let add = spec_add_plugin(spec_empty_model(), def);
    match r {
        Ok((w, info)) => add.1 is None && spec_finish_outcome(
            add.0,
            def.ty@.1,
            Some(def.ty@.0),
            Ok((w, info)),
        ),
        Err(BuildWorkloadError::Add(e)) => add.1 == Some(e@),
        Err(BuildWorkloadError::Finish(e)) => add.1 is None && spec_finish_outcome(
            add.0,
            def.ty@.1,
            Some(def.ty@.0),
            Err(e),
        ),
    }
}

impl App {
    pub fn new() -> (r: App) {
        App { _private: () }
    }

    /// Builds one plugin into its own named unit of work: registers it
    /// against a fresh builder and finishes the composition.
    pub fn add_plugin_workload<P: Plugin>(&self, plugin: &P) -> (r: Result<
        AppWorkload,
        BuildWorkloadError,
    >)
        ensures
            match r {
                Ok(w) => exists|def: PluginDef, info: AppWorkloadInfo|
                    #[trigger] spec_workload_outcome(def, Ok((w, info))),
                Err(e) => exists|def: PluginDef| #[trigger] spec_workload_outcome(def, Err(e)),
            },
    {
        match self.add_plugin_workload_with_info(plugin) {
            Ok((w, _info)) => Ok(w),
            Err(e) => Err(e),
        }
    }

    /// Builds one plugin into its own named unit of work and reports the
    /// unit's structural info for downstream cross-unit validation.
    pub fn add_plugin_workload_with_info<P: Plugin>(&self, plugin: &P) -> (r: Result<
        (AppWorkload, AppWorkloadInfo),
        BuildWorkloadError,
    >)
        ensures
            exists|def: PluginDef| #[trigger] spec_workload_outcome(def, r),
    {
        let mut builder = AppBuilder::new(self);
        let def = plugin.build();
        match builder.add_plugin_def(&def) {
            Err(e) => {
                let r = Err(BuildWorkloadError::Add(e));
                proof {
                    let ghost dg = def;
                    assert(spec_workload_outcome(dg, r));
                }
                r
            },
            Ok(_) => {
                let stage_name = def.ty.name.clone();
                let plugin_ident = def.ty.ident;
                match builder.finish_with_info_named(stage_name.as_str(), Some(plugin_ident)) {
                    Ok(wi) => {
                        let r = Ok(wi);
                        proof {
                            let ghost dg = def;
                            assert(spec_workload_outcome(dg, r));
                        }
                        r
                    },
                    Err(e) => {
                        let r = Err(BuildWorkloadError::Finish(e));
                        proof {
                            let ghost dg = def;
                            assert(spec_workload_outcome(dg, r));
                        }
                        r
                    },
                }
            },
        }
    }
}

} // verus!
