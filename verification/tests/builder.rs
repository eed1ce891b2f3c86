//! Builder-side validation: duplicate additions, self-nesting, plugin and
//! unique dependencies, and the order of the finished unit's systems.

use shipyard_app::{
    AddPluginError, App, AppBuilder, AssociateResult, FinishError, Plugin, PluginDef, PluginOp,
    SystemDesc, TypeIdentity, TypeRef,
};

fn ty(key: u64, name: &str) -> TypeRef {
    TypeRef::new(key, name)
}

struct Simple;
impl Plugin for Simple {
    fn build(&self) -> PluginDef {
        let mut def = PluginDef::new(ty(100, "Simple"));
        def.op(PluginOp::UpdatePack { ty: ty(1, "A"), reason: "simple".to_owned() });
        def
    }
}

struct SimpleDup;
impl Plugin for SimpleDup {
    fn build(&self) -> PluginDef {
        let mut def = PluginDef::new(ty(101, "SimpleDup"));
        def.allow_multiple();
        def.op(PluginOp::UpdatePack { ty: ty(1, "A"), reason: "dup".to_owned() });
        def
    }
}

#[test]
fn duplicate_plugin_add_fails_naming_prior() {
    let app = App::new();
    let mut builder = AppBuilder::new(&app);
    let def = Simple.build();
    builder.add_plugin_def(&def).expect("first addition succeeds");
    let err = builder.add_plugin_def(&def).expect_err("second addition fails");
    match err {
        AddPluginError::AlreadyAdded { plugin, prior, .. } => {
            assert_eq!(plugin.key, 100);
            // recorded under the identity current when it was entered
            assert_eq!(prior.len(), 1);
            assert!(prior.contains(TypeIdentity::new(100)));
        },
        other => panic!("unexpected error {:#?}", other),
    }
}

#[test]
fn multiply_addable_plugin_records_claims_per_addition() {
    let app = App::new();
    let mut builder = AppBuilder::new(&app);
    let def = SimpleDup.build();
    builder.add_plugin_def(&def).expect("first addition succeeds");
    builder.add_plugin_def(&def).expect("second addition succeeds");
    let (_workload, info) = builder.finish_with_info().expect("no unmet dependencies");
    let entries = info.signature.track_update_packed.entries();
    assert_eq!(entries.len(), 1);
    assert_eq!(entries[0].0.key, 1);
    // both additions' claims are recorded, in order
    assert_eq!(entries[0].2.len(), 2);
    assert_eq!(entries[0].2[0].reason, "dup");
    assert_eq!(entries[0].2[1].reason, "dup");
}

#[test]
fn direct_self_nesting_fails_with_cycle() {
    struct Selfish;
    impl Plugin for Selfish {
        fn build(&self) -> PluginDef {
            let mut inner = PluginDef::new(ty(110, "Selfish"));
            inner.allow_multiple();
            let mut def = PluginDef::new(ty(110, "Selfish"));
            def.allow_multiple();
            def.op(PluginOp::AddPlugin(Box::new(inner)));
            def
        }
    }
    let app = App::new();
    let mut builder = AppBuilder::new(&app);
    let err = builder.add_plugin(&Selfish).expect_err("self-nesting fails");
    match err {
        AddPluginError::WouldCycle { plugin, current } => {
            assert_eq!(plugin.key, 110);
            assert!(current.contains(TypeIdentity::new(110)));
        },
        other => panic!("unexpected error {:#?}", other),
    }
}

#[test]
fn transitive_self_nesting_fails_with_cycle() {
    // Outer adds Inner, and Inner adds Outer again before Outer finished.
    let mut outer_again = PluginDef::new(ty(120, "Outer"));
    outer_again.allow_multiple();
    let mut inner = PluginDef::new(ty(121, "Inner"));
    inner.op(PluginOp::AddPlugin(Box::new(outer_again)));
    let mut outer = PluginDef::new(ty(120, "Outer"));
    outer.allow_multiple();
    outer.op(PluginOp::AddPlugin(Box::new(inner)));

    let app = App::new();
    let mut builder = AppBuilder::new(&app);
    let err = builder.add_plugin_def(&outer).expect_err("chain back to itself fails");
    match err {
        AddPluginError::WouldCycle { plugin, .. } => {
            assert_eq!(plugin.key, 120);
        },
        other => panic!("unexpected error {:#?}", other),
    }
}

#[test]
fn stack_is_restored_after_failed_nested_build() {
    let mut inner = PluginDef::new(ty(131, "Inner"));
    inner.op(
        PluginOp::DependsOnPlugin { ty: ty(999, "Absent"), reason: "needs it".to_owned() },
    );
    let mut outer = PluginDef::new(ty(130, "Outer"));
    outer.op(PluginOp::AddPlugin(Box::new(inner)));

    let app = App::new();
    let mut builder = AppBuilder::new(&app);
    builder.add_plugin_def(&outer).expect_err("missing plugin dependency fails");
    // scoped acquisition: the identity path is restored even though the
    // nested build aborted the composition
    assert_eq!(builder.current_plugin().len(), 0);
}

#[test]
fn depends_on_plugin_is_registration_order_sensitive() {
    let app = App::new();
    let mut builder = AppBuilder::new(&app);
    let err = builder
        .depends_on_plugin(&ty(100, "Simple"), "not added yet")
        .expect_err("dependency on a plugin not yet added fails");
    match err {
        AddPluginError::MissingPluginDependency { plugin, reason, .. } => {
            assert_eq!(plugin.key, 100);
            assert_eq!(reason, "not added yet");
        },
        other => panic!("unexpected error {:#?}", other),
    }
    builder.add_plugin(&Simple).expect("plugin adds cleanly");
    builder
        .depends_on_plugin(&ty(100, "Simple"), "added now")
        .expect("dependency on an added plugin succeeds");
}

#[test]
fn finish_fails_listing_unmet_dependents() {
    let app = App::new();
    let mut builder = AppBuilder::new(&app);
    builder.depends_on_unique(&ty(7, "Config"), "reads the config");
    builder.depends_on_unique(&ty(7, "Config"), "also reads the config");
    builder.depends_on_unique(&ty(8, "Clock"), "tells the time");
    let err = builder.finish().expect_err("unmet dependencies fail the finish");
    match err {
        FinishError::UnmetUniqueDependencies { unmet } => {
            // every unmet type together with every dependent that required it
            assert_eq!(unmet.len(), 2);
            assert_eq!(unmet[0].0.key, 7);
            assert_eq!(unmet[0].1, "Config");
            assert_eq!(unmet[0].2.len(), 2);
            assert_eq!(unmet[0].2[0].reason, "reads the config");
            assert_eq!(unmet[0].2[1].reason, "also reads the config");
            assert_eq!(unmet[1].0.key, 8);
            assert_eq!(unmet[1].2.len(), 1);
        },
    }
}

#[test]
fn finish_succeeds_once_every_dependency_has_a_provider() {
    let app = App::new();
    let mut builder = AppBuilder::new(&app);
    builder.depends_on_unique(&ty(7, "Config"), "reads the config");
    builder.depends_on_unique(&ty(7, "Config"), "also reads the config");
    let first = builder.add_unique(&ty(7, "Config"));
    assert_eq!(first, AssociateResult::First);
    let workload = builder.finish().expect("provided dependency satisfies the check");
    assert_eq!(workload.names(), vec!["update".to_owned()]);
}

#[test]
fn second_provider_is_reported_but_still_installs() {
    let app = App::new();
    let mut builder = AppBuilder::new(&app);
    assert_eq!(builder.add_unique(&ty(7, "Config")), AssociateResult::First);
    // last writer wins: the duplicate is a diagnostic, not a failure
    assert_eq!(builder.add_unique(&ty(7, "Config")), AssociateResult::Nth(2));
    builder.finish().expect("duplicate providers are a soft conflict");
}

#[test]
fn workload_build_reports_add_failures() {
    struct Selfish2;
    impl Plugin for Selfish2 {
        fn build(&self) -> PluginDef {
            let mut inner = PluginDef::new(ty(140, "Selfish2"));
            inner.allow_multiple();
            let mut def = PluginDef::new(ty(140, "Selfish2"));
            def.allow_multiple();
            def.op(PluginOp::AddPlugin(Box::new(inner)));
            def
        }
    }
    let app = App::new();
    let err = app
        .add_plugin_workload_with_info(&Selfish2)
        .expect_err("self-nesting aborts the workload build");
    assert!(matches!(
        err,
        shipyard_app::BuildWorkloadError::Add(AddPluginError::WouldCycle { .. })
    ));
}

#[test]
fn workload_build_reports_unmet_dependencies() {
    struct Needy;
    impl Plugin for Needy {
        fn build(&self) -> PluginDef {
            let mut def = PluginDef::new(ty(150, "Needy"));
            def.op(PluginOp::DependsOnUnique { ty: ty(7, "Config"), reason: "needs it".to_owned() });
            def
        }
    }
    let app = App::new();
    let err = app
        .add_plugin_workload_with_info(&Needy)
        .expect_err("unmet unique dependency fails the finish");
    assert!(matches!(err, shipyard_app::BuildWorkloadError::Finish(_)));
}

#[test]
fn resets_run_after_all_ordinary_systems() {
    let app = App::new();
    let mut builder = AppBuilder::new(&app);
    builder.add_system(SystemDesc::Named("early".to_owned()));
    builder.update_pack(&ty(1, "A"), "tracks A");
    builder.add_system(SystemDesc::Named("late".to_owned()));
    let (_workload, info) = builder.finish_with_info().expect("no dependencies");
    let batches = &info.batch_info;
    assert_eq!(batches.len(), 3);
    assert!(matches!(&batches[0], SystemDesc::Named(n) if n == "early"));
    assert!(matches!(&batches[1], SystemDesc::Named(n) if n == "late"));
    assert!(matches!(&batches[2], SystemDesc::ResetUpdatePack(t) if t.key == 1));
}

#[test]
fn update_pack_schedules_reset_only_once() {
    let app = App::new();
    let mut builder = AppBuilder::new(&app);
    assert_eq!(builder.update_pack(&ty(1, "A"), "first"), AssociateResult::First);
    assert_eq!(builder.update_pack(&ty(1, "A"), "second"), AssociateResult::Nth(2));
    let (_workload, info) = builder.finish_with_info().expect("no dependencies");
    assert_eq!(info.batch_info.len(), 1);
    assert!(matches!(&info.batch_info[0], SystemDesc::ResetUpdatePack(t) if t.key == 1));
    // both claims are recorded all the same
    let entries = info.signature.track_update_packed.entries();
    assert_eq!(entries[0].2.len(), 2);
}
