//! Cross-unit cycle validation: conflicting and duplicate units of work.

use shipyard_app::{App, CycleCheckError, Plugin, PluginDef, PluginOp, TypeRef};

const A_KEY: u64 = 1;
const RX_A1_KEY: u64 = 11;
const RX_A2_KEY: u64 = 12;
const RX_A_DUP_KEY: u64 = 13;
const RX_TRACK_A1_KEY: u64 = 21;
const RX_TRACK_A2_KEY: u64 = 22;
const RX_TRACK_A_DUP_KEY: u64 = 23;

fn a_ref() -> TypeRef {
    TypeRef::new(A_KEY, "A")
}

struct RxA1;
struct RxA2;
/// Can be added multiple times
struct RxADup;
struct RxTrackA1;
struct RxTrackA2;
/// Can be added multiple times
struct RxTrackADup;

impl Plugin for RxA1 {
    fn build(&self) -> PluginDef {
        let mut def = PluginDef::new(TypeRef::new(RX_A1_KEY, "RxA1"));
        def.op(PluginOp::UpdatePack { ty: a_ref(), reason: "Rx1".to_owned() });
        def
    }
}

impl Plugin for RxA2 {
    fn build(&self) -> PluginDef {
        let mut def = PluginDef::new(TypeRef::new(RX_A2_KEY, "RxA2"));
        def.op(PluginOp::UpdatePack { ty: a_ref(), reason: "Rx2".to_owned() });
        def
    }
}

impl Plugin for RxADup {
    fn build(&self) -> PluginDef {
        let mut def = PluginDef::new(TypeRef::new(RX_A_DUP_KEY, "RxADup"));
        def.allow_multiple();
        def.op(PluginOp::UpdatePack { ty: a_ref(), reason: "RxDup".to_owned() });
        def
    }
}

impl Plugin for RxTrackA1 {
    fn build(&self) -> PluginDef {
        let mut def = PluginDef::new(TypeRef::new(RX_TRACK_A1_KEY, "RxTrackA1"));
        def.op(PluginOp::Tracks { ty: a_ref(), reason: "RxTrack1".to_owned() });
        def
    }
}

impl Plugin for RxTrackA2 {
    fn build(&self) -> PluginDef {
        let mut def = PluginDef::new(TypeRef::new(RX_TRACK_A2_KEY, "RxTrackA2"));
        def.op(PluginOp::Tracks { ty: a_ref(), reason: "RxTrack2".to_owned() });
        def
    }
}

impl Plugin for RxTrackADup {
    fn build(&self) -> PluginDef {
        let mut def = PluginDef::new(TypeRef::new(RX_TRACK_A_DUP_KEY, "RxTrackADup"));
        def.allow_multiple();
        def.op(PluginOp::Tracks { ty: a_ref(), reason: "RxTrackDup".to_owned() });
        def
    }
}

fn setup_app() -> App {
    App::new()
}

#[test]
fn test_conflicting_update_packs() {
    let mut app = setup_app();

    // Given added workload 1 depends on [A] being update packed
    let rx_a1 = app.add_plugin_workload_with_info(&RxA1).unwrap();
    // And adding workload 2 depends on SAME update packed [A]
    let rx_a2 = app.add_plugin_workload_with_info(&RxA2).unwrap();

    // When declaring in a cycle
    let result = app.add_cycle(vec![rx_a1, rx_a2]);

    // Then observe an error
    let errors = result.expect_err("expected conflict");

    assert_eq!(errors.len(), 1, "Expected 1 error, but found: {:#?}", errors);
    let one_err = errors.first().unwrap();
    if let CycleCheckError::UpdatePackResetInMultipleWorkloads { update_pack, .. } = one_err {
        assert_eq!(*update_pack, "A");
    } else {
        panic!(
            "Expected error to be UpdatePackResetInMultipleWorkloads, but found {:#?}",
            one_err
        );
    }
}

#[test]
fn test_duplicates_update_packed_ok() {
    let mut app = setup_app();

    // Given added workload 1 depends on [A] being update packed
    let rx_a_1 = app.add_plugin_workload_with_info(&RxADup).unwrap();
    // And adding the SAME workload 2
    let rx_a_2 = app.add_plugin_workload_with_info(&RxADup).unwrap();

    // When declaring in a cycle
    let result = app.add_cycle(vec![rx_a_1, rx_a_2]);

    // Then observe ok
    let _errors = result.expect("expected no conflict");
}

#[test]
fn test_conflicting_tracked() {
    let mut app = setup_app();

    // Given added workload 1 depends on [A] being a tracked unique
    let rx_a1 = app.add_plugin_workload_with_info(&RxTrackA1).unwrap();
    // And adding workload 2 depends on SAME tracked unique [A]
    let rx_a2 = app.add_plugin_workload_with_info(&RxTrackA2).unwrap();

    // When declaring in a cycle
    let result = app.add_cycle(vec![rx_a1, rx_a2]);

    // Then observe an error
    let errors = result.expect_err("expected conflict");

    assert_eq!(errors.len(), 1, "Expected 1 error, but found: {:#?}", errors);
    let one_err = errors.first().unwrap();
    if let CycleCheckError::TrackedUniqueResetInMultipleWorkloads { tracked_unique, .. } = one_err {
        assert_eq!(*tracked_unique, "A");
    } else {
        panic!(
            "Expected error to be TrackedUniqueResetInMultipleWorkloads, but found {:#?}",
            one_err
        );
    }
}

#[test]
fn test_duplicates_tracked_ok() {
    let mut app = setup_app();

    // Given added workload 1 depends on [A] being tracked unique
    let rx_a_1 = app.add_plugin_workload_with_info(&RxTrackADup).unwrap();
    // And adding the SAME workload 2
    let rx_a_2 = app.add_plugin_workload_with_info(&RxTrackADup).unwrap();

    // When declaring in a cycle
    let result = app.add_cycle(vec![rx_a_1, rx_a_2]);

    // Then observe ok
    let _errors = result.expect("expected no conflict");
}

#[test]
fn conflict_lists_both_claim_reasons() {
    let mut app = setup_app();
    let rx_a1 = app.add_plugin_workload_with_info(&RxA1).unwrap();
    let rx_a2 = app.add_plugin_workload_with_info(&RxA2).unwrap();

    let errors = app.add_cycle(vec![rx_a1, rx_a2]).expect_err("expected conflict");
    assert_eq!(errors.len(), 1);
    match errors.first().unwrap() {
        CycleCheckError::UpdatePackResetInMultipleWorkloads { update_pack, conflicts } => {
            assert_eq!(*update_pack, "A");
            assert_eq!(conflicts.len(), 2);
            assert_eq!(conflicts[0].workload, "RxA1");
            assert_eq!(conflicts[1].workload, "RxA2");
            assert_eq!(conflicts[0].plugins.len(), 1);
            assert_eq!(conflicts[0].plugins[0].reason, "Rx1");
            assert_eq!(conflicts[1].plugins.len(), 1);
            assert_eq!(conflicts[1].plugins[0].reason, "Rx2");
        },
        other => panic!("unexpected error {:#?}", other),
    }
}

#[test]
fn disjoint_tracking_composes_in_order() {
    struct RxB;
    impl Plugin for RxB {
        fn build(&self) -> PluginDef {
            let mut def = PluginDef::new(TypeRef::new(31, "RxB"));
            def.op(PluginOp::UpdatePack { ty: TypeRef::new(2, "B"), reason: "RxB".to_owned() });
            def
        }
    }
    let mut app = setup_app();
    let rx_a = app.add_plugin_workload_with_info(&RxA1).unwrap();
    let rx_b = app.add_plugin_workload_with_info(&RxB).unwrap();

    let cycle = app.add_cycle(vec![rx_a, rx_b]).expect("expected no conflict");
    // the composed cycle runs the units in input order, every invocation
    assert_eq!(cycle.names(), vec!["RxA1".to_owned(), "RxB".to_owned()]);
}
