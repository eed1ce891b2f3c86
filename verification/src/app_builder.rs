//! The builder that accumulates one composed unit of work.
//!
//! Plugins register against an [`AppBuilder`]: they provide unique values,
//! declare dependencies, claim exclusive tracking of storages, register
//! systems, and add nested plugins. The builder validates structural rules as
//! they occur (duplicate plugin additions, self-nesting cycles, dependencies
//! on absent plugins) and a final rule at finish (every unique value someone
//! depends on must have a provider). Every operation's effect on the
//! builder's state is given by a spec-level step function over
//! [`BuilderModel`], so the contracts pin down exactly what was recorded.

use vstd::prelude::*;

use crate::app::App;
use crate::associations::{
    buckets_assoc, buckets_claims, buckets_has, buckets_wf, AssociateResult, BucketModel,
    ClaimModel, PluginAssociated, TypeIdBuckets,
};
use crate::plugin::{Plugin, PluginDef, PluginOp, SystemDesc, SystemModel};
use crate::plugin_id::PluginId;
use crate::type_names::{
    assoc_find, spec_record, TypeIdentity, TypeNames, TypeRef,
};

verus! {

/// Name of the stage responsible for doing most app logic; systems are
/// registered here by default.
pub const DEFAULT_STAGE: &'static str = "default";

/// Mathematical state of a builder: the type-name registry, the identity
/// stack of the plugin currently building, the record of added plugins, the
/// ordered systems and resets, the order in which unique values were
/// installed, and the four claim ledgers.
#[verifier::ext_equal]
pub struct BuilderModel {
    pub names: Seq<(TypeIdentity, Seq<char>)>,
    pub stack: Seq<TypeIdentity>,
    pub added: Seq<(TypeIdentity, Seq<TypeIdentity>)>,
    pub systems: Seq<SystemModel>,
    pub resets: Seq<SystemModel>,
    pub installs: Seq<TypeIdentity>,
    pub uniques_provided: Seq<BucketModel<ClaimModel>>,
    pub unique_dependencies: Seq<BucketModel<ClaimModel>>,
    pub update_packed: Seq<BucketModel<ClaimModel>>,
    pub tracked_uniques: Seq<BucketModel<ClaimModel>>,
}

/// The registered-plugins record viewed mathematically.
pub open spec fn added_view(s: Seq<(TypeIdentity, PluginId)>) -> Seq<
    (TypeIdentity, Seq<TypeIdentity>),
> {
    s.map_values(|p: (TypeIdentity, PluginId)| (p.0, p.1@))
}

/// A system list viewed mathematically.
pub open spec fn systems_view(s: Seq<SystemDesc>) -> Seq<SystemModel> {
    s.map_values(|d: SystemDesc| d@)
}

impl BuilderModel {
    /// Distinct registry and record keys, and well-formed ledgers.
    pub open spec fn wf(self) -> bool {
        &&& forall|i: int, j: int|
            0 <= i < j < self.names.len() ==> (#[trigger] self.names[i]).0 != (
            #[trigger] self.names[j]).0
        &&& forall|i: int, j: int|
            0 <= i < j < self.added.len() ==> (#[trigger] self.added[i]).0 != (
            #[trigger] self.added[j]).0
        &&& buckets_wf(self.uniques_provided)
        &&& buckets_wf(self.unique_dependencies)
        &&& buckets_wf(self.update_packed)
        &&& buckets_wf(self.tracked_uniques)
    }
}

/// The empty state every builder starts from.
pub open spec fn spec_empty_model() -> BuilderModel {
    BuilderModel {
        names: Seq::empty(),
        stack: Seq::empty(),
        added: Seq::empty(),
        systems: Seq::empty(),
        resets: Seq::empty(),
        installs: Seq::empty(),
        uniques_provided: Seq::empty(),
        unique_dependencies: Seq::empty(),
        update_packed: Seq::empty(),
        tracked_uniques: Seq::empty(),
    }
}

/// Records a type's display name on first encounter.
pub open spec fn spec_record_type(m: BuilderModel, ty: (TypeIdentity, Seq<char>)) -> BuilderModel {
    BuilderModel { names: spec_record(m.names, ty), ..m }
}

/// The claim the current plugin makes, for the given reason.
pub open spec fn spec_claim(m: BuilderModel, reason: Seq<char>) -> ClaimModel {
    ClaimModel { owner: m.stack, reason }
}

/// Providing a unique value: records the provider claim and appends the
/// installation (the world applies installs in order; the last writer wins).
pub open spec fn spec_add_unique(m: BuilderModel, ty: (TypeIdentity, Seq<char>)) -> BuilderModel {
    let m1 = spec_record_type(m, ty);
    BuilderModel {
        uniques_provided: buckets_assoc(
            m1.uniques_provided,
            ty.0,
            ty.1,
            spec_claim(m, "<not provided>"@),
        ),
        installs: m1.installs.push(ty.0),
        ..m1
    }
}

/// Declaring a dependency on a unique value: records the claim; never fails
/// by itself (the check happens at finish).
pub open spec fn spec_depends_on_unique(
    m: BuilderModel,
    ty: (TypeIdentity, Seq<char>),
    reason: Seq<char>,
) -> BuilderModel {
    let m1 = spec_record_type(m, ty);
    BuilderModel {
        unique_dependencies: buckets_assoc(m1.unique_dependencies, ty.0, ty.1, spec_claim(m, reason)),
        ..m1
    }
}

/// Claiming exclusive update tracking of a storage: records the claim; only
/// the first claim schedules the reset system that clears the tracking at
/// the end of every execution.
pub open spec fn spec_update_pack(
    m: BuilderModel,
    ty: (TypeIdentity, Seq<char>),
    reason: Seq<char>,
) -> BuilderModel {
    let m1 = spec_record_type(m, ty);
    BuilderModel {
        update_packed: buckets_assoc(m1.update_packed, ty.0, ty.1, spec_claim(m, reason)),
        resets: if buckets_has(m.update_packed, ty.0) {
            m1.resets
        } else {
            m1.resets.push(SystemModel::ResetUpdatePack(ty.0))
        },
        ..m1
    }
}

/// Claiming exclusive tracking of a unique value: records the claim; only
/// the first claim schedules the reset system.
pub open spec fn spec_tracks(
    m: BuilderModel,
    ty: (TypeIdentity, Seq<char>),
    reason: Seq<char>,
) -> BuilderModel {
    let m1 = spec_record_type(m, ty);
    BuilderModel {
        tracked_uniques: buckets_assoc(m1.tracked_uniques, ty.0, ty.1, spec_claim(m, reason)),
        resets: if buckets_has(m.tracked_uniques, ty.0) {
            m1.resets
        } else {
            m1.resets.push(SystemModel::ResetTrackedUnique(ty.0))
        },
        ..m1
    }
}

/// Registering an ordinary system appends it in order.
pub open spec fn spec_add_system(m: BuilderModel, sys: SystemModel) -> BuilderModel {
    BuilderModel { systems: m.systems.push(sys), ..m }
}

/// Registering a reset system appends it to the resets, which run strictly
/// after all ordinary systems.
pub open spec fn spec_add_reset_system(m: BuilderModel, sys: SystemModel) -> BuilderModel {
    BuilderModel { resets: m.resets.push(sys), ..m }
}

/// Declaring a dependency on a plugin: fails exactly when that plugin has
/// not been added yet (dependency ordering is registration-order-sensitive).
pub open spec fn spec_depends_on_plugin(
    m: BuilderModel,
    ty: (TypeIdentity, Seq<char>),
    reason: Seq<char>,
) -> (BuilderModel, Option<AddErrorModel>) {
    let m1 = spec_record_type(m, ty);
    if assoc_find(m.added, ty.0) is None {
        (
            m1,
            Some(
                AddErrorModel::MissingPluginDependency {
                    current: m.stack,
                    plugin: ty.0,
                    reason,
                },
            ),
        )
    } else {
        (m1, None)
    }
}

/// Mathematical model of a fatal registration failure.
pub enum AddErrorModel {
    /// The plugin type was already added under `prior` and does not allow
    /// multiple additions.
    AlreadyAdded { current: Seq<TypeIdentity>, plugin: TypeIdentity, prior: Seq<TypeIdentity> },
    /// The plugin type is already on the identity stack: adding it again
    /// before its own build finished would cause a cycle.
    WouldCycle { current: Seq<TypeIdentity>, plugin: TypeIdentity },
    /// A declared plugin dependency has not been added yet.
    MissingPluginDependency { current: Seq<TypeIdentity>, plugin: TypeIdentity, reason: Seq<char> },
}

/// A fatal registration failure; it aborts the whole composition. Each
/// variant carries the identity path that was current when it occurred.
#[derive(Debug)]
pub enum AddPluginError {
    /// The plugin type was already added under `prior` and does not allow
    /// multiple additions.
    AlreadyAdded { current: PluginId, plugin: TypeIdentity, prior: PluginId },
    /// The plugin would nest into itself before finishing its own build.
    WouldCycle { current: PluginId, plugin: TypeIdentity },
    /// The plugin dependency was not added before it was depended upon.
    MissingPluginDependency { current: PluginId, plugin: TypeIdentity, reason: String },
}

impl View for AddPluginError {
    type V = AddErrorModel;

    open spec fn view(&self) -> AddErrorModel {
        match self {
            AddPluginError::AlreadyAdded { current, plugin, prior } => AddErrorModel::AlreadyAdded {
                current: current@,
                plugin: *plugin,
                prior: prior@,
            },
            AddPluginError::WouldCycle { current, plugin } => AddErrorModel::WouldCycle {
                current: current@,
                plugin: *plugin,
            },
            AddPluginError::MissingPluginDependency { current, plugin, reason } => AddErrorModel::MissingPluginDependency {
                current: current@,
                plugin: *plugin,
                reason: reason@,
            },
        }
    }
}

/// What one registration performs against the builder state: the next state,
/// and the fatal error if the registration is refused.
pub open spec fn spec_apply_op(m: BuilderModel, op: PluginOp) -> (
    BuilderModel,
    Option<AddErrorModel>,
)
    decreases op, 0int,
{
    match op {
        PluginOp::AddPlugin(d) => spec_add_plugin(m, *d),
        PluginOp::AddUnique { ty } => (spec_add_unique(m, ty@), None),
        PluginOp::DependsOnUnique { ty, reason } => (
            spec_depends_on_unique(m, ty@, reason@),
            None,
        ),
        PluginOp::DependsOnPlugin { ty, reason } => spec_depends_on_plugin(m, ty@, reason@),
        PluginOp::UpdatePack { ty, reason } => (spec_update_pack(m, ty@, reason@), None),
        PluginOp::Tracks { ty, reason } => (spec_tracks(m, ty@, reason@), None),
        PluginOp::AddSystem { system } => (spec_add_system(m, system@), None),
        PluginOp::AddResetSystem { system, reason: _ } => (
            spec_add_reset_system(m, system@),
            None,
        ),
    }
}

/// Walks a plugin's registrations in order, stopping at the first fatal
/// error.
pub open spec fn spec_apply_ops(m: BuilderModel, ops: Seq<PluginOp>) -> (
    BuilderModel,
    Option<AddErrorModel>,
)
    decreases ops, 1int,
{
    if ops.len() == 0 {
        (m, None)
    } else {
        let step = spec_apply_op(m, ops[0]);
        if step.1 is Some {
            step
        } else {
            spec_apply_ops(step.0, ops.drop_first())
        }
    }
}

/// Registering one plugin: record its name; refuse it if it was already
/// added under another identity and forbids multiple additions, or if it is
/// already on the identity stack (a self-nesting cycle). Otherwise enter its
/// frame, walk its registrations, record it in the added-plugins map under
/// the identity as it existed when it was entered (first addition only), and
/// restore the stack — also when the walk fails.
pub open spec fn spec_add_plugin(m: BuilderModel, def: PluginDef) -> (
    BuilderModel,
    Option<AddErrorModel>,
)
    decreases def, 2int,
{
    let ty = def.ty@;
    let m0 = spec_record_type(m, ty);
    if assoc_find(m.added, ty.0) is Some && !def.multiple {
        (
            m0,
            Some(
                AddErrorModel::AlreadyAdded {
                    current: m.stack,
                    plugin: ty.0,
                    prior: assoc_find(m.added, ty.0)->Some_0,
                },
            ),
        )
    } else if m.stack.contains(ty.0) {
        (m0, Some(AddErrorModel::WouldCycle { current: m.stack, plugin: ty.0 }))
    } else {
        let entered = BuilderModel { stack: m0.stack.push(ty.0), ..m0 };
        let walk = spec_apply_ops(entered, def.ops@);
        if walk.1 is Some {
            (BuilderModel { stack: m.stack, ..walk.0 }, walk.1)
        } else {
            let recorded = if assoc_find(walk.0.added, ty.0) is Some {
                walk.0.added
            } else {
                walk.0.added.push((ty.0, entered.stack))
            };
            (BuilderModel { stack: m.stack, added: recorded, ..walk.0 }, None)
        }
    }
}

/// Recording a name keeps the registry keys distinct.
proof fn lemma_record_type_wf(m: BuilderModel, ty: (TypeIdentity, Seq<char>))
    requires
        m.wf(),
    ensures
        spec_record_type(m, ty).wf(),
{
    let names2 = spec_record(m.names, ty);
    if assoc_find(m.names, ty.0) is None {
        crate::type_names::lemma_assoc_find_some_has(m.names, ty.0);
        assert(forall|j: int| 0 <= j < m.names.len() ==> (#[trigger] m.names[j]).0 != ty.0);
        assert(forall|j: int| 0 <= j < m.names.len() ==> names2[j] == m.names[j]);
    }
}

/// One registration step preserves well-formedness, restores the identity
/// stack, and never disturbs the added-plugins record of anything currently
/// on the stack.
proof fn lemma_apply_op_wf(m: BuilderModel, op: PluginOp)
    requires
        m.wf(),
    ensures
        ({
            let r = spec_apply_op(m, op);
            &&& r.0.wf()
            &&& r.0.stack == m.stack
            &&& forall|t: TypeIdentity|
                m.stack.contains(t) ==> #[trigger] assoc_find(r.0.added, t) == assoc_find(
                    m.added,
                    t,
                )
        }),
    decreases op, 0int,
{
    match op {
        PluginOp::AddPlugin(d) => {
            lemma_add_plugin_wf(m, *d);
        },
        PluginOp::AddUnique { ty } => {
            lemma_record_type_wf(m, ty@);
            crate::associations::lemma_buckets_assoc_wf(
                m.uniques_provided,
                ty@.0,
                ty@.1,
                spec_claim(m, "<not provided>"@),
            );
        },
        PluginOp::DependsOnUnique { ty, reason } => {
            lemma_record_type_wf(m, ty@);
            crate::associations::lemma_buckets_assoc_wf(
                m.unique_dependencies,
                ty@.0,
                ty@.1,
                spec_claim(m, reason@),
            );
        },
        PluginOp::DependsOnPlugin { ty, reason } => {
            lemma_record_type_wf(m, ty@);
        },
        PluginOp::UpdatePack { ty, reason } => {
            lemma_record_type_wf(m, ty@);
            crate::associations::lemma_buckets_assoc_wf(
                m.update_packed,
                ty@.0,
                ty@.1,
                spec_claim(m, reason@),
            );
        },
        PluginOp::Tracks { ty, reason } => {
            lemma_record_type_wf(m, ty@);
            crate::associations::lemma_buckets_assoc_wf(
                m.tracked_uniques,
                ty@.0,
                ty@.1,
                spec_claim(m, reason@),
            );
        },
        PluginOp::AddSystem { system } => {},
        PluginOp::AddResetSystem { system, reason: _ } => {},
    }
}

/// The walk of a registration list preserves well-formedness, restores the
/// identity stack, and never disturbs the added-plugins record of anything
/// currently on the stack.
proof fn lemma_apply_ops_wf(m: BuilderModel, ops: Seq<PluginOp>)
    requires
        m.wf(),
    ensures
        ({
            let r = spec_apply_ops(m, ops);
            &&& r.0.wf()
            &&& r.0.stack == m.stack
            &&& forall|t: TypeIdentity|
                m.stack.contains(t) ==> #[trigger] assoc_find(r.0.added, t) == assoc_find(
                    m.added,
                    t,
                )
        }),
    decreases ops, 1int,
{
    if ops.len() == 0 {
    } else {
        lemma_apply_op_wf(m, ops[0]);
        let step = spec_apply_op(m, ops[0]);
        if step.1 is None {
            lemma_apply_ops_wf(step.0, ops.drop_first());
        }
    }
}

/// Registering one plugin preserves well-formedness, restores the identity
/// stack, and never disturbs the added-plugins record of anything currently
/// on the stack.
proof fn lemma_add_plugin_wf(m: BuilderModel, def: PluginDef)
    requires
        m.wf(),
    ensures
        ({
            let r = spec_add_plugin(m, def);
            &&& r.0.wf()
            &&& r.0.stack == m.stack
            &&& forall|t: TypeIdentity|
                m.stack.contains(t) ==> #[trigger] assoc_find(r.0.added, t) == assoc_find(
                    m.added,
                    t,
                )
        }),
    decreases def, 2int,
{
    let ty = def.ty@;
    let m0 = spec_record_type(m, ty);
    lemma_record_type_wf(m, ty);
    if assoc_find(m.added, ty.0) is Some && !def.multiple {
    } else if m.stack.contains(ty.0) {
    } else {
        let entered = BuilderModel { stack: m0.stack.push(ty.0), ..m0 };
        assert(forall|t: TypeIdentity|
            m.stack.contains(t) ==> #[trigger] entered.stack.contains(t)) by {
            assert forall|t: TypeIdentity|
                m.stack.contains(t) implies #[trigger] entered.stack.contains(t) by {
                let j = choose|j: int| 0 <= j < m.stack.len() && m.stack[j] == t;
                assert(entered.stack[j] == t);
            }
        }
        lemma_apply_ops_wf(entered, def.ops@);
        let walk = spec_apply_ops(entered, def.ops@);
        if walk.1 is Some {
        } else {
            if assoc_find(walk.0.added, ty.0) is None {
                crate::type_names::lemma_assoc_find_some_has(walk.0.added, ty.0);
                assert(forall|j: int|
                    0 <= j < walk.0.added.len() ==> (#[trigger] walk.0.added[j]).0 != ty.0);
                let recorded = walk.0.added.push((ty.0, entered.stack));
                assert(forall|j: int| 0 <= j < walk.0.added.len() ==> recorded[j] == walk.0.added[j]);
                assert forall|t: TypeIdentity|
                    m.stack.contains(t) implies #[trigger] assoc_find(recorded, t) == assoc_find(
                    m.added,
                    t,
                ) by {
                    crate::type_names::lemma_assoc_find_push(
                        walk.0.added,
                        (ty.0, entered.stack),
                        t,
                    );
                    assert(t != ty.0);
                    assert(assoc_find(walk.0.added, t) == assoc_find(m.added, t));
                    if assoc_find(m.added, t) is None {
                        assert(assoc_find(recorded, t) is None);
                    }
                }
            }
        }
    }
}

/// Names one of the four claim ledgers.
pub enum LedgerKind {
    Providers,
    UniqueDependencies,
    UpdatePacked,
    TrackedUniques,
}

/// The claims the given ledger of `m` holds for type `t`.
pub open spec fn ledger_claims(m: BuilderModel, t: TypeIdentity, k: LedgerKind) -> Seq<ClaimModel> {
    match k {
        LedgerKind::Providers => buckets_claims(m.uniques_provided, t),
        LedgerKind::UniqueDependencies => buckets_claims(m.unique_dependencies, t),
        LedgerKind::UpdatePacked => buckets_claims(m.update_packed, t),
        LedgerKind::TrackedUniques => buckets_claims(m.tracked_uniques, t),
    }
}

/// Registrations that only record claims or systems: they never fail and
/// never enter a nested plugin.
pub open spec fn flat_claim_ops(ops: Seq<PluginOp>) -> bool {
    forall|i: int|
        0 <= i < ops.len() ==> !((#[trigger] ops[i]) is AddPlugin) && !(ops[i] is DependsOnPlugin)
}

/// Registrations that never enter a nested plugin (claims, systems, and
/// plugin dependencies).
pub open spec fn claim_ops(ops: Seq<PluginOp>) -> bool {
    forall|i: int| 0 <= i < ops.len() ==> !((#[trigger] ops[i]) is AddPlugin)
}

/// Every plugin dependency declared among the registrations is satisfied by
/// the added-plugins record.
pub open spec fn plugin_deps_satisfied(
    added: Seq<(TypeIdentity, Seq<TypeIdentity>)>,
    ops: Seq<PluginOp>,
) -> bool {
    forall|i: int|
        0 <= i < ops.len() ==> ((#[trigger] ops[i]) matches PluginOp::DependsOnPlugin {
            ty,
            ..
        } ==> assoc_find(added, ty@.0) is Some)
}

/// The claims a flat registration list contributes to the given ledger for
/// type `t`, when performed under the identity `stack`, in order.
pub open spec fn flat_claims(
    ops: Seq<PluginOp>,
    stack: Seq<TypeIdentity>,
    t: TypeIdentity,
    k: LedgerKind,
) -> Seq<ClaimModel>
    decreases ops.len(),
{
    if ops.len() == 0 {
        Seq::empty()
    } else {
        let head: Seq<ClaimModel> = match ops[0] {
            PluginOp::AddUnique { ty } => if k is Providers && ty@.0 == t {
                seq![ClaimModel { owner: stack, reason: "<not provided>"@ }]
            } else {
                Seq::empty()
            },
            PluginOp::DependsOnUnique { ty, reason } => if k is UniqueDependencies && ty@.0 == t {
                seq![ClaimModel { owner: stack, reason: reason@ }]
            } else {
                Seq::empty()
            },
            PluginOp::UpdatePack { ty, reason } => if k is UpdatePacked && ty@.0 == t {
                seq![ClaimModel { owner: stack, reason: reason@ }]
            } else {
                Seq::empty()
            },
            PluginOp::Tracks { ty, reason } => if k is TrackedUniques && ty@.0 == t {
                seq![ClaimModel { owner: stack, reason: reason@ }]
            } else {
                Seq::empty()
            },
            _ => Seq::empty(),
        };
        head + flat_claims(ops.drop_first(), stack, t, k)
    }
}

/// A flat registration list always succeeds; it leaves the identity stack
/// and the added-plugins record unchanged, and appends to each ledger
/// exactly the claims it names, under the current identity, in order.
proof fn lemma_flat_walk(m: BuilderModel, ops: Seq<PluginOp>)
    requires
        m.wf(),
        claim_ops(ops),
        plugin_deps_satisfied(m.added, ops),
    ensures
        ({
            let walk = spec_apply_ops(m, ops);
            &&& walk.1 is None
            &&& walk.0.wf()
            &&& walk.0.stack == m.stack
            &&& walk.0.added == m.added
            &&& forall|t: TypeIdentity, k: LedgerKind|
                #[trigger] ledger_claims(walk.0, t, k) == ledger_claims(m, t, k) + flat_claims(
                    ops,
                    m.stack,
                    t,
                    k,
                )
        }),
    decreases ops.len(),
{
    if ops.len() == 0 {
        assert forall|t: TypeIdentity, k: LedgerKind|
            #[trigger] ledger_claims(spec_apply_ops(m, ops).0, t, k) == ledger_claims(m, t, k)
                + flat_claims(ops, m.stack, t, k) by {
            assert(ledger_claims(m, t, k) + Seq::<ClaimModel>::empty() =~= ledger_claims(m, t, k));
        }
    } else {
        let step = spec_apply_op(m, ops[0]);
        let m1 = step.0;
        lemma_apply_op_wf(m, ops[0]);
        match ops[0] {
            PluginOp::AddUnique { ty } => {
                crate::associations::lemma_buckets_assoc_wf(
                    m.uniques_provided,
                    ty@.0,
                    ty@.1,
                    spec_claim(m, "<not provided>"@),
                );
            },
            PluginOp::DependsOnUnique { ty, reason } => {
                crate::associations::lemma_buckets_assoc_wf(
                    m.unique_dependencies,
                    ty@.0,
                    ty@.1,
                    spec_claim(m, reason@),
                );
            },
            PluginOp::UpdatePack { ty, reason } => {
                crate::associations::lemma_buckets_assoc_wf(
                    m.update_packed,
                    ty@.0,
                    ty@.1,
                    spec_claim(m, reason@),
                );
            },
            PluginOp::Tracks { ty, reason } => {
                crate::associations::lemma_buckets_assoc_wf(
                    m.tracked_uniques,
                    ty@.0,
                    ty@.1,
                    spec_claim(m, reason@),
                );
            },
            _ => {},
        }
        assert(step.1 is None);
        assert(m1.stack == m.stack);
        assert(m1.added == m.added);
        assert(forall|j: int|
            0 <= j < ops.drop_first().len() ==> !((#[trigger] ops.drop_first()[j]) is AddPlugin));
        assert forall|j: int|
            0 <= j < ops.drop_first().len() implies ((#[trigger] ops.drop_first()[j]) matches
        PluginOp::DependsOnPlugin { ty, .. } ==> assoc_find(m1.added, ty@.0) is Some) by {
            assert(ops.drop_first()[j] == ops[j + 1]);
        }
        lemma_flat_walk(m1, ops.drop_first());
        let walk = spec_apply_ops(m, ops);
        assert(walk == spec_apply_ops(m1, ops.drop_first()));
        assert forall|t: TypeIdentity, k: LedgerKind|
            #[trigger] ledger_claims(walk.0, t, k) == ledger_claims(m, t, k) + flat_claims(
                ops,
                m.stack,
                t,
                k,
            ) by {
            let h: Seq<ClaimModel> = match ops[0] {
                PluginOp::AddUnique { ty } => if k is Providers && ty@.0 == t {
                    seq![ClaimModel { owner: m.stack, reason: "<not provided>"@ }]
                } else {
                    Seq::empty()
                },
                PluginOp::DependsOnUnique { ty, reason } => if k is UniqueDependencies && ty@.0
                    == t {
                    seq![ClaimModel { owner: m.stack, reason: reason@ }]
                } else {
                    Seq::empty()
                },
                PluginOp::UpdatePack { ty, reason } => if k is UpdatePacked && ty@.0 == t {
                    seq![ClaimModel { owner: m.stack, reason: reason@ }]
                } else {
                    Seq::empty()
                },
                PluginOp::Tracks { ty, reason } => if k is TrackedUniques && ty@.0 == t {
                    seq![ClaimModel { owner: m.stack, reason: reason@ }]
                } else {
                    Seq::empty()
                },
                _ => Seq::empty(),
            };
            assert(ledger_claims(m1, t, k) == ledger_claims(m, t, k) + h) by {
                if h.len() == 0 {
                    assert(ledger_claims(m1, t, k) == ledger_claims(m, t, k));
                    assert(ledger_claims(m, t, k) + h =~= ledger_claims(m, t, k));
                } else {
                    assert(ledger_claims(m1, t, k) == ledger_claims(m, t, k).push(h[0]));
                    assert(ledger_claims(m, t, k) + h =~= ledger_claims(m, t, k).push(h[0]));
                }
            }
            assert(flat_claims(ops, m.stack, t, k) == h + flat_claims(
                ops.drop_first(),
                m.stack,
                t,
                k,
            ));
            assert(ledger_claims(walk.0, t, k) == ledger_claims(m1, t, k) + flat_claims(
                ops.drop_first(),
                m.stack,
                t,
                k,
            ));
            assert((ledger_claims(m, t, k) + h) + flat_claims(ops.drop_first(), m.stack, t, k)
                =~= ledger_claims(m, t, k) + (h + flat_claims(ops.drop_first(), m.stack, t, k)));
        }
    }
}

/// A flat claim registration list is in particular free of nested plugin
/// additions, and declares no plugin dependency at all.
proof fn lemma_flat_prefix_conditions(m: BuilderModel, ops: Seq<PluginOp>)
    requires
        flat_claim_ops(ops),
    ensures
        claim_ops(ops),
        plugin_deps_satisfied(m.added, ops),
{
    assert forall|i: int|
        0 <= i < ops.len() implies ((#[trigger] ops[i]) matches PluginOp::DependsOnPlugin {
        ty,
        ..
    } ==> assoc_find(m.added, ty@.0) is Some) by {
        assert(!(ops[i] is DependsOnPlugin));
    }
}

/// Splits the walk of a registration list at position `i`, provided the
/// first `i` registrations succeed.
proof fn lemma_apply_ops_split(m: BuilderModel, ops: Seq<PluginOp>, i: int)
    requires
        0 <= i <= ops.len(),
        spec_apply_ops(m, ops.take(i)).1 is None,
    ensures
        spec_apply_ops(m, ops) == spec_apply_ops(spec_apply_ops(m, ops.take(i)).0, ops.skip(i)),
    decreases i,
{
    if i == 0 {
        assert(ops.take(0) =~= Seq::<PluginOp>::empty());
        assert(ops.skip(0) =~= ops);
        assert(spec_apply_ops(m, ops.take(0)).0 == m);
    } else {
        assert(ops.take(i).len() > 0);
        assert(ops.take(i)[0] == ops[0]);
        assert(ops.len() > 0);
        let step = spec_apply_op(m, ops[0]);
        assert(step.1 is None) by {
            if step.1 is Some {
                assert(spec_apply_ops(m, ops.take(i)) == step);
            }
        }
        assert(ops.take(i).drop_first() =~= ops.drop_first().take(i - 1));
        assert(ops.skip(i) =~= ops.drop_first().skip(i - 1));
        assert(spec_apply_ops(m, ops.take(i)) == spec_apply_ops(
            step.0,
            ops.drop_first().take(i - 1),
        ));
        lemma_apply_ops_split(step.0, ops.drop_first(), i - 1);
        assert(spec_apply_ops(m, ops) == spec_apply_ops(step.0, ops.drop_first()));
    }
}

/// Law: a plugin type that does not allow multiple additions cannot be
/// added twice to the same builder. After one successful addition of a
/// previously unseen plugin type, adding any plugin of the same type again
/// fails with an already-added error naming the identity under which the
/// first addition was recorded.
pub proof fn lemma_duplicate_plugin_refused(m: BuilderModel, def1: PluginDef, def2: PluginDef)
    requires
        m.wf(),
        assoc_find(m.added, def1.ty@.0) is None,
        spec_add_plugin(m, def1).1 is None,
        def2.ty@.0 == def1.ty@.0,
        !def2.multiple,
    ensures
        spec_add_plugin(spec_add_plugin(m, def1).0, def2).1 == Some(
            AddErrorModel::AlreadyAdded {
                current: m.stack,
                plugin: def1.ty@.0,
                prior: m.stack.push(def1.ty@.0),
            },
        ),
{
    let t = def1.ty@.0;
    let m0 = spec_record_type(m, def1.ty@);
    let entered = BuilderModel { stack: m0.stack.push(t), ..m0 };
    let walk = spec_apply_ops(entered, def1.ops@);
    lemma_record_type_wf(m, def1.ty@);
    lemma_apply_ops_wf(entered, def1.ops@);
    assert(entered.stack.contains(t)) by {
        assert(entered.stack[entered.stack.len() - 1] == t);
    }
    assert(assoc_find(walk.0.added, t) == assoc_find(m.added, t));
    let mid = spec_add_plugin(m, def1).0;
    assert(mid.added == walk.0.added.push((t, entered.stack)));
    crate::type_names::lemma_assoc_find_push(walk.0.added, (t, entered.stack), t);
    assert(assoc_find(mid.added, t) == Some(entered.stack));
    assert(mid.stack == m.stack);
    lemma_add_plugin_wf(m, def1);
}

/// Law: a plugin type that allows multiple additions can be added twice to
/// the same builder. Both additions succeed, and the claims of both
/// additions are recorded one after the other — claims are recorded per
/// occurrence, never deduplicated. Stated for plugins that register claims,
/// systems and satisfied plugin dependencies (no nested plugin additions).
pub proof fn lemma_multiple_addable_added_twice(m: BuilderModel, def: PluginDef)
    requires
        m.wf(),
        def.multiple,
        !m.stack.contains(def.ty@.0),
        claim_ops(def.ops@),
        plugin_deps_satisfied(m.added, def.ops@),
    ensures
        spec_add_plugin(m, def).1 is None,
        spec_add_plugin(spec_add_plugin(m, def).0, def).1 is None,
        forall|t: TypeIdentity, k: LedgerKind|
            #[trigger] ledger_claims(spec_add_plugin(spec_add_plugin(m, def).0, def).0, t, k)
                == ledger_claims(m, t, k) + flat_claims(
                def.ops@,
                m.stack.push(def.ty@.0),
                t,
                k,
            ) + flat_claims(def.ops@, m.stack.push(def.ty@.0), t, k),
{
    let t = def.ty@.0;
    let m0 = spec_record_type(m, def.ty@);
    lemma_record_type_wf(m, def.ty@);
    let entered1 = BuilderModel { stack: m0.stack.push(t), ..m0 };
    lemma_flat_walk(entered1, def.ops@);
    let walk1 = spec_apply_ops(entered1, def.ops@);
    let mid = spec_add_plugin(m, def).0;
    assert(spec_add_plugin(m, def).1 is None);
    assert(mid.stack == m.stack);
    lemma_add_plugin_wf(m, def);
    assert(mid.wf());
    let mid0 = spec_record_type(mid, def.ty@);
    lemma_record_type_wf(mid, def.ty@);
    let entered2 = BuilderModel { stack: mid0.stack.push(t), ..mid0 };
    assert(entered2.stack == entered1.stack);
    assert forall|j: int|
        0 <= j < def.ops@.len() implies ((#[trigger] def.ops@[j]) matches
    PluginOp::DependsOnPlugin { ty, .. } ==> assoc_find(entered2.added, ty@.0) is Some) by {
        match def.ops@[j] {
            PluginOp::DependsOnPlugin { ty: dep_ty, reason: _ } => {
                assert(assoc_find(m.added, dep_ty@.0) is Some);
                assert(walk1.0.added == m.added);
                if mid.added != walk1.0.added {
                    crate::type_names::lemma_assoc_find_push(
                        walk1.0.added,
                        (t, entered1.stack),
                        dep_ty@.0,
                    );
                }
            },
            _ => {},
        }
    }
    lemma_flat_walk(entered2, def.ops@);
    let walk2 = spec_apply_ops(entered2, def.ops@);
    assert(spec_add_plugin(mid, def).1 is None);
    let fin = spec_add_plugin(mid, def).0;
    assert forall|t2: TypeIdentity, k: LedgerKind|
        #[trigger] ledger_claims(fin, t2, k) == ledger_claims(m, t2, k) + flat_claims(
            def.ops@,
            m.stack.push(t),
            t2,
            k,
        ) + flat_claims(def.ops@, m.stack.push(t), t2, k) by {
        let c = flat_claims(def.ops@, m.stack.push(t), t2, k);
        assert(ledger_claims(entered1, t2, k) == ledger_claims(m, t2, k));
        assert(ledger_claims(walk1.0, t2, k) == ledger_claims(m, t2, k) + c);
        assert(ledger_claims(mid, t2, k) == ledger_claims(walk1.0, t2, k));
        assert(ledger_claims(entered2, t2, k) == ledger_claims(mid, t2, k));
        assert(ledger_claims(walk2.0, t2, k) == ledger_claims(entered2, t2, k) + c);
        assert(ledger_claims(fin, t2, k) == ledger_claims(walk2.0, t2, k));
    }
}

/// Law: a plugin that attempts to add itself again — here directly among
/// its own registrations — before its own build has finished is refused
/// with a would-cause-a-cycle error carrying the identity path that was
/// current at the nested attempt. Stated for a previously unseen plugin
/// type whose registrations before the self-addition are flat claim
/// registrations.
pub proof fn lemma_self_nesting_refused(m: BuilderModel, def: PluginDef, i: int)
    requires
        m.wf(),
        assoc_find(m.added, def.ty@.0) is None,
        !m.stack.contains(def.ty@.0),
        0 <= i < def.ops@.len(),
        flat_claim_ops(def.ops@.take(i)),
        def.ops@[i] matches PluginOp::AddPlugin(d) && d.ty@.0 == def.ty@.0,
    ensures
        spec_add_plugin(m, def).1 == Some(
            AddErrorModel::WouldCycle {
                current: m.stack.push(def.ty@.0),
                plugin: def.ty@.0,
            },
        ),
{
    let t = def.ty@.0;
    let m0 = spec_record_type(m, def.ty@);
    lemma_record_type_wf(m, def.ty@);
    let entered = BuilderModel { stack: m0.stack.push(t), ..m0 };
    let ops = def.ops@;
    lemma_flat_prefix_conditions(entered, ops.take(i));
    lemma_flat_walk(entered, ops.take(i));
    let mid = spec_apply_ops(entered, ops.take(i)).0;
    lemma_apply_ops_split(entered, ops, i);
    assert(spec_apply_ops(entered, ops) == spec_apply_ops(mid, ops.skip(i)));
    assert(ops.skip(i).len() > 0);
    assert(ops.skip(i)[0] == ops[i]);
    let d = ops[i]->AddPlugin_0;
    let inner = spec_add_plugin(mid, *d);
    assert(assoc_find(mid.added, t) is None);
    assert(mid.stack == entered.stack);
    assert(mid.stack.contains(t)) by {
        assert(mid.stack[mid.stack.len() - 1] == t);
    }
    assert(inner.1 == Some(
        AddErrorModel::WouldCycle { current: entered.stack, plugin: t },
    ));
    assert(spec_apply_op(mid, ops[i]) == inner);
    assert(spec_apply_ops(mid, ops.skip(i)) == inner);
    assert(entered.stack == m.stack.push(t));
}

/// A registration walk of `d`, entered over `stack` with the added-plugins
/// record `added`, reaches an attempt to add a plugin type that is already
/// on the identity stack: directly among `d`'s registrations, or through a
/// chain of nested additions. The registrations before each nested addition
/// on the chain are flat claim registrations, and each nested plugin on the
/// chain is previously unseen (so nothing fails earlier for another
/// reason).
pub open spec fn spec_leads_to_cycle(
    stack: Seq<TypeIdentity>,
    added: Seq<(TypeIdentity, Seq<TypeIdentity>)>,
    d: PluginDef,
) -> bool
    decreases d,
{
    let stack1 = stack.push(d.ty@.0);
    exists|i: int|
        #![trigger d.ops@[i]]
        0 <= i < d.ops@.len() && flat_claim_ops(d.ops@.take(i)) && (d.ops@[i] matches
        PluginOp::AddPlugin(c) && {
            &&& assoc_find(added, c.ty@.0) is None
            &&& (stack1.contains(c.ty@.0) || spec_leads_to_cycle(stack1, added, *c))
        })
}

/// Law: a plugin that attempts to add itself — directly or through any
/// chain of nested additions — before its own build has finished is
/// refused with a would-cause-a-cycle error.
pub proof fn lemma_nested_self_addition_refused(m: BuilderModel, def: PluginDef)
    requires
        m.wf(),
        assoc_find(m.added, def.ty@.0) is None,
        !m.stack.contains(def.ty@.0),
        spec_leads_to_cycle(m.stack, m.added, def),
    ensures
        spec_add_plugin(m, def).1 matches Some(AddErrorModel::WouldCycle { .. }),
    decreases def,
{
    let t = def.ty@.0;
    let m0 = spec_record_type(m, def.ty@);
    lemma_record_type_wf(m, def.ty@);
    let entered = BuilderModel { stack: m0.stack.push(t), ..m0 };
    let ops = def.ops@;
    let stack1 = m.stack.push(t);
    let i = choose|i: int|
        #![trigger def.ops@[i]]
        0 <= i < def.ops@.len() && flat_claim_ops(def.ops@.take(i)) && (def.ops@[i] matches
        PluginOp::AddPlugin(c) && {
            &&& assoc_find(m.added, c.ty@.0) is None
            &&& (stack1.contains(c.ty@.0) || spec_leads_to_cycle(stack1, m.added, *c))
        });
    lemma_flat_prefix_conditions(entered, ops.take(i));
    lemma_flat_walk(entered, ops.take(i));
    let mid = spec_apply_ops(entered, ops.take(i)).0;
    lemma_apply_ops_split(entered, ops, i);
    assert(spec_apply_ops(entered, ops) == spec_apply_ops(mid, ops.skip(i)));
    assert(ops.skip(i).len() > 0);
    assert(ops.skip(i)[0] == ops[i]);
    let c = ops[i]->AddPlugin_0;
    let inner = spec_add_plugin(mid, *c);
    assert(mid.stack == entered.stack);
    assert(entered.stack == stack1);
    assert(mid.added == m.added);
    if stack1.contains(c.ty@.0) {
        assert(inner.1 matches Some(AddErrorModel::WouldCycle { .. }));
    } else {
        assert(mid.wf());
        lemma_nested_self_addition_refused(mid, *c);
        assert(inner.1 matches Some(AddErrorModel::WouldCycle { .. }));
    }
    assert(spec_apply_op(mid, ops[i]) == inner);
    assert(spec_apply_ops(mid, ops.skip(i)) == inner);
    assert(spec_add_plugin(m, def).1 == inner.1);
}

/// Law: at finish, the unmet-dependency list is empty exactly when every
/// unique type with recorded dependents has at least one provider; and it
/// holds exactly the dependency entries whose type has no provider — every
/// such type is listed with all of its dependents, regardless of how many
/// dependents a provided type has.
pub proof fn lemma_unmet_deps_characterization(
    deps: Seq<BucketModel<ClaimModel>>,
    providers: Seq<BucketModel<ClaimModel>>,
)
    ensures
        (spec_unmet_deps(deps, providers).len() == 0 <==> (forall|j: int|
            0 <= j < deps.len() ==> buckets_has(providers, (#[trigger] deps[j]).0))),
        forall|x: BucketModel<ClaimModel>|
            #[trigger] spec_unmet_deps(deps, providers).contains(x) <==> (deps.contains(x)
                && !buckets_has(providers, x.0)),
    decreases deps.len(),
{
    let unmet = spec_unmet_deps(deps, providers);
    if deps.len() == 0 {
        assert(forall|x: BucketModel<ClaimModel>| !deps.contains(x));
    } else {
        lemma_unmet_deps_characterization(deps.drop_first(), providers);
        let rest = spec_unmet_deps(deps.drop_first(), providers);
        if unmet.len() == 0 {
            assert(buckets_has(providers, deps[0].0));
            assert forall|j: int| 0 <= j < deps.len() implies buckets_has(
                providers,
                (#[trigger] deps[j]).0,
            ) by {
                if j > 0 {
                    assert(deps.drop_first()[j - 1] == deps[j]);
                }
            }
        }
        if forall|j: int| 0 <= j < deps.len() ==> buckets_has(providers, (#[trigger] deps[j]).0) {
            assert(forall|j: int|
                0 <= j < deps.drop_first().len() ==> buckets_has(
                    providers,
                    (#[trigger] deps.drop_first()[j]).0,
                ));
            assert(unmet.len() == 0);
        }
        assert forall|x: BucketModel<ClaimModel>| #[trigger]
            unmet.contains(x) implies (deps.contains(x) && !buckets_has(providers, x.0)) by {
            if !buckets_has(providers, deps[0].0) {
                assert(unmet == seq![deps[0]] + rest);
                let j = choose|j: int| 0 <= j < unmet.len() && unmet[j] == x;
                if j == 0 {
                    assert(x == deps[0]);
                    assert(deps[0] == deps[0]);
                } else {
                    assert(rest[j - 1] == x);
                    assert(rest.contains(x));
                    let j2 = choose|j2: int|
                        0 <= j2 < deps.drop_first().len() && deps.drop_first()[j2] == x;
                    assert(deps[j2 + 1] == x);
                }
            } else {
                assert(rest.contains(x));
                let j2 = choose|j2: int|
                    0 <= j2 < deps.drop_first().len() && deps.drop_first()[j2] == x;
                assert(deps[j2 + 1] == x);
            }
        }
        assert forall|x: BucketModel<ClaimModel>|
            (deps.contains(x) && !buckets_has(providers, x.0)) implies #[trigger] unmet.contains(
            x,
        ) by {
            let j = choose|j: int| 0 <= j < deps.len() && deps[j] == x;
            if j == 0 {
                assert(unmet == seq![deps[0]] + rest);
                assert(unmet[0] == x);
            } else {
                assert(deps.drop_first()[j - 1] == x);
                assert(deps.drop_first().contains(x));
                assert(rest.contains(x));
                let j2 = choose|j2: int| 0 <= j2 < rest.len() && rest[j2] == x;
                if !buckets_has(providers, deps[0].0) {
                    assert(unmet == seq![deps[0]] + rest);
                    assert(unmet[j2 + 1] == x);
                } else {
                    assert(unmet == rest);
                }
            }
        }
    }
}

/// Whether registering `def` against the builder state `pre` leads exactly
/// to the state `post` with the outcome `r`.
pub open spec fn spec_add_outcome(
    pre: BuilderModel,
    def: PluginDef,
    post: BuilderModel,
    r: Result<(), AddPluginError>,
) -> bool {
    let s = spec_add_plugin(pre, def);
    &&& post == s.0
    &&& match r {
        Ok(_) => s.1 is None,
        Err(e) => s.1 == Some(e@),
    }
}

/// Configures composed units of work using the builder pattern. All checks
/// on registrations happen here; the world only ever sees a composition that
/// passed them.
#[derive(Debug)]
pub struct AppBuilder {
    resets: Vec<SystemDesc>,
    systems: Vec<SystemDesc>,
    /// the plugins previously added, recorded under the identity current
    /// when each was entered, to check plugin peer dependencies
    track_added_plugins: Vec<(TypeIdentity, PluginId)>,
    /// the identity stack of the plugin currently being built
    track_current_plugin: PluginId,
    /// record of type display names as they are encountered, for diagnostics
    track_type_names: TypeNames,
    /// unique value type to the plugins that provided a value for it
    track_uniques_provided: TypeIdBuckets<PluginAssociated>,
    /// unique value type to the plugins depending on it, with their reasons
    track_unique_dependencies: TypeIdBuckets<PluginAssociated>,
    /// update-tracked storage type to the plugins claiming it
    track_update_packed: TypeIdBuckets<PluginAssociated>,
    /// tracked unique value type to the plugins claiming it
    track_tracked_uniques: TypeIdBuckets<PluginAssociated>,
    /// unique value installations, in registration order
    installs: Vec<TypeIdentity>,
}

proof fn lemma_builder_wf_parts(b: &AppBuilder)
    requires
        b.wf(),
    ensures
        b.track_type_names.wf(),
        b.track_uniques_provided.wf(),
        b.track_unique_dependencies.wf(),
        b.track_update_packed.wf(),
        b.track_tracked_uniques.wf(),
{
    assert(b.model().names == b.track_type_names@);
    assert(b.model().uniques_provided == b.track_uniques_provided@);
    assert(b.model().unique_dependencies == b.track_unique_dependencies@);
    assert(b.model().update_packed == b.track_update_packed@);
    assert(b.model().tracked_uniques == b.track_tracked_uniques@);
}

impl AppBuilder {
    /// The mathematical state this builder has accumulated.
    pub closed spec fn model(self) -> BuilderModel {
        BuilderModel {
            names: self.track_type_names@,
            stack: self.track_current_plugin@,
            added: added_view(self.track_added_plugins@),
            systems: systems_view(self.systems@),
            resets: systems_view(self.resets@),
            installs: self.installs@,
            uniques_provided: self.track_uniques_provided@,
            unique_dependencies: self.track_unique_dependencies@,
            update_packed: self.track_update_packed@,
            tracked_uniques: self.track_tracked_uniques@,
        }
    }

    pub open spec fn wf(self) -> bool {
        self.model().wf()
    }

    pub fn new(app: &App) -> (r: AppBuilder)
        ensures
            r.wf(),
            r.model() =~~= spec_empty_model(),
    {
        AppBuilder::empty(app)
    }

    fn empty(_app: &App) -> (r: AppBuilder)
        ensures
            r.wf(),
            r.model() =~~= spec_empty_model(),
    {
        let r = AppBuilder {
            resets: Vec::new(),
            systems: Vec::new(),
            track_added_plugins: Vec::new(),
            track_current_plugin: PluginId::new(),
            track_type_names: TypeNames::new(),
            track_uniques_provided: TypeIdBuckets::new("Plugin provides Unique"),
            track_unique_dependencies: TypeIdBuckets::new("Plugin depends on Unique"),
            track_update_packed: TypeIdBuckets::new("Plugin requires update_pack"),
            track_tracked_uniques: TypeIdBuckets::new("Plugin tracks Unique"),
            installs: Vec::new(),
        };
        proof {
            assert(r.model() =~~= spec_empty_model());
        }
        r
    }

    /// The identity path of the plugin currently being built.
    pub fn current_plugin(&self) -> (r: &PluginId)
        ensures
            r@ == self.model().stack,
    {
        &self.track_current_plugin
    }

    /// The display name recorded for a type identity, if it has been seen.
    pub fn lookup_name(&self, ty: &TypeIdentity) -> (r: Option<&String>)
        requires
            self.wf(),
        ensures
            match r {
                Some(name) => assoc_find(self.model().names, *ty) == Some(name@),
                None => assoc_find(self.model().names, *ty) is None,
            },
    {
        self.track_type_names.lookup_name(ty)
    }

    /// The identity a previously added plugin type was recorded under.
    fn lookup_added(&self, ty: TypeIdentity) -> (r: Option<&PluginId>)
        requires
            self.wf(),
        ensures
            match r {
                Some(p) => assoc_find(self.model().added, ty) == Some(p@),
                None => assoc_find(self.model().added, ty) is None,
            },
    {
        let n = self.track_added_plugins.len();
        let mut i: usize = 0;
        while i < n
            invariant
                n == self.track_added_plugins.len(),
                0 <= i <= n,
                forall|j: int| 0 <= j < i ==> (#[trigger] self.model().added[j]).0 != ty,
            decreases n - i,
        {
            if self.track_added_plugins[i].0.key == ty.key {
                proof {
                    assert(self.model().added[i as int].0 == ty);
                    crate::type_names::lemma_assoc_find_at(self.model().added, ty, i as int);
                }
                return Some(&self.track_added_plugins[i].1);
            }
            i += 1;
        }
        proof {
            crate::type_names::lemma_assoc_find_none(self.model().added, ty);
        }
        None
    }

    /// Provide a unique value of the given type. The claim is recorded under
    /// the current plugin identity; if this is not the first provider, the
    /// installation still occurs (last writer wins) and the result reports
    /// the duplicate so callers can surface a diagnostic.
    pub fn add_unique(&mut self, ty: &TypeRef) -> (r: AssociateResult)
        requires
            old(self).wf(),
        ensures
            final(self).wf(),
            final(self).model() =~~= spec_add_unique(old(self).model(), ty@),
            r == AssociateResult::First <==> !buckets_has(
                old(self).model().uniques_provided,
                ty.ident,
            ),
    {
        proof {
            lemma_builder_wf_parts(self);
        }
        let _ = self.track_type_names.tracked_type_id_of(ty);
        let claim = PluginAssociated {
            plugin: self.track_current_plugin.clone(),
            reason: "<not provided>".to_owned(),
        };
        let res = self.track_uniques_provided.associate(ty, claim);
        self.installs.push(ty.ident);
        proof {
            assert(final(self).model() =~~= spec_add_unique(old(self).model(), ty@));
        }
        res
    }

    /// Declare that this composed unit depends on the unique value of the
    /// given type being provided before finish.
    pub fn depends_on_unique(&mut self, ty: &TypeRef, dependency_reason: &str)
        requires
            old(self).wf(),
        ensures
            final(self).wf(),
            final(self).model() =~~= spec_depends_on_unique(
                old(self).model(),
                ty@,
                dependency_reason@,
            ),
    {
        proof {
            lemma_builder_wf_parts(self);
        }
        let _ = self.track_type_names.tracked_type_id_of(ty);
        let claim = PluginAssociated {
            plugin: self.track_current_plugin.clone(),
            reason: dependency_reason.to_owned(),
        };
        let _ = self.track_unique_dependencies.associate(ty, claim);
        proof {
            assert(final(self).model() =~~= spec_depends_on_unique(
                old(self).model(),
                ty@,
                dependency_reason@,
            ));
        }
    }

    /// Declare that this builder depends on the given plugin having been
    /// added already; fails (aborting the composition) otherwise.
    pub fn depends_on_plugin(&mut self, ty: &TypeRef, dependency_reason: &str) -> (r: Result<
        (),
        AddPluginError,
    >)
        requires
            old(self).wf(),
        ensures
            final(self).wf(),
            final(self).model() =~~= spec_depends_on_plugin(
                old(self).model(),
                ty@,
                dependency_reason@,
            ).0,
            match r {
                Ok(_) => spec_depends_on_plugin(old(self).model(), ty@, dependency_reason@).1
                    is None,
                Err(e) => spec_depends_on_plugin(old(self).model(), ty@, dependency_reason@).1
                    == Some(e@),
            },
    {
        proof {
            lemma_builder_wf_parts(self);
        }
        let ty_ident = self.track_type_names.tracked_type_id_of(ty);
        let missing = self.lookup_added(ty_ident).is_none();
        if missing {
            let e = AddPluginError::MissingPluginDependency {
                current: self.track_current_plugin.clone(),
                plugin: ty_ident,
                reason: dependency_reason.to_owned(),
            };
            proof {
                assert(final(self).model() =~~= spec_depends_on_plugin(
                    old(self).model(),
                    ty@,
                    dependency_reason@,
                ).0);
            }
            return Err(e);
        }
        proof {
            assert(final(self).model() =~~= spec_depends_on_plugin(
                old(self).model(),
                ty@,
                dependency_reason@,
            ).0);
        }
        Ok(())
    }

    /// Claim exclusive update tracking of the storage with the given
    /// component type. Only the first claim schedules the reset system that
    /// clears the tracking at the end of every execution; later claims are
    /// recorded without re-scheduling it.
    pub fn update_pack(&mut self, ty: &TypeRef, reason: &str) -> (r: AssociateResult)
        requires
            old(self).wf(),
        ensures
            final(self).wf(),
            final(self).model() =~~= spec_update_pack(old(self).model(), ty@, reason@),
            r == AssociateResult::First <==> !buckets_has(
                old(self).model().update_packed,
                ty.ident,
            ),
    {
        proof {
            lemma_builder_wf_parts(self);
        }
        let _ = self.track_type_names.tracked_type_id_of(ty);
        let claim = PluginAssociated {
            plugin: self.track_current_plugin.clone(),
            reason: reason.to_owned(),
        };
        let res = self.track_update_packed.associate(ty, claim);
        if res.is_first() {
            self.resets.push(SystemDesc::ResetUpdatePack(ty.ident));
            proof {
                assert(systems_view(self.resets@) =~= systems_view(old(self).resets@).push(
                    SystemModel::ResetUpdatePack(ty.ident),
                ));
            }
        }
        proof {
            assert(final(self).model() =~~= spec_update_pack(old(self).model(), ty@, reason@));
        }
        res
    }

    /// Claim exclusive tracking of the unique value with the given type.
    /// Only the first claim schedules the reset system that clears the
    /// change flag at the end of every execution.
    pub fn tracks(&mut self, ty: &TypeRef, reason: &str) -> (r: AssociateResult)
        requires
            old(self).wf(),
        ensures
            final(self).wf(),
            final(self).model() =~~= spec_tracks(old(self).model(), ty@, reason@),
            r == AssociateResult::First <==> !buckets_has(
                old(self).model().tracked_uniques,
                ty.ident,
            ),
    {
        proof {
            lemma_builder_wf_parts(self);
        }
        let _ = self.track_type_names.tracked_type_id_of(ty);
        let claim = PluginAssociated {
            plugin: self.track_current_plugin.clone(),
            reason: reason.to_owned(),
        };
        let res = self.track_tracked_uniques.associate(ty, claim);
        if res.is_first() {
            self.resets.push(SystemDesc::ResetTrackedUnique(ty.ident));
            proof {
                assert(systems_view(self.resets@) =~= systems_view(old(self).resets@).push(
                    SystemModel::ResetTrackedUnique(ty.ident),
                ));
            }
        }
        proof {
            assert(final(self).model() =~~= spec_tracks(old(self).model(), ty@, reason@));
        }
        res
    }

    /// Register an ordinary system.
    pub fn add_system(&mut self, system: SystemDesc)
        requires
            old(self).wf(),
        ensures
            final(self).wf(),
            final(self).model() =~~= spec_add_system(old(self).model(), system@),
    {
        let ghost sys_model = system@;
        self.systems.push(system);
        proof {
            assert(systems_view(self.systems@) =~= systems_view(old(self).systems@).push(sys_model));
            assert(final(self).model() =~~= spec_add_system(old(self).model(), sys_model));
        }
    }

    /// Performs one of a plugin's registrations.
    fn apply_op(&mut self, op: &PluginOp) -> (r: Result<(), AddPluginError>)
        requires
            old(self).wf(),
        ensures
            final(self).wf(),
            final(self).model() == spec_apply_op(old(self).model(), *op).0,
            match r {
                Ok(_) => spec_apply_op(old(self).model(), *op).1 is None,
                Err(e) => spec_apply_op(old(self).model(), *op).1 == Some(e@),
            },
        decreases *op, 0int,
    {
        match op {
            PluginOp::AddPlugin(d) => self.add_plugin_def(d),
            PluginOp::AddUnique { ty } => {
                let _ = self.add_unique(ty);
                Ok(())
            },
            PluginOp::DependsOnUnique { ty, reason } => {
                self.depends_on_unique(ty, reason.as_str());
                Ok(())
            },
            PluginOp::DependsOnPlugin { ty, reason } => self.depends_on_plugin(
                ty,
                reason.as_str(),
            ),
            PluginOp::UpdatePack { ty, reason } => {
                let _ = self.update_pack(ty, reason.as_str());
                Ok(())
            },
            PluginOp::Tracks { ty, reason } => {
                let _ = self.tracks(ty, reason.as_str());
                Ok(())
            },
            PluginOp::AddSystem { system } => {
                self.add_system(system.clone());
                Ok(())
            },
            PluginOp::AddResetSystem { system, reason } => {
                self.add_reset_system(system.clone(), reason.as_str());
                Ok(())
            },
        }
    }

    /// Registers a plugin described by `def`: refuses a duplicate addition
    /// of a type that forbids them, refuses a self-nesting cycle, and
    /// otherwise enters the plugin's identity frame, performs its
    /// registrations in order, records it as added, and restores the frame —
    /// also when a nested registration fails.
    #[verifier::loop_isolation(false)]
    pub fn add_plugin_def(&mut self, def: &PluginDef) -> (r: Result<(), AddPluginError>)
        requires
            old(self).wf(),
        ensures
            final(self).wf(),
            final(self).model() == spec_add_plugin(old(self).model(), *def).0,
            match r {
                Ok(_) => spec_add_plugin(old(self).model(), *def).1 is None,
                Err(e) => spec_add_plugin(old(self).model(), *def).1 == Some(e@),
            },
            final(self).model().stack == old(self).model().stack,
        decreases *def, 1int,
    {
        proof {
            lemma_builder_wf_parts(self);
            lemma_add_plugin_wf(old(self).model(), *def);
        }
        let ty_ident = self.track_type_names.tracked_type_id_of(&def.ty);
        let prior: Option<PluginId> = match self.lookup_added(ty_ident) {
            Some(p) => Some(p.clone()),
            None => None,
        };
        let was_added = prior.is_some();
        if !def.multiple {
            if let Some(prior_id) = prior {
                let e = AddPluginError::AlreadyAdded {
                    current: self.track_current_plugin.clone(),
                    plugin: ty_ident,
                    prior: prior_id,
                };
                proof {
                    assert(final(self).model() =~~= spec_add_plugin(old(self).model(), *def).0);
                }
                return Err(e);
            }
        }
        if self.track_current_plugin.contains(ty_ident) {
            let e = AddPluginError::WouldCycle {
                current: self.track_current_plugin.clone(),
                plugin: ty_ident,
            };
            proof {
                assert(final(self).model() =~~= spec_add_plugin(old(self).model(), *def).0);
            }
            return Err(e);
        }
        self.track_current_plugin.push(ty_ident);
        let ghost entered = self.model();
        let ghost walk = spec_apply_ops(entered, def.ops@);
        proof {
            assert(entered =~~= (BuilderModel {
                stack: spec_record_type(old(self).model(), def.ty@).stack.push(ty_ident),
                ..spec_record_type(old(self).model(), def.ty@)
            }));
            assert(def.ops@.skip(0) =~= def.ops@);
            lemma_apply_ops_wf(entered, def.ops@);
        }
        let n = def.ops.len();
        let mut i: usize = 0;
        while i < n
            invariant
                n == def.ops.len(),
                0 <= i <= n,
                self.wf(),
                walk == spec_apply_ops(entered, def.ops@),
                spec_apply_ops(self.model(), def.ops@.skip(i as int)) == walk,
                self.model().stack == entered.stack,
                entered.stack.len() > 0,
            decreases n - i,
        {
            let ghost pre = self.model();
            proof {
                lemma_builder_wf_parts(self);
                assert(def.ops@.skip(i as int).len() > 0);
                assert(def.ops@.skip(i as int)[0] == def.ops@[i as int]);
                assert(def.ops@.skip(i as int).drop_first() =~= def.ops@.skip(i as int + 1));
                lemma_apply_op_wf(pre, def.ops@[i as int]);
            }
            match self.apply_op(&def.ops[i]) {
                Ok(_) => {},
                Err(e) => {
                    proof {
                        assert(spec_apply_ops(pre, def.ops@.skip(i as int)) == (
                            self.model(),
                            Some(e@),
                        ));
                        assert(walk.1 == Some(e@));
                        assert(walk.0 == self.model());
                    }
                    self.track_current_plugin.pop();
                    proof {
                        assert(final(self).model().stack =~= old(self).model().stack);
                        assert(final(self).model() =~~= (BuilderModel {
                            stack: old(self).model().stack,
                            ..walk.0
                        }));
                        assert(final(self).model() =~~= spec_add_plugin(
                            old(self).model(),
                            *def,
                        ).0);
                    }
                    return Err(e);
                },
            }
            i += 1;
        }
        proof {
            assert(def.ops@.skip(n as int) =~= Seq::<PluginOp>::empty());
            assert(spec_apply_ops(self.model(), def.ops@.skip(n as int)) == (self.model(), None::<
                AddErrorModel,
            >));
            assert(walk.1 is None);
            assert(walk.0 == self.model());
            assert(assoc_find(walk.0.added, ty_ident) == assoc_find(old(self).model().added, ty_ident))
                by {
                assert(entered.stack.contains(ty_ident)) by {
                    assert(entered.stack[entered.stack.len() - 1] == ty_ident);
                }
                lemma_apply_ops_wf(entered, def.ops@);
            }
        }
        if !was_added {
            let ghost added_before = self.track_added_plugins@;
            let recorded_under = self.track_current_plugin.clone();
            self.track_added_plugins.push((ty_ident, recorded_under));
            proof {
                assert(added_view(self.track_added_plugins@) =~= added_view(added_before).push(
                    (ty_ident, entered.stack),
                ));
            }
        }
        self.track_current_plugin.pop();
        proof {
            assert(final(self).model() =~~= spec_add_plugin(old(self).model(), *def).0);
        }
        Ok(())
    }

    /// Registers a plugin through its [`Plugin::build`] descriptor.
    pub fn add_plugin<P: Plugin>(&mut self, plugin: &P) -> (r: Result<(), AddPluginError>)
        requires
            old(self).wf(),
        ensures
            final(self).wf(),
            final(self).model().stack == old(self).model().stack,
            exists|def: PluginDef|
                #[trigger] spec_add_outcome(old(self).model(), def, final(self).model(), r),
    {
        let def = plugin.build();
        let r = self.add_plugin_def(&def);
        proof {
            let ghost dg = def;
            assert(spec_add_outcome(old(self).model(), dg, final(self).model(), r));
        }
        r
    }

    /// Register a system that must run among the absolute last systems.
    pub fn add_reset_system(&mut self, system: SystemDesc, _reason: &str)
        requires
            old(self).wf(),
        ensures
            final(self).wf(),
            final(self).model() =~~= spec_add_reset_system(old(self).model(), system@),
    {
        let ghost sys_model = system@;
        self.resets.push(system);
        proof {
            assert(systems_view(self.resets@) =~= systems_view(old(self).resets@).push(sys_model));
            assert(final(self).model() =~~= spec_add_reset_system(old(self).model(), sys_model));
        }
    }

    /// Finish the composition into one runnable unit of work.
    ///
    /// Fails exactly when some unique value has recorded dependents but no
    /// provider, listing every unmet type together with every dependent that
    /// required it. On success the unit's systems are the registered systems
    /// in order followed by all scheduled resets, so resets always run last.
    pub fn finish(self) -> (r: Result<AppWorkload, FinishError>)
        requires
            self.wf(),
        ensures
            ({
                let unmet = spec_unmet_deps(
                    self.model().unique_dependencies,
                    self.model().uniques_provided,
                );
                match r {
                    Ok(w) => unmet.len() == 0 && w@ == seq!["update"@],
                    Err(e) => unmet.len() > 0 && e@ == unmet,
                }
            }),
    {
        match self.finish_with_info() {
            Ok((w, _info)) => Ok(w),
            Err(e) => Err(e),
        }
    }

    /// Like [`AppBuilder::finish`], and also reports the unit's structural
    /// info: its ordered systems and the exclusive-tracking claims recorded,
    /// for downstream cross-unit validation.
    pub fn finish_with_info(self) -> (r: Result<(AppWorkload, AppWorkloadInfo), FinishError>)
        requires
            self.wf(),
        ensures
            spec_finish_outcome(self.model(), "update"@, None, r),
    {
        self.finish_with_info_named("update", None)
    }

    /// Finishes under a caller-chosen unit name, recording which root plugin
    /// type the unit was built from (used by the cycle validator to skip
    /// duplicate inclusions of the same plugin).
    pub(crate) fn finish_with_info_named(
        self,
        update_stage: &str,
        plugin_id: Option<TypeIdentity>,
    ) -> (r: Result<(AppWorkload, AppWorkloadInfo), FinishError>)
        requires
            self.wf(),
        ensures
            spec_finish_outcome(self.model(), update_stage@, plugin_id, r),
    {
        proof {
            lemma_builder_wf_parts(&self);
        }
        let ghost m = self.model();
        let AppBuilder {
            resets,
            mut systems,
            track_added_plugins: _,
            track_current_plugin: _,
            track_type_names: _,
            track_uniques_provided,
            track_unique_dependencies,
            track_update_packed,
            track_tracked_uniques,
            installs: _,
        } = self;
        let deps = track_unique_dependencies.entries();
        let ghost deps_view = track_unique_dependencies@;
        let n = deps.len();
        let mut unmet: Vec<(TypeIdentity, String, Vec<PluginAssociated>)> = Vec::new();
        let mut i: usize = 0;
        proof {
            assert(deps_view.skip(0) =~= deps_view);
        }
        while i < n
            invariant
                n == deps.len(),
                0 <= i <= n,
                deps_view == track_unique_dependencies@,
                n == deps_view.len(),
                forall|j: int|
                    0 <= j < n ==> #[trigger] deps_view[j] == (
                        deps@[j].0,
                        deps@[j].1@,
                        crate::associations::claims_view(deps@[j].2@),
                    ),
                spec_unmet_deps(deps_view, m.uniques_provided) =~~=
                    crate::associations::entries_view(unmet@) + spec_unmet_deps(
                    deps_view.skip(i as int),
                    m.uniques_provided,
                ),
                track_uniques_provided@ == m.uniques_provided,
            decreases n - i,
        {
            let ghost before = crate::associations::entries_view(unmet@);
            proof {
                assert(deps_view.skip(i as int).len() > 0);
                assert(deps_view.skip(i as int)[0] == deps_view[i as int]);
                assert(deps_view.skip(i as int).drop_first() =~= deps_view.skip(i as int + 1));
            }
            let entry = &deps[i];
            if !track_uniques_provided.has(entry.0) {
                let copied = (
                    entry.0,
                    entry.1.clone(),
                    crate::associations::clone_claims(&entry.2),
                );
                unmet.push(copied);
                proof {
                    assert(crate::associations::entries_view(unmet@) =~= before.push(
                        deps_view[i as int],
                    ));
                    assert(before.push(deps_view[i as int]) =~= before + seq![
                        deps_view[i as int],
                    ]);
                }
            }
            i += 1;
        }
        proof {
            assert(deps_view.skip(n as int) =~= Seq::<BucketModel<ClaimModel>>::empty());
            assert(spec_unmet_deps(deps_view, m.uniques_provided) =~~=
                crate::associations::entries_view(unmet@));
        }
        if unmet.len() > 0 {
            return Err(FinishError::UnmetUniqueDependencies { unmet });
        }
        let mut resets_moved = resets;
        systems.append(&mut resets_moved);
        proof {
            assert(systems_view(systems@) =~= m.systems + m.resets);
        }
        let workload = AppWorkload::Cycle(
            CycleWorkload { names: vec![update_stage.to_owned()] },
        );
        let info = AppWorkloadInfo {
            name: update_stage.to_owned(),
            plugin_id,
            batch_info: systems,
            signature: WorkloadSignature {
                track_update_packed,
                track_tracked_uniques,
            },
        };
        proof {
            assert(workload@ =~~= seq![update_stage@]);
        }
        Ok((workload, info))
    }
}

/// A list of unit-of-work names viewed mathematically.
pub open spec fn strings_view(s: Seq<String>) -> Seq<Seq<char>> {
    s.map_values(|x: String| x@)
}

/// A runnable unit composed of one or more named workloads, invoked in
/// order.
#[derive(Debug)]
pub struct CycleWorkload {
    pub names: Vec<String>,
}

/// A runnable unit with a single named workload.
#[derive(Debug)]
pub struct SingleWorkload {
    pub name: String,
}

/// A runnable unit of work: what [`AppBuilder::finish`] and the cycle
/// validator hand back. Running it means running its named workloads, in
/// order, every invocation.
#[derive(Debug)]
pub enum AppWorkload {
    Cycle(CycleWorkload),
    Single(SingleWorkload),
}

impl View for AppWorkload {
    type V = Seq<Seq<char>>;

    open spec fn view(&self) -> Seq<Seq<char>> {
        match self {
            AppWorkload::Cycle(c) => strings_view(c.names@),
            AppWorkload::Single(s) => seq![s.name@],
        }
    }
}

impl AppWorkload {
    /// The workload names this unit runs, in execution order.
    pub fn names(&self) -> (r: Vec<String>)
        ensures
            strings_view(r@) == self@,
    {
        match self {
            AppWorkload::Cycle(c) => {
                let mut r: Vec<String> = Vec::new();
                let n = c.names.len();
                let mut i: usize = 0;
                while i < n
                    invariant
                        n == c.names.len(),
                        0 <= i <= n,
                        r@.len() == i,
                        forall|j: int| 0 <= j < i ==> (#[trigger] r@[j])@ == c.names@[j]@,
                    decreases n - i,
                {
                    r.push(c.names[i].clone());
                    i += 1;
                }
                proof {
                    assert(strings_view(r@) =~= strings_view(c.names@));
                }
                r
            },
            AppWorkload::Single(s) => {
                let r = vec![s.name.clone()];
                proof {
                    assert(strings_view(r@) =~= seq![s.name@]);
                }
                r
            },
        }
    }
}

/// The exclusive-tracking claims one finished unit of work carries, for
/// cross-unit validation.
#[derive(Debug)]
pub struct WorkloadSignature {
    pub track_update_packed: TypeIdBuckets<PluginAssociated>,
    pub track_tracked_uniques: TypeIdBuckets<PluginAssociated>,
}

/// Structural info reported for one finished unit of work: its name, the
/// root plugin type it was built from (if any), its systems in execution
/// order (one batch per system, resets last), and its recorded
/// exclusive-tracking claims.
#[derive(Debug)]
pub struct AppWorkloadInfo {
    pub name: String,
    pub plugin_id: Option<TypeIdentity>,
    pub batch_info: Vec<SystemDesc>,
    pub signature: WorkloadSignature,
}

/// Finishing fails hard when unique values with dependents have no
/// provider.
#[derive(Debug)]
pub enum FinishError {
    /// Every unique type that had dependents but no provider, with every
    /// dependent that required it.
    UnmetUniqueDependencies { unmet: Vec<(TypeIdentity, String, Vec<PluginAssociated>)> },
}

impl View for FinishError {
    type V = Seq<BucketModel<ClaimModel>>;

    open spec fn view(&self) -> Seq<BucketModel<ClaimModel>> {
        match self {
            FinishError::UnmetUniqueDependencies { unmet } => crate::associations::entries_view(
                unmet@,
            ),
        }
    }
}

/// The dependency ledger entries whose type has no provider claim, in ledger
/// order.
pub open spec fn spec_unmet_deps(
    deps: Seq<BucketModel<ClaimModel>>,
    providers: Seq<BucketModel<ClaimModel>>,
) -> Seq<BucketModel<ClaimModel>>
    decreases deps.len(),
{
    if deps.len() == 0 {
        Seq::empty()
    } else {
        let rest = spec_unmet_deps(deps.drop_first(), providers);
        if !buckets_has(providers, deps[0].0) {
            seq![deps[0]] + rest
        } else {
            rest
        }
    }
}

/// Whether finishing the builder state `m` under the unit name `stage` leads
/// exactly to the outcome `r`: an error listing every unmet dependency, or a
/// unit whose systems are the registered ones followed by the resets and
/// whose signature carries the recorded exclusive-tracking claims.
pub open spec fn spec_finish_outcome(
    m: BuilderModel,
    stage: Seq<char>,
    plugin_id: Option<TypeIdentity>,
    r: Result<(AppWorkload, AppWorkloadInfo), FinishError>,
) -> bool {
    let unmet = spec_unmet_deps(m.unique_dependencies, m.uniques_provided);
    match r {
        Ok((w, info)) => {
            &&& unmet.len() == 0
            &&& w@ == seq![stage]
            &&& info.name@ == stage
            &&& info.plugin_id == plugin_id
            &&& systems_view(info.batch_info@) == m.systems + m.resets
            &&& info.signature.track_update_packed@ == m.update_packed
            &&& info.signature.track_tracked_uniques@ == m.tracked_uniques
            &&& info.signature.track_update_packed.wf()
            &&& info.signature.track_tracked_uniques.wf()
        },
        Err(e) => {
            &&& unmet.len() > 0
            &&& e@ == unmet
        },
    }
}

} // verus!
