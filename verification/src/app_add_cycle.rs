//! Cross-unit validation: may these units of work legally share one cycle?
//!
//! Given an ordered list of already-finished units with their claim
//! summaries, the validator walks the list once, skipping a unit when the
//! same root plugin already contributed earlier in the list (a duplicate
//! inclusion of a multiply-addable plugin must not double-count). It then
//! re-associates every remaining unit's exclusive-tracking claims into two
//! fresh ledgers and reports every resource claimed by more than one unit —
//! all conflicts together, never just the first — because two units
//! resetting the same tracked resource would corrupt each other's "since
//! last reset" observations.

use vstd::prelude::*;

use crate::app::App;
use crate::app_builder::{strings_view, AppWorkload, AppWorkloadInfo, CycleWorkload};
use crate::associations::{
    buckets_assoc, buckets_has, buckets_wf, claims_view, clone_claims, BucketModel, ClaimModel,
    TypeIdBuckets,
};
use crate::type_names::{TypeIdentity, TypeRef};

verus! {

/// Mathematical model of one unit's contribution to a conflict: which
/// workload claimed, from which root plugin, and the claims it recorded.
pub struct CycleAssocModel {
    pub workload: Seq<char>,
    pub plugin_id: Option<TypeIdentity>,
    pub plugins: Seq<ClaimModel>,
}

/// One unit's contribution to a conflict list: the workload's name, the
/// root plugin type it was built from (if known), and the claims it
/// recorded for the conflicting resource.
#[derive(Debug)]
pub struct CyclePluginAssociations {
    pub workload: String,
    pub plugin_id: Option<TypeIdentity>,
    pub plugins: Vec<crate::associations::PluginAssociated>,
}

impl View for CyclePluginAssociations {
    type V = CycleAssocModel;

    open spec fn view(&self) -> CycleAssocModel {
        CycleAssocModel {
            workload: self.workload@,
            plugin_id: self.plugin_id,
            plugins: claims_view(self.plugins@),
        }
    }
}

impl Clone for CyclePluginAssociations {
    fn clone(&self) -> (r: Self)
        ensures
            r@ == self@,
    {
        CyclePluginAssociations {
            workload: self.workload.clone(),
            plugin_id: self.plugin_id,
            plugins: clone_claims(&self.plugins),
        }
    }
}

/// A conflict list viewed mathematically.
pub open spec fn cycle_assocs_view(s: Seq<CyclePluginAssociations>) -> Seq<CycleAssocModel> {
    s.map_values(|a: CyclePluginAssociations| a@)
}

/// Mathematical model of one cross-unit conflict.
pub enum CycleErrorModel {
    /// The storage with this display name is update-tracked by more than one
    /// unit in the same cycle.
    UpdatePack { update_pack: Seq<char>, conflicts: Seq<CycleAssocModel> },
    /// The unique value with this display name is tracked by more than one
    /// unit in the same cycle.
    TrackedUnique { tracked_unique: Seq<char>, conflicts: Seq<CycleAssocModel> },
}

/// One cross-unit conflict: a resource exclusively tracked by more than one
/// unit of the same cycle, with every conflicting unit and its claim reason.
#[derive(Debug)]
pub enum CycleCheckError {
    UpdatePackResetInMultipleWorkloads {
        update_pack: String,
        conflicts: Vec<CyclePluginAssociations>,
    },
    TrackedUniqueResetInMultipleWorkloads {
        tracked_unique: String,
        conflicts: Vec<CyclePluginAssociations>,
    },
}

impl View for CycleCheckError {
    type V = CycleErrorModel;

    open spec fn view(&self) -> CycleErrorModel {
        match self {
            CycleCheckError::UpdatePackResetInMultipleWorkloads { update_pack, conflicts } => {
                CycleErrorModel::UpdatePack {
                    update_pack: update_pack@,
                    conflicts: cycle_assocs_view(conflicts@),
                }
            },
            CycleCheckError::TrackedUniqueResetInMultipleWorkloads {
                tracked_unique,
                conflicts,
            } => {
                CycleErrorModel::TrackedUnique {
                    tracked_unique: tracked_unique@,
                    conflicts: cycle_assocs_view(conflicts@),
                }
            },
        }
    }
}

/// An error list viewed mathematically.
pub open spec fn cycle_errors_view(s: Seq<CycleCheckError>) -> Seq<CycleErrorModel> {
    s.map_values(|e: CycleCheckError| e@)
}

/// Whether unit `i` of the list contributes claims: it does unless an
/// earlier unit was built from the same root plugin (duplicate inclusion of
/// the same plugin is allowed and counted once).
pub open spec fn spec_kept(infos: Seq<(AppWorkload, AppWorkloadInfo)>, i: int) -> bool {
    ||| infos[i].1.plugin_id is None
    ||| forall|j: int|
        0 <= j < i ==> (#[trigger] infos[j].1.plugin_id) != infos[i].1.plugin_id
}

/// Folds one kept unit's ledger entries into a cumulative ledger, in entry
/// order, skipping entries without claims.
pub open spec fn spec_accumulate_unit(
    cum: Seq<BucketModel<CycleAssocModel>>,
    entries: Seq<BucketModel<ClaimModel>>,
    workload: Seq<char>,
    plugin_id: Option<TypeIdentity>,
) -> Seq<BucketModel<CycleAssocModel>>
    decreases entries.len(),
{
    if entries.len() == 0 {
        cum
    } else {
        let e = entries[0];
        let cum1 = if e.2.len() > 0 {
            buckets_assoc(
                cum,
                e.0,
                e.1,
                CycleAssocModel { workload, plugin_id, plugins: e.2 },
            )
        } else {
            cum
        };
        spec_accumulate_unit(cum1, entries.drop_first(), workload, plugin_id)
    }
}

/// The cumulative ledger after the first `n` units: update-pack claims when
/// `unique_ledger` is false, tracked-unique claims when it is true (the
/// latter are recorded without a plugin identity, as the claims alone
/// identify them).
pub open spec fn spec_cum(
    infos: Seq<(AppWorkload, AppWorkloadInfo)>,
    n: int,
    unique_ledger: bool,
) -> Seq<BucketModel<CycleAssocModel>>
    decreases n,
{
    if n <= 0 {
        Seq::empty()
    } else {
        let prev = spec_cum(infos, n - 1, unique_ledger);
        let i = n - 1;
        if spec_kept(infos, i) {
            let info = infos[i].1;
            if unique_ledger {
                spec_accumulate_unit(
                    prev,
                    info.signature.track_tracked_uniques@,
                    info.name@,
                    None,
                )
            } else {
                spec_accumulate_unit(
                    prev,
                    info.signature.track_update_packed@,
                    info.name@,
                    info.plugin_id,
                )
            }
        } else {
            prev
        }
    }
}

/// The conflicts a cumulative ledger yields: one error per resource type
/// claimed by more than one unit, in ledger order.
pub open spec fn spec_errors_of(
    cum: Seq<BucketModel<CycleAssocModel>>,
    unique_ledger: bool,
) -> Seq<CycleErrorModel>
    decreases cum.len(),
{
    if cum.len() == 0 {
        Seq::empty()
    } else {
        let rest = spec_errors_of(cum.drop_first(), unique_ledger);
        if cum[0].2.len() > 1 {
            let err = if unique_ledger {
                CycleErrorModel::TrackedUnique { tracked_unique: cum[0].1, conflicts: cum[0].2 }
            } else {
                CycleErrorModel::UpdatePack { update_pack: cum[0].1, conflicts: cum[0].2 }
            };
            seq![err] + rest
        } else {
            rest
        }
    }
}

/// The names of the units, in input order: the composed cycle runs exactly
/// these, in this order, every invocation.
pub open spec fn spec_cycle_names(infos: Seq<(AppWorkload, AppWorkloadInfo)>) -> Seq<Seq<char>> {
    infos.map_values(|p: (AppWorkload, AppWorkloadInfo)| p.1.name@)
}

/// All conflicts the cycle yields: the update-pack conflicts, then the
/// tracked-unique conflicts.
pub open spec fn spec_cycle_errors(infos: Seq<(AppWorkload, AppWorkloadInfo)>) -> Seq<
    CycleErrorModel,
> {
    spec_errors_of(spec_cum(infos, infos.len() as int, false), false) + spec_errors_of(
        spec_cum(infos, infos.len() as int, true),
        true,
    )
}

fn idents_contain(v: &Vec<TypeIdentity>, t: TypeIdentity) -> (r: bool)
    ensures
        r == v@.contains(t),
{
    let n = v.len();
    let mut i: usize = 0;
    while i < n
        invariant
            n == v.len(),
            0 <= i <= n,
            forall|j: int| 0 <= j < i ==> v@[j] != t,
        decreases n - i,
    {
        if v[i].key == t.key {
            proof {
                assert(v@[i as int] == t);
            }
            return true;
        }
        i += 1;
    }
    false
}

impl App {
    /// Checks whether the given already-finished units of work may be
    /// composed into one cycle.
    ///
    /// Returns every conflict at once: a resource type exclusively tracked
    /// by more than one distinct unit is a conflict naming the resource and
    /// every conflicting unit with its claim reason. With zero conflicts,
    /// the composed cycle runs all unit names in input order, every tick.
    #[verifier::loop_isolation(false)]
    pub fn add_cycle(&mut self, cycle: Vec<(AppWorkload, AppWorkloadInfo)>) -> (r: Result<
        AppWorkload,
        Vec<CycleCheckError>,
    >)
        ensures
            match r {
                Ok(w) => spec_cycle_errors(cycle@).len() == 0 && w@ == spec_cycle_names(cycle@),
                Err(errs) => spec_cycle_errors(cycle@).len() > 0 && cycle_errors_view(errs@)
                    == spec_cycle_errors(cycle@),
            },
    {
        let ghost infos = cycle@;
        let mut plugins_added: Vec<TypeIdentity> = Vec::new();
        let mut names_checked: Vec<String> = Vec::new();
        let mut cumulative_update_packed: TypeIdBuckets<CyclePluginAssociations> =
            TypeIdBuckets::new("update packed in workloads");
        let mut cumulative_tracked_uniques: TypeIdBuckets<CyclePluginAssociations> =
            TypeIdBuckets::new("tracked uniques in workloads");
        let n = cycle.len();
        let mut i: usize = 0;
        while i < n
            invariant
                0 <= i <= n,
                strings_view(names_checked@) == spec_cycle_names(infos).take(i as int),
                forall|p: TypeIdentity|
                    #[trigger] plugins_added@.contains(p) <==> exists|j: int|
                        0 <= j < i && (#[trigger] infos[j].1.plugin_id) == Some(p),
                cumulative_update_packed@ == spec_cum(infos, i as int, false),
                cumulative_tracked_uniques@ == spec_cum(infos, i as int, true),
                cumulative_update_packed.wf(),
                cumulative_tracked_uniques.wf(),
            decreases n - i,
        {
            let pair = &cycle[i];
            let info = &pair.1;
            names_checked.push(info.name.clone());
            proof {
                assert(strings_view(names_checked@) =~= spec_cycle_names(infos).take(i + 1));
            }
            let ghost pre_added = plugins_added@;
            let kept: bool = match info.plugin_id {
                None => true,
                Some(p) => {
                    if idents_contain(&plugins_added, p) {
                        false
                    } else {
                        plugins_added.push(p);
                        true
                    }
                },
            };
            proof {
                let pid = infos[i as int].1.plugin_id;
                if pid is None {
                    assert(plugins_added@ == pre_added);
                    assert(spec_kept(infos, i as int));
                    assert forall|q: TypeIdentity| #[trigger]
                        plugins_added@.contains(q) implies exists|j: int|
                        0 <= j < i + 1 && (#[trigger] infos[j].1.plugin_id) == Some(q) by {
                        assert(pre_added.contains(q));
                    }
                    assert forall|q: TypeIdentity|
                        exists|j: int|
                            0 <= j < i + 1 && (#[trigger] infos[j].1.plugin_id) == Some(
                                q,
                            ) implies #[trigger] plugins_added@.contains(q) by {
                        let j = choose|j: int|
                            0 <= j < i + 1 && (#[trigger] infos[j].1.plugin_id) == Some(q);
                        assert(j < i);
                        assert(pre_added.contains(q));
                    }
                } else {
                    let p = pid->Some_0;
                    if kept {
                        assert(!pre_added.contains(p));
                        assert(forall|j: int|
                            0 <= j < i ==> (#[trigger] infos[j].1.plugin_id) != Some(p)) by {
                            assert forall|j: int|
                                0 <= j < i implies (#[trigger] infos[j].1.plugin_id) != Some(
                                p,
                            ) by {
                                if infos[j].1.plugin_id == Some(p) {
                                    assert(pre_added.contains(p));
                                }
                            }
                        }
                        assert(spec_kept(infos, i as int));
                        assert(plugins_added@ == pre_added.push(p));
                        assert forall|q: TypeIdentity| #[trigger]
                            plugins_added@.contains(q) implies exists|j: int|
                            0 <= j < i + 1 && (#[trigger] infos[j].1.plugin_id) == Some(q) by {
                            if pre_added.contains(q) {
                            } else {
                                let x = choose|x: int|
                                    0 <= x < plugins_added@.len() && plugins_added@[x] == q;
                                assert(x == pre_added.len());
                                assert(q == p);
                                assert(infos[i as int].1.plugin_id == Some(q));
                            }
                        }
                        assert forall|q: TypeIdentity|
                            exists|j: int|
                                0 <= j < i + 1 && (#[trigger] infos[j].1.plugin_id) == Some(
                                    q,
                                ) implies #[trigger] plugins_added@.contains(q) by {
                            let j = choose|j: int|
                                0 <= j < i + 1 && (#[trigger] infos[j].1.plugin_id) == Some(q);
                            if j < i {
                                assert(pre_added.contains(q));
                                let x = choose|x: int|
                                    0 <= x < pre_added.len() && pre_added[x] == q;
                                assert(plugins_added@[x] == q);
                            } else {
                                assert(q == p);
                                assert(plugins_added@[pre_added.len() as int] == p);
                            }
                        }
                    } else {
                        assert(plugins_added@ == pre_added);
                        assert(pre_added.contains(p));
                        let j0 = choose|j: int|
                            0 <= j < i && (#[trigger] infos[j].1.plugin_id) == Some(p);
                        assert(!spec_kept(infos, i as int));
                        assert forall|q: TypeIdentity| #[trigger]
                            plugins_added@.contains(q) implies exists|j: int|
                            0 <= j < i + 1 && (#[trigger] infos[j].1.plugin_id) == Some(q) by {
                            assert(pre_added.contains(q));
                        }
                        assert forall|q: TypeIdentity|
                            exists|j: int|
                                0 <= j < i + 1 && (#[trigger] infos[j].1.plugin_id) == Some(
                                    q,
                                ) implies #[trigger] plugins_added@.contains(q) by {
                            let j = choose|j: int|
                                0 <= j < i + 1 && (#[trigger] infos[j].1.plugin_id) == Some(q);
                            if j < i {
                                assert(pre_added.contains(q));
                            } else {
                                assert(q == p);
                            }
                        }
                    }
                }
            }
            if kept {
                proof {
                    assert(spec_kept(infos, i as int));
                }
                let up_entries = info.signature.track_update_packed.entries();
                let ghost up_view = info.signature.track_update_packed@;
                let ghost target_up = spec_accumulate_unit(
                    spec_cum(infos, i as int, false),
                    up_view,
                    info.name@,
                    info.plugin_id,
                );
                let m = up_entries.len();
                let mut k: usize = 0;
                proof {
                    assert(up_view.skip(0) =~= up_view);
                }
                while k < m
                    invariant
                        0 <= k <= m,
                        m == up_entries.len(),
                        m == up_view.len(),
                        spec_accumulate_unit(
                            cumulative_update_packed@,
                            up_view.skip(k as int),
                            infos[i as int].1.name@,
                            infos[i as int].1.plugin_id,
                        ) == target_up,
                        cumulative_update_packed.wf(),
                    decreases m - k,
                {
                    proof {
                        assert(up_view.skip(k as int).len() > 0);
                        assert(up_view.skip(k as int)[0] == up_view[k as int]);
                        assert(up_view.skip(k as int).drop_first() =~= up_view.skip(k as int + 1));
                    }
                    let entry = &up_entries[k];
                    proof {
                        assert(claims_view(entry.2@) =~= up_view[k as int].2);
                    }
                    if entry.2.len() > 0 {
                        let assoc = CyclePluginAssociations {
                            workload: info.name.clone(),
                            plugin_id: info.plugin_id,
                            plugins: clone_claims(&entry.2),
                        };
                        let ty = TypeRef { ident: entry.0, name: entry.1.clone() };
                        let _ = cumulative_update_packed.associate(&ty, assoc);
                    }
                    k += 1;
                }
                proof {
                    assert(up_view.skip(m as int) =~= Seq::<BucketModel<ClaimModel>>::empty());
                    assert(cumulative_update_packed@ == target_up);
                }
                let tr_entries = info.signature.track_tracked_uniques.entries();
                let ghost tr_view = info.signature.track_tracked_uniques@;
                let ghost target_tr = spec_accumulate_unit(
                    spec_cum(infos, i as int, true),
                    tr_view,
                    info.name@,
                    None,
                );
                let m2 = tr_entries.len();
                let mut k2: usize = 0;
                proof {
                    assert(tr_view.skip(0) =~= tr_view);
                }
                while k2 < m2
                    invariant
                        0 <= k2 <= m2,
                        m2 == tr_entries.len(),
                        m2 == tr_view.len(),
                        spec_accumulate_unit(
                            cumulative_tracked_uniques@,
                            tr_view.skip(k2 as int),
                            infos[i as int].1.name@,
                            None,
                        ) == target_tr,
                        cumulative_tracked_uniques.wf(),
                    decreases m2 - k2,
                {
                    proof {
                        assert(tr_view.skip(k2 as int).len() > 0);
                        assert(tr_view.skip(k2 as int)[0] == tr_view[k2 as int]);
                        assert(tr_view.skip(k2 as int).drop_first() =~= tr_view.skip(
                            k2 as int + 1,
                        ));
                    }
                    let entry = &tr_entries[k2];
                    proof {
                        assert(claims_view(entry.2@) =~= tr_view[k2 as int].2);
                    }
                    if entry.2.len() > 0 {
                        let assoc = CyclePluginAssociations {
                            workload: info.name.clone(),
                            plugin_id: None,
                            plugins: clone_claims(&entry.2),
                        };
                        let ty = TypeRef { ident: entry.0, name: entry.1.clone() };
                        let _ = cumulative_tracked_uniques.associate(&ty, assoc);
                    }
                    k2 += 1;
                }
                proof {
                    assert(tr_view.skip(m2 as int) =~= Seq::<BucketModel<ClaimModel>>::empty());
                    assert(cumulative_tracked_uniques@ == target_tr);
                    assert(spec_cum(infos, i + 1, false) == target_up);
                    assert(spec_cum(infos, i + 1, true) == target_tr);
                }
            } else {
                proof {
                    assert(!spec_kept(infos, i as int));
                    assert(spec_cum(infos, i + 1, false) == spec_cum(infos, i as int, false));
                    assert(spec_cum(infos, i + 1, true) == spec_cum(infos, i as int, true));
                }
            }
            i += 1;
        }
        let mut errs: Vec<CycleCheckError> = Vec::new();
        let ghost up_cum = cumulative_update_packed@;
        let ghost tr_cum = cumulative_tracked_uniques@;
        let up_entries = cumulative_update_packed.entries();
        let nu = up_entries.len();
        let mut k: usize = 0;
        proof {
            assert(up_cum.skip(0) =~= up_cum);
        }
        while k < nu
            invariant
                0 <= k <= nu,
                nu == up_entries.len(),
                nu == up_cum.len(),
                cycle_errors_view(errs@) + spec_errors_of(up_cum.skip(k as int), false)
                    == spec_errors_of(up_cum, false),
            decreases nu - k,
        {
            proof {
                assert(up_cum.skip(k as int).len() > 0);
                assert(up_cum.skip(k as int)[0] == up_cum[k as int]);
                assert(up_cum.skip(k as int).drop_first() =~= up_cum.skip(k as int + 1));
            }
            let entry = &up_entries[k];
            if entry.2.len() > 1 {
                let ghost before = cycle_errors_view(errs@);
                errs.push(
                    CycleCheckError::UpdatePackResetInMultipleWorkloads {
                        update_pack: entry.1.clone(),
                        conflicts: clone_cycle_assocs(&entry.2),
                    },
                );
                proof {
                    assert(cycle_errors_view(errs@) =~= before.push(
                        CycleErrorModel::UpdatePack {
                            update_pack: up_cum[k as int].1,
                            conflicts: up_cum[k as int].2,
                        },
                    ));
                }
            }
            k += 1;
        }
        proof {
            assert(up_cum.skip(nu as int) =~= Seq::<BucketModel<CycleAssocModel>>::empty());
            assert(cycle_errors_view(errs@) == spec_errors_of(up_cum, false));
        }
        let ghost errs_after_up = cycle_errors_view(errs@);
        let tr_entries = cumulative_tracked_uniques.entries();
        let nt = tr_entries.len();
        let mut k2: usize = 0;
        proof {
            assert(tr_cum.skip(0) =~= tr_cum);
        }
        while k2 < nt
            invariant
                0 <= k2 <= nt,
                nt == tr_entries.len(),
                nt == tr_cum.len(),
                cycle_errors_view(errs@) + spec_errors_of(tr_cum.skip(k2 as int), true)
                    == errs_after_up + spec_errors_of(tr_cum, true),
            decreases nt - k2,
        {
            proof {
                assert(tr_cum.skip(k2 as int).len() > 0);
                assert(tr_cum.skip(k2 as int)[0] == tr_cum[k2 as int]);
                assert(tr_cum.skip(k2 as int).drop_first() =~= tr_cum.skip(k2 as int + 1));
            }
            let entry = &tr_entries[k2];
            if entry.2.len() > 1 {
                let ghost before = cycle_errors_view(errs@);
                errs.push(
                    CycleCheckError::TrackedUniqueResetInMultipleWorkloads {
                        tracked_unique: entry.1.clone(),
                        conflicts: clone_cycle_assocs(&entry.2),
                    },
                );
                proof {
                    assert(cycle_errors_view(errs@) =~= before.push(
                        CycleErrorModel::TrackedUnique {
                            tracked_unique: tr_cum[k2 as int].1,
                            conflicts: tr_cum[k2 as int].2,
                        },
                    ));
                }
            }
            k2 += 1;
        }
        proof {
            assert(tr_cum.skip(nt as int) =~= Seq::<BucketModel<CycleAssocModel>>::empty());
            assert(cycle_errors_view(errs@) == errs_after_up + spec_errors_of(tr_cum, true));
            assert(cycle_errors_view(errs@) == spec_cycle_errors(infos));
        }
        if errs.len() > 0 {
            return Err(errs);
        }
        let workload = AppWorkload::Cycle(CycleWorkload { names: names_checked });
        proof {
            assert(spec_cycle_names(infos).take(n as int) =~= spec_cycle_names(infos));
            assert(workload@ == spec_cycle_names(infos));
        }
        Ok(workload)
    }
}

/// Accumulating a unit whose claimed types are all new to the cumulative
/// ledger appends one single-claim entry per nonempty claimed type.
proof fn lemma_accumulate_fresh(
    cum: Seq<BucketModel<CycleAssocModel>>,
    entries: Seq<BucketModel<ClaimModel>>,
    workload: Seq<char>,
    plugin_id: Option<TypeIdentity>,
)
    requires
        buckets_wf(cum),
        buckets_wf(entries),
        forall|j: int| 0 <= j < entries.len() ==> !buckets_has(cum, (#[trigger] entries[j]).0),
    ensures
        ({
            let r = spec_accumulate_unit(cum, entries, workload, plugin_id);
            &&& buckets_wf(r)
            &&& r.len() >= cum.len()
            &&& forall|i: int| 0 <= i < cum.len() ==> #[trigger] r[i] == cum[i]
            &&& forall|i: int| cum.len() <= i < r.len() ==> (#[trigger] r[i]).2.len() == 1
            &&& forall|t: TypeIdentity|
                #[trigger] buckets_has(r, t) ==> (buckets_has(cum, t) || exists|j: int|
                    0 <= j < entries.len() && (#[trigger] entries[j]).0 == t)
        }),
    decreases entries.len(),
{
    if entries.len() == 0 {
    } else {
        let e = entries[0];
        let cum1 = if e.2.len() > 0 {
            buckets_assoc(
                cum,
                e.0,
                e.1,
                CycleAssocModel { workload, plugin_id, plugins: e.2 },
            )
        } else {
            cum
        };
        if e.2.len() > 0 {
            assert(!buckets_has(cum, e.0));
            assert(cum1 == cum.push(
                (e.0, e.1, seq![CycleAssocModel { workload, plugin_id, plugins: e.2 }]),
            ));
            assert(buckets_wf(cum1)) by {
                crate::associations::lemma_buckets_assoc_wf(
                    cum,
                    e.0,
                    e.1,
                    CycleAssocModel { workload, plugin_id, plugins: e.2 },
                );
            }
        }
        assert(forall|j: int|
            0 <= j < entries.drop_first().len() ==> (#[trigger] entries.drop_first()[j])
                == entries[j + 1]);
        assert(buckets_wf(entries.drop_first()));
        assert forall|j: int|
            0 <= j < entries.drop_first().len() implies !buckets_has(
            cum1,
            (#[trigger] entries.drop_first()[j]).0,
        ) by {
            let t = entries.drop_first()[j].0;
            assert(entries[j + 1].0 == t);
            assert(t != e.0);
            assert(!buckets_has(cum, t));
            if buckets_has(cum1, t) {
                let x = choose|x: int| 0 <= x < cum1.len() && (#[trigger] cum1[x]).0 == t;
                if x < cum.len() {
                    assert(cum[x].0 == t);
                }
            }
        }
        lemma_accumulate_fresh(cum1, entries.drop_first(), workload, plugin_id);
        let r = spec_accumulate_unit(cum, entries, workload, plugin_id);
        assert(r == spec_accumulate_unit(cum1, entries.drop_first(), workload, plugin_id));
        assert forall|t: TypeIdentity| #[trigger]
            buckets_has(r, t) implies (buckets_has(cum, t) || exists|j: int|
            0 <= j < entries.len() && (#[trigger] entries[j]).0 == t) by {
            if buckets_has(cum1, t) {
                if !buckets_has(cum, t) {
                    assert(e.2.len() > 0);
                    let x = choose|x: int| 0 <= x < cum1.len() && (#[trigger] cum1[x]).0 == t;
                    if x < cum.len() {
                        assert(cum[x].0 == t);
                    } else {
                        assert(t == e.0);
                        assert(entries[0].0 == t);
                    }
                }
            } else {
                let j = choose|j: int|
                    0 <= j < entries.drop_first().len() && (#[trigger] entries.drop_first()[j]).0
                        == t;
                assert(entries[j + 1].0 == t);
            }
        }
    }
}

/// A cumulative ledger in which no type has more than one claiming unit
/// yields no conflicts.
proof fn lemma_errors_of_no_conflict(cum: Seq<BucketModel<CycleAssocModel>>, unique_ledger: bool)
    requires
        forall|i: int| 0 <= i < cum.len() ==> (#[trigger] cum[i]).2.len() <= 1,
    ensures
        spec_errors_of(cum, unique_ledger).len() == 0,
    decreases cum.len(),
{
    if cum.len() > 0 {
        assert(forall|i: int|
            0 <= i < cum.drop_first().len() ==> (#[trigger] cum.drop_first()[i]).2.len() <= 1);
        lemma_errors_of_no_conflict(cum.drop_first(), unique_ledger);
    }
}

/// The first unit of a list always contributes.
proof fn lemma_first_unit_kept(infos: Seq<(AppWorkload, AppWorkloadInfo)>)
    requires
        infos.len() >= 1,
    ensures
        spec_kept(infos, 0),
{
}

/// Law: two units of work that exclusively track disjoint resource sets
/// compose into a cycle with zero conflicts; `App::add_cycle` then returns
/// the composed cycle, which runs the first unit's workload followed by the
/// second, in that order, every invocation.
pub proof fn lemma_disjoint_tracking_no_conflict(infos: Seq<(AppWorkload, AppWorkloadInfo)>)
    requires
        infos.len() == 2,
        buckets_wf(infos[0].1.signature.track_update_packed@),
        buckets_wf(infos[1].1.signature.track_update_packed@),
        buckets_wf(infos[0].1.signature.track_tracked_uniques@),
        buckets_wf(infos[1].1.signature.track_tracked_uniques@),
        forall|t: TypeIdentity|
            !(buckets_has(#[trigger] infos[0].1.signature.track_update_packed@, t) && buckets_has(
                infos[1].1.signature.track_update_packed@,
                t,
            )),
        forall|t: TypeIdentity|
            !(buckets_has(#[trigger] infos[0].1.signature.track_tracked_uniques@, t)
                && buckets_has(infos[1].1.signature.track_tracked_uniques@, t)),
    ensures
        spec_cycle_errors(infos).len() == 0,
        spec_cycle_names(infos) == seq![infos[0].1.name@, infos[1].1.name@],
{
    lemma_cum_two_units_no_conflict(
        infos,
        false,
        infos[0].1.signature.track_update_packed@,
        infos[1].1.signature.track_update_packed@,
    );
    lemma_cum_two_units_no_conflict(
        infos,
        true,
        infos[0].1.signature.track_tracked_uniques@,
        infos[1].1.signature.track_tracked_uniques@,
    );
    lemma_errors_of_no_conflict(spec_cum(infos, 2, false), false);
    lemma_errors_of_no_conflict(spec_cum(infos, 2, true), true);
    assert(spec_cycle_errors(infos).len() == 0);
    assert(spec_cycle_names(infos) =~= seq![infos[0].1.name@, infos[1].1.name@]);
}

/// With two units whose claimed types are disjoint, every type of the
/// cumulative ledger is claimed by exactly one unit.
proof fn lemma_cum_two_units_no_conflict(
    infos: Seq<(AppWorkload, AppWorkloadInfo)>,
    unique_ledger: bool,
    e0: Seq<BucketModel<ClaimModel>>,
    e1: Seq<BucketModel<ClaimModel>>,
)
    requires
        infos.len() == 2,
        e0 == if unique_ledger {
            infos[0].1.signature.track_tracked_uniques@
        } else {
            infos[0].1.signature.track_update_packed@
        },
        e1 == if unique_ledger {
            infos[1].1.signature.track_tracked_uniques@
        } else {
            infos[1].1.signature.track_update_packed@
        },
        buckets_wf(e0),
        buckets_wf(e1),
        forall|t: TypeIdentity| !(#[trigger] buckets_has(e0, t) && buckets_has(e1, t)),
    ensures
        forall|i: int|
            0 <= i < spec_cum(infos, 2, unique_ledger).len() ==> (#[trigger] spec_cum(
                infos,
                2,
                unique_ledger,
            )[i]).2.len() <= 1,
{
    assert(spec_cum(infos, 0, unique_ledger) == Seq::<BucketModel<CycleAssocModel>>::empty());
    lemma_first_unit_kept(infos);
    let c1 = spec_cum(infos, 1, unique_ledger);
    lemma_accumulate_fresh(
        Seq::empty(),
        e0,
        infos[0].1.name@,
        if unique_ledger {
            None
        } else {
            infos[0].1.plugin_id
        },
    );
    assert(forall|i: int| 0 <= i < c1.len() ==> (#[trigger] c1[i]).2.len() == 1);
    let c2 = spec_cum(infos, 2, unique_ledger);
    if spec_kept(infos, 1) {
        assert forall|j: int| 0 <= j < e1.len() implies !buckets_has(
            c1,
            (#[trigger] e1[j]).0,
        ) by {
            let t = e1[j].0;
            assert(buckets_has(e1, t)) by {
                assert(e1[j].0 == t);
            }
            assert(!buckets_has(e0, t));
            if buckets_has(c1, t) {
                assert(exists|x: int| 0 <= x < e0.len() && (#[trigger] e0[x]).0 == t);
            }
        }
        lemma_accumulate_fresh(
            c1,
            e1,
            infos[1].1.name@,
            if unique_ledger {
                None
            } else {
                infos[1].1.plugin_id
            },
        );
    } else {
        assert(c2 == c1);
    }
}

/// Law: when two units of work each exclusively track the same resource
/// type, composing them into a cycle yields exactly one conflict, naming
/// the resource and both units with their claim reasons. Stated for two
/// distinct contributors whose claim summaries each hold exactly this one
/// tracked storage type.
pub proof fn lemma_shared_tracking_conflict(
    infos: Seq<(AppWorkload, AppWorkloadInfo)>,
    t: TypeIdentity,
)
    requires
        infos.len() == 2,
        spec_kept(infos, 1),
        infos[0].1.signature.track_update_packed@.len() == 1,
        infos[0].1.signature.track_update_packed@[0].0 == t,
        infos[0].1.signature.track_update_packed@[0].2.len() >= 1,
        infos[1].1.signature.track_update_packed@.len() == 1,
        infos[1].1.signature.track_update_packed@[0].0 == t,
        infos[1].1.signature.track_update_packed@[0].2.len() >= 1,
        infos[0].1.signature.track_tracked_uniques@.len() == 0,
        infos[1].1.signature.track_tracked_uniques@.len() == 0,
    ensures
        spec_cycle_errors(infos) == seq![
            CycleErrorModel::UpdatePack {
                update_pack: infos[0].1.signature.track_update_packed@[0].1,
                conflicts: seq![
                    CycleAssocModel {
                        workload: infos[0].1.name@,
                        plugin_id: infos[0].1.plugin_id,
                        plugins: infos[0].1.signature.track_update_packed@[0].2,
                    },
                    CycleAssocModel {
                        workload: infos[1].1.name@,
                        plugin_id: infos[1].1.plugin_id,
                        plugins: infos[1].1.signature.track_update_packed@[0].2,
                    },
                ],
            },
        ],
{
    let e0 = infos[0].1.signature.track_update_packed@;
    let e1 = infos[1].1.signature.track_update_packed@;
    let a0 = CycleAssocModel {
        workload: infos[0].1.name@,
        plugin_id: infos[0].1.plugin_id,
        plugins: e0[0].2,
    };
    let a1 = CycleAssocModel {
        workload: infos[1].1.name@,
        plugin_id: infos[1].1.plugin_id,
        plugins: e1[0].2,
    };
    lemma_first_unit_kept(infos);
    assert(spec_cum(infos, 0, false) == Seq::<BucketModel<CycleAssocModel>>::empty());
    let c1 = spec_cum(infos, 1, false);
    assert(c1 == spec_accumulate_unit(Seq::empty(), e0, infos[0].1.name@, infos[0].1.plugin_id));
    assert(c1 == seq![(t, e0[0].1, seq![a0])]) by {
        let empty_cum = Seq::<BucketModel<CycleAssocModel>>::empty();
        assert(!buckets_has(empty_cum, t));
        let step = buckets_assoc(empty_cum, e0[0].0, e0[0].1, a0);
        assert(step =~= seq![(t, e0[0].1, seq![a0])]);
        assert(e0.drop_first() =~= Seq::<BucketModel<ClaimModel>>::empty());
        assert(spec_accumulate_unit(step, e0.drop_first(), infos[0].1.name@, infos[0].1.plugin_id)
            == step);
    }
    let c2 = spec_cum(infos, 2, false);
    assert(c2 == spec_accumulate_unit(c1, e1, infos[1].1.name@, infos[1].1.plugin_id));
    assert(c2 == seq![(t, e0[0].1, seq![a0, a1])]) by {
        assert(buckets_has(c1, t)) by {
            assert(c1[0].0 == t);
        }
        assert(crate::associations::key_index(c1, t) == 0) by {
            let k = crate::associations::key_index(c1, t);
            assert(c1[k].0 == t);
        }
        let step = buckets_assoc(c1, e1[0].0, e1[0].1, a1);
        assert(step =~= seq![(t, e0[0].1, seq![a0, a1])]) by {
            assert(seq![a0].push(a1) =~= seq![a0, a1]);
        }
        assert(e1.drop_first() =~= Seq::<BucketModel<ClaimModel>>::empty());
        assert(spec_accumulate_unit(step, e1.drop_first(), infos[1].1.name@, infos[1].1.plugin_id)
            == step);
    }
    let tc2 = spec_cum(infos, 2, true);
    assert(tc2 == Seq::<BucketModel<CycleAssocModel>>::empty()) by {
        assert(spec_cum(infos, 0, true) == Seq::<BucketModel<CycleAssocModel>>::empty());
        let t1 = spec_cum(infos, 1, true);
        assert(t1 == spec_accumulate_unit(
            Seq::empty(),
            infos[0].1.signature.track_tracked_uniques@,
            infos[0].1.name@,
            None,
        ));
        assert(t1 == Seq::<BucketModel<CycleAssocModel>>::empty());
        if spec_kept(infos, 1) {
            assert(tc2 == spec_accumulate_unit(
                t1,
                infos[1].1.signature.track_tracked_uniques@,
                infos[1].1.name@,
                None,
            ));
            assert(tc2 == t1);
        } else {
            assert(tc2 == t1);
        }
    }
    assert(spec_errors_of(tc2, true) == Seq::<CycleErrorModel>::empty());
    let err = CycleErrorModel::UpdatePack { update_pack: e0[0].1, conflicts: seq![a0, a1] };
    assert(spec_errors_of(c2, false) == seq![err]) by {
        assert(c2[0].2.len() == 2);
        assert(c2.drop_first() =~= Seq::<BucketModel<CycleAssocModel>>::empty());
        assert(spec_errors_of(c2.drop_first(), false) == Seq::<CycleErrorModel>::empty());
        assert(seq![err] + Seq::<CycleErrorModel>::empty() =~= seq![err]);
        assert(c2[0].1 == e0[0].1);
        assert(c2[0].2 == seq![a0, a1]);
    }
    assert(spec_cycle_errors(infos) =~= seq![err]);
}

/// Law: a unit of work built from the same root plugin as an earlier unit
/// in the list is skipped, so including the same unit twice does not
/// double-count its claims: the composition yields zero conflicts.
pub proof fn lemma_duplicate_unit_not_double_counted(infos: Seq<(AppWorkload, AppWorkloadInfo)>)
    requires
        infos.len() == 2,
        infos[0].1.plugin_id is Some,
        infos[1].1.plugin_id == infos[0].1.plugin_id,
        buckets_wf(infos[0].1.signature.track_update_packed@),
        buckets_wf(infos[0].1.signature.track_tracked_uniques@),
    ensures
        spec_cycle_errors(infos).len() == 0,
{
    assert(!spec_kept(infos, 1)) by {
        assert(infos[0].1.plugin_id == infos[1].1.plugin_id);
    }
    lemma_first_unit_kept(infos);
    assert(spec_cum(infos, 0, false) == Seq::<BucketModel<CycleAssocModel>>::empty());
    assert(spec_cum(infos, 0, true) == Seq::<BucketModel<CycleAssocModel>>::empty());
    lemma_accumulate_fresh(
        Seq::empty(),
        infos[0].1.signature.track_update_packed@,
        infos[0].1.name@,
        infos[0].1.plugin_id,
    );
    lemma_accumulate_fresh(
        Seq::empty(),
        infos[0].1.signature.track_tracked_uniques@,
        infos[0].1.name@,
        None,
    );
    let c2 = spec_cum(infos, 2, false);
    let t2 = spec_cum(infos, 2, true);
    assert(c2 == spec_cum(infos, 1, false));
    assert(t2 == spec_cum(infos, 1, true));
    lemma_errors_of_no_conflict(c2, false);
    lemma_errors_of_no_conflict(t2, true);
}

/// Copies a conflict list, preserving its mathematical content.
fn clone_cycle_assocs(v: &Vec<CyclePluginAssociations>) -> (r: Vec<CyclePluginAssociations>)
    ensures
        cycle_assocs_view(r@) == cycle_assocs_view(v@),
{
    let mut r: Vec<CyclePluginAssociations> = Vec::new();
    let n = v.len();
    let mut i: usize = 0;
    while i < n
        invariant
            n == v.len(),
            0 <= i <= n,
            r@.len() == i,
            forall|j: int| 0 <= j < i ==> (#[trigger] r@[j])@ == v@[j]@,
        decreases n - i,
    {
        r.push(v[i].clone());
        i += 1;
    }
    proof {
        assert(cycle_assocs_view(r@) =~= cycle_assocs_view(v@));
    }
    r
}

} // verus!
