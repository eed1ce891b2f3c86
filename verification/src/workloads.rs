//! A simple helper which allows for multiple named stages, each holding its
//! own ordered list of systems.

use vstd::prelude::*;

use crate::app_builder::systems_view;
use crate::plugin::{SystemDesc, SystemModel};

verus! {

/// Ordered named stages, each with the systems registered to it in order.
pub struct Workloads {
    ordered: Vec<(String, Vec<SystemDesc>)>,
}

/// The stage list viewed mathematically.
pub open spec fn stages_view(s: Seq<(String, Vec<SystemDesc>)>) -> Seq<
    (Seq<char>, Seq<SystemModel>),
> {
    s.map_values(|p: (String, Vec<SystemDesc>)| (p.0@, systems_view(p.1@)))
}

impl View for Workloads {
    type V = Seq<(Seq<char>, Seq<SystemModel>)>;

    closed spec fn view(&self) -> Seq<(Seq<char>, Seq<SystemModel>)> {
        stages_view(self.ordered@)
    }
}

/// Whether a stage of this name exists.
pub open spec fn spec_has_stage(s: Seq<(Seq<char>, Seq<SystemModel>)>, name: Seq<char>) -> bool {
    exists|i: int| 0 <= i < s.len() && (#[trigger] s[i]).0 == name
}

/// The position of the stage with this name.
pub open spec fn spec_stage_index(s: Seq<(Seq<char>, Seq<SystemModel>)>, name: Seq<char>) -> int {
    choose|i: int| 0 <= i < s.len() && (#[trigger] s[i]).0 == name
}

impl Workloads {
    /// Stage names are distinct.
    pub open spec fn wf(self) -> bool {
        forall|i: int, j: int|
            0 <= i < j < self@.len() ==> (#[trigger] self@[i]).0 != (#[trigger] self@[j]).0
    }

    pub fn new() -> (r: Workloads)
        ensures
            r.wf(),
            r@ =~= Seq::<(Seq<char>, Seq<SystemModel>)>::empty(),
    {
        Workloads { ordered: Vec::new() }
    }

    /// Appends an empty stage of this name, unless one already exists.
    pub fn add_stage(&mut self, stage: &str)
        requires
            old(self).wf(),
        ensures
            final(self).wf(),
            final(self)@ == (if spec_has_stage(old(self)@, stage@) {
                old(self)@
            } else {
                old(self)@.push((stage@, Seq::<SystemModel>::empty()))
            }),
    {
        let stage_owned = stage.to_owned();
        let n = self.ordered.len();
        let mut i: usize = 0;
        #[verifier::loop_isolation(false)]
        while i < n
            invariant
                0 <= i <= n,
                *self == *old(self),
                forall|j: int| 0 <= j < i ==> (#[trigger] self@[j]).0 != stage@,
            decreases n - i,
        {
            let name_matches = self.ordered[i].0.eq(&stage_owned);
            if name_matches {
                proof {
                    assert(self@[i as int].0 == stage@);
                    assert(spec_has_stage(old(self)@, stage@));
                }
                return ;
            }
            i += 1;
        }
        proof {
            assert(!spec_has_stage(old(self)@, stage@));
        }
        self.ordered.push((stage.to_owned(), Vec::new()));
        proof {
            assert(self@ =~~= old(self)@.push((stage@, Seq::<SystemModel>::empty())));
        }
    }

    /// Appends a system to the stage of this name; reports whether the
    /// stage exists (nothing is recorded otherwise).
    pub fn add_system_to_stage(&mut self, stage_name: &str, system: SystemDesc) -> (r: bool)
        requires
            old(self).wf(),
        ensures
            final(self).wf(),
            r == spec_has_stage(old(self)@, stage_name@),
            r ==> ({
                let i = spec_stage_index(old(self)@, stage_name@);
                final(self)@ == old(self)@.update(
                    i,
                    (old(self)@[i].0, old(self)@[i].1.push(system@)),
                )
            }),
            !r ==> *final(self) == *old(self),
    {
        let ghost sys = system@;
        let stage_owned = stage_name.to_owned();
        let n = self.ordered.len();
        let mut i: usize = 0;
        #[verifier::loop_isolation(false)]
        while i < n
            invariant
                0 <= i <= n,
                *self == *old(self),
                forall|j: int| 0 <= j < i ==> (#[trigger] self@[j]).0 != stage_name@,
            decreases n - i,
        {
            let name_matches = self.ordered[i].0.eq(&stage_owned);
            if name_matches {
                proof {
                    assert(self@[i as int].0 == stage_name@);
                    assert(spec_has_stage(old(self)@, stage_name@));
                    assert(spec_stage_index(old(self)@, stage_name@) == i) by {
                        let k = spec_stage_index(old(self)@, stage_name@);
                        assert(old(self)@[k].0 == stage_name@);
                    }
                }
                let ghost old_list = self.ordered@;
                let (name, mut systems) = self.ordered.remove(i);
                systems.push(system);
                proof {
                    assert(systems@ =~= old_list[i as int].1@.push(system));
                }
                let ghost systems_snap = systems@;
                self.ordered.insert(i, (name, systems));
                proof {
                    assert(self.ordered@ =~= old_list.update(
                        i as int,
                        (old_list[i as int].0, self.ordered@[i as int].1),
                    ));
                    let target = old(self)@.update(
                        i as int,
                        (old(self)@[i as int].0, old(self)@[i as int].1.push(sys)),
                    );
                    assert forall|j: int| 0 <= j < self@.len() implies self@[j] == target[j] by {
                        if j == i {
                            assert(self.ordered@[j].1@ == systems_snap);
                            assert(systems_view(self.ordered@[j].1@) =~= old(self)@[j].1.push(
                                sys,
                            ));
                        } else {
                            assert(self.ordered@[j] == old_list[j]);
                        }
                    }
                    assert(self@ =~= target);
                }
                return true;
            }
            i += 1;
        }
        proof {
            assert(!spec_has_stage(old(self)@, stage_name@));
        }
        false
    }
}

} // verus!
