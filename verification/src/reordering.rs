//! Reordering entities within a tree of parent/child links.
//!
//! Each linked entity carries a `ChildOf` component: its parent and an
//! ordering key deciding its place among the siblings. A move command
//! rewrites one entity's `ChildOf`: between two siblings, to the first or
//! last place under a parent, or unlinked. Commands apply in order, each
//! reading the links as left by the previous ones.

use vstd::prelude::*;

use crate::storage::Storage;

verus! {

/// The entity identifier standing for "no parent".
pub const DEAD_ENTITY: u64 = 0;

/// An ordering key: siblings sort by it. New keys are derived from existing
/// ones by taking midpoints and neighbours.
#[derive(Clone, Copy, PartialEq, Eq, Structural, Debug)]
pub struct Ordered {
    pub key: i64,
}

impl Ordered {
    /// A key placed by hint alone, with nothing to relate to.
    pub fn hinted(key: i64) -> (r: Ordered)
        ensures
            r.key == key,
    {
        Ordered { key }
    }

    /// A key ordered before the given one (saturating at the smallest key).
    pub fn before(x: &Ordered) -> (r: Ordered)
        ensures
            r == spec_before(*x),
    {
        if x.key == i64::MIN {
            Ordered { key: i64::MIN }
        } else {
            Ordered { key: x.key - 1 }
        }
    }

    /// A key ordered after the given one (saturating at the largest key).
    pub fn after(x: &Ordered) -> (r: Ordered)
        ensures
            r == spec_after(*x),
    {
        if x.key == i64::MAX {
            Ordered { key: i64::MAX }
        } else {
            Ordered { key: x.key + 1 }
        }
    }

    /// A key between the two given ones: their midpoint, rounded toward
    /// zero (which equals a bound when the gap is less than two).
    pub fn between(a: &Ordered, b: &Ordered) -> (r: Ordered)
        ensures
            r == spec_between(*a, *b),
    {
        let s: i128 = a.key as i128 + b.key as i128;
        let h: i128 = if s >= 0 {
            s / 2
        } else {
            -((-s) / 2)
        };
        proof {
            assert(i64::MIN <= h <= i64::MAX);
        }
        Ordered { key: h as i64 }
    }
}

pub open spec fn spec_before(x: Ordered) -> Ordered {
    Ordered { key: if x.key == i64::MIN { i64::MIN } else { (x.key - 1) as i64 } }
}

pub open spec fn spec_after(x: Ordered) -> Ordered {
    Ordered { key: if x.key == i64::MAX { i64::MAX } else { (x.key + 1) as i64 } }
}

pub open spec fn spec_between(a: Ordered, b: Ordered) -> Ordered {
    let s = a.key + b.key;
    Ordered { key: (if s >= 0 { s / 2 } else { -((-s) / 2) }) as i64 }
}

/// The parent of an entity, and its place among the siblings.
#[derive(Clone, Copy, PartialEq, Eq, Structural, Debug)]
pub struct ChildOf {
    pub parent: u64,
    pub place: Ordered,
}

/// The indexed children of one parent, in sibling order: each child's
/// ordering key and identifier.
#[derive(Debug)]
pub struct ParentIndex {
    pub children: Vec<(Ordered, u64)>,
}

/// One requested move.
#[derive(Clone, Copy, Debug)]
pub struct MoveCmd {
    pub target: u64,
    pub place: MoveToPlace,
}

/// Where a move command sends its target.
#[derive(Clone, Copy, Debug)]
pub enum MoveToPlace {
    Unlink,
    Between(u64, u64),
    FirstChildOf(u64),
    LastChildOf(u64),
}

/// The links as a mathematical map from entity to its `ChildOf`.
pub open spec fn child_map(s: Storage<ChildOf>) -> Map<u64, ChildOf> {
    Map::new(|e: u64| s.spec_get(e) is Some, |e: u64| s.spec_get(e)->Some_0)
}

/// The `ChildOf` a command assigns, given the current links and the parent
/// index: between two siblings of one parent, before a parent's first or
/// after its last indexed child (by hint when the index knows no children),
/// or unlinked.
pub open spec fn spec_move_dest(
    m: Map<u64, ChildOf>,
    index: Storage<ParentIndex>,
    place: MoveToPlace,
) -> ChildOf {
    match place {
        MoveToPlace::Unlink => ChildOf { parent: DEAD_ENTITY, place: Ordered { key: 0 } },
        MoveToPlace::Between(a, b) => ChildOf {
            parent: m[a].parent,
            place: spec_between(m[a].place, m[b].place),
        },
        MoveToPlace::FirstChildOf(p) => match index.spec_get(p) {
            Some(pi) => if pi.children@.len() > 0 {
                ChildOf { parent: p, place: spec_before(pi.children@[0].0) }
            } else {
                ChildOf { parent: p, place: Ordered { key: 0 } }
            },
            None => ChildOf { parent: p, place: Ordered { key: 0 } },
        },
        MoveToPlace::LastChildOf(p) => match index.spec_get(p) {
            Some(pi) => if pi.children@.len() > 0 {
                ChildOf { parent: p, place: spec_after(pi.children@[pi.children@.len() - 1].0) }
            } else {
                ChildOf { parent: p, place: Ordered { key: 0 } }
            },
            None => ChildOf { parent: p, place: Ordered { key: 0 } },
        },
    }
}

/// Every command finds its target linked, and a between-move names two
/// siblings of one parent — checked against the links as they stand when
/// the command runs.
pub open spec fn spec_moves_ok(m: Map<u64, ChildOf>, index: Storage<ParentIndex>, cmds: Seq<
    MoveCmd,
>) -> bool
    decreases cmds.len(),
{
    if cmds.len() == 0 {
        true
    } else {
        let cmd = cmds[0];
        let ok = m.dom().contains(cmd.target) && match cmd.place {
            MoveToPlace::Between(a, b) => m.dom().contains(a) && m.dom().contains(b)
                && m[a].parent == m[b].parent,
            _ => true,
        };
        ok && spec_moves_ok(
            m.insert(cmd.target, spec_move_dest(m, index, cmd.place)),
            index,
            cmds.drop_first(),
        )
    }
}

/// The links after all commands, applied in order.
pub open spec fn spec_apply_moves(
    m: Map<u64, ChildOf>,
    index: Storage<ParentIndex>,
    cmds: Seq<MoveCmd>,
) -> Map<u64, ChildOf>
    decreases cmds.len(),
{
    if cmds.len() == 0 {
        m
    } else {
        let cmd = cmds[0];
        spec_apply_moves(
            m.insert(cmd.target, spec_move_dest(m, index, cmd.place)),
            index,
            cmds.drop_first(),
        )
    }
}

/// Applies the move commands in order: each command rewrites its target's
/// `ChildOf` to the place it names, reading the links as left by the
/// commands before it.
pub fn tree_reordering(
    commands: &Vec<MoveCmd>,
    vm_child_of: &mut Storage<ChildOf>,
    v_parent_index: &Storage<ParentIndex>,
)
    requires
        old(vm_child_of).wf(),
        spec_moves_ok(child_map(*old(vm_child_of)), *v_parent_index, commands@),
    ensures
        final(vm_child_of).wf(),
        child_map(*final(vm_child_of)) == spec_apply_moves(
            child_map(*old(vm_child_of)),
            *v_parent_index,
            commands@,
        ),
{
    let ghost total = spec_apply_moves(child_map(*old(vm_child_of)), *v_parent_index, commands@);
    let n = commands.len();
    let mut i: usize = 0;
    proof {
        assert(commands@.skip(0) =~= commands@);
    }
    #[verifier::loop_isolation(false)]
    while i < n
        invariant
            0 <= i <= n,
            vm_child_of.wf(),
            spec_apply_moves(child_map(*vm_child_of), *v_parent_index, commands@.skip(i as int))
                == total,
            spec_moves_ok(child_map(*vm_child_of), *v_parent_index, commands@.skip(i as int)),
        decreases n - i,
    {
        proof {
            assert(commands@.skip(i as int).len() > 0);
            assert(commands@.skip(i as int)[0] == commands@[i as int]);
            assert(commands@.skip(i as int).drop_first() =~= commands@.skip(i as int + 1));
        }
        let cmd = &commands[i];
        let ghost m_pre = child_map(*vm_child_of);
        let dest: ChildOf = match cmd.place {
            MoveToPlace::Between(a, b) => {
                let ca = match vm_child_of.get(a) {
                    Some(c) => *c,
                    None => vstd::pervasive::unreached(),
                };
                let cb = match vm_child_of.get(b) {
                    Some(c) => *c,
                    None => vstd::pervasive::unreached(),
                };
                ChildOf { parent: ca.parent, place: Ordered::between(&ca.place, &cb.place) }
            },
            MoveToPlace::FirstChildOf(p) => {
                match v_parent_index.get(p) {
                    Some(pi) => if pi.children.len() > 0 {
                        ChildOf { parent: p, place: Ordered::before(&pi.children[0].0) }
                    } else {
                        ChildOf { parent: p, place: Ordered::hinted(0) }
                    },
                    None => ChildOf { parent: p, place: Ordered::hinted(0) },
                }
            },
            MoveToPlace::LastChildOf(p) => {
                match v_parent_index.get(p) {
                    Some(pi) => if pi.children.len() > 0 {
                        ChildOf {
                            parent: p,
                            place: Ordered::after(&pi.children[pi.children.len() - 1].0),
                        }
                    } else {
                        ChildOf { parent: p, place: Ordered::hinted(0) }
                    },
                    None => ChildOf { parent: p, place: Ordered::hinted(0) },
                }
            },
            MoveToPlace::Unlink => ChildOf { parent: DEAD_ENTITY, place: Ordered::hinted(0) },
        };
        proof {
            assert(dest == spec_move_dest(m_pre, *v_parent_index, commands@[i as int].place));
        }
        vm_child_of.insert(cmd.target, dest);
        proof {
            assert(child_map(*vm_child_of) =~= m_pre.insert(commands@[i as int].target, dest));
        }
        i += 1;
    }
    proof {
        assert(commands@.skip(n as int) =~= Seq::<MoveCmd>::empty());
    }
}

} // verus!
