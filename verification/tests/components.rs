//! The component-side helpers: storages, one-to-one and two-to-one updates,
//! change-tracked uniques, events, stages, and tree reordering.

use shipyard_app::{
    reset_tracked_unique, tree_reordering, update_events, ChangeView, ChangedOneToOne, Events,
    MoveCmd, MoveToPlace, Ordered, ParentIndex, Storage, SystemDesc, TrackedValue,
    UpdateOneToOne, UpdateTwoToOne, Workloads,
};

#[derive(Clone, Debug, PartialEq)]
struct Square(u64);

#[test]
fn creates_cycle_for_one() {
    // let
}

#[test]
fn storage_insert_get_delete() {
    let mut s: Storage<u32> = Storage::new();
    assert!(s.get(1).is_none());
    s.insert(1, 10);
    s.insert(2, 20);
    assert_eq!(s.get(1), Some(&10));
    assert_eq!(s.get(2), Some(&20));
    s.insert(1, 11);
    assert_eq!(s.get(1), Some(&11));
    assert_eq!(s.len(), 2);
    s.delete(1);
    assert!(s.get(1).is_none());
    assert_eq!(s.get(2), Some(&20));
}

#[test]
fn add_distinct_skips_equal_values() {
    let mut s: Storage<u32> = Storage::new();
    // absent: inserted
    assert!(s.add_distinct(1, 10));
    // equal: no mutation occurs
    assert!(!s.add_distinct(1, 10));
    // distinct: modified to the new value
    assert!(s.add_distinct(1, 11));
    assert_eq!(s.get(1), Some(&11));
}

#[test]
fn update_one_to_one_squares() {
    let mut target: Storage<Square> = Storage::new();
    target.insert(9, Square(81));
    let view = UpdateOneToOne {
        inserted: vec![(1, 1u32), (2, 2u32), (3, 3u32)],
        modified: vec![],
        removed: vec![9],
        target,
    };
    let result = view.update(|_entity, prev| Square((*prev as u64) * (*prev as u64)));
    assert_eq!(result.get(1), Some(&Square(1)));
    assert_eq!(result.get(2), Some(&Square(4)));
    assert_eq!(result.get(3), Some(&Square(9)));
    // the removed entity lost its target component as well
    assert!(result.get(9).is_none());
}

#[test]
fn update_or_ignore_keeps_declined_entities() {
    let mut target: Storage<Square> = Storage::new();
    target.insert(2, Square(999));
    let view = UpdateOneToOne {
        inserted: vec![(1, 4u32)],
        modified: vec![(2, 5u32)],
        removed: vec![],
        target,
    };
    let result = view.update_or_ignore(|_entity, prev| {
        if *prev % 2 == 0 {
            Some(Square((*prev as u64) * (*prev as u64)))
        } else {
            None
        }
    });
    assert_eq!(result.get(1), Some(&Square(16)));
    // declined: previous value kept
    assert_eq!(result.get(2), Some(&Square(999)));
}

#[test]
fn update_or_delete_removes_declined_entities() {
    let mut target: Storage<Square> = Storage::new();
    target.insert(2, Square(999));
    let view = UpdateOneToOne {
        inserted: vec![(1, 4u32)],
        modified: vec![(2, 5u32)],
        removed: vec![],
        target,
    };
    let result = view.update_or_delete(|_entity, prev| {
        if *prev % 2 == 0 {
            Some(Square((*prev as u64) * (*prev as u64)))
        } else {
            None
        }
    });
    assert_eq!(result.get(1), Some(&Square(16)));
    // declined: component deleted
    assert!(result.get(2).is_none());
}

#[test]
fn changed_one_to_one_updates_in_place() {
    let mut view = ChangedOneToOne {
        inserted: vec![(1, 1usize), (2, 2usize)],
        modified: vec![(3, 7usize)],
        removed: vec![4],
        target: Storage::new(),
    };
    view.target.insert(3, 100usize);
    view.target.insert(4, 100usize);
    view.update(|_entity, prev| prev + 1);
    assert_eq!(view.target.get(1), Some(&2));
    assert_eq!(view.target.get(2), Some(&3));
    assert_eq!(view.target.get(3), Some(&8));
    assert!(view.target.get(4).is_none());
}

#[test]
fn update_two_to_one_sums_present_pairs() {
    let mut s1: Storage<u32> = Storage::new();
    let mut s2: Storage<u32> = Storage::new();
    let mut target: Storage<u32> = Storage::new();
    s1.insert(1, 10);
    s2.insert(1, 1);
    s1.insert(2, 20);
    // entity 2 misses its second component: a change leaves the target alone
    target.insert(2, 999);
    s1.insert(3, 30);
    s2.insert(3, 3);
    target.insert(4, 40);
    let view = UpdateTwoToOne {
        first: ChangeView { storage: s1, inserted: vec![1, 2], modified: vec![3], removed: vec![4] },
        second: ChangeView {
            storage: s2,
            inserted: vec![1],
            modified: vec![],
            removed: vec![],
        },
        target,
    };
    let result = view.update_or_delete(|_entity, a, b| Some(a + b));
    assert_eq!(result.get(1), Some(&11));
    assert_eq!(result.get(2), Some(&999));
    assert_eq!(result.get(3), Some(&33));
    // removed from the first source: target component deleted
    assert!(result.get(4).is_none());
}

#[test]
fn update_two_to_one_deletes_declined_pairs() {
    let mut s1: Storage<u32> = Storage::new();
    let mut s2: Storage<u32> = Storage::new();
    let mut target: Storage<u32> = Storage::new();
    s1.insert(1, 10);
    s2.insert(1, 1);
    target.insert(1, 11);
    let view = UpdateTwoToOne {
        first: ChangeView {
            storage: s1,
            inserted: vec![],
            modified: vec![1],
            removed: vec![],
        },
        second: ChangeView {
            storage: s2,
            inserted: vec![],
            modified: vec![],
            removed: vec![],
        },
        target,
    };
    let result = view.update_or_delete(|_entity, _a, _b| None);
    assert!(result.get(1).is_none());
}

#[test]
fn tracked_value_reports_changes_until_reset() {
    let mut v = TrackedValue::new(5u32);
    assert!(v.is_new_or_modified());
    v.reset_tracking();
    assert!(!v.is_new_or_modified());
    assert_eq!(*v.get(), 5);
    v.set(6);
    assert!(v.is_new_or_modified());
    assert_eq!(*v.get(), 6);
    reset_tracked_unique(&mut v);
    assert!(!v.is_new_or_modified());
    assert_eq!(*v.get(), 6);
}

#[test]
fn events_rotate_per_update() {
    let mut events: Events<u32> = Events::new();
    events.send(1);
    events.send(2);
    assert!(events.current().is_empty());
    update_events(&mut events);
    assert_eq!(events.current(), &vec![1, 2]);
    events.send(3);
    update_events(&mut events);
    // the previous current events are dropped
    assert_eq!(events.current(), &vec![3]);
    update_events(&mut events);
    assert!(events.current().is_empty());
}

#[test]
fn workload_stages_keep_names_unique() {
    let mut w = Workloads::new();
    w.add_stage("default");
    w.add_stage("events");
    w.add_stage("default");
    assert!(w.add_system_to_stage("default", SystemDesc::Named("tick".to_owned())));
    assert!(!w.add_system_to_stage("unknown", SystemDesc::Named("lost".to_owned())));
}

#[test]
fn ordering_keys_bisect_and_saturate() {
    assert_eq!(Ordered::between(&Ordered::hinted(10), &Ordered::hinted(20)).key, 15);
    assert_eq!(Ordered::between(&Ordered::hinted(-9), &Ordered::hinted(-2)).key, -5);
    assert_eq!(Ordered::before(&Ordered::hinted(i64::MIN)).key, i64::MIN);
    assert_eq!(Ordered::after(&Ordered::hinted(i64::MAX)).key, i64::MAX);
}

#[test]
fn tree_reordering_moves_children() {
    let mut child_of: Storage<shipyard_app::ChildOf> = Storage::new();
    let parent = 100u64;
    child_of.insert(1, shipyard_app::ChildOf { parent, place: Ordered::hinted(10) });
    child_of.insert(2, shipyard_app::ChildOf { parent, place: Ordered::hinted(20) });
    child_of.insert(3, shipyard_app::ChildOf { parent, place: Ordered::hinted(30) });
    let mut parent_index: Storage<ParentIndex> = Storage::new();
    parent_index.insert(
        parent,
        ParentIndex {
            children: vec![
                (Ordered::hinted(10), 1),
                (Ordered::hinted(20), 2),
                (Ordered::hinted(30), 3),
            ],
        },
    );
    let commands = vec![
        MoveCmd { target: 3, place: MoveToPlace::Between(1, 2) },
        MoveCmd { target: 1, place: MoveToPlace::LastChildOf(parent) },
        MoveCmd { target: 2, place: MoveToPlace::Unlink },
    ];
    tree_reordering(&commands, &mut child_of, &parent_index);
    // 3 moved to the midpoint between its siblings' places
    assert_eq!(child_of.get(3).unwrap().place, Ordered::hinted(15));
    assert_eq!(child_of.get(3).unwrap().parent, parent);
    // 1 moved after the last indexed child
    assert_eq!(child_of.get(1).unwrap().place, Ordered::hinted(31));
    // 2 unlinked
    assert_eq!(child_of.get(2).unwrap().parent, shipyard_app::reordering::DEAD_ENTITY);
}
