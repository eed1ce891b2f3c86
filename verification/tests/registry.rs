//! The type registry, identity paths, and the claim ledger.

use shipyard_app::{
    AssociateResult, PluginAssociated, PluginId, TypeIdBuckets, TypeIdentity, TypeNames, TypeRef,
};

#[test]
fn registry_records_first_name_permanently() {
    let mut names = TypeNames::new();
    let id = names.tracked_type_id_of(&TypeRef::new(1, "A"));
    assert_eq!(id.key, 1);
    // a later encounter under another display name does not overwrite
    names.tracked_type_id_of(&TypeRef::new(1, "Aliased"));
    assert_eq!(names.lookup_name(&id), Some(&"A".to_owned()));
}

#[test]
fn registry_lookup_of_unseen_identity_is_none() {
    let names = TypeNames::new();
    assert_eq!(names.lookup_name(&TypeIdentity::new(42)), None);
}

#[test]
fn plugin_identity_is_elementwise_equality() {
    let mut a = PluginId::new();
    a.push(TypeIdentity::new(1));
    a.push(TypeIdentity::new(2));
    let b = a.clone();
    assert!(a == b);
    assert!(a.contains(TypeIdentity::new(2)));
    assert!(!a.contains(TypeIdentity::new(3)));
    let mut c = PluginId::new();
    c.push(TypeIdentity::new(2));
    c.push(TypeIdentity::new(1));
    assert!(a != c);
    let mut d = a.clone();
    d.pop();
    assert!(a != d);
}

#[test]
fn plugin_identity_renders_as_joined_path() {
    let mut names = TypeNames::new();
    names.tracked_type_id_of(&TypeRef::new(1, "Outer"));
    names.tracked_type_id_of(&TypeRef::new(2, "Inner"));
    let mut id = PluginId::new();
    id.push(TypeIdentity::new(1));
    id.push(TypeIdentity::new(2));
    assert_eq!(id.path_string(&names), "Outer>Inner");
}

#[test]
fn ledger_reports_first_and_nth_claims() {
    let mut buckets: TypeIdBuckets<PluginAssociated> = TypeIdBuckets::new("claims");
    let claim = |reason: &str| PluginAssociated {
        plugin: PluginId::new(),
        reason: reason.to_owned(),
    };
    let a = TypeRef::new(1, "A");
    let b = TypeRef::new(2, "B");
    assert_eq!(buckets.associate(&a, claim("one")), AssociateResult::First);
    assert_eq!(buckets.associate(&a, claim("two")), AssociateResult::Nth(2));
    assert_eq!(buckets.associate(&b, claim("three")), AssociateResult::First);
    assert!(buckets.has(TypeIdentity::new(1)));
    assert!(!buckets.has(TypeIdentity::new(3)));
    let entries = buckets.entries();
    // entries keep the order types were first claimed; claims keep
    // recording order
    assert_eq!(entries.len(), 2);
    assert_eq!(entries[0].1, "A");
    assert_eq!(entries[0].2.len(), 2);
    assert_eq!(entries[0].2[0].reason, "one");
    assert_eq!(entries[0].2[1].reason, "two");
    assert_eq!(entries[1].1, "B");
}

#[test]
fn associate_result_reports_first() {
    assert!(AssociateResult::First.is_first());
    assert!(!AssociateResult::Nth(2).is_first());
}
