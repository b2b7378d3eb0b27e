use std::sync::Arc;

use connector_behaviours::connector::Connector;
use connector_behaviours::edge_key::EdgeKey;
use connector_behaviours::provider::{
    ConnectorRelationBehaviourProvider, ConnectorRelationBehaviourProviderImpl,
};
use connector_behaviours::registry::ConnectorRegistry;
use connector_behaviours::relation::ReactiveRelationInstance;
use connector_behaviours::storage::{create_connector_storage, ConnectorStorage};

fn key(outbound: u128, t: &str, inbound: u128) -> EdgeKey {
    EdgeKey::new(outbound, String::from(t), inbound)
}

fn instance(relation_type: &str, edge_key: Option<EdgeKey>) -> Arc<ReactiveRelationInstance> {
    Arc::new(ReactiveRelationInstance::new(String::from(relation_type), edge_key))
}

fn registry(entries: &[(&str, &'static str)]) -> ConnectorRegistry<&'static str> {
    let mut r = ConnectorRegistry::new();
    for (name, f) in entries {
        r.register(String::from(*name), *f);
    }
    r
}

fn provider(entries: &[(&str, &'static str)]) -> ConnectorRelationBehaviourProviderImpl<&'static str> {
    ConnectorRelationBehaviourProviderImpl::new(registry(entries))
}

fn function_at(p: &ConnectorRelationBehaviourProviderImpl<&'static str>, k: &EdgeKey) -> Option<&'static str> {
    p.connectors().get(k).map(|c| c.function)
}

#[test]
fn sensor_scenario() {
    let mut p = provider(&[("Sensor", "f")]);
    let e1 = key(1, "Sensor001", 2);
    p.add_behaviours(instance("Sensor001", Some(e1.clone())));
    assert_eq!(p.connectors().len(), 1);
    let c = p.connectors().get(&e1).unwrap();
    assert_eq!(c.function, "f");
    assert_eq!(c.relation_instance.relation_type().as_str(), "Sensor001");
    assert!(c.relation_instance.get_key().unwrap().same_as(&e1));
    p.remove_behaviours_by_key(e1.clone());
    assert_eq!(p.connectors().len(), 0);
    p.remove_behaviours_by_key(e1.clone());
    assert_eq!(p.connectors().len(), 0);
    assert!(!p.connectors().contains_key(&e1));
}

#[test]
fn add_twice_keeps_one_entry() {
    let mut p = provider(&[("Counter", "count")]);
    let k = key(10, "Counter", 11);
    p.add_behaviours(instance("Counter", Some(k.clone())));
    p.add_behaviours(instance("Counter", Some(k.clone())));
    assert_eq!(p.connectors().len(), 1);
    assert_eq!(function_at(&p, &k), Some("count"));
}

#[test]
fn re_attach_replaces_connector() {
    let mut p = provider(&[("Counter", "count")]);
    let k = key(10, "Counter", 11);
    p.add_behaviours(instance("Counter", Some(k.clone())));
    let second = instance("Counter", Some(k.clone()));
    p.add_behaviours(second.clone());
    let c = p.connectors().get(&k).unwrap();
    assert!(Arc::ptr_eq(&c.relation_instance, &second));
}

#[test]
fn instance_without_key_is_ignored() {
    let mut p = provider(&[("Sensor", "f")]);
    let k = key(1, "Sensor", 2);
    p.add_behaviours(instance("Sensor", Some(k.clone())));
    p.add_behaviours(instance("Sensor", None));
    assert_eq!(p.connectors().len(), 1);
    p.remove_behaviours(instance("Sensor", None));
    assert_eq!(p.connectors().len(), 1);
    assert!(p.connectors().contains_key(&k));
}

#[test]
fn exact_match_wins_over_prefix() {
    let mut p = provider(&[("F", "short"), ("Foo", "exact")]);
    let k = key(1, "Foo", 2);
    p.add_behaviours(instance("Foo", Some(k.clone())));
    assert_eq!(function_at(&p, &k), Some("exact"));
}

#[test]
fn exact_match_wins_whatever_the_registration_order() {
    let mut p = provider(&[("Foo", "exact"), ("F", "short")]);
    let k = key(1, "Foo", 2);
    p.add_behaviours(instance("Foo", Some(k.clone())));
    assert_eq!(function_at(&p, &k), Some("exact"));
}

#[test]
fn prefix_fallback_attaches() {
    let mut p = provider(&[("Connector__Counter", "counter")]);
    let k = key(3, "Connector__Counter__Increment", 4);
    p.add_behaviours(instance("Connector__Counter__Increment", Some(k.clone())));
    assert_eq!(function_at(&p, &k), Some("counter"));
}

#[test]
fn longest_prefix_wins() {
    let mut p = provider(&[("Conn", "short"), ("Connector__Counter", "long"), ("Connector", "middle")]);
    let k = key(3, "Connector__Counter__Increment", 4);
    p.add_behaviours(instance("Connector__Counter__Increment", Some(k.clone())));
    assert_eq!(function_at(&p, &k), Some("long"));
}

#[test]
fn unresolvable_type_attaches_nothing() {
    let mut p = provider(&[("Sensor", "f"), ("SensorXYZ", "g")]);
    let k = key(1, "Actuator", 2);
    p.add_behaviours(instance("Actuator", Some(k.clone())));
    assert_eq!(p.connectors().len(), 0);
    let k2 = key(1, "Sens", 2);
    p.add_behaviours(instance("Sens", Some(k2.clone())));
    assert_eq!(p.connectors().len(), 0);
}

#[test]
fn empty_registry_attaches_nothing() {
    let mut p = provider(&[]);
    let k = key(1, "Sensor", 2);
    p.add_behaviours(instance("Sensor", Some(k)));
    assert_eq!(p.connectors().len(), 0);
}

#[test]
fn remove_by_key_twice_is_a_no_op() {
    let mut p = provider(&[("Sensor", "f")]);
    let k = key(1, "Sensor", 2);
    let other = key(5, "Sensor", 6);
    p.add_behaviours(instance("Sensor", Some(k.clone())));
    p.add_behaviours(instance("Sensor", Some(other.clone())));
    p.remove_behaviours_by_key(k.clone());
    p.remove_behaviours_by_key(k.clone());
    assert!(!p.connectors().contains_key(&k));
    assert!(p.connectors().contains_key(&other));
    assert_eq!(p.connectors().len(), 1);
}

#[test]
fn remove_by_unknown_key_changes_nothing() {
    let mut p = provider(&[("Sensor", "f")]);
    let k = key(1, "Sensor", 2);
    p.add_behaviours(instance("Sensor", Some(k.clone())));
    p.remove_behaviours_by_key(key(1, "Sensor", 3));
    p.remove_behaviours_by_key(key(1, "Other", 2));
    assert_eq!(p.connectors().len(), 1);
    assert_eq!(function_at(&p, &k), Some("f"));
}

#[test]
fn instance_and_key_removal_agree() {
    let k = key(7, "Sensor", 8);
    let r = instance("Sensor", Some(k.clone()));
    let mut by_instance = provider(&[("Sensor", "f")]);
    let mut by_key = provider(&[("Sensor", "f")]);
    for p in [&mut by_instance, &mut by_key] {
        p.add_behaviours(r.clone());
        p.add_behaviours(instance("Sensor", Some(key(9, "Sensor", 9))));
    }
    by_instance.remove_behaviours(r.clone());
    by_key.remove_behaviours_by_key(k.clone());
    for p in [&by_instance, &by_key] {
        assert_eq!(p.connectors().len(), 1);
        assert!(!p.connectors().contains_key(&k));
        assert!(p.connectors().contains_key(&key(9, "Sensor", 9)));
    }
}

#[test]
fn trait_entry_points_match_provider_calls() {
    let mut p = provider(&[("Sensor", "f")]);
    let k = key(1, "Sensor", 2);
    p.create_connector(instance("Sensor", Some(k.clone())));
    assert!(p.connectors().contains_key(&k));
    p.remove_connector(instance("Sensor", Some(k.clone())));
    assert!(!p.connectors().contains_key(&k));
    p.create_connector(instance("Sensor", Some(k.clone())));
    p.remove_by_key(k.clone());
    assert!(!p.connectors().contains_key(&k));
}

#[test]
fn registry_resolution() {
    let r = registry(&[("Sensor", "f"), ("Sensor00", "g")]);
    assert_eq!(r.resolve("Sensor"), Some("f"));
    assert_eq!(r.resolve("Sensor001"), Some("g"));
    assert_eq!(r.resolve("Sensor1"), Some("f"));
    assert_eq!(r.resolve("Senso"), None);
    assert_eq!(r.resolve(""), None);
}

#[test]
fn registry_reregistration_replaces() {
    let mut r = registry(&[("Sensor", "f")]);
    r.register(String::from("Sensor"), "g");
    assert_eq!(r.resolve("Sensor"), Some("g"));
}

#[test]
fn empty_name_matches_everything() {
    let r = registry(&[("", "any"), ("Sensor", "f")]);
    assert_eq!(r.resolve("Actuator"), Some("any"));
    assert_eq!(r.resolve("Sensor1"), Some("f"));
}

#[test]
fn non_ascii_prefix() {
    let r = registry(&[("Zähler", "z")]);
    assert_eq!(r.resolve("Zähler_2"), Some("z"));
    assert_eq!(r.resolve("Zäh"), None);
}

#[test]
fn storage_insert_get_remove() {
    let mut s: ConnectorStorage<u32> = create_connector_storage();
    let k = key(1, "T", 2);
    let r = instance("T", Some(k.clone()));
    s.insert(k.clone(), Arc::new(Connector::from_relation(r.clone(), 1)));
    s.insert(k.clone(), Arc::new(Connector::from_relation(r.clone(), 2)));
    assert_eq!(s.len(), 1);
    assert_eq!(s.get(&k).map(|c| c.function), Some(2));
    s.remove(&k);
    assert!(s.get(&k).is_none());
    assert_eq!(s.len(), 0);
}

#[test]
fn edge_key_equality_is_exact() {
    let k = key(1, "T", 2);
    assert!(k.same_as(&key(1, "T", 2)));
    assert!(!k.same_as(&key(2, "T", 2)));
    assert!(!k.same_as(&key(1, "U", 2)));
    assert!(!k.same_as(&key(1, "T", 3)));
    assert!(k.clone().same_as(&k));
}

#[test]
fn relation_instance_accessors() {
    let r = ReactiveRelationInstance::new(String::from("T"), None);
    assert!(r.get_key().is_none());
    assert_eq!(r.relation_type().as_str(), "T");
    let k = key(u128::MAX, "T", 0);
    let r = ReactiveRelationInstance::new(String::from("T"), Some(k.clone()));
    assert!(r.get_key().unwrap().same_as(&k));
}
