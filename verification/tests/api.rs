//! The authoring API: located values, aggregates, configuration.

use chorus_lib::bookseller::{Buyer1, Seller};
use chorus_lib::kvs::{Client, Primary, Request};
use chorus_lib::located::{Faceted, Located, MultiplyLocated, Quire, Superposition, Unwrapper};
use chorus_lib::location::{string_list_of, HCons, HNil, LocationSet};
use chorus_lib::portable::Portable;
use chorus_lib::transport::TransportConfigBuilder;
use chorus_lib::value::Value;

#[test]
fn test_located_present_and_absent() {
    let present: Located<i32> = MultiplyLocated::local(5);
    assert!(present.has_value());
    assert_eq!(present.into_value(), 5);
    let absent: Located<i32> = <MultiplyLocated<i32> as Superposition>::remote();
    assert!(!absent.has_value());
}

#[test]
fn test_flatten() {
    let nested: MultiplyLocated<MultiplyLocated<i32>> =
        MultiplyLocated::local(MultiplyLocated::local(3));
    let flat = nested.flatten();
    assert!(flat.has_value());
    assert_eq!(flat.into_value(), 3);
    let outer_absent: MultiplyLocated<MultiplyLocated<i32>> = MultiplyLocated::remote();
    assert!(!outer_absent.flatten().has_value());
    let inner_absent: MultiplyLocated<MultiplyLocated<i32>> =
        MultiplyLocated::local(MultiplyLocated::remote());
    assert!(!inner_absent.flatten().has_value());
}

#[test]
fn test_unwrapper() {
    let unwrapper = Unwrapper {
        at: "Client".to_string(),
    };
    let located: Located<i32> = MultiplyLocated::local(11);
    assert_eq!(*unwrapper.unwrap(&located), 11);
}

#[test]
fn test_quire() {
    let quire: Quire<i32> = Quire::new();
    let quire = quire.add(Client, 1).add(Primary, 2);
    let map = quire.get_map();
    assert_eq!(map.len(), 2);
    assert_eq!(map[0], ("Client".to_string(), 1));
    assert_eq!(map[1], ("Primary".to_string(), 2));
}

#[test]
fn test_quire_add_replaces() {
    // Adding under an existing location name replaces the prior binding.
    let quire: Quire<i32> = Quire::new();
    let quire = quire.add(Client, 1).add(Primary, 2).add(Client, 3);
    let map = quire.get_map();
    assert_eq!(map.len(), 2);
    assert_eq!(map[0], ("Client".to_string(), 3));
    assert_eq!(map[1], ("Primary".to_string(), 2));
}

#[test]
fn test_transport_config_builder_replaces() {
    // Configuring a location twice keeps only the newest information.
    let config = TransportConfigBuilder::for_target(Client, 0u16)
        .with(Primary, 1u16)
        .with(Primary, 2u16)
        .build();
    assert_eq!(config.info.len(), 1);
    assert_eq!(config.info[0].0, "Primary".to_string());
    assert_eq!(config.info[0].1, 2u16);
}

#[test]
fn test_unwrap3() {
    let unwrapper = Unwrapper {
        at: "Buyer2".to_string(),
    };
    let faceted = Faceted::from_entries(vec![("Buyer1".to_string(), 10), ("Buyer2".to_string(), 20)]);
    assert_eq!(*unwrapper.unwrap3(&faceted), 20);
}

#[test]
fn test_faceted() {
    let faceted = Faceted::from_entries(vec![("Buyer1".to_string(), 10), ("Buyer2".to_string(), 20)]);
    let map = faceted.get_map();
    assert_eq!(map[0].1, 10);
    assert_eq!(map[1].1, 20);
}

#[test]
fn test_location_set_names() {
    let names = string_list_of::<HCons<Buyer1, HCons<Seller, HNil>>>();
    assert_eq!(names, vec!["Seller".to_string(), "Buyer1".to_string()]);
    let raw = <HCons<Buyer1, HNil> as LocationSet>::to_string_list();
    assert_eq!(raw, vec!["Buyer1"]);
}

#[test]
fn test_transport_config_builder() {
    let config = TransportConfigBuilder::for_target(Client, ("0.0.0.0".to_string(), 9010u16))
        .with(Primary, ("localhost".to_string(), 9011u16))
        .build();
    assert_eq!(config.info.len(), 1);
    assert_eq!(config.info[0].0, "Primary".to_string());
    assert_eq!(config.info[0].1 .1, 9011u16);
}

#[test]
fn test_portable_round_trip() {
    let req = Request::Put("a".to_string(), "b".to_string());
    let v = Portable::to_value(&req);
    let back: Request = Portable::from_value(&v).unwrap();
    assert_eq!(back, req);
    assert_eq!(<bool as Portable>::from_value(&Value::B(true)), Some(true));
    assert_eq!(<i64 as Portable>::from_value(&Value::I(-3)), Some(-3));
    assert_eq!(
        <String as Portable>::from_value(&Value::S("x".to_string())),
        Some("x".to_string())
    );
    assert_eq!(<bool as Portable>::from_value(&Value::Unit), None);
}
