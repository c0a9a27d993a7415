use assembly::sysdiagram::{DSRefSchemaContents, DSRefSchemaEntry};
use assembly::types::{ObjectID, ObjectTemplate, WorldID};
use std::collections::HashMap;

#[test]
fn test_newtypes() {
    assert_eq!(ObjectTemplate::from_u32(100), Some(ObjectTemplate(100)));
    assert_eq!(WorldID::from_u32(1001), Some(WorldID(1001)));
}

#[test]
fn world_id_from_wider_numbers() {
    assert_eq!(WorldID::from_i64(0), Some(WorldID(0)));
    assert_eq!(WorldID::from_i64(4_294_967_295), Some(WorldID(u32::MAX)));
    assert_eq!(WorldID::from_i64(4_294_967_296), None);
    assert_eq!(WorldID::from_i64(-1), None);
    assert_eq!(WorldID::from_u64(1200), Some(WorldID(1200)));
    assert_eq!(WorldID::from_u64(u64::MAX), None);
}

#[test]
fn object_template_from_wider_numbers() {
    assert_eq!(ObjectTemplate::from_i64(7), Some(ObjectTemplate(7)));
    assert_eq!(ObjectTemplate::from_i64(i64::MIN), None);
    assert_eq!(ObjectTemplate::from_i64(i64::MAX), None);
    assert_eq!(ObjectTemplate::from_u64(4_294_967_295), Some(ObjectTemplate(u32::MAX)));
    assert_eq!(ObjectTemplate::from_u64(4_294_967_296), None);
}

#[test]
fn newtypes_to_numbers() {
    assert_eq!(WorldID(1001).to_u32(), Some(1001));
    assert_eq!(WorldID(u32::MAX).to_i64(), Some(4_294_967_295));
    assert_eq!(WorldID(u32::MAX).to_u64(), Some(4_294_967_295));
    assert_eq!(ObjectTemplate(100).to_u32(), Some(100));
    assert_eq!(ObjectTemplate(0).to_i64(), Some(0));
    assert_eq!(ObjectTemplate(31).to_u64(), Some(31));
}

#[test]
fn newtypes_compare_by_number() {
    assert_eq!(WorldID(5), WorldID(5).clone());
    assert_ne!(WorldID(5), WorldID(6));
    assert_ne!(ObjectTemplate(1), ObjectTemplate(2));
}

#[test]
fn object_id_new_keeps_both_parts() {
    let id = ObjectID::new(0x1000_0000, 42);
    assert_eq!(id.scope, 0x1000_0000);
    assert_eq!(id.id, 42);
    let copy = id.clone();
    assert_eq!(copy.scope, 0x1000_0000);
    assert_eq!(copy.id, 42);
}

#[test]
fn diagram_data_source_holds_its_tables() {
    let entry = DSRefSchemaEntry { k1: 3, table: "Objects".to_string(), schema: "dbo".to_string() };
    let mut settings = HashMap::new();
    settings.insert("Provider".to_string(), "SQLOLEDB".to_string());
    let contents = DSRefSchemaContents {
        name: "diagram".to_string(),
        guid: "{00000000}".to_string(),
        tables: vec![entry.clone(), entry],
        settings,
    };
    assert_eq!(contents.tables.len(), 2);
    assert_eq!(contents.tables[1].k1, 3);
    assert_eq!(contents.tables[0].table, "Objects");
    assert_eq!(contents.settings["Provider"], "SQLOLEDB");
    assert!(format!("{:?}", contents).contains("dbo"));
}
