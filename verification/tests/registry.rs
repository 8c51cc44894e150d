use openapi_builder::error::BuildError;
use openapi_builder::registry::Registry;
use openapi_builder::schema::{FieldDef, PrimitiveKind, SchemaDefinition};

fn message_object() -> SchemaDefinition {
    SchemaDefinition::Object(vec![
        FieldDef {
            name: "message".to_string(),
            schema: SchemaDefinition::Primitive(PrimitiveKind::Text),
            required: true,
        },
    ])
}

fn count_object() -> SchemaDefinition {
    SchemaDefinition::Object(vec![
        FieldDef {
            name: "count".to_string(),
            schema: SchemaDefinition::Primitive(PrimitiveKind::Integer),
            required: true,
        },
    ])
}

#[test]
fn register_then_get() {
    let mut reg = Registry::new();
    assert!(reg.register("Echo".to_string(), message_object()).is_ok());
    assert_eq!(reg.schema_count(), 1);
    assert!(reg.contains_name(&"Echo".to_string()));
    assert!(!reg.contains_name(&"Other".to_string()));
    let def = reg.get(&"Echo".to_string()).unwrap();
    assert!(def.structural_eq(&message_object()));
}

#[test]
fn register_idempotent() {
    let mut reg = Registry::new();
    assert!(reg.register("Echo".to_string(), message_object()).is_ok());
    assert!(reg.register("Echo".to_string(), message_object()).is_ok());
    assert_eq!(reg.schema_count(), 1);
    let def = reg.get(&"Echo".to_string()).unwrap();
    assert!(def.structural_eq(&message_object()));
}

#[test]
fn register_conflict() {
    let mut reg = Registry::new();
    assert!(reg.register("Echo".to_string(), message_object()).is_ok());
    let err = reg.register("Echo".to_string(), count_object()).unwrap_err();
    match err {
        BuildError::SchemaConflict { name } => assert_eq!(name, "Echo"),
        _ => panic!("expected a schema conflict"),
    }
    assert_eq!(reg.schema_count(), 1);
    let def = reg.get(&"Echo".to_string()).unwrap();
    assert!(def.structural_eq(&message_object()));
}

#[test]
fn structural_equality_is_deep() {
    let a = SchemaDefinition::Array(Box::new(message_object()));
    let b = SchemaDefinition::Array(Box::new(message_object()));
    let c = SchemaDefinition::Array(Box::new(count_object()));
    assert!(a.structural_eq(&b));
    assert!(!a.structural_eq(&c));
    assert!(!a.structural_eq(&SchemaDefinition::Primitive(PrimitiveKind::Null)));
    let e1 = SchemaDefinition::Enumeration(vec!["on".to_string(), "off".to_string()]);
    let e2 = SchemaDefinition::Enumeration(vec!["on".to_string(), "off".to_string()]);
    let e3 = SchemaDefinition::Enumeration(vec!["off".to_string(), "on".to_string()]);
    assert!(e1.structural_eq(&e2));
    assert!(!e1.structural_eq(&e3));
    let r1 = SchemaDefinition::Reference("Echo".to_string());
    let r2 = SchemaDefinition::Reference("Echo".to_string());
    let r3 = SchemaDefinition::Reference("Other".to_string());
    assert!(r1.structural_eq(&r2));
    assert!(!r1.structural_eq(&r3));
}

#[test]
fn merge_from_unions_with_conflict_detection() {
    let mut a = Registry::new();
    assert!(a.register("Echo".to_string(), message_object()).is_ok());
    let mut b = Registry::new();
    assert!(b.register("Echo".to_string(), message_object()).is_ok());
    assert!(b.register("Count".to_string(), count_object()).is_ok());
    assert!(a.merge_from(&b).is_ok());
    assert_eq!(a.schema_count(), 2);

    let mut c = Registry::new();
    assert!(c.register("Echo".to_string(), count_object()).is_ok());
    let err = a.merge_from(&c).unwrap_err();
    match err {
        BuildError::SchemaConflict { name } => assert_eq!(name, "Echo"),
        _ => panic!("expected a schema conflict"),
    }
}
