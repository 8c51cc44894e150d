use openapi_builder::gen::{FieldShape, Generator, TypeShape};
use openapi_builder::schema::{FieldDef, PrimitiveKind, SchemaDefinition};

fn echo_shape() -> TypeShape {
    TypeShape::Object {
        name: "EchoResponse".to_string(),
        fields: vec![
            FieldShape {
                name: "message".to_string(),
                shape: TypeShape::Primitive(PrimitiveKind::Text),
                required: true,
            },
        ],
    }
}

#[test]
fn generates_reference_and_registers_definition() {
    let mut g = Generator::new();
    let d = g.generate(&echo_shape()).unwrap();
    assert!(d.structural_eq(&SchemaDefinition::Reference("EchoResponse".to_string())));
    assert_eq!(g.registry.schema_count(), 1);
    let expected = SchemaDefinition::Object(vec![
        FieldDef {
            name: "message".to_string(),
            schema: SchemaDefinition::Primitive(PrimitiveKind::Text),
            required: true,
        },
    ]);
    let stored = g.registry.get(&"EchoResponse".to_string()).unwrap();
    assert!(stored.structural_eq(&expected));
}

#[test]
fn generation_is_idempotent() {
    let mut g = Generator::new();
    let first = g.generate(&echo_shape()).unwrap();
    let second = g.generate(&echo_shape()).unwrap();
    assert!(first.structural_eq(&second));
    assert_eq!(g.registry.schema_count(), 1);
}

#[test]
fn self_referential_shape_stays_finite() {
    // A record holding an optional reference to itself: one registered
    // schema, whose field points back by reference.
    let node = TypeShape::Object {
        name: "Node".to_string(),
        fields: vec![
            FieldShape {
                name: "next".to_string(),
                shape: TypeShape::Reference("Node".to_string()),
                required: false,
            },
        ],
    };
    let mut g = Generator::new();
    let d = g.generate(&node).unwrap();
    assert!(d.structural_eq(&SchemaDefinition::Reference("Node".to_string())));
    assert_eq!(g.registry.schema_count(), 1);
    let expected = SchemaDefinition::Object(vec![
        FieldDef {
            name: "next".to_string(),
            schema: SchemaDefinition::Reference("Node".to_string()),
            required: false,
        },
    ]);
    let stored = g.registry.get(&"Node".to_string()).unwrap();
    assert!(stored.structural_eq(&expected));
}

#[test]
fn inline_repetition_is_cut_by_the_in_progress_marker() {
    // A tree node whose children are described by an inline copy of the
    // same named shape: the inner copy is not walked again.
    let inner = TypeShape::Object {
        name: "Tree".to_string(),
        fields: vec![
            FieldShape {
                name: "children".to_string(),
                shape: TypeShape::Array(Box::new(TypeShape::Reference("Tree".to_string()))),
                required: true,
            },
        ],
    };
    let tree = TypeShape::Object {
        name: "Tree".to_string(),
        fields: vec![
            FieldShape {
                name: "children".to_string(),
                shape: TypeShape::Array(Box::new(inner)),
                required: true,
            },
        ],
    };
    let mut g = Generator::new();
    let d = g.generate(&tree).unwrap();
    assert!(d.structural_eq(&SchemaDefinition::Reference("Tree".to_string())));
    assert_eq!(g.registry.schema_count(), 1);
    let expected = SchemaDefinition::Object(vec![
        FieldDef {
            name: "children".to_string(),
            schema: SchemaDefinition::Array(Box::new(SchemaDefinition::Reference(
                "Tree".to_string(),
            ))),
            required: true,
        },
    ]);
    let stored = g.registry.get(&"Tree".to_string()).unwrap();
    assert!(stored.structural_eq(&expected));
}

#[test]
fn nested_named_types_register_once_each() {
    let point = TypeShape::Object {
        name: "Point".to_string(),
        fields: vec![
            FieldShape {
                name: "x".to_string(),
                shape: TypeShape::Primitive(PrimitiveKind::Integer),
                required: true,
            },
            FieldShape {
                name: "y".to_string(),
                shape: TypeShape::Primitive(PrimitiveKind::Integer),
                required: true,
            },
        ],
    };
    let line = TypeShape::Object {
        name: "Line".to_string(),
        fields: vec![
            FieldShape { name: "start".to_string(), shape: point, required: true },
            FieldShape {
                name: "end".to_string(),
                shape: TypeShape::Reference("Point".to_string()),
                required: true,
            },
        ],
    };
    let mut g = Generator::new();
    let d = g.generate(&line).unwrap();
    assert!(d.structural_eq(&SchemaDefinition::Reference("Line".to_string())));
    assert_eq!(g.registry.schema_count(), 2);
    assert!(g.registry.contains_name(&"Point".to_string()));
    assert!(g.registry.contains_name(&"Line".to_string()));
}

#[test]
fn enumeration_shapes_register_their_variants() {
    let status = TypeShape::Enumeration {
        name: "Status".to_string(),
        variants: vec!["open".to_string(), "closed".to_string()],
    };
    let mut g = Generator::new();
    let d = g.generate(&status).unwrap();
    assert!(d.structural_eq(&SchemaDefinition::Reference("Status".to_string())));
    let expected = SchemaDefinition::Enumeration(vec!["open".to_string(), "closed".to_string()]);
    let stored = g.registry.get(&"Status".to_string()).unwrap();
    assert!(stored.structural_eq(&expected));
}
