use openapi_builder::collect::collect_operations;
use openapi_builder::document::{Method, Operation, OperationInfo, ResponseEntry};
use openapi_builder::error::BuildError;
use openapi_builder::gen::{FieldShape, Generator, TypeShape};
use openapi_builder::registry::Registry;
use openapi_builder::schema::PrimitiveKind;

fn operation(summary: &str, response_schema: Option<&str>, tags: Vec<String>) -> Operation {
    Operation {
        summary: summary.to_string(),
        parameters: vec![],
        request_body: None,
        responses: vec![
            ResponseEntry { status: 200, schema: response_schema.map(|s| s.to_string()) },
        ],
        tags,
    }
}

#[test]
fn two_endpoints_one_schema() {
    // GET /ping answers an empty body; GET /echo answers an EchoResponse.
    let mut g = Generator::new();
    let echo_shape = TypeShape::Object {
        name: "EchoResponse".to_string(),
        fields: vec![
            FieldShape {
                name: "message".to_string(),
                shape: TypeShape::Primitive(PrimitiveKind::Text),
                required: true,
            },
        ],
    };
    assert!(g.generate(&echo_shape).is_ok());
    let ops = vec![
        OperationInfo {
            path: "/ping".to_string(),
            method: Method::Get,
            operation: operation("ping", None, vec![]),
        },
        OperationInfo {
            path: "/echo".to_string(),
            method: Method::Get,
            operation: operation("echo", Some("EchoResponse"), vec![]),
        },
    ];
    let doc = collect_operations(ops, g.into_registry()).unwrap();
    assert_eq!(doc.operation_count(), 2);
    assert_eq!(doc.schemas.schema_count(), 1);
    assert!(doc.schemas.contains_name(&"EchoResponse".to_string()));
    assert!(doc.find_operation(&"/ping".to_string(), Method::Get).is_some());
    assert!(doc.find_operation(&"/echo".to_string(), Method::Get).is_some());
    assert!(doc.find_operation(&"/echo".to_string(), Method::Post).is_none());
}

#[test]
fn duplicate_slot_within_a_group_fails() {
    let ops = vec![
        OperationInfo {
            path: "/x".to_string(),
            method: Method::Get,
            operation: operation("first", None, vec![]),
        },
        OperationInfo {
            path: "/x".to_string(),
            method: Method::Get,
            operation: operation("second", None, vec![]),
        },
    ];
    let err = collect_operations(ops, Registry::new()).unwrap_err();
    match err {
        BuildError::DuplicateOperation { path, method } => {
            assert_eq!(path, "/x");
            assert_eq!(method, Method::Get);
        },
        _ => panic!("expected a duplicate operation"),
    }
}

#[test]
fn same_path_different_methods_is_no_duplicate() {
    let ops = vec![
        OperationInfo {
            path: "/x".to_string(),
            method: Method::Get,
            operation: operation("read", None, vec![]),
        },
        OperationInfo {
            path: "/x".to_string(),
            method: Method::Post,
            operation: operation("write", None, vec![]),
        },
    ];
    let doc = collect_operations(ops, Registry::new()).unwrap();
    assert_eq!(doc.operation_count(), 2);
}

#[test]
fn tags_accumulate_as_a_set() {
    let ops = vec![
        OperationInfo {
            path: "/a".to_string(),
            method: Method::Get,
            operation: operation("a", None, vec!["chat".to_string(), "admin".to_string()]),
        },
        OperationInfo {
            path: "/b".to_string(),
            method: Method::Get,
            operation: operation("b", None, vec!["chat".to_string()]),
        },
    ];
    let doc = collect_operations(ops, Registry::new()).unwrap();
    assert_eq!(doc.tags.len(), 2);
    assert!(doc.tags.contains(&"chat".to_string()));
    assert!(doc.tags.contains(&"admin".to_string()));
}

#[test]
fn default_settings_name_the_conventional_location() {
    let settings = openapi_builder::document::OpenApiSettings::default();
    assert_eq!(settings.json_path, "/openapi.json");
}

#[test]
fn empty_group_collects_to_an_empty_document() {
    let doc = collect_operations(vec![], Registry::new()).unwrap();
    assert_eq!(doc.operation_count(), 0);
    assert_eq!(doc.schemas.schema_count(), 0);
    assert_eq!(doc.tags.len(), 0);
}
