use openapi_builder::collect::collect_operations;
use openapi_builder::document::{Document, Method, Operation, OperationInfo, ResponseEntry};
use openapi_builder::error::BuildError;
use openapi_builder::gen::{FieldShape, Generator, TypeShape};
use openapi_builder::merge::{MountEntry, join_paths, merge_documents};
use openapi_builder::registry::Registry;
use openapi_builder::schema::PrimitiveKind;

fn operation(summary: &str, response_schema: Option<&str>) -> Operation {
    Operation {
        summary: summary.to_string(),
        parameters: vec![],
        request_body: None,
        responses: vec![
            ResponseEntry { status: 200, schema: response_schema.map(|s| s.to_string()) },
        ],
        tags: vec![],
    }
}

/// One group: `GET /ping -> {}` and `GET /echo -> EchoResponse`.
fn ping_echo_group() -> Document {
    let mut g = Generator::new();
    let echo_shape = TypeShape::Object {
        name: "EchoResponse".to_string(),
        fields: vec![
            FieldShape {
                name: "message".to_string(),
                shape: TypeShape::Primitive(PrimitiveKind::Text),
                required: true,
            },
        ],
    };
    assert!(g.generate(&echo_shape).is_ok());
    let ops = vec![
        OperationInfo {
            path: "/ping".to_string(),
            method: Method::Get,
            operation: operation("ping", None),
        },
        OperationInfo {
            path: "/echo".to_string(),
            method: Method::Get,
            operation: operation("echo", Some("EchoResponse")),
        },
    ];
    collect_operations(ops, g.into_registry()).unwrap()
}

fn single_route_group(path: &str) -> Document {
    let ops = vec![
        OperationInfo {
            path: path.to_string(),
            method: Method::Get,
            operation: operation("route", None),
        },
    ];
    collect_operations(ops, Registry::new()).unwrap()
}

#[test]
fn join_paths_normalizes_separators() {
    assert_eq!(join_paths("/api", "/a").as_str(), "/api/a");
    assert_eq!(join_paths("/", "/a").as_str(), "/a");
    assert_eq!(join_paths("/api/", "/a").as_str(), "/api/a");
    assert_eq!(join_paths("/api", "a").as_str(), "/api/a");
    assert_eq!(join_paths("", "/a").as_str(), "/a");
    assert_eq!(join_paths("/api", "").as_str(), "/api");
}

#[test]
fn base_path_validation() {
    // "/v1/" ends with the separator and is rejected.
    let err = merge_documents("/v1/", vec![]).unwrap_err();
    match err {
        BuildError::InvalidBasePath { value } => assert_eq!(value, "/v1/"),
        _ => panic!("expected an invalid base path"),
    }
    assert!(merge_documents("/v1", vec![]).is_ok());
    assert!(merge_documents("/", vec![]).is_ok());
}

#[test]
fn collision_reports_the_final_path() {
    // Group A at `/a` with `/x`, group B at `/a` with `/x`, both GET:
    // the collision names the re-keyed path `/a/x`.
    let mounts = vec![
        MountEntry { prefix: "/a".to_string(), document: single_route_group("/x") },
        MountEntry { prefix: "/a".to_string(), document: single_route_group("/x") },
    ];
    let err = merge_documents("/", mounts).unwrap_err();
    match err {
        BuildError::DuplicateOperation { path, method } => {
            assert_eq!(path, "/a/x");
            assert_eq!(method, Method::Get);
        },
        _ => panic!("expected a duplicate operation"),
    }
}

#[test]
fn same_group_mounted_twice_dedupes_schemas() {
    // The ping-and-echo group under `/a` and `/b`, base `/api`: four
    // re-keyed paths, and one EchoResponse schema entry, not two.
    let mounts = vec![
        MountEntry { prefix: "/a".to_string(), document: ping_echo_group() },
        MountEntry { prefix: "/b".to_string(), document: ping_echo_group() },
    ];
    let doc = merge_documents("/api", mounts).unwrap();
    assert_eq!(doc.operation_count(), 4);
    assert!(doc.find_operation(&"/api/a/ping".to_string(), Method::Get).is_some());
    assert!(doc.find_operation(&"/api/a/echo".to_string(), Method::Get).is_some());
    assert!(doc.find_operation(&"/api/b/ping".to_string(), Method::Get).is_some());
    assert!(doc.find_operation(&"/api/b/echo".to_string(), Method::Get).is_some());
    assert!(doc.find_operation(&"/ping".to_string(), Method::Get).is_none());
    assert_eq!(doc.schemas.schema_count(), 1);
    assert!(doc.schemas.contains_name(&"EchoResponse".to_string()));
}

#[test]
fn merge_equals_collecting_the_union() {
    // Partitioning the endpoints into two groups and merging under "/"
    // with empty prefixes yields the same document one collection pass
    // over all of them yields.
    let g1 = single_route_group("/one");
    let g2 = single_route_group("/two");
    let merged = merge_documents(
        "/",
        vec![
            MountEntry { prefix: "".to_string(), document: g1 },
            MountEntry { prefix: "".to_string(), document: g2 },
        ],
    )
    .unwrap();
    let all = vec![
        OperationInfo {
            path: "/one".to_string(),
            method: Method::Get,
            operation: operation("route", None),
        },
        OperationInfo {
            path: "/two".to_string(),
            method: Method::Get,
            operation: operation("route", None),
        },
    ];
    let collected = collect_operations(all, Registry::new()).unwrap();
    assert_eq!(merged.operation_count(), collected.operation_count());
    assert!(merged.find_operation(&"/one".to_string(), Method::Get).is_some());
    assert!(merged.find_operation(&"/two".to_string(), Method::Get).is_some());
    assert!(collected.find_operation(&"/one".to_string(), Method::Get).is_some());
    assert!(collected.find_operation(&"/two".to_string(), Method::Get).is_some());
}

#[test]
fn schema_conflict_across_groups_is_reported() {
    let mut g1 = Generator::new();
    let a = TypeShape::Object {
        name: "Payload".to_string(),
        fields: vec![
            FieldShape {
                name: "text".to_string(),
                shape: TypeShape::Primitive(PrimitiveKind::Text),
                required: true,
            },
        ],
    };
    assert!(g1.generate(&a).is_ok());
    let d1 = collect_operations(
        vec![
            OperationInfo {
                path: "/a".to_string(),
                method: Method::Get,
                operation: operation("a", Some("Payload")),
            },
        ],
        g1.into_registry(),
    )
    .unwrap();

    let mut g2 = Generator::new();
    let b = TypeShape::Object {
        name: "Payload".to_string(),
        fields: vec![
            FieldShape {
                name: "count".to_string(),
                shape: TypeShape::Primitive(PrimitiveKind::Integer),
                required: true,
            },
        ],
    };
    assert!(g2.generate(&b).is_ok());
    let d2 = collect_operations(
        vec![
            OperationInfo {
                path: "/b".to_string(),
                method: Method::Get,
                operation: operation("b", Some("Payload")),
            },
        ],
        g2.into_registry(),
    )
    .unwrap();

    let err = merge_documents(
        "/",
        vec![
            MountEntry { prefix: "/one".to_string(), document: d1 },
            MountEntry { prefix: "/two".to_string(), document: d2 },
        ],
    )
    .unwrap_err();
    match err {
        BuildError::SchemaConflict { name } => assert_eq!(name, "Payload"),
        _ => panic!("expected a schema conflict"),
    }
}

#[test]
fn empty_base_path_is_accepted() {
    let mounts = vec![
        MountEntry { prefix: "/a".to_string(), document: single_route_group("/x") },
    ];
    let doc = merge_documents("", mounts).unwrap();
    assert!(doc.find_operation(&"/a/x".to_string(), Method::Get).is_some());
}
