use better_fetch::openapi::{operation_id, sanitize_component_name, to_openapi_path, OpenApiBuilder};

#[test]
fn openapi_path_drops_empty_segments() {
    assert_eq!(to_openapi_path(""), "/");
    assert_eq!(to_openapi_path("//a//:b/"), "/a/{b}");
}

#[test]
fn operation_ids_use_lowercase_method_and_slug() {
    assert_eq!(operation_id("GET", "/todos/:id"), "getTodosId");
    assert_eq!(operation_id("POST", "/"), "post");
    assert_eq!(operation_id("PATCH", "/user-items/:item_id"), "patchUser-itemsItem_id");
}

#[test]
fn component_names_are_cleaned() {
    assert_eq!(sanitize_component_name("my_type-v2"), "MyTypeV2");
    assert_eq!(sanitize_component_name("Sample"), "Sample");
    assert_eq!(sanitize_component_name("--"), "Schema");
    assert_eq!(sanitize_component_name("getTodosIdResponse"), "GetTodosIdResponse");
}

#[test]
fn builder_defaults_and_setters() {
    let b = OpenApiBuilder::new();
    let info = b.info();
    assert_eq!(info.title, "API");
    assert_eq!(info.version, "0.1.0");
    assert!(info.description.is_none());
    assert!(b.servers().is_none());
    let b = b
        .title("Todos".into())
        .version("1.2.3".into())
        .description("d".into())
        .server("https://a".into())
        .server_with_description("https://b".into(), "staging".into());
    let info = b.info();
    assert_eq!(info.title, "Todos");
    assert_eq!(info.version, "1.2.3");
    assert_eq!(info.description.as_deref(), Some("d"));
    let servers = b.servers().unwrap();
    assert_eq!(servers.len(), 2);
    assert_eq!(servers[0].url, "https://a");
    assert!(servers[0].description.is_none());
    assert_eq!(servers[1].description.as_deref(), Some("staging"));
}

#[test]
fn cleaned_names_are_ascii_alphanumeric() {
    for raw in ["get_todos-id", "--", "", "é/ü x", "a.b.c"] {
        let n = sanitize_component_name(raw);
        assert!(!n.is_empty());
        assert!(n.chars().all(|c| c.is_ascii_alphanumeric()));
        assert_eq!(sanitize_component_name(&n), n);
    }
    assert_eq!(sanitize_component_name("get_todos-id"), "GetTodosId");
}
