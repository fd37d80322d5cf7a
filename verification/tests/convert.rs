use better_fetch::convert::{
    is_null_schema, nullable_rewrite, parameters_from_schema, rewrite_schema_refs,
    OpenApiSchemaRef, SchemaCatalog,
};
use better_fetch::json::Json;
use better_fetch::openapi::OpenApiBuilder;
use better_fetch::schema::SchemaRegistry;
use better_fetch::url_build::path_param_names;
use http::Method;

fn s(t: &str) -> Json {
    Json::Str(t.to_string())
}

fn obj(entries: Vec<(&str, Json)>) -> Json {
    Json::Object(entries.into_iter().map(|(k, v)| (k.to_string(), v)).collect())
}

fn arr(items: Vec<Json>) -> Json {
    Json::Array(items)
}

fn get<'a>(v: &'a Json, key: &str) -> Option<&'a Json> {
    match v {
        Json::Object(e) => e.iter().find(|(k, _)| k == key).map(|(_, v)| v),
        _ => None,
    }
}

fn catalog_get<'a>(c: &'a SchemaCatalog, name: &str) -> Option<&'a Json> {
    c.schemas.get(name)
}

fn mentions_null(v: &Json) -> bool {
    match v {
        Json::Str(t) => t == "null",
        Json::Array(items) => items.iter().any(mentions_null),
        Json::Object(e) => e.iter().any(|(k, v)| k == "null" || mentions_null(v)),
        _ => false,
    }
}

fn unit_schema() -> Json {
    obj(vec![
        ("$schema", s("http://json-schema.org/draft-07/schema#")),
        ("title", s("Null")),
        ("type", s("null")),
    ])
}

fn sample_schema() -> Json {
    obj(vec![
        ("$schema", s("http://json-schema.org/draft-07/schema#")),
        ("properties", obj(vec![("name", obj(vec![("type", s("string"))]))])),
        ("required", arr(vec![s("name")])),
        ("title", s("Sample")),
        ("type", s("object")),
    ])
}

fn nullable_schema() -> Json {
    obj(vec![
        ("$schema", s("http://json-schema.org/draft-07/schema#")),
        (
            "definitions",
            obj(vec![(
                "Inner",
                obj(vec![
                    (
                        "properties",
                        obj(vec![(
                            "a",
                            obj(vec![
                                ("format", s("uint32")),
                                ("minimum", Json::Number("0.0".into())),
                                ("type", s("integer")),
                            ]),
                        )]),
                    ),
                    ("required", arr(vec![s("a")])),
                    ("type", s("object")),
                ]),
            )]),
        ),
        (
            "properties",
            obj(vec![
                (
                    "inner",
                    obj(vec![(
                        "anyOf",
                        arr(vec![
                            obj(vec![("$ref", s("#/definitions/Inner"))]),
                            obj(vec![("type", s("null"))]),
                        ]),
                    )]),
                ),
                ("name", obj(vec![("type", arr(vec![s("string"), s("null")]))])),
                ("plain", obj(vec![("type", s("string"))])),
            ]),
        ),
        ("required", arr(vec![s("plain")])),
        ("title", s("Nullable")),
        ("type", s("object")),
    ])
}

#[test]
fn converts_colon_path_params() {
    assert_eq!(better_fetch::openapi::to_openapi_path("/todos/:id"), "/todos/{id}");
    assert_eq!(path_param_names("/todos/:id"), vec!["id".to_string()]);
}

#[test]
fn null_unit_schema_skipped() {
    assert!(is_null_schema(&unit_schema()));
    assert!(!is_null_schema(&sample_schema()));
}

#[test]
fn registers_schema_with_title() {
    let mut catalog = SchemaCatalog::new();
    let ref_path = catalog.register("Fallback", &sample_schema()).unwrap();
    assert_eq!(ref_path, "#/components/schemas/Sample");
    assert!(catalog.schemas.contains_key("Sample"));
    let stored = catalog_get(&catalog, "Sample").unwrap();
    assert!(get(stored, "$schema").is_none());
}

#[test]
fn register_skips_null_and_uses_fallback_name() {
    let mut catalog = SchemaCatalog::new();
    assert!(catalog.register("Fallback", &unit_schema()).is_none());
    let untitled = obj(vec![("type", s("object"))]);
    assert_eq!(
        catalog.register("my fallback", &untitled).unwrap(),
        "#/components/schemas/MyFallback"
    );
}

#[test]
fn option_fields_become_openapi_nullable() {
    let mut catalog = SchemaCatalog::new();
    catalog.register("Nullable", &nullable_schema()).unwrap();
    assert!(catalog.schemas.contains_key("Inner"));
    let schema = catalog_get(&catalog, "Nullable").unwrap();
    let props = get(schema, "properties").unwrap();

    let name = get(props, "name").unwrap();
    assert!(matches!(get(name, "type"), Some(Json::Str(t)) if t == "string"));
    assert!(matches!(get(name, "nullable"), Some(Json::Bool(true))));

    let inner = get(props, "inner").unwrap();
    assert!(matches!(get(inner, "nullable"), Some(Json::Bool(true))));
    assert!(get(inner, "anyOf").is_none());
    match get(inner, "allOf") {
        Some(Json::Array(items)) => {
            assert_eq!(items.len(), 1);
            assert!(matches!(get(&items[0], "$ref"), Some(Json::Str(r)) if r == "#/components/schemas/Inner"));
        }
        _ => panic!("expected allOf"),
    }

    let plain = get(props, "plain").unwrap();
    assert!(matches!(get(plain, "type"), Some(Json::Str(t)) if t == "string"));
    assert!(get(plain, "nullable").is_none());

    assert!(!mentions_null(schema));
}

#[test]
fn nullable_rewrite_rules() {
    let only_null = obj(vec![("type", arr(vec![s("null")]))]);
    let r = nullable_rewrite(&only_null);
    assert!(get(&r, "type").is_none());
    assert!(matches!(get(&r, "nullable"), Some(Json::Bool(true))));

    let many = obj(vec![("type", arr(vec![s("string"), s("integer"), s("null")]))]);
    let r = nullable_rewrite(&many);
    assert!(matches!(get(&r, "type"), Some(Json::Array(v)) if v.len() == 2));

    let merged = obj(vec![(
        "oneOf",
        arr(vec![obj(vec![("type", s("integer")), ("minimum", Json::Number("1".into()))]), obj(vec![("type", s("null"))])]),
    )]);
    let r = nullable_rewrite(&merged);
    assert!(get(&r, "oneOf").is_none());
    assert!(matches!(get(&r, "type"), Some(Json::Str(t)) if t == "integer"));
    assert!(matches!(get(&r, "minimum"), Some(Json::Number(n)) if n == "1"));

    let untouched = arr(vec![s("null"), Json::Bool(false)]);
    let r = nullable_rewrite(&untouched);
    assert!(matches!(r, Json::Array(ref v) if v.len() == 2));
}

#[test]
fn refs_point_at_components() {
    let v = obj(vec![("items", obj(vec![("$ref", s("#/definitions/my_item"))])), ("$ref", s("elsewhere"))]);
    let r = rewrite_schema_refs(&v);
    let items = get(&r, "items").unwrap();
    assert!(matches!(get(items, "$ref"), Some(Json::Str(t)) if t == "#/components/schemas/MyItem"));
    assert!(matches!(get(&r, "$ref"), Some(Json::Str(t)) if t == "elsewhere"));
}

#[test]
fn parameters_split_between_path_and_query() {
    let schema = obj(vec![
        (
            "properties",
            obj(vec![
                ("zeta", obj(vec![("type", s("string"))])),
                ("id", obj(vec![("type", s("integer"))])),
                ("alpha", obj(vec![("type", s("boolean"))])),
            ]),
        ),
        ("required", arr(vec![s("zeta")])),
        ("type", s("object")),
    ]);
    let names = vec!["id".to_string()];
    let mut catalog = SchemaCatalog::new();
    let path = parameters_from_schema(&schema, "path", &names, &mut catalog, "getItemPath");
    assert_eq!(path.len(), 1);
    assert_eq!(path[0].name, "id");
    assert!(path[0].required);
    let query = parameters_from_schema(&schema, "query", &names, &mut catalog, "getItemQuery");
    let got: Vec<&str> = query.iter().map(|p| p.name.as_str()).collect();
    assert_eq!(got, vec!["alpha", "zeta"]);
    assert!(!query[0].required);
    assert!(query[1].required);
    assert!(matches!(&query[1].schema, OpenApiSchemaRef::Ref { ref_path } if ref_path == "#/components/schemas/GetItemQueryZeta"));
    assert!(catalog.schemas.contains_key("GetItemQueryZeta"));
}

#[test]
fn document_from_registry() {
    let mut registry = SchemaRegistry::new();
    registry.register_full(
        "/todos/:id".into(),
        Method::GET,
        None,
        Some(sample_schema()),
        None,
        Some(obj(vec![("properties", obj(vec![("id", obj(vec![("type", s("integer"))]))])), ("type", s("object"))])),
    );
    registry.register_endpoint("/todos/:id".into(), Method::DELETE, None, None);
    let doc = OpenApiBuilder::new().title("Todos".into()).from_registry(&registry);
    assert_eq!(doc.openapi, "3.0.3");
    assert_eq!(doc.info.title, "Todos");
    assert!(doc.servers.is_none());
    assert_eq!(doc.paths.len(), 1);
    assert_eq!(doc.paths[0].0, "/todos/{id}");
    let ops = &doc.paths[0].1;
    assert_eq!(ops.len(), 2);
    assert_eq!(ops[0].0, "get");
    assert_eq!(ops[1].0, "delete");
    let get_op = &ops[0].1;
    assert_eq!(get_op.summary.as_deref(), Some("GET /todos/:id"));
    assert_eq!(get_op.operation_id.as_deref(), Some("getTodosId"));
    assert_eq!(get_op.parameters.len(), 1);
    assert_eq!(get_op.parameters[0].location, "path");
    let (status, response) = &get_op.responses[0];
    assert_eq!(status, "200");
    assert_eq!(response.description, "Success");
    assert!(response.content.is_some());
    assert!(ops[1].1.responses[0].1.content.is_none());
    let components = doc.components.unwrap();
    assert!(components.contains_key("Sample"));
}

#[test]
fn strict_registry_refuses_unknown_routes() {
    let mut registry = SchemaRegistry::new().strict(true);
    registry.register_endpoint("/a".into(), Method::GET, None, None);
    assert!(registry.ensure_route("/a", &Method::GET).is_ok());
    match registry.ensure_route("/a", &Method::POST) {
        Err(better_fetch::error::Error::SchemaRoute { method, path }) => {
            assert_eq!(method, "POST");
            assert_eq!(path, "/a");
        }
        _ => panic!("expected SchemaRoute"),
    }
    let lenient = SchemaRegistry::new();
    assert!(lenient.ensure_route("/b", &Method::GET).is_ok());
}

#[test]
fn first_registration_wins() {
    let mut registry = SchemaRegistry::new();
    registry.register_endpoint("/a".into(), Method::GET, Some(s("first")), None);
    registry.register_endpoint("/a".into(), Method::GET, Some(s("second")), None);
    assert!(matches!(registry.request_schema("/a", &Method::GET), Some(Json::Str(t)) if t == "first"));
    assert!(registry.response_schema("/a", &Method::GET).is_none());
    assert!(registry.request_schema("/a", &Method::PUT).is_none());
}

#[test]
fn catalog_keeps_first_component_of_a_name() {
    let mut catalog = SchemaCatalog::new();
    catalog.register("Fallback", &sample_schema()).unwrap();
    let other = obj(vec![("title", s("Sample")), ("type", s("string"))]);
    assert_eq!(catalog.register("Other", &other).unwrap(), "#/components/schemas/Sample");
    let stored = catalog_get(&catalog, "Sample").unwrap();
    assert!(matches!(get(stored, "type"), Some(Json::Str(t)) if t == "object"));
    assert_eq!(catalog.schemas.len(), 1);
}
