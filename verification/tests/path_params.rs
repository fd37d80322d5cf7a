use better_fetch::path_params::path_param_names;

#[test]
fn ignores_embedded_query_suffix() {
    assert_eq!(path_param_names("/users/:id?tab=profile"), vec!["id".to_string()]);
}

#[test]
fn multiple_params_in_order() {
    assert_eq!(
        path_param_names("/orgs/:org/repos/:repo"),
        vec!["org".to_string(), "repo".to_string()]
    );
}

#[test]
fn no_params_returns_empty() {
    assert!(path_param_names("/health").is_empty());
}

#[test]
fn bare_colon_segment_gives_empty_name() {
    assert_eq!(path_param_names("/a/:/b:c/::d"), vec!["".to_string(), ":d".to_string()]);
}

#[test]
fn query_part_is_ignored_even_with_colons() {
    assert_eq!(path_param_names("/x/:y?z=/:w"), vec!["y".to_string()]);
}

#[test]
fn names_are_found_segment_by_segment() {
    let a = "/orgs/:org";
    let b = ":repo/x";
    let joined = format!("{a}/{b}");
    let mut expected = path_param_names(a);
    expected.extend(path_param_names(b));
    assert_eq!(path_param_names(&joined), expected);
    assert_eq!(path_param_names(&format!("{a}?q=:z")), path_param_names(a));
    assert_eq!(path_param_names(":seg"), vec!["seg".to_string()]);
    assert!(path_param_names("seg").is_empty());
}
