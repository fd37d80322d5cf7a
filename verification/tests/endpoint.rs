use better_fetch::endpoint::{check_endpoint_params, ParamsMismatch};

fn keys(v: &[&str]) -> Vec<String> {
    v.iter().map(|s| s.to_string()).collect()
}

#[test]
fn matching_params_pass() {
    assert_eq!(check_endpoint_params("/orgs/:org/repos/:repo", &keys(&["repo", "org"])), Ok(()));
    assert_eq!(check_endpoint_params("/health", &keys(&[])), Ok(()));
}

#[test]
fn param_mismatches_are_reported_in_order() {
    assert_eq!(
        check_endpoint_params("/a/:id/:id", &keys(&["id", "id"])),
        Err(ParamsMismatch::DuplicateKey("id".into()))
    );
    assert_eq!(
        check_endpoint_params("/a/:id/:id", &keys(&["id"])),
        Err(ParamsMismatch::DuplicateSegment("id".into()))
    );
    assert_eq!(
        check_endpoint_params("/a/:id", &keys(&["id", "x"])),
        Err(ParamsMismatch::CountMismatch { segments: 1, fields: 2 })
    );
    assert_eq!(
        check_endpoint_params("/a/:id/:y", &keys(&["id", "x"])),
        Err(ParamsMismatch::MissingField("y".into()))
    );
}
