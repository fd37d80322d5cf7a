# better_fetch

A typed HTTP client layer whose logic is verified with Verus.

- `src/` is the verified library: URL building and path parameters (`url_build`,
  `path_params`), query maps from serialized values (`query_json`, `json`, `json_text`),
  request and client builders (`request`, `client`, `headers`, `auth`), buffered responses
  (`response`), retry policies and the retry-loop state machine (`retry`, `pipeline`), body
  limits (`body_limit`), Server-Sent Events (`sse`, `sse_stream`), the schema registry and
  JSON Schema validation (`schema`, `schema_validate`, `wire`), and the OpenAPI export
  (`openapi`, `convert`). Each public function states its behaviour in `requires`/`ensures`;
  the `law_*` proof functions state properties that span several calls.
- `app/` is the unverified shell: the reqwest and Tower transports, async execution of the
  retry loop, hooks and plugins, streaming bodies, typed endpoints and serde integration.
- `tests/` exercises the library on concrete values.
