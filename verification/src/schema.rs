//! Schema registry for endpoint metadata.
//!
//! Each route (path template and method) may carry JSON schemas for its request body,
//! response body, query and path parameters. Lookups use the first registration of a route;
//! a strict registry refuses requests to routes it does not know.

use vstd::prelude::*;
use crate::error::Error;
use crate::json::{json_view, Json, JsonView};
use crate::url_build::method_text;

verus! {

/// The name of a method (`Method::as_str`).
///
/// Contract: the named text.
#[verifier::external_body]
pub(crate) fn method_as_str(m: &http::Method) -> (r: &str)
    ensures
        r@ == method_text(*m),
{
    m.as_str()
}

/// Metadata describing a single endpoint for documentation and validation.
#[derive(Debug)]
pub struct EndpointSchema {
    /// Route path template.
    pub path: String,
    /// HTTP method.
    pub method: http::Method,
    /// JSON request body schema.
    pub request_schema: Option<Json>,
    /// JSON response schema.
    pub response_schema: Option<Json>,
    /// Query string schema.
    pub query_schema: Option<Json>,
    /// Path parameter schema.
    pub params_schema: Option<Json>,
}

/// The view of an optional schema.
pub open spec fn opt_schema(s: Option<Json>) -> Option<JsonView> {
    match s {
        Some(j) => Some(json_view(j)),
        None => None,
    }
}

/// Whether an entry is registered for the route `path` + `method`.
pub open spec fn is_route(e: EndpointSchema, path: Seq<char>, method: Seq<char>) -> bool {
    e.path@ == path && method_text(e.method) == method
}

/// The position of the first entry for a route.
pub open spec fn route_index(entries: Seq<EndpointSchema>, path: Seq<char>, method: Seq<char>) -> Option<
    nat,
>
    decreases entries.len(),
{
    if entries.len() == 0 {
        None
    } else {
        match route_index(entries.drop_last(), path, method) {
            Some(i) => Some(i),
            None => if is_route(entries.last(), path, method) {
                Some((entries.len() - 1) as nat)
            } else {
                None
            },
        }
    }
}

/// Registry of endpoint schemas.
#[derive(Debug)]
pub struct SchemaRegistry {
    entries: Vec<EndpointSchema>,
    strict: bool,
}

proof fn lemma_route_index(entries: Seq<EndpointSchema>, path: Seq<char>, method: Seq<char>, i: int)
    requires
        0 <= i <= entries.len(),
        forall|j: int| 0 <= j < i ==> !is_route(#[trigger] entries[j], path, method),
        i < entries.len() ==> is_route(entries[i], path, method),
    ensures
        route_index(entries, path, method) == (if i < entries.len() {
            Some(i as nat)
        } else {
            None::<nat>
        }),
    decreases entries.len(),
{
    if entries.len() > 0 {
        let t = entries.drop_last();
        if i < entries.len() - 1 {
            assert(t[i] == entries[i]);
            assert forall|j: int| 0 <= j < i implies !is_route(#[trigger] t[j], path, method) by {
                assert(t[j] == entries[j]);
            }
            lemma_route_index(t, path, method, i);
        } else {
            assert forall|j: int| 0 <= j < t.len() implies !is_route(#[trigger] t[j], path, method) by {
                assert(t[j] == entries[j]);
            }
            lemma_route_index(t, path, method, t.len() as int);
        }
    }
}

impl SchemaRegistry {
    /// The registered entries, in registration order.
    pub closed spec fn spec_entries(self) -> Seq<EndpointSchema> {
        self.entries@
    }

    /// Whether unregistered routes are refused.
    pub closed spec fn spec_strict(self) -> bool {
        self.strict
    }

    /// The first entry for a route, if any.
    pub open spec fn spec_find(self, path: Seq<char>, method: Seq<char>) -> Option<EndpointSchema> {
        match route_index(self.spec_entries(), path, method) {
            Some(i) => Some(self.spec_entries()[i as int]),
            None => None,
        }
    }

    /// Creates an empty registry (non-strict).
    pub fn new() -> (r: SchemaRegistry)
        ensures
            r.spec_entries().len() == 0,
            !r.spec_strict(),
    {
        SchemaRegistry { entries: Vec::new(), strict: false }
    }

    /// When `true`, [`Self::ensure_route`] rejects unregistered routes.
    pub fn strict(self, strict: bool) -> (r: SchemaRegistry)
        ensures
            r.spec_entries() == self.spec_entries(),
            r.spec_strict() == strict,
    {
        SchemaRegistry { entries: self.entries, strict }
    }

    /// Returns whether strict route validation is enabled.
    pub fn is_strict(&self) -> (b: bool)
        ensures
            b == self.spec_strict(),
    {
        self.strict
    }

    /// Registers a route with its request and response schemas.
    pub fn register_endpoint(
        &mut self,
        path: String,
        method: http::Method,
        request_schema: Option<Json>,
        response_schema: Option<Json>,
    )
        ensures
            final(self).spec_entries() == old(self).spec_entries().push(
                EndpointSchema {
                    path,
                    method,
                    request_schema,
                    response_schema,
                    query_schema: None,
                    params_schema: None,
                },
            ),
            final(self).spec_strict() == old(self).spec_strict(),
    {
        self.entries.push(
            EndpointSchema {
                path,
                method,
                request_schema,
                response_schema,
                query_schema: None,
                params_schema: None,
            },
        );
    }

    /// Registers a route with request, response, query and path-parameter schemas.
    pub fn register_full(
        &mut self,
        path: String,
        method: http::Method,
        request_schema: Option<Json>,
        response_schema: Option<Json>,
        query_schema: Option<Json>,
        params_schema: Option<Json>,
    )
        ensures
            final(self).spec_entries() == old(self).spec_entries().push(
                EndpointSchema {
                    path,
                    method,
                    request_schema,
                    response_schema,
                    query_schema,
                    params_schema,
                },
            ),
            final(self).spec_strict() == old(self).spec_strict(),
    {
        self.entries.push(
            EndpointSchema {
                path,
                method,
                request_schema,
                response_schema,
                query_schema,
                params_schema,
            },
        );
    }

    /// Returns all registered endpoint metadata.
    pub fn entries(&self) -> (r: &Vec<EndpointSchema>)
        ensures
            r@ == self.spec_entries(),
    {
        &self.entries
    }

    /// The position of the first entry for a route.
    fn find_index(&self, path: &str, method: &http::Method) -> (r: Option<usize>)
        ensures
            match r {
                Some(i) => route_index(self.spec_entries(), path@, method_text(*method)) == Some(
                    i as nat,
                ) && i < self.spec_entries().len(),
                None => route_index(self.spec_entries(), path@, method_text(*method)) is None,
            },
    {
        let m = method_as_str(method);
        let mut i: usize = 0;
        while i < self.entries.len()
            invariant
                i <= self.entries@.len(),
                m@ == method_text(*method),
                forall|j: int| 0 <= j < i ==> !is_route(#[trigger] self.entries@[j], path@, m@),
            decreases self.entries@.len() - i,
        {
            let e = &self.entries[i];
            if crate::json::str_equal(e.path.as_str(), path) && crate::json::str_equal(
                method_as_str(&e.method),
                m,
            ) {
                proof {
                    lemma_route_index(self.entries@, path@, m@, i as int);
                }
                return Some(i);
            }
            i = i + 1;
        }
        proof {
            lemma_route_index(self.entries@, path@, m@, i as int);
        }
        None
    }

    /// Returns an error if strict mode is enabled and the route is not registered.
    pub fn ensure_route(&self, path: &str, method: &http::Method) -> (r: Result<(), Error>)
        ensures
            r is Ok <==> (!self.spec_strict() || self.spec_find(path@, method_text(*method))
                is Some),
            r matches Err(e) ==> (e matches Error::SchemaRoute { method: m, path: p } && m@
                == method_text(*method) && p@ == path@),
    {
        if !self.strict {
            return Ok(());
        }
        match self.find_index(path, method) {
            Some(_) => Ok(()),
            None => Err(
                Error::SchemaRoute {
                    method: crate::json::owned(method_as_str(method)),
                    path: crate::json::owned(path),
                },
            ),
        }
    }

    /// Returns the request body schema of the first entry for a route.
    pub fn request_schema(&self, path: &str, method: &http::Method) -> (r: Option<&Json>)
        ensures
            match self.spec_find(path@, method_text(*method)) {
                Some(e) => opt_schema(e.request_schema) == match r {
                    Some(j) => Some(json_view(*j)),
                    None => None,
                },
                None => r is None,
            },
    {
        match self.find_index(path, method) {
            Some(i) => self.entries[i].request_schema.as_ref(),
            None => None,
        }
    }

    /// Returns the response body schema of the first entry for a route.
    pub fn response_schema(&self, path: &str, method: &http::Method) -> (r: Option<&Json>)
        ensures
            match self.spec_find(path@, method_text(*method)) {
                Some(e) => opt_schema(e.response_schema) == match r {
                    Some(j) => Some(json_view(*j)),
                    None => None,
                },
                None => r is None,
            },
    {
        match self.find_index(path, method) {
            Some(i) => self.entries[i].response_schema.as_ref(),
            None => None,
        }
    }

    /// Returns the query string schema of the first entry for a route.
    pub fn query_schema(&self, path: &str, method: &http::Method) -> (r: Option<&Json>)
        ensures
            match self.spec_find(path@, method_text(*method)) {
                Some(e) => opt_schema(e.query_schema) == match r {
                    Some(j) => Some(json_view(*j)),
                    None => None,
                },
                None => r is None,
            },
    {
        match self.find_index(path, method) {
            Some(i) => self.entries[i].query_schema.as_ref(),
            None => None,
        }
    }

    /// Returns the path-parameter schema of the first entry for a route.
    pub fn params_schema(&self, path: &str, method: &http::Method) -> (r: Option<&Json>)
        ensures
            match self.spec_find(path@, method_text(*method)) {
                Some(e) => opt_schema(e.params_schema) == match r {
                    Some(j) => Some(json_view(*j)),
                    None => None,
                },
                None => r is None,
            },
    {
        match self.find_index(path, method) {
            Some(i) => self.entries[i].params_schema.as_ref(),
            None => None,
        }
    }
}

/// The first registration of a route is the one lookups see: registering a route again
/// does not change what `find` gives for it, and registering a route makes it found.
pub proof fn law_first_registration_wins(
    entries: Seq<EndpointSchema>,
    e: EndpointSchema,
    path: Seq<char>,
    method: Seq<char>,
)
    ensures
        route_index(entries, path, method) is Some ==> route_index(entries.push(e), path, method)
            == route_index(entries, path, method),
        is_route(e, path, method) ==> route_index(entries.push(e), path, method) is Some,
{
    assert(entries.push(e).drop_last() =~= entries);
}

} // verus!
