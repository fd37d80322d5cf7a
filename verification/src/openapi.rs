//! OpenAPI 3.0 document metadata and the naming rules of the exporter: path templates
//! (`/items/:id` becomes `/items/{id}`), operation ids and component names.

use vstd::prelude::*;
use crate::text::{append_range, chars_of, push_char, split_char};

verus! {

/// API metadata (`info`).
#[derive(Debug, Clone)]
pub struct OpenApiInfo {
    pub title: String,
    pub version: String,
    pub description: Option<String>,
}

/// Server URL (`servers[]`).
#[derive(Debug, Clone)]
pub struct OpenApiServer {
    pub url: String,
    pub description: Option<String>,
}

/// Builds the metadata of an OpenAPI 3.0 document.
#[derive(Debug)]
pub struct OpenApiBuilder {
    title: String,
    version: String,
    description: Option<String>,
    servers: Vec<OpenApiServer>,
}

/// The mathematical value of an [`OpenApiServer`].
pub open spec fn server_view(s: OpenApiServer) -> (Seq<char>, Option<Seq<char>>) {
    (s.url@, s.description.deep_view())
}

/// The mathematical values of a list of servers.
pub open spec fn servers_view(v: Seq<OpenApiServer>) -> Seq<(Seq<char>, Option<Seq<char>>)> {
    v.map_values(|s: OpenApiServer| server_view(s))
}

impl OpenApiBuilder {
    /// The title (`info.title`).
    pub closed spec fn spec_title(&self) -> Seq<char> {
        self.title@
    }

    /// The version (`info.version`).
    pub closed spec fn spec_version(&self) -> Seq<char> {
        self.version@
    }

    /// The description (`info.description`).
    pub closed spec fn spec_description(&self) -> Option<Seq<char>> {
        self.description.deep_view()
    }

    /// The servers, in the order they were added.
    pub closed spec fn spec_servers(&self) -> Seq<(Seq<char>, Option<Seq<char>>)> {
        servers_view(self.servers@)
    }

    /// Creates a builder with title `API`, version `0.1.0`, no description and no servers.
    pub fn new() -> (b: Self)
        ensures
            b.spec_title() == "API"@,
            b.spec_version() == "0.1.0"@,
            b.spec_description() is None,
            b.spec_servers().len() == 0,
    {
        let b = OpenApiBuilder {
            title: "API".to_owned(),
            version: "0.1.0".to_owned(),
            description: None,
            servers: Vec::new(),
        };
        assert(b.spec_servers() =~= Seq::<(Seq<char>, Option<Seq<char>>)>::empty());
        b
    }

    /// Sets the API title in `info.title`.
    pub fn title(self, title: String) -> (b: Self)
        ensures
            b.spec_title() == title@,
            b.spec_version() == self.spec_version(),
            b.spec_description() == self.spec_description(),
            b.spec_servers() == self.spec_servers(),
    {
        OpenApiBuilder { title, ..self }
    }

    /// Sets `info.version`.
    pub fn version(self, version: String) -> (b: Self)
        ensures
            b.spec_title() == self.spec_title(),
            b.spec_version() == version@,
            b.spec_description() == self.spec_description(),
            b.spec_servers() == self.spec_servers(),
    {
        OpenApiBuilder { version, ..self }
    }

    /// Sets `info.description`.
    pub fn description(self, description: String) -> (b: Self)
        ensures
            b.spec_title() == self.spec_title(),
            b.spec_version() == self.spec_version(),
            b.spec_description() == Some(description@),
            b.spec_servers() == self.spec_servers(),
    {
        OpenApiBuilder { description: Some(description), ..self }
    }

    /// Adds a server URL.
    pub fn server(self, url: String) -> (b: Self)
        ensures
            b.spec_title() == self.spec_title(),
            b.spec_version() == self.spec_version(),
            b.spec_description() == self.spec_description(),
            b.spec_servers() == self.spec_servers().push((url@, None)),
    {
        let mut servers = self.servers;
        let ghost old_servers = servers@;
        servers.push(OpenApiServer { url, description: None });
        let b = OpenApiBuilder { servers, ..self };
        assert(b.spec_servers() =~= self.spec_servers().push((url@, None)));
        b
    }

    /// Adds a server URL with description.
    pub fn server_with_description(self, url: String, description: String) -> (b: Self)
        ensures
            b.spec_title() == self.spec_title(),
            b.spec_version() == self.spec_version(),
            b.spec_description() == self.spec_description(),
            b.spec_servers() == self.spec_servers().push((url@, Some(description@))),
    {
        let mut servers = self.servers;
        servers.push(OpenApiServer { url, description: Some(description) });
        let b = OpenApiBuilder { servers, ..self };
        assert(b.spec_servers() =~= self.spec_servers().push((url@, Some(description@))));
        b
    }

    /// The `info` object of the document.
    pub fn info(&self) -> (i: OpenApiInfo)
        ensures
            i.title@ == self.spec_title(),
            i.version@ == self.spec_version(),
            i.description.deep_view() == self.spec_description(),
    {
        OpenApiInfo {
            title: self.title.clone(),
            version: self.version.clone(),
            description: match &self.description {
                Some(d) => Some(d.clone()),
                None => None,
            },
        }
    }

    /// The `servers` list of the document (`None` when no server was added).
    pub fn servers(&self) -> (r: Option<Vec<OpenApiServer>>)
        ensures
            match r {
                None => self.spec_servers().len() == 0,
                Some(v) => self.spec_servers().len() > 0 && servers_view(v@) == self.spec_servers(),
            },
    {
        if self.servers.len() == 0 {
            return None;
        }
        let mut out: Vec<OpenApiServer> = Vec::new();
        let mut k: usize = 0;
        while k < self.servers.len()
            invariant
                k <= self.servers@.len(),
                servers_view(out@) == self.spec_servers().take(k as int),
            decreases self.servers@.len() - k,
        {
            let s = &self.servers[k];
            let copy = OpenApiServer {
                url: s.url.clone(),
                description: match &s.description {
                    Some(d) => Some(d.clone()),
                    None => None,
                },
            };
            let ghost before = out@;
            assert(copy.description.deep_view() == s.description.deep_view());
            assert(server_view(copy) == server_view(self.servers@[k as int]));
            out.push(copy);
            assert(out@ == before.push(copy));
            assert(servers_view(out@) =~= servers_view(before).push(server_view(copy)));
            assert(self.spec_servers().take(k + 1) =~= self.spec_servers().take(k as int).push(
                server_view(self.servers@[k as int]),
            ));
            k = k + 1;
        }
        assert(self.spec_servers().take(self.servers@.len() as int) =~= self.spec_servers());
        Some(out)
    }
}

// ---------------------------------------------------------------------------------------
// Naming rules
// ---------------------------------------------------------------------------------------

/// `/seg` for a non-empty segment, `{name}` for a `:name` segment; empty segments vanish.
pub open spec fn render_segment(seg: Seq<char>) -> Seq<char> {
    if seg.len() == 0 {
        Seq::<char>::empty()
    } else if seg[0] == ':' {
        seq!['/', '{'] + seg.drop_first() + seq!['}']
    } else {
        seq!['/'] + seg
    }
}

/// The rendered segments, in order.
pub open spec fn render_segments(segs: Seq<Seq<char>>) -> Seq<char>
    decreases segs.len(),
{
    if segs.len() == 0 {
        Seq::<char>::empty()
    } else {
        render_segments(segs.drop_last()) + render_segment(segs.last())
    }
}

/// An OpenAPI path for a path template: each non-empty segment behind a `/`, `:name`
/// written `{name}`; `/` when there is no segment.
pub open spec fn spec_to_openapi_path(path: Seq<char>) -> Seq<char> {
    let out = render_segments(split_char(path, '/'));
    if out.len() == 0 {
        seq!['/']
    } else {
        out
    }
}

/// Runs `f` over the `/`-separated segments `cs[..]`: the segments' bounds, in order.
fn segment_bounds(cs: &[char]) -> (r: Vec<(usize, usize)>)
    ensures
        r@.len() == split_char(cs@, '/').len(),
        forall|k: int|
            0 <= k < r@.len() ==> (#[trigger] r@[k]).0 <= r@[k].1 <= cs@.len() && cs@.subrange(
                r@[k].0 as int,
                r@[k].1 as int,
            ) == split_char(cs@, '/')[k],
{
    let mut r: Vec<(usize, usize)> = Vec::new();
    let mut start: usize = 0;
    let mut i: usize = 0;
    assert(cs@.take(0) =~= Seq::<char>::empty());
    assert(cs@.subrange(0, 0) =~= Seq::<char>::empty());
    while i < cs.len()
        invariant
            start <= i <= cs@.len(),
            split_char(cs@.take(i as int), '/').len() == r@.len() + 1,
            split_char(cs@.take(i as int), '/').last() == cs@.subrange(start as int, i as int),
            forall|k: int|
                0 <= k < r@.len() ==> (#[trigger] r@[k]).0 <= r@[k].1 <= cs@.len()
                    && cs@.subrange(r@[k].0 as int, r@[k].1 as int) == split_char(
                    cs@.take(i as int),
                    '/',
                )[k],
        decreases cs@.len() - i,
    {
        let ghost t = cs@.take(i as int);
        let ghost sp = split_char(t, '/');
        assert(cs@.take(i + 1).drop_last() =~= t);
        assert(cs@.take(i + 1).last() == cs@[i as int]);
        if cs[i] == '/' {
            assert(split_char(cs@.take(i + 1), '/') == sp.push(Seq::<char>::empty()));
            r.push((start, i));
            start = i + 1;
            assert(cs@.subrange(start as int, i + 1) =~= Seq::<char>::empty());
        } else {
            let ghost ns = sp.update(sp.len() - 1, sp.last().push(cs@[i as int]));
            assert(split_char(cs@.take(i + 1), '/') == ns);
            assert(cs@.subrange(start as int, i + 1) =~= cs@.subrange(start as int, i as int).push(
                cs@[i as int],
            ));
        }
        i = i + 1;
    }
    assert(cs@.take(cs@.len() as int) =~= cs@);
    r.push((start, cs.len()));
    r
}

/// Converts a path template (`/items/:id`) to an OpenAPI path (`/items/{id}`).
pub fn to_openapi_path(path: &str) -> (out: String)
    ensures
        out@ == spec_to_openapi_path(path@),
{
    let cs = chars_of(path);
    let segs = segment_bounds(&cs);
    let ghost sp = split_char(cs@, '/');
    let mut out = String::new();
    let mut wrote = false;
    let mut k: usize = 0;
    assert(sp.take(0) =~= Seq::<Seq<char>>::empty());
    while k < segs.len()
        invariant
            k <= segs@.len() == sp.len(),
            sp == split_char(cs@, '/'),
            forall|j: int|
                0 <= j < segs@.len() ==> (#[trigger] segs@[j]).0 <= segs@[j].1 <= cs@.len()
                    && cs@.subrange(segs@[j].0 as int, segs@[j].1 as int) == sp[j],
            out@ == render_segments(sp.take(k as int)),
            wrote == (out@.len() > 0),
        decreases segs@.len() - k,
    {
        let (a, b) = segs[k];
        let ghost seg = sp[k as int];
        assert(seg == cs@.subrange(a as int, b as int));
        assert(sp.take(k + 1).drop_last() =~= sp.take(k as int));
        assert(sp.take(k + 1).last() == seg);
        let ghost before = out@;
        if a < b {
            if cs[a] == ':' {
                push_char(&mut out, '/');
                push_char(&mut out, '{');
                append_range(&mut out, &cs, a + 1, b);
                push_char(&mut out, '}');
                wrote = true;
                assert(seg.drop_first() =~= cs@.subrange(a + 1, b as int));
                assert(out@ =~= before + render_segment(seg));
            } else {
                push_char(&mut out, '/');
                append_range(&mut out, &cs, a, b);
                wrote = true;
                assert(out@ =~= before + render_segment(seg));
            }
        } else {
            assert(out@ =~= before + render_segment(seg));
        }
        k = k + 1;
    }
    assert(sp.take(segs@.len() as int) =~= sp);
    if !wrote {
        let mut slash = String::new();
        push_char(&mut slash, '/');
        return slash;
    }
    out
}


/// `c.to_uppercase()` of std: the Unicode uppercase mapping of a character (one or more
/// characters).
pub uninterp spec fn char_uppercase(c: char) -> Seq<char>;

/// The Unicode uppercase mapping of `c` (`char::to_uppercase`, collected).
///
/// Contract: the result is the mapping, named. For ASCII it is spelled out, as std
/// documents it: `a`..=`z` become the one character `A`..=`Z`, and any other ASCII
/// character maps to itself. Other characters are left to the name.
#[verifier::external_body]
fn uppercase_of(c: char) -> (r: String)
    ensures
        r@ == char_uppercase(c),
        'a' <= c <= 'z' ==> r@.len() == 1 && r@[0] as u32 == c as u32 - 32,
        (c as u32) < 128 && !('a' <= c <= 'z') ==> r@ == seq![c],
{
    c.to_uppercase().collect()
}

/// `s` with its first character in uppercase.
pub open spec fn capitalize_spec(s: Seq<char>) -> Seq<char> {
    if s.len() == 0 {
        s
    } else {
        char_uppercase(s[0]) + s.drop_first()
    }
}

/// Appends `cs[lo..hi]` with its first character in uppercase.
fn append_capitalized(out: &mut String, cs: &[char], lo: usize, hi: usize)
    requires
        lo <= hi <= cs@.len(),
    ensures
        final(out)@ == old(out)@ + capitalize_spec(cs@.subrange(lo as int, hi as int)),
{
    let ghost seg = cs@.subrange(lo as int, hi as int);
    if lo == hi {
        assert(old(out)@ + capitalize_spec(seg) =~= old(out)@);
        return;
    }
    let up = uppercase_of(cs[lo]);
    let ucs = chars_of(up.as_str());
    append_range(out, &ucs, 0, ucs.len());
    assert(ucs@.subrange(0, ucs@.len() as int) =~= char_uppercase(seg[0]));
    append_range(out, cs, lo + 1, hi);
    assert(seg.drop_first() =~= cs@.subrange(lo + 1, hi as int));
    assert(final(out)@ =~= old(out)@ + capitalize_spec(seg));
}

/// Uppercases the first character of `s`.
pub fn capitalize(s: &str) -> (r: String)
    ensures
        r@ == capitalize_spec(s@),
{
    let cs = chars_of(s);
    let mut r = String::new();
    append_capitalized(&mut r, &cs, 0, cs.len());
    assert(cs@.subrange(0, cs@.len() as int) =~= s@);
    assert(Seq::<char>::empty() + capitalize_spec(s@) =~= capitalize_spec(s@));
    r
}

/// The name of a segment for slugs: `:name` gives `name`.
pub open spec fn slug_name(seg: Seq<char>) -> Seq<char> {
    if seg.len() > 0 && seg[0] == ':' {
        seg.drop_first()
    } else {
        seg
    }
}

/// The capitalized names of the non-empty segments, concatenated.
pub open spec fn slug_segments(segs: Seq<Seq<char>>) -> Seq<char>
    decreases segs.len(),
{
    if segs.len() == 0 {
        Seq::<char>::empty()
    } else {
        slug_segments(segs.drop_last()) + (if segs.last().len() == 0 {
            Seq::<char>::empty()
        } else {
            capitalize_spec(slug_name(segs.last()))
        })
    }
}

/// The slug of a path template: `/todos/:id` gives `TodosId`.
pub open spec fn spec_path_slug(path: Seq<char>) -> Seq<char> {
    slug_segments(split_char(path, '/'))
}

/// Builds the slug of a path template (capitalized segment names, `:` removed).
fn path_slug(path: &str) -> (r: String)
    ensures
        r@ == spec_path_slug(path@),
{
    let cs = chars_of(path);
    let segs = segment_bounds(&cs);
    let ghost sp = split_char(cs@, '/');
    let mut out = String::new();
    let mut k: usize = 0;
    assert(sp.take(0) =~= Seq::<Seq<char>>::empty());
    while k < segs.len()
        invariant
            k <= segs@.len() == sp.len(),
            sp == split_char(cs@, '/'),
            forall|j: int|
                0 <= j < segs@.len() ==> (#[trigger] segs@[j]).0 <= segs@[j].1 <= cs@.len()
                    && cs@.subrange(segs@[j].0 as int, segs@[j].1 as int) == sp[j],
            out@ == slug_segments(sp.take(k as int)),
        decreases segs@.len() - k,
    {
        let (a, b) = segs[k];
        let ghost seg = sp[k as int];
        assert(seg == cs@.subrange(a as int, b as int));
        assert(sp.take(k + 1).drop_last() =~= sp.take(k as int));
        assert(sp.take(k + 1).last() == seg);
        let ghost before = out@;
        if a < b {
            if cs[a] == ':' {
                assert(slug_name(seg) =~= cs@.subrange(a + 1, b as int));
                append_capitalized(&mut out, &cs, a + 1, b);
            } else {
                append_capitalized(&mut out, &cs, a, b);
            }
        } else {
            assert(out@ =~= before + Seq::<char>::empty());
        }
        k = k + 1;
    }
    assert(sp.take(segs@.len() as int) =~= sp);
    out
}

/// ASCII letters and digits.
pub open spec fn is_ascii_alnum(c: char) -> bool {
    ('0' <= c && c <= '9') || ('A' <= c && c <= 'Z') || ('a' <= c && c <= 'z')
}

/// The ASCII uppercase of `c` (other characters unchanged).
pub open spec fn ascii_upper(c: char) -> char {
    if 'a' <= c && c <= 'z' {
        ((c as u32) - 32) as char
    } else {
        c
    }
}

/// The ASCII lowercase of `c` (other characters unchanged).
pub open spec fn ascii_lower(c: char) -> char {
    if 'A' <= c && c <= 'Z' {
        ((c as u32) + 32) as char
    } else {
        c
    }
}

/// Component-name cleaning so far: the kept characters, and whether the next kept one is
/// uppercased (after a separator, and at the start).
pub open spec fn sanitize_state(s: Seq<char>) -> (Seq<char>, bool)
    decreases s.len(),
{
    if s.len() == 0 {
        (Seq::<char>::empty(), true)
    } else {
        let (out, upper_next) = sanitize_state(s.drop_last());
        let c = s.last();
        if is_ascii_alnum(c) {
            (out.push(if upper_next {
                ascii_upper(c)
            } else {
                c
            }), false)
        } else {
            (out, true)
        }
    }
}

/// A component name: ASCII letters and digits only, each run starting in uppercase;
/// `Schema` when nothing is left.
pub open spec fn spec_sanitize_component_name(name: Seq<char>) -> Seq<char> {
    let out = sanitize_state(name).0;
    if out.len() == 0 {
        seq!['S', 'c', 'h', 'e', 'm', 'a']
    } else {
        out
    }
}

/// Cleans a name for use under `components.schemas` (`my_type-v2` gives `MyTypeV2`).
pub fn sanitize_component_name(name: &str) -> (r: String)
    ensures
        r@ == spec_sanitize_component_name(name@),
{
    let cs = chars_of(name);
    let mut out = String::new();
    let mut upper_next = true;
    let mut kept = false;
    let mut i: usize = 0;
    assert(cs@.take(0) =~= Seq::<char>::empty());
    while i < cs.len()
        invariant
            i <= cs@.len(),
            (out@, upper_next) == sanitize_state(cs@.take(i as int)),
            kept == (out@.len() > 0),
        decreases cs@.len() - i,
    {
        let c = cs[i];
        assert(cs@.take(i + 1).drop_last() =~= cs@.take(i as int));
        assert(cs@.take(i + 1).last() == c);
        if ('0' <= c && c <= '9') || ('A' <= c && c <= 'Z') || ('a' <= c && c <= 'z') {
            if upper_next && 'a' <= c && c <= 'z' {
                let u = ((c as u32) - 32) as u8 as char;
                assert(u == ascii_upper(c)) by {
                    assert((c as u32) - 32 < 128);
                }
                push_char(&mut out, u);
            } else {
                push_char(&mut out, c);
            }
            upper_next = false;
            kept = true;
        } else {
            upper_next = true;
        }
        i = i + 1;
    }
    assert(cs@.take(cs@.len() as int) =~= cs@);
    if !kept {
        let schema = "Schema".to_owned();
        proof {
            reveal_strlit("Schema");
        }
        assert(schema@ =~= seq!['S', 'c', 'h', 'e', 'm', 'a']);
        return schema;
    }
    out
}

/// The ASCII lowercase of a text.
pub open spec fn lower_ascii_seq(s: Seq<char>) -> Seq<char> {
    s.map_values(|c: char| ascii_lower(c))
}

/// The operation id of a route: the method in lowercase, then the path slug
/// (`GET /todos/:id` gives `getTodosId`).
pub open spec fn spec_operation_id(method: Seq<char>, path: Seq<char>) -> Seq<char> {
    lower_ascii_seq(method) + spec_path_slug(path)
}

/// Builds the operation id of a route from the method name and the path template.
pub fn operation_id(method: &str, path: &str) -> (r: String)
    ensures
        r@ == spec_operation_id(method@, path@),
{
    let cs = chars_of(method);
    let mut out = String::new();
    let mut i: usize = 0;
    while i < cs.len()
        invariant
            i <= cs@.len(),
            out@ == lower_ascii_seq(cs@.take(i as int)),
        decreases cs@.len() - i,
    {
        let c = cs[i];
        if 'A' <= c && c <= 'Z' {
            let l = ((c as u32) + 32) as u8 as char;
            assert(l == ascii_lower(c)) by {
                assert((c as u32) + 32 < 128);
            }
            push_char(&mut out, l);
        } else {
            push_char(&mut out, c);
        }
        assert(lower_ascii_seq(cs@.take(i + 1)) =~= lower_ascii_seq(cs@.take(i as int)).push(
            ascii_lower(c),
        ));
        i = i + 1;
    }
    assert(cs@.take(cs@.len() as int) =~= cs@);
    let slug = path_slug(path);
    let scs = chars_of(slug.as_str());
    append_range(&mut out, &scs, 0, scs.len());
    assert(scs@.subrange(0, scs@.len() as int) =~= slug@);
    out
}

} // verus!
