//! Value resolvers: the boundary capability that maps a document path to a
//! value of the actual document. The interpreter is generic over this
//! capability; the HTTP request resolver maps the fixed `$.method`,
//! `$.path`, `$.query[...]`, `$.headers[...]`, `$.content-type` and
//! `$.body` prefixes to request fields.

use vstd::prelude::*;

verus! {

use crate::context::PlanMatchingContext;
use crate::foreign::lower_of;
use crate::path::{DocPath, PathTokV, path_text};
use crate::strutil::{push_str, str_eq};
use crate::value::{NodeValue, NodeValV, clone_slist, sl_view, mm_view};

/// The capability of resolving a document path to a value.
pub trait ValueResolver {
    /// What this resolver answers for each path.
    spec fn resolve_spec(&self, path: Seq<PathTokV>) -> Result<NodeValV, Seq<char>>;

    /// Resolves a path against the actual document.
    fn resolve(&self, path: &DocPath, context: &PlanMatchingContext) -> (r: Result<
        NodeValue,
        String,
    >)
        ensures
            match r {
                Ok(v) => self.resolve_spec(path@) == Ok::<NodeValV, Seq<char>>(v@),
                Err(m) => self.resolve_spec(path@) == Err::<NodeValV, Seq<char>>(m@),
            },
    ;
}

/// A resolver that answers every path with one fixed byte array; used to
/// run a body plan against raw content.
#[derive(Debug, PartialEq)]
pub struct BytesResolver {
    /// The content every path resolves to
    pub bytes: Vec<u8>,
}

impl ValueResolver for BytesResolver {
    open spec fn resolve_spec(&self, path: Seq<PathTokV>) -> Result<NodeValV, Seq<char>> {
        Ok(NodeValV::BArray(self.bytes@))
    }

    fn resolve(&self, path: &DocPath, context: &PlanMatchingContext) -> (r: Result<
        NodeValue,
        String,
    >) {
        let mut out: Vec<u8> = Vec::new();
        let mut i: usize = 0;
        #[verifier::loop_isolation(false)]
        while i < self.bytes.len()
            invariant
                i <= self.bytes.len(),
                out@ == self.bytes@.take(i as int),
            decreases self.bytes.len() - i,
        {
            out.push(self.bytes[i]);
            proof {
                assert(out@ =~= self.bytes@.take(i + 1));
            }
            i = i + 1;
        }
        proof {
            assert(self.bytes@.take(self.bytes@.len() as int) =~= self.bytes@);
        }
        Ok(NodeValue::BARRAY(out))
    }
}

/// The body of an HTTP request, as this library models it.
#[derive(Debug, PartialEq)]
pub enum OptionalBody {
    /// No body was given
    Missing,
    /// The body was given but empty
    Empty,
    /// The body was explicitly null
    Null,
    /// Body bytes, with an optional content type
    Present(Vec<u8>, Option<String>),
}

/// Specification-level body.
#[verifier::ext_equal]
pub enum OptionalBodyV {
    Missing,
    Empty,
    Null,
    Present(Seq<u8>, Option<Seq<char>>),
}

impl View for OptionalBody {
    type V = OptionalBodyV;

    open spec fn view(&self) -> OptionalBodyV {
        match self {
            OptionalBody::Missing => OptionalBodyV::Missing,
            OptionalBody::Empty => OptionalBodyV::Empty,
            OptionalBody::Null => OptionalBodyV::Null,
            OptionalBody::Present(b, ct) => OptionalBodyV::Present(
                b@,
                match ct {
                    Some(c) => Some(c@),
                    None => None,
                },
            ),
        }
    }
}

/// An HTTP request, as this library models it.
#[derive(Debug, PartialEq)]
pub struct HttpRequest {
    /// The request method
    pub method: String,
    /// The request path
    pub path: String,
    /// Query parameters: names to value lists, absent values allowed
    pub query: Option<Vec<(String, Vec<Option<String>>)>>,
    /// Headers: names to value lists
    pub headers: Option<Vec<(String, Vec<String>)>>,
    /// The request body
    pub body: OptionalBody,
}

/// Specification-level request.
#[verifier::ext_equal]
pub struct HttpRequestV {
    pub method: Seq<char>,
    pub path: Seq<char>,
    pub query: Option<Seq<(Seq<char>, Seq<Option<Seq<char>>>)>>,
    pub headers: Option<Seq<(Seq<char>, Seq<Seq<char>>)>>,
    pub body: OptionalBodyV,
}

/// The view of a query value list.
pub open spec fn qv_view(s: Seq<Option<String>>) -> Seq<Option<Seq<char>>> {
    s.map(
        |i: int, v: Option<String>| match v {
            Some(t) => Some(t@),
            None => None,
        },
    )
}

impl View for HttpRequest {
    type V = HttpRequestV;

    open spec fn view(&self) -> HttpRequestV {
        HttpRequestV {
            method: self.method@,
            path: self.path@,
            query: match self.query {
                Some(q) => Some(
                    q@.map(|i: int, e: (String, Vec<Option<String>>)| (e.0@, qv_view(e.1@))),
                ),
                None => None,
            },
            headers: match self.headers {
                Some(h) => Some(h@.map(|i: int, e: (String, Vec<String>)| (e.0@, sl_view(e.1@)))),
                None => None,
            },
            body: self.body@,
        }
    }
}

impl Default for HttpRequest {
    /// The default request: `GET /` with nothing else.
    fn default() -> (r: Self)
        ensures
            r@.method == "GET"@,
            r@.path == "/"@,
            r@.query is None,
            r@.headers is None,
            r@.body is Missing,
    {
        HttpRequest {
            method: String::from_str("GET"),
            path: String::from_str("/"),
            query: None,
            headers: None,
            body: OptionalBody::Missing,
        }
    }
}

/// The query map as resolved values: absent values become empty strings.
pub open spec fn query_map(q: Seq<(Seq<char>, Seq<Option<Seq<char>>>)>) -> Seq<(
    Seq<char>,
    Seq<Seq<char>>,
)> {
    q.map(
        |i: int, e: (Seq<char>, Seq<Option<Seq<char>>>)| (
            e.0,
            e.1.map(
                |k: int, v: Option<Seq<char>>| match v {
                    Some(t) => t,
                    None => Seq::<char>::empty(),
                },
            ),
        ),
    )
}

/// The header map with names lowercased.
pub open spec fn header_map(h: Seq<(Seq<char>, Seq<Seq<char>>)>) -> Seq<(Seq<char>, Seq<Seq<char>>)> {
    h.map(|i: int, e: (Seq<char>, Seq<Seq<char>>)| (lower_of(e.0), e.1))
}

/// First-match lookup in a string multimap.
pub open spec fn mm_lookup(m: Seq<(Seq<char>, Seq<Seq<char>>)>, key: Seq<char>) -> Option<
    Seq<Seq<char>>,
>
    decreases m.len(),
{
    if m.len() == 0 {
        None
    } else if m[0].0 == key {
        Some(m[0].1)
    } else {
        mm_lookup(m.skip(1), key)
    }
}

/// What the HTTP request resolver answers: single-valued lookups collapse to
/// a string, multi-valued ones stay lists, absent ones are `NULL`.
pub open spec fn http_resolve_spec(req: HttpRequestV, path: Seq<PathTokV>) -> Result<
    NodeValV,
    Seq<char>,
> {
    if path.len() < 2 {
        Err(path_text(path) + " is not valid for a HTTP request"@)
    } else {
        match path[1] {
            PathTokV::Field(field) => if field == "method"@ {
                Ok(NodeValV::Str(req.method))
            } else if field == "path"@ {
                Ok(NodeValV::Str(req.path))
            } else if field == "query"@ {
                http_resolve_query(req, path)
            } else if field == "headers"@ {
                http_resolve_headers(req, path)
            } else if field == "content-type"@ {
                match request_content_type(req) {
                    Some(ct) => Ok(NodeValV::Str(ct)),
                    None => Ok(NodeValV::Null),
                }
            } else if field == "body"@ && path.len() == 2 {
                match req.body {
                    OptionalBodyV::Present(bytes, _) => Ok(NodeValV::BArray(bytes)),
                    _ => Ok(NodeValV::Null),
                }
            } else {
                Err(path_text(path) + " is not valid for a HTTP request"@)
            },
            _ => Err(path_text(path) + " is not valid for a HTTP request"@),
        }
    }
}

/// The query part of `http_resolve_spec`.
pub open spec fn http_resolve_query(req: HttpRequestV, path: Seq<PathTokV>) -> Result<
    NodeValV,
    Seq<char>,
> {
    let q = match req.query {
        Some(q) => query_map(q),
        None => Seq::empty(),
    };
    if path.len() == 2 || (path.len() == 3 && path[2] is Star) {
        Ok(NodeValV::MMap(q))
    } else if path.len() == 3 {
        match path[2] {
            PathTokV::Field(param) => match mm_lookup(q, param) {
                Some(vals) => if vals.len() == 1 {
                    Ok(NodeValV::Str(vals[0]))
                } else {
                    Ok(NodeValV::SList(vals))
                },
                None => Ok(NodeValV::Null),
            },
            _ => Err(path_text(path) + " is not valid for a HTTP request query parameters"@),
        }
    } else {
        Err(path_text(path) + " is not valid for a HTTP request query parameters"@)
    }
}

/// The headers part of `http_resolve_spec`.
pub open spec fn http_resolve_headers(req: HttpRequestV, path: Seq<PathTokV>) -> Result<
    NodeValV,
    Seq<char>,
> {
    let h = match req.headers {
        Some(h) => header_map(h),
        None => Seq::empty(),
    };
    if path.len() == 2 || (path.len() == 3 && path[2] is Star) {
        Ok(NodeValV::MMap(h))
    } else if path.len() == 3 {
        match path[2] {
            PathTokV::Field(param) => match mm_lookup(h, lower_of(param)) {
                Some(vals) => if vals.len() == 1 {
                    Ok(NodeValV::Str(vals[0]))
                } else {
                    Ok(NodeValV::SList(vals))
                },
                None => Ok(NodeValV::Null),
            },
            _ => Err(path_text(path) + " is not valid for HTTP request headers"@),
        }
    } else if path.len() == 4 {
        match (path[2], path[3]) {
            (PathTokV::Field(param), PathTokV::Index(idx)) => match mm_lookup(
                h,
                lower_of(param),
            ) {
                Some(vals) => if 0 <= idx < vals.len() {
                    Ok(NodeValV::Str(vals[idx]))
                } else {
                    Ok(NodeValV::Null)
                },
                None => Ok(NodeValV::Null),
            },
            _ => Err(path_text(path) + " is not valid for HTTP request headers"@),
        }
    } else {
        Err(path_text(path) + " is not valid for HTTP request headers"@)
    }
}

/// The request's content type: the `content-type` header if one is given,
/// else the body's own content type.
pub open spec fn request_content_type(req: HttpRequestV) -> Option<Seq<char>> {
    let from_headers = match req.headers {
        Some(h) => match mm_lookup(header_map(h), "content-type"@) {
            Some(vals) => if vals.len() > 0 {
                Some(vals[0])
            } else {
                None
            },
            None => None,
        },
        None => None,
    };
    match from_headers {
        Some(ct) => Some(ct),
        None => match req.body {
            OptionalBodyV::Present(_, Some(ct)) => Some(ct),
            _ => None,
        },
    }
}

/// Value resolver for an HTTP request.
#[derive(Debug, PartialEq)]
pub struct HttpRequestValueResolver {
    /// Request to resolve values against
    pub request: HttpRequest,
}

/// Builds the resolved query map.
#[verifier::loop_isolation(false)]
fn build_query_map(q: &Vec<(String, Vec<Option<String>>)>) -> (r: Vec<(String, Vec<String>)>)
    ensures
        mm_view(r@) == query_map(
            q@.map(|i: int, e: (String, Vec<Option<String>>)| (e.0@, qv_view(e.1@))),
        ),
{
    let ghost target = query_map(
        q@.map(|i: int, e: (String, Vec<Option<String>>)| (e.0@, qv_view(e.1@))),
    );
    let mut out: Vec<(String, Vec<String>)> = Vec::new();
    let mut i: usize = 0;
    proof {
        assert(mm_view(out@) =~= target.take(0));
    }
    while i < q.len()
        invariant
            i <= q.len(),
            mm_view(out@) =~= target.take(i as int),
        decreases q.len() - i,
    {
        let k = q[i].0.clone();
        let mut vals: Vec<String> = Vec::new();
        let mut j: usize = 0;
        proof {
            assert(sl_view(vals@) =~= target[i as int].1.take(0));
        }
        while j < q[i].1.len()
            invariant
                i < q.len(),
                j <= q@[i as int].1@.len(),
                sl_view(vals@) =~= target[i as int].1.take(j as int),
            decreases q@[i as int].1@.len() - j,
        {
            let v = match &q[i].1[j] {
                Some(t) => t.clone(),
                None => String::new(),
            };
            vals.push(v);
            proof {
                assert(sl_view(vals@) =~= target[i as int].1.take(j + 1));
            }
            j = j + 1;
        }
        proof {
            assert(target[i as int].1.take(q[i as int].1@.len() as int) =~= target[i as int].1);
        }
        out.push((k, vals));
        proof {
            assert(mm_view(out@) =~= target.take(i + 1));
        }
        i = i + 1;
    }
    proof {
        assert(target.take(q@.len() as int) =~= target);
    }
    out
}

/// Builds the lowercased header map.
#[verifier::loop_isolation(false)]
fn build_header_map(h: &Vec<(String, Vec<String>)>) -> (r: Vec<(String, Vec<String>)>)
    ensures
        mm_view(r@) == header_map(h@.map(|i: int, e: (String, Vec<String>)| (e.0@, sl_view(e.1@)))),
{
    let ghost target = header_map(
        h@.map(|i: int, e: (String, Vec<String>)| (e.0@, sl_view(e.1@))),
    );
    let mut out: Vec<(String, Vec<String>)> = Vec::new();
    let mut i: usize = 0;
    proof {
        assert(mm_view(out@) =~= target.take(0));
    }
    while i < h.len()
        invariant
            i <= h.len(),
            mm_view(out@) =~= target.take(i as int),
        decreases h.len() - i,
    {
        let k = crate::foreign::to_lower(h[i].0.as_str());
        let vals = clone_slist(&h[i].1);
        out.push((k, vals));
        proof {
            assert(mm_view(out@) =~= target.take(i + 1));
        }
        i = i + 1;
    }
    proof {
        assert(target.take(h@.len() as int) =~= target);
    }
    out
}

/// First-match lookup in a built string multimap.
#[verifier::loop_isolation(false)]
fn mm_get(m: &Vec<(String, Vec<String>)>, key: &str) -> (r: Option<Vec<String>>)
    ensures
        match r {
            Some(vals) => mm_lookup(mm_view(m@), key@) == Some(sl_view(vals@)),
            None => mm_lookup(mm_view(m@), key@) is None,
        },
{
    let ghost mv = mm_view(m@);
    let mut i: usize = 0;
    while i < m.len()
        invariant
            i <= m.len(),
            forall|j: int| 0 <= j < i ==> mv[j].0 != key@,
        decreases m.len() - i,
    {
        if str_eq(m[i].0.as_str(), key) {
            let vals = clone_slist(&m[i].1);
            proof {
                lemma_mm_lookup_prefix(mv, key@, i as int);
                assert(mv.skip(i as int)[0] == mv[i as int]);
            }
            return Some(vals);
        }
        i = i + 1;
    }
    proof {
        lemma_mm_lookup_prefix(mv, key@, m@.len() as int);
        assert(mv.skip(m@.len() as int).len() == 0);
    }
    None
}

proof fn lemma_mm_lookup_prefix(m: Seq<(Seq<char>, Seq<Seq<char>>)>, key: Seq<char>, i: int)
    requires
        0 <= i <= m.len(),
        forall|k: int| 0 <= k < i ==> m[k].0 != key,
    ensures
        mm_lookup(m, key) == mm_lookup(m.skip(i), key),
    decreases i,
{
    if i > 0 {
        assert(m[0].0 != key);
        assert forall|k: int| 0 <= k < i - 1 implies #[trigger] m.skip(1)[k].0 != key by {
            assert(m.skip(1)[k] == m[k + 1]);
        }
        lemma_mm_lookup_prefix(m.skip(1), key, i - 1);
        assert(m.skip(1).skip(i - 1) =~= m.skip(i));
    } else {
        assert(m.skip(0) =~= m);
    }
}

impl HttpRequestValueResolver {
    /// The request's content type, if any can be determined.
    pub fn content_type(&self) -> (r: Option<String>)
        ensures
            match r {
                Some(ct) => request_content_type(self.request@) == Some(ct@),
                None => request_content_type(self.request@) is None,
            },
    {
        let from_headers: Option<String> = match &self.request.headers {
            Some(h) => {
                let built = build_header_map(h);
                match mm_get(&built, "content-type") {
                    Some(vals) => {
                        if vals.len() > 0 {
                            Some(vals[0].clone())
                        } else {
                            None
                        }
                    },
                    None => None,
                }
            },
            None => None,
        };
        match from_headers {
            Some(ct) => Some(ct),
            None => match &self.request.body {
                OptionalBody::Present(_, Some(ct)) => Some(ct.clone()),
                _ => None,
            },
        }
    }
}

impl ValueResolver for HttpRequestValueResolver {
    open spec fn resolve_spec(&self, path: Seq<PathTokV>) -> Result<NodeValV, Seq<char>> {
        http_resolve_spec(self.request@, path)
    }

    #[verifier::rlimit(100)]
    fn resolve(&self, path: &DocPath, context: &PlanMatchingContext) -> (r: Result<
        NodeValue,
        String,
    >) {
        let plen = path.len();
        if let Some(field) = path.first_field() {
            let field = field.clone();
            if str_eq(field.as_str(), "method") {
                Ok(NodeValue::STRING(self.request.method.clone()))
            } else if str_eq(field.as_str(), "path") {
                Ok(NodeValue::STRING(self.request.path.clone()))
            } else if str_eq(field.as_str(), "query") {
                let built: Vec<(String, Vec<String>)> = match &self.request.query {
                    Some(q) => build_query_map(q),
                    None => Vec::new(),
                };
                proof {
                    if self.request@.query is None {
                        assert(mm_view(built@) =~= Seq::<(Seq<char>, Seq<Seq<char>>)>::empty());
                    }
                }
                if plen == 2 || (plen == 3 && path.is_wildcard()) {
                    Ok(NodeValue::MMAP(built))
                } else if plen == 3 {
                    if let Some(param) = path.last_field() {
                        let param = param.clone();
                        match mm_get(&built, param.as_str()) {
                            Some(vals) => {
                                if vals.len() == 1 {
                                    Ok(NodeValue::STRING(vals[0].clone()))
                                } else {
                                    Ok(NodeValue::SLIST(vals))
                                }
                            },
                            None => Ok(NodeValue::NULL),
                        }
                    } else {
                        let t = path.to_string();
                        let mut out: Vec<char> = Vec::new();
                        push_str(&mut out, t.as_str());
                        push_str(&mut out, " is not valid for a HTTP request query parameters");
                        Err(crate::strutil::chars_to_string(&out))
                    }
                } else {
                    let t = path.to_string();
                    let mut out: Vec<char> = Vec::new();
                    push_str(&mut out, t.as_str());
                    push_str(&mut out, " is not valid for a HTTP request query parameters");
                    Err(crate::strutil::chars_to_string(&out))
                }
            } else if str_eq(field.as_str(), "headers") {
                let built: Vec<(String, Vec<String>)> = match &self.request.headers {
                    Some(h) => build_header_map(h),
                    None => Vec::new(),
                };
                proof {
                    if self.request@.headers is None {
                        assert(mm_view(built@) =~= Seq::<(Seq<char>, Seq<Seq<char>>)>::empty());
                    }
                }
                if plen == 2 || (plen == 3 && path.is_wildcard()) {
                    Ok(NodeValue::MMAP(built))
                } else if plen == 3 {
                    if let Some(param) = path.last_field() {
                        let lowered = crate::foreign::to_lower(param.as_str());
                        match mm_get(&built, lowered.as_str()) {
                            Some(vals) => {
                                if vals.len() == 1 {
                                    Ok(NodeValue::STRING(vals[0].clone()))
                                } else {
                                    Ok(NodeValue::SLIST(vals))
                                }
                            },
                            None => Ok(NodeValue::NULL),
                        }
                    } else {
                        let t = path.to_string();
                        let mut out: Vec<char> = Vec::new();
                        push_str(&mut out, t.as_str());
                        push_str(&mut out, " is not valid for HTTP request headers");
                        Err(crate::strutil::chars_to_string(&out))
                    }
                } else if plen == 4 {
                    let toks = path.tokens();
                    let param_tok = &toks[2];
                    let idx_tok = &toks[3];
                    match (param_tok, idx_tok) {
                        (crate::path::PathToken::Field(param), crate::path::PathToken::Index(
                            idx,
                        )) => {
                            let lowered = crate::foreign::to_lower(param.as_str());
                            match mm_get(&built, lowered.as_str()) {
                                Some(vals) => {
                                    if *idx < vals.len() {
                                        Ok(NodeValue::STRING(vals[*idx].clone()))
                                    } else {
                                        Ok(NodeValue::NULL)
                                    }
                                },
                                None => Ok(NodeValue::NULL),
                            }
                        },
                        _ => {
                            let t = path.to_string();
                            let mut out: Vec<char> = Vec::new();
                            push_str(&mut out, t.as_str());
                            push_str(&mut out, " is not valid for HTTP request headers");
                            Err(crate::strutil::chars_to_string(&out))
                        },
                    }
                } else {
                    let t = path.to_string();
                    let mut out: Vec<char> = Vec::new();
                    push_str(&mut out, t.as_str());
                    push_str(&mut out, " is not valid for HTTP request headers");
                    Err(crate::strutil::chars_to_string(&out))
                }
            } else if str_eq(field.as_str(), "content-type") {
                match self.content_type() {
                    Some(ct) => Ok(NodeValue::STRING(ct)),
                    None => Ok(NodeValue::NULL),
                }
            } else if str_eq(field.as_str(), "body") && plen == 2 {
                match &self.request.body {
                    OptionalBody::Present(bytes, _) => {
                        let mut out: Vec<u8> = Vec::new();
                        let mut i: usize = 0;
                        #[verifier::loop_isolation(false)]
                        while i < bytes.len()
                            invariant
                                i <= bytes.len(),
                                out@ == bytes@.take(i as int),
                            decreases bytes.len() - i,
                        {
                            out.push(bytes[i]);
                            proof {
                                assert(out@ =~= bytes@.take(i + 1));
                            }
                            i = i + 1;
                        }
                        proof {
                            assert(bytes@.take(bytes@.len() as int) =~= bytes@);
                        }
                        Ok(NodeValue::BARRAY(out))
                    },
                    _ => Ok(NodeValue::NULL),
                }
            } else {
                let t = path.to_string();
                let mut out: Vec<char> = Vec::new();
                push_str(&mut out, t.as_str());
                push_str(&mut out, " is not valid for a HTTP request");
                Err(crate::strutil::chars_to_string(&out))
            }
        } else {
            let t = path.to_string();
            let mut out: Vec<char> = Vec::new();
            push_str(&mut out, t.as_str());
            push_str(&mut out, " is not valid for a HTTP request");
            Err(crate::strutil::chars_to_string(&out))
        }
    }
}

} // verus!
