//! Building requests and interpreting responses, independent of the transport.
use vstd::prelude::*;
use crate::command_tree::Operation;
use crate::error::{BodyForm, EngineError};
use crate::json::{field, get_field, JsonValue};
use crate::query::{bulk_result, parse_params_json};
use crate::text::{chars_of, push_all, starts_with, str_eq, string_of};

verus! {

/// The HTTP methods the engine sends.
#[derive(PartialEq, Eq, Structural, Clone, Copy, Debug)]
pub enum Method {
    Get,
    Post,
    Patch,
    Put,
    Delete,
}

/// A request body: JSON, or form-urlencoded pairs.
#[derive(Debug)]
pub enum Body {
    Json(JsonValue),
    Form(Vec<(String, String)>),
}

/// The method named by `m`, if it is one of the five.
pub open spec fn method_of(m: Seq<char>) -> Option<Method> {
    if m == "GET"@ {
        Some(Method::Get)
    } else if m == "POST"@ {
        Some(Method::Post)
    } else if m == "PATCH"@ {
        Some(Method::Patch)
    } else if m == "PUT"@ {
        Some(Method::Put)
    } else if m == "DELETE"@ {
        Some(Method::Delete)
    } else {
        None
    }
}

/// Checks a request before it is sent: the method must be one of GET, POST,
/// PATCH, PUT, DELETE, and GET and DELETE carry no body.
pub fn check_request(method: &str, has_body: bool) -> (r: Result<Method, EngineError>)
    ensures
        match method_of(method@) {
            None => r matches Err(EngineError::UnsupportedMethod(m)) && m@ == method@,
            Some(k) => if has_body && (k == Method::Get || k == Method::Delete) {
                r matches Err(EngineError::BodyNotAllowed)
            } else {
                r == Ok::<Method, EngineError>(k)
            },
        },
{
    let k = if str_eq(method, "GET") {
        Method::Get
    } else if str_eq(method, "POST") {
        Method::Post
    } else if str_eq(method, "PATCH") {
        Method::Patch
    } else if str_eq(method, "PUT") {
        Method::Put
    } else if str_eq(method, "DELETE") {
        Method::Delete
    } else {
        return Err(EngineError::UnsupportedMethod(method.to_owned()));
    };
    if has_body && (k == Method::Get || k == Method::Delete) {
        return Err(EngineError::BodyNotAllowed);
    }
    Ok(k)
}

/// A 2xx status.
pub open spec fn is_success(status: u16) -> bool {
    200 <= status <= 299
}

/// Interprets a response: `blank` says the body was empty or whitespace,
/// `decoded` is the body parsed as JSON, `None` where it did not parse.
/// An empty body is `null` on success and an error otherwise; a body that is
/// not JSON is a decode error; a JSON body with a non-success status is an
/// API error carrying status and body.
pub fn classify_response(status: u16, blank: bool, decoded: Option<JsonValue>) -> (r: Result<JsonValue, EngineError>)
    ensures
        blank && is_success(status) ==> r matches Ok(JsonValue::Null),
        blank && !is_success(status) ==> (r matches Err(EngineError::EmptyErrorResponse(s)) && s == status),
        !blank && decoded is None ==> r matches Err(EngineError::DecodeError),
        !blank && decoded is Some && is_success(status) ==> r == Ok::<JsonValue, EngineError>(decoded->0),
        !blank && decoded is Some && !is_success(status) ==> (r matches Err(EngineError::ApiError(s, v)) && s == status && v == decoded->0),
{
    let ok = 200 <= status && status <= 299;
    if blank {
        if ok {
            return Ok(JsonValue::Null);
        }
        return Err(EngineError::EmptyErrorResponse(status));
    }
    match decoded {
        None => Err(EngineError::DecodeError),
        Some(v) => if ok {
            Ok(v)
        } else {
            Err(EngineError::ApiError(status, v))
        },
    }
}

/// `s` without trailing `c`s.
pub open spec fn trim_end(s: Seq<char>, c: char) -> Seq<char>
    decreases s.len(),
{
    if s.len() > 0 && s.last() == c {
        trim_end(s.drop_last(), c)
    } else {
        s
    }
}

/// `s` without leading `c`s.
pub open spec fn trim_start(s: Seq<char>, c: char) -> Seq<char>
    decreases s.len(),
{
    if s.len() > 0 && s[0] == c {
        trim_start(s.subrange(1, s.len() as int), c)
    } else {
        s
    }
}

/// The URL for `path` under `base`: an absolute `http(s)://` path stands as
/// it is; otherwise the base without trailing slashes, then a slash and the
/// path without leading slashes, or the base alone when that path is empty.
pub open spec fn join_url(base: Seq<char>, path: Seq<char>) -> Seq<char> {
    if crate::text::has_prefix(path, "http://"@) || crate::text::has_prefix(path, "https://"@) {
        path
    } else {
        let b = trim_end(base, '/');
        let p = trim_start(path, '/');
        if p.len() == 0 {
            b
        } else {
            b + seq!['/'] + p
        }
    }
}

/// Drops the trailing `c`s of `s`.
fn trim_end_exec(s: &Vec<char>, c: char) -> (r: Vec<char>)
    ensures
        r@ == trim_end(s@, c),
{
    let mut n: usize = s.len();
    assert(s@.subrange(0, n as int) =~= s@);
    while n > 0 && s[n - 1] == c
        invariant
            n <= s.len(),
            trim_end(s@, c) == trim_end(s@.subrange(0, n as int), c),
        decreases n,
    {
        assert(s@.subrange(0, n as int).drop_last() =~= s@.subrange(0, n - 1));
        n = n - 1;
    }
    let mut out: Vec<char> = Vec::new();
    let mut i: usize = 0;
    while i < n
        invariant
            i <= n <= s.len(),
            out@ == s@.subrange(0, i as int),
        decreases n - i,
    {
        out.push(s[i]);
        i = i + 1;
        assert(out@ =~= s@.subrange(0, i as int));
    }
    out
}

/// Drops the leading `c`s of `s`.
fn trim_start_exec(s: &Vec<char>, c: char) -> (r: Vec<char>)
    ensures
        r@ == trim_start(s@, c),
{
    let mut i: usize = 0;
    assert(s@.subrange(0, s@.len() as int) =~= s@);
    while i < s.len() && s[i] == c
        invariant
            i <= s.len(),
            trim_start(s@, c) == trim_start(s@.subrange(i as int, s@.len() as int), c),
        decreases s.len() - i,
    {
        let ghost t = s@.subrange(i as int, s@.len() as int);
        assert(t.subrange(1, t.len() as int) =~= s@.subrange(i + 1, s@.len() as int));
        i = i + 1;
    }
    crate::text::tail_from(s, i)
}

/// The client-side view of the API: where it lives.
#[derive(Clone, Debug, PartialEq)]
pub struct PinterestClient {
    pub base_url: String,
}

impl PinterestClient {
    /// A client for the API under `base_url`.
    pub fn new(base_url: String) -> (r: PinterestClient)
        ensures
            r.base_url == base_url,
    {
        PinterestClient { base_url }
    }

    /// The URL of `path` (see `join_url`).
    pub fn build_url(&self, path: &str) -> (r: String)
        ensures
            r@ == join_url(self.base_url@, path@),
    {
        if starts_with(path, "http://") || starts_with(path, "https://") {
            return path.to_owned();
        }
        let base = trim_end_exec(&chars_of(self.base_url.as_str()), '/');
        let p = trim_start_exec(&chars_of(path), '/');
        if p.len() == 0 {
            return string_of(&base);
        }
        let mut out = base;
        out.push('/');
        push_all(&mut out, &p);
        string_of(&out)
    }
}

/// Some declared content type is exactly `ct`.
pub open spec fn declares(cts: Seq<String>, ct: Seq<char>) -> bool {
    exists|i: int| 0 <= i < cts.len() && #[trigger] cts[i]@ == ct
}

fn any_equals(cts: &Vec<String>, ct: &str) -> (r: bool)
    ensures
        r == declares(cts@, ct@),
{
    let mut i: usize = 0;
    while i < cts.len()
        invariant
            i <= cts.len(),
            forall|j: int| 0 <= j < i ==> cts@[j]@ != ct@,
        decreases cts.len() - i,
    {
        if str_eq(cts[i].as_str(), ct) {
            return true;
        }
        i = i + 1;
    }
    false
}

/// Which body an operation is sent with, given whether a JSON body input and
/// a form input were supplied.
pub open spec fn body_plan(op: Operation, has_json: bool, has_form: bool) -> Result<Option<BodyForm>, EngineError> {
    match op.request_body {
        None => if has_json || has_form {
            Err(EngineError::BodyNotDeclared)
        } else {
            Ok(None)
        },
        Some(rb) => if declares(rb.content_types@, "application/json"@) {
            if has_json {
                Ok(Some(BodyForm::Json))
            } else if rb.required {
                Err(EngineError::MissingBody(BodyForm::Json))
            } else {
                Ok(None)
            }
        } else if declares(rb.content_types@, "application/x-www-form-urlencoded"@) {
            if has_form {
                Ok(Some(BodyForm::Form))
            } else if rb.required {
                Err(EngineError::MissingBody(BodyForm::Form))
            } else {
                Ok(None)
            }
        } else {
            Err(EngineError::UnsupportedContentTypes(rb.content_types))
        },
    }
}

/// A copy of a list of strings.
fn copy_strings(v: &Vec<String>) -> (r: Vec<String>)
    ensures
        r@ == v@,
{
    let mut out: Vec<String> = Vec::new();
    let mut i: usize = 0;
    while i < v.len()
        invariant
            i <= v.len(),
            out@ == v@.subrange(0, i as int),
        decreases v.len() - i,
    {
        out.push(v[i].clone());
        i = i + 1;
        assert(out@ =~= v@.subrange(0, i as int));
    }
    assert(v@.subrange(0, v@.len() as int) =~= v@);
    out
}

/// Decides which body an operation is sent with (see `body_plan`): JSON is
/// preferred when declared, then form-urlencoded; any other declaration is
/// an error at request time.
pub fn build_body(op: &Operation, has_json: bool, has_form: bool) -> (r: Result<Option<BodyForm>, EngineError>)
    ensures
        match body_plan(*op, has_json, has_form) {
            Ok(p) => r == Ok::<Option<BodyForm>, EngineError>(p),
            Err(EngineError::BodyNotDeclared) => r matches Err(EngineError::BodyNotDeclared),
            Err(EngineError::MissingBody(f)) => r matches Err(EngineError::MissingBody(g)) && f == g,
            Err(EngineError::UnsupportedContentTypes(c)) => r matches Err(EngineError::UnsupportedContentTypes(d)) && d@ == c@,
            Err(_) => false,
        },
{
    match &op.request_body {
        None => if has_json || has_form {
            Err(EngineError::BodyNotDeclared)
        } else {
            Ok(None)
        },
        Some(rb) => if any_equals(&rb.content_types, "application/json") {
            if has_json {
                Ok(Some(BodyForm::Json))
            } else if rb.required {
                Err(EngineError::MissingBody(BodyForm::Json))
            } else {
                Ok(None)
            }
        } else if any_equals(&rb.content_types, "application/x-www-form-urlencoded") {
            if has_form {
                Ok(Some(BodyForm::Form))
            } else if rb.required {
                Err(EngineError::MissingBody(BodyForm::Form))
            } else {
                Ok(None)
            }
        } else {
            Err(EngineError::UnsupportedContentTypes(copy_strings(&rb.content_types)))
        },
    }
}

/// The pairs of a form body: each member of the object, one pair per
/// element for an array, one pair otherwise.
pub fn form_pairs(value: &JsonValue) -> (r: Result<Vec<(String, String)>, EngineError>)
    ensures
        match bulk_result(Some(*value), Seq::empty()) {
            Some(q) => r matches Ok(out) && crate::json::pairs_view(out@) == q,
            None => r matches Err(EngineError::NotAnObject),
        },
{
    let none: Vec<crate::command_tree::ParamDef> = Vec::new();
    assert(none@ =~= Seq::empty());
    parse_params_json(Some(value), &none)
}

/// What is printed for a non-paginated response: the response itself when
/// raw output is asked for or it has no `items`; else its `items`.
pub fn select_output<'a>(response: &'a JsonValue, raw: bool) -> (r: &'a JsonValue)
    ensures
        raw ==> *r == *response,
        !raw && field(*response, "items"@) is None ==> *r == *response,
        !raw && field(*response, "items"@) is Some ==> Some(*r) == field(*response, "items"@),
{
    if raw {
        return response;
    }
    match get_field(response, "items") {
        Some(items) => items,
        None => response,
    }
}

} // verus!
