use pinterest_ads::auth::{raw_auth, select_auth, Auth, Credentials};
use pinterest_ads::command_tree::{
    find_op, param_key, param_value_name, CommandTree, Operation, ParamDef, RequestBodyDef, Resource,
};
use pinterest_ads::error::{BodyForm, CredentialSlot, EngineError, RegistrationField};
use pinterest_ads::json::{json_value_to_string, JsonValue};
use pinterest_ads::media_upload::{
    check_upload, media_path, next_phase, parse_registration, poll_step, UploadPhase, POLL_TIMEOUT_SECS,
};
use pinterest_ads::pagination::Pager;
use pinterest_ads::path::{build_path, ArgValue};
use pinterest_ads::query::{build_query_params, encode_deep_object, parse_params_json, remove_query_key};
use pinterest_ads::request::{build_body, check_request, classify_response, form_pairs, select_output, Method, PinterestClient};
use pinterest_ads::sources::{classify_source, http_file_name, local_path, looks_like_source, parse_s3_url, SourceKind};

fn s(x: &str) -> String {
    x.to_string()
}

fn num(x: &str) -> JsonValue {
    JsonValue::Number(s(x))
}

fn st(x: &str) -> JsonValue {
    JsonValue::Str(s(x))
}

fn arr(items: Vec<JsonValue>) -> JsonValue {
    JsonValue::Array(items, s("[...]"))
}

fn obj(members: Vec<(&str, JsonValue)>) -> JsonValue {
    JsonValue::Object(members.into_iter().map(|(k, v)| (s(k), v)).collect(), s("{...}"))
}

fn param(name: &str, location: &str, schema_type: &str, style: Option<&str>) -> ParamDef {
    ParamDef {
        name: s(name),
        flag: name.replace('_', "-"),
        location: s(location),
        required: location == "path",
        style: style.map(s),
        explode: None,
        schema_type: s(schema_type),
        items_type: None,
    }
}

fn op(path: &str, params: Vec<ParamDef>, security: Vec<&str>) -> Operation {
    Operation {
        name: s("list"),
        method: s("GET"),
        path: s(path),
        summary: None,
        tags: vec![],
        paginated: true,
        security: security.into_iter().map(|k| vec![(s(k), vec![])]).collect(),
        params,
        request_body: None,
    }
}

fn pairs(v: &[(&str, &str)]) -> Vec<(String, String)> {
    v.iter().map(|(a, b)| (s(a), s(b))).collect()
}

fn creds(access: Option<&str>, id: Option<&str>, secret: Option<&str>, conv: Option<&str>) -> Credentials {
    Credentials {
        access_token: access.map(s),
        client_id: id.map(s),
        client_secret: secret.map(s),
        conversion_token: conv.map(s),
    }
}

fn is_bearer(a: &Auth, t: &str) -> bool {
    matches!(a, Auth::Bearer(x) if x == t)
}

fn is_basic(a: &Auth, u: &str, p: &str) -> bool {
    matches!(a, Auth::Basic { username, password } if username == u && password == p)
}

#[test]
fn path_substitution_encodes_each_placeholder() {
    let o = op("/a/{x}/b/{y}", vec![param("x", "path", "string", None), param("y", "path", "string", None)], vec![]);
    let args = vec![(s("x"), ArgValue::Single(s("1 2"))), (s("y"), ArgValue::Single(s("q/r")))];
    let p = build_path(&o, &args, &None).ok().unwrap();
    assert_eq!(p, "/a/1%202/b/q%2Fr");
    assert!(!p.contains('{') && !p.contains('}'));
}

#[test]
fn path_substitution_missing_param_fails() {
    let o = op("/a/{x}/b/{y}", vec![param("x", "path", "string", None), param("y", "path", "string", None)], vec![]);
    let args = vec![(s("x"), ArgValue::Single(s("1")))];
    match build_path(&o, &args, &None) {
        Err(EngineError::MissingRequiredParam(n)) => assert_eq!(n, "y"),
        _ => panic!("expected a missing parameter"),
    }
}

#[test]
fn path_account_default_and_override() {
    let o = op("/ad_accounts/{ad_account_id}/campaigns", vec![param("ad_account_id", "path", "string", None)], vec![]);
    let p = build_path(&o, &vec![], &Some(s("555"))).ok().unwrap();
    assert_eq!(p, "/ad_accounts/555/campaigns");
    let args = vec![(s("ad_account_id"), ArgValue::Single(s("777")))];
    let p = build_path(&o, &args, &Some(s("555"))).ok().unwrap();
    assert_eq!(p, "/ad_accounts/777/campaigns");
}

#[test]
fn path_unresolved_template_fails() {
    let o = op("/a/{z}", vec![], vec![]);
    match build_path(&o, &vec![], &None) {
        Err(EngineError::UnresolvedPathTemplate(t)) => assert_eq!(t, "/a/{z}"),
        _ => panic!("expected an unresolved template"),
    }
}

#[test]
fn deep_object_flattening() {
    let v = obj(vec![("foo", obj(vec![("a", num("1")), ("b", arr(vec![num("2"), num("3")]))]))]);
    let out = encode_deep_object(&s("filter"), &v).ok().unwrap();
    assert_eq!(out, pairs(&[("filter[foo][a]", "1"), ("filter[foo][b]", "2"), ("filter[foo][b]", "3")]));
}

#[test]
fn deep_object_drops_nulls_and_keeps_strings() {
    let v = obj(vec![("n", JsonValue::Null), ("s", st("x y")), ("t", JsonValue::Bool(true))]);
    let out = encode_deep_object(&s("f"), &v).ok().unwrap();
    assert_eq!(out, pairs(&[("f[s]", "x y"), ("f[t]", "true")]));
    assert!(matches!(encode_deep_object(&s("f"), &num("1")), Err(EngineError::NotAnObject)));
}

#[test]
fn deep_object_drops_null_array_elements() {
    let v = obj(vec![("a", arr(vec![JsonValue::Null, num("1"), JsonValue::Null]))]);
    let out = encode_deep_object(&s("p"), &v).ok().unwrap();
    assert_eq!(out, pairs(&[("p[a]", "1")]));
    let only_null = obj(vec![("a", arr(vec![JsonValue::Null]))]);
    assert_eq!(encode_deep_object(&s("p"), &only_null).ok().unwrap(), vec![]);
}

#[test]
fn flag_replaces_bulk_value() {
    let o = op("/x", vec![param("page_size", "query", "integer", None)], vec![]);
    let bulk = obj(vec![("page_size", num("10")), ("order", st("ASC"))]);
    let args = vec![(s("page_size"), ArgValue::Single(s("25")))];
    let q = build_query_params(&o, Some(&bulk), &args).ok().unwrap();
    assert_eq!(q, pairs(&[("order", "ASC"), ("page_size", "25")]));
    assert_eq!(q.iter().filter(|(k, _)| k == "page_size").count(), 1);
}

#[test]
fn array_param_repeats_key() {
    let o = op("/x", vec![param("ids", "query", "array", None)], vec![]);
    let bulk = obj(vec![("ids", arr(vec![num("9")]))]);
    let args = vec![(s("ids"), ArgValue::Multiple(vec![s("1"), s("2")]))];
    let q = build_query_params(&o, Some(&bulk), &args).ok().unwrap();
    assert_eq!(q, pairs(&[("ids", "1"), ("ids", "2")]));
}

#[test]
fn deep_object_flag_purges_bracketed_keys() {
    let o = op("/x", vec![param("filter", "query", "object", Some("deepObject"))], vec![]);
    let bulk = obj(vec![("filter", obj(vec![("old", num("1"))])), ("z", st("k"))]);
    let args = vec![(s("filter"), ArgValue::Json(obj(vec![("new", num("2"))])))];
    let q = build_query_params(&o, Some(&bulk), &args).ok().unwrap();
    assert_eq!(q, pairs(&[("z", "k"), ("filter[new]", "2")]));
}

#[test]
fn bulk_params_must_be_object() {
    let defs: Vec<ParamDef> = vec![];
    assert!(matches!(parse_params_json(Some(&num("3")), &defs), Err(EngineError::NotAnObject)));
    assert_eq!(parse_params_json(None, &defs).ok().unwrap(), vec![]);
    let bulk = obj(vec![("a", arr(vec![num("1"), st("b")])), ("c", JsonValue::Null)]);
    assert_eq!(parse_params_json(Some(&bulk), &defs).ok().unwrap(), pairs(&[("a", "1"), ("a", "b"), ("c", "null")]));
}

#[test]
fn remove_query_key_by_style() {
    let mut q = pairs(&[("f", "1"), ("f[a]", "2"), ("fa", "3"), ("g", "4")]);
    remove_query_key(&mut q, "f", &Some(s("deepObject")));
    assert_eq!(q, pairs(&[("fa", "3"), ("g", "4")]));
    let mut q = pairs(&[("f", "1"), ("f[a]", "2")]);
    remove_query_key(&mut q, "f", &None);
    assert_eq!(q, pairs(&[("f[a]", "2")]));
}

#[test]
fn leaf_text_of_values() {
    assert_eq!(json_value_to_string(&JsonValue::Null), "null");
    assert_eq!(json_value_to_string(&JsonValue::Bool(false)), "false");
    assert_eq!(json_value_to_string(&num("1.5")), "1.5");
    assert_eq!(json_value_to_string(&st("a\"b")), "a\"b");
    assert_eq!(json_value_to_string(&JsonValue::Array(vec![num("1")], s("[1]"))), "[1]");
}

fn page(items: Vec<JsonValue>, bookmark: Option<&str>) -> JsonValue {
    let mut m = vec![("items", arr(items))];
    if let Some(b) = bookmark {
        m.push(("bookmark", st(b)));
    }
    obj(m)
}

fn sweep(max_pages: u64, max_items: u64) -> (Vec<JsonValue>, usize, Vec<Vec<(String, String)>>) {
    let endpoint = |i: usize| match i {
        0 => page(vec![num("1"), num("2"), num("3")], Some("b2")),
        1 => page(vec![num("4"), num("5")], None),
        _ => panic!("no such page"),
    };
    let query = pairs(&[("page_size", "3"), ("bookmark", "b1")]);
    let mut pager = Pager::start("GET", &query, max_pages, max_items).ok().unwrap();
    let mut fetched = 0usize;
    let mut queries = vec![];
    while !pager.done {
        match pager.next_query() {
            None => break,
            Some(q) => {
                queries.push(q);
                let resp = endpoint(fetched);
                fetched += 1;
                pager.take_page(resp).ok().unwrap();
            }
        }
    }
    (pager.items, fetched, queries)
}

fn numbers(items: &[JsonValue]) -> Vec<String> {
    items.iter().map(json_value_to_string).collect()
}

#[test]
fn pagination_exhausts_all_pages() {
    let (items, fetched, queries) = sweep(0, 0);
    assert_eq!(numbers(&items), vec!["1", "2", "3", "4", "5"]);
    assert_eq!(fetched, 2);
    assert_eq!(queries[0], pairs(&[("page_size", "3"), ("bookmark", "b1")]));
    assert_eq!(queries[1], pairs(&[("page_size", "3"), ("bookmark", "b2")]));
}

#[test]
fn pagination_item_cap_truncates_first_page() {
    let (items, fetched, _) = sweep(0, 2);
    assert_eq!(numbers(&items), vec!["1", "2"]);
    assert_eq!(fetched, 1);
    let (items, fetched, _) = sweep(0, 4);
    assert_eq!(numbers(&items), vec!["1", "2", "3", "4"]);
    assert_eq!(fetched, 2);
}

#[test]
fn pagination_page_cap() {
    let (items, fetched, _) = sweep(1, 0);
    assert_eq!(numbers(&items), vec!["1", "2", "3"]);
    assert_eq!(fetched, 1);
}

#[test]
fn pagination_rejects_non_get_and_malformed_pages() {
    assert!(matches!(Pager::start("POST", &vec![], 0, 0), Err(EngineError::PaginationUnsupported)));
    let mut p = Pager::start("GET", &vec![], 0, 0).ok().unwrap();
    assert!(p.next_query().is_some());
    assert!(matches!(p.take_page(obj(vec![("data", arr(vec![]))])), Err(EngineError::MalformedPaginatedResponse)));
}

#[test]
fn pagination_empty_bookmark_ends() {
    let mut p = Pager::start("GET", &vec![], 0, 0).ok().unwrap();
    p.next_query();
    p.take_page(page(vec![num("1")], Some(""))).ok().unwrap();
    assert!(p.done);
}

#[test]
fn auth_basic_wins_in_any_order() {
    let c = creds(Some("tok"), Some("id"), Some("sec"), None);
    let a = select_auth(&op("/x", vec![], vec!["basic", "bearer"]), &c).ok().unwrap();
    assert!(is_basic(&a, "id", "sec"));
    let a = select_auth(&op("/x", vec![], vec!["bearer", "basic"]), &c).ok().unwrap();
    assert!(is_basic(&a, "id", "sec"));
    let c2 = creds(Some("tok"), Some("id"), None, None);
    assert!(matches!(
        select_auth(&op("/x", vec![], vec!["basic"]), &c2),
        Err(EngineError::MissingCredential(CredentialSlot::ClientSecret))
    ));
}

#[test]
fn auth_conversion_token_falls_back_to_bearer() {
    let o = op("/x", vec![], vec!["conversion_token"]);
    let a = select_auth(&o, &creds(Some("tok"), None, None, None)).ok().unwrap();
    assert!(is_bearer(&a, "tok"));
    let a = select_auth(&o, &creds(Some("tok"), None, None, Some("conv"))).ok().unwrap();
    assert!(is_bearer(&a, "conv"));
    assert!(matches!(
        select_auth(&o, &creds(None, None, None, None)),
        Err(EngineError::MissingCredential(CredentialSlot::AccessToken))
    ));
}

#[test]
fn raw_auth_by_scheme() {
    let c = creds(Some("tok"), Some("id"), Some("sec"), None);
    assert!(is_basic(&raw_auth("basic", &c).ok().unwrap(), "id", "sec"));
    assert!(is_bearer(&raw_auth("bearer", &c).ok().unwrap(), "tok"));
    assert!(matches!(raw_auth("conversion", &c), Err(EngineError::MissingCredential(CredentialSlot::ConversionToken))));
}

fn registration() -> JsonValue {
    obj(vec![
        ("media_id", st("m1")),
        ("upload_url", st("https://bucket.example/")),
        ("upload_parameters", obj(vec![("key", st("uploads/m1")), ("size", num("3")), ("policy", st("p"))])),
    ])
}

#[test]
fn upload_workflow_end_to_end() {
    let reg = parse_registration(&registration()).ok().unwrap();
    assert_eq!(reg.media_id, "m1");
    assert_eq!(reg.upload_url, "https://bucket.example/");
    assert_eq!(reg.fields, pairs(&[("key", "uploads/m1"), ("policy", "p")]));
    assert!(check_upload(204, s("")).is_ok());
    assert_eq!(media_path(&reg.media_id), "/media/m1");
    let polls = vec![
        obj(vec![("status", st("processing"))]),
        obj(vec![("status", st("processing"))]),
        obj(vec![("status", st("succeeded")), ("media_id", st("m1"))]),
    ];
    let mut count = 0;
    let mut elapsed = 0u64;
    let mut last = None;
    for p in &polls {
        count += 1;
        if poll_step(p, elapsed).ok().unwrap() {
            last = Some(p);
            break;
        }
        elapsed += 2;
    }
    assert_eq!(count, 3);
    assert!(matches!(last, Some(JsonValue::Object(m, _)) if m.len() == 2));
}

#[test]
fn upload_poll_times_out() {
    let p = obj(vec![("status", st("processing"))]);
    let mut elapsed = 0u64;
    let outcome = loop {
        match poll_step(&p, elapsed) {
            Ok(false) => elapsed += 2,
            other => break other,
        }
    };
    assert!(matches!(outcome, Err(EngineError::ProcessingTimeout)));
    assert_eq!(elapsed, POLL_TIMEOUT_SECS);
}

#[test]
fn upload_errors() {
    assert!(matches!(poll_step(&obj(vec![("status", st("failed"))]), 0), Err(EngineError::ProcessingFailed)));
    match poll_step(&obj(vec![]), 0) {
        Err(EngineError::UnexpectedStatus(t)) => assert_eq!(t, "unknown"),
        _ => panic!("expected an unexpected status"),
    }
    assert_eq!(poll_step(&obj(vec![("status", st("registered"))]), 10).ok(), Some(false));
    match check_upload(403, s("denied")) {
        Err(EngineError::UploadFailed(code, t)) => assert_eq!((code, t.as_str()), (403, "denied")),
        _ => panic!("expected an upload failure"),
    }
    let no_id = obj(vec![("upload_url", st("u"))]);
    assert!(matches!(parse_registration(&no_id), Err(EngineError::MalformedRegistration(RegistrationField::MediaId))));
    let no_url = obj(vec![("media_id", st("m"))]);
    assert!(matches!(parse_registration(&no_url), Err(EngineError::MalformedRegistration(RegistrationField::UploadUrl))));
    let no_params = obj(vec![("media_id", st("m")), ("upload_url", st("u")), ("upload_parameters", arr(vec![]))]);
    assert!(matches!(
        parse_registration(&no_params),
        Err(EngineError::MalformedRegistration(RegistrationField::UploadParameters))
    ));
}

#[test]
fn response_classification() {
    assert!(matches!(classify_response(204, true, None), Ok(JsonValue::Null)));
    assert!(matches!(classify_response(500, true, None), Err(EngineError::EmptyErrorResponse(500))));
    assert!(matches!(classify_response(200, false, None), Err(EngineError::DecodeError)));
    assert!(matches!(classify_response(200, false, Some(num("7"))), Ok(JsonValue::Number(n)) if n == "7"));
    match classify_response(404, false, Some(obj(vec![("message", st("nope"))]))) {
        Err(EngineError::ApiError(404, JsonValue::Object(m, _))) => assert_eq!(m[0].0, "message"),
        _ => panic!("expected an api error"),
    }
}

#[test]
fn request_method_checks() {
    assert_eq!(check_request("GET", false).ok(), Some(Method::Get));
    assert_eq!(check_request("PATCH", true).ok(), Some(Method::Patch));
    assert!(matches!(check_request("DELETE", true), Err(EngineError::BodyNotAllowed)));
    assert!(matches!(check_request("GET", true), Err(EngineError::BodyNotAllowed)));
    match check_request("HEAD", false) {
        Err(EngineError::UnsupportedMethod(m)) => assert_eq!(m, "HEAD"),
        _ => panic!("expected an unsupported method"),
    }
}

#[test]
fn url_building() {
    let c = PinterestClient::new(s("https://api.example.com/v5/"));
    assert_eq!(c.build_url("/ad_accounts"), "https://api.example.com/v5/ad_accounts");
    assert_eq!(c.build_url("//x/y"), "https://api.example.com/v5/x/y");
    assert_eq!(c.build_url("/"), "https://api.example.com/v5");
    assert_eq!(c.build_url("http://other/z"), "http://other/z");
}

fn body_op(cts: &[&str], required: bool) -> Operation {
    let mut o = op("/x", vec![], vec![]);
    o.request_body = Some(RequestBodyDef { required, content_types: cts.iter().map(|c| s(c)).collect() });
    o
}

#[test]
fn body_planning() {
    assert!(matches!(build_body(&op("/x", vec![], vec![]), true, false), Err(EngineError::BodyNotDeclared)));
    assert_eq!(build_body(&op("/x", vec![], vec![]), false, false).ok(), Some(None));
    assert_eq!(build_body(&body_op(&["application/json"], true), true, true).ok(), Some(Some(BodyForm::Json)));
    assert!(matches!(build_body(&body_op(&["application/json"], true), false, true), Err(EngineError::MissingBody(BodyForm::Json))));
    assert_eq!(build_body(&body_op(&["application/x-www-form-urlencoded"], false), false, false).ok(), Some(None));
    assert_eq!(build_body(&body_op(&["application/x-www-form-urlencoded"], true), false, true).ok(), Some(Some(BodyForm::Form)));
    assert!(matches!(build_body(&body_op(&["application/x-www-form-urlencoded"], true), false, false), Err(EngineError::MissingBody(BodyForm::Form))));
    match build_body(&body_op(&["text/plain", "application/xml"], false), true, false) {
        Err(EngineError::UnsupportedContentTypes(cts)) => assert_eq!(cts, vec![s("text/plain"), s("application/xml")]),
        _ => panic!("expected unsupported content types"),
    }
}

#[test]
fn form_body_pairs() {
    let v = obj(vec![("a", st("x")), ("b", arr(vec![num("1"), num("2")]))]);
    assert_eq!(form_pairs(&v).ok().unwrap(), pairs(&[("a", "x"), ("b", "1"), ("b", "2")]));
    assert!(matches!(form_pairs(&st("x")), Err(EngineError::NotAnObject)));
}

#[test]
fn output_selection() {
    let r = obj(vec![("items", arr(vec![num("1")])), ("bookmark", st("b"))]);
    assert!(matches!(select_output(&r, false), JsonValue::Array(xs, _) if xs.len() == 1));
    assert!(matches!(select_output(&r, true), JsonValue::Object(m, _) if m.len() == 2));
    let r2 = obj(vec![("id", st("1"))]);
    assert!(matches!(select_output(&r2, false), JsonValue::Object(..)));
}

#[test]
fn s3_locators() {
    assert_eq!(parse_s3_url("s3://bucket/dir/key.png").ok(), Some((s("bucket"), s("dir/key.png"))));
    assert!(matches!(parse_s3_url("s3://bucket"), Err(EngineError::InvalidStorageLocator(_))));
    assert!(matches!(parse_s3_url("s3:///key"), Err(EngineError::InvalidStorageLocator(_))));
    assert!(matches!(parse_s3_url("http://bucket/key"), Err(EngineError::InvalidStorageLocator(_))));
}

#[test]
fn source_classification() {
    assert!(looks_like_source("@body.json", false));
    assert!(looks_like_source("s3://b/k", false));
    assert!(!looks_like_source("{\"a\":1}", false));
    assert!(looks_like_source("body.json", true));
    assert_eq!(local_path("@a/b.json"), "a/b.json");
    assert_eq!(local_path("file:///tmp/x"), "/tmp/x");
    assert_eq!(local_path("plain"), "plain");
    assert!(matches!(classify_source("s3://b/k", false), Ok(SourceKind::Storage { bucket, key }) if bucket == "b" && key == "k"));
    assert!(matches!(classify_source("https://h/f.png", true), Ok(SourceKind::Http(u)) if u == "https://h/f.png"));
    assert!(matches!(classify_source("@img.png", true), Ok(SourceKind::Local(p)) if p == "img.png"));
    assert!(matches!(classify_source("missing.png", false), Err(EngineError::SourceNotFound(v)) if v == "missing.png"));
    assert_eq!(http_file_name("https://h/dir/f.png"), "f.png");
    assert_eq!(http_file_name("https://h/dir/"), "download");
}

#[test]
fn command_tree_lookup_and_names() {
    let tree = CommandTree {
        version: 1,
        api_version: s("v5"),
        base_url: s("https://api.example.com/v5"),
        resources: vec![Resource { name: s("campaigns"), ops: vec![op("/campaigns", vec![], vec![])] }],
    };
    assert!(find_op(&tree, "campaigns", "list").is_some());
    assert!(find_op(&tree, "campaigns", "get").is_none());
    assert!(find_op(&tree, "ads", "list").is_none());
    let p = param("order_by", "query", "string", None);
    assert_eq!(param_key(&p), "param__order_by");
    assert_eq!(param_value_name(&p), "string");
    assert_eq!(param_value_name(&param("f", "query", "object", Some("deepObject"))), "JSON");
    let mut a = param("ids", "query", "array", None);
    assert_eq!(param_value_name(&a), "value");
    a.items_type = Some(s("integer"));
    assert_eq!(param_value_name(&a), "integer");
}

#[test]
fn upload_phase_order() {
    assert_eq!(next_phase(UploadPhase::Registering, false), UploadPhase::Uploading);
    assert_eq!(next_phase(UploadPhase::Uploading, true), UploadPhase::Polling);
    assert_eq!(next_phase(UploadPhase::Uploading, false), UploadPhase::Done);
    assert_eq!(next_phase(UploadPhase::Polling, true), UploadPhase::Polling);
    assert_eq!(next_phase(UploadPhase::Done, true), UploadPhase::Done);
}
