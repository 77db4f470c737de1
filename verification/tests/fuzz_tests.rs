use reqwest::header::{HeaderMap, HeaderValue};
use safebuster::buster::cli::{Args, HTTPMethods};
use safebuster::buster::safebuster::{
    craft_request_plan, filter_response, search_fuzz, summarize_response, CraftError,
    ResponseSummary,
};
use safebuster::buster::shared::{
    init_headers_with_defaults, init_headers_with_value, prepare_headers,
};
use safebuster::buster::{default_status_code, HeaderValeExt, FUZZ};

fn args_with(url: Option<&str>, data: &str, headers: Option<Vec<&str>>) -> Args {
    let mut a = Args::default();
    a.url = url.map(|u| u.to_string());
    a.data = data.to_string();
    a.headers = headers.map(|hs| hs.into_iter().map(|h| h.to_string()).collect());
    a
}

fn value_of(map: &HeaderMap, name: &str) -> Option<String> {
    map.get(name).map(|v| v.to_str().unwrap().to_string())
}

#[test]
fn search_fuzz_replaces_everywhere() {
    let a = args_with(
        Some("http://FUZZ.example.com/FUZZ"),
        "user=admin&password=FUZZ",
        Some(vec!["Host: FUZZ.example.com", "Accept: */*"]),
    );
    let r = search_fuzz(a, "dev").unwrap();
    assert_eq!(r.url.as_deref(), Some("http://dev.example.com/dev"));
    assert_eq!(r.data, "user=admin&password=dev");
    assert_eq!(r.headers, Some(vec!["Host: dev.example.com".to_string(), "Accept: */*".to_string()]));
}

#[test]
fn search_fuzz_needs_a_placeholder() {
    let a = args_with(Some("http://example.com/"), "x=1", Some(vec!["Accept: */*"]));
    assert!(search_fuzz(a, "dev").is_none());
    let b = args_with(None, "", None);
    assert!(search_fuzz(b, "dev").is_none());
}

#[test]
fn search_fuzz_placeholder_in_header_only() {
    let a = args_with(Some("http://example.com/"), "", Some(vec!["X-Token: FUZZ"]));
    let r = search_fuzz(a, "abc").unwrap();
    assert_eq!(r.url.as_deref(), Some("http://example.com/"));
    assert_eq!(r.headers, Some(vec!["X-Token: abc".to_string()]));
}

#[test]
fn search_fuzz_by_placeholder_changes_nothing() {
    let a = args_with(Some("http://FUZZ/"), "FUZZFUZZ", Some(vec!["H: FUZZ", "K: v"]));
    let r = search_fuzz(a.clone(), FUZZ).unwrap();
    assert_eq!(r.url, a.url);
    assert_eq!(r.data, a.data);
    assert_eq!(r.headers, a.headers);
}

#[test]
fn default_status_codes_listed() {
    assert_eq!(
        default_status_code(),
        vec![200, 201, 202, 203, 204, 205, 206, 207, 208, 226, 301, 302, 307, 401, 403, 405, 400]
    );
}

#[test]
fn filter_response_by_default_status() {
    let a = Args::default();
    assert!(filter_response(200, "ok", 2, 0, &a));
    assert!(filter_response(403, "no", 2, 0, &a));
    assert!(!filter_response(404, "missing", 7, 0, &a));
    assert!(!filter_response(500, "error", 5, 0, &a));
}

#[test]
fn filter_response_by_given_filters() {
    let mut a = Args::default();
    a.filter_status = Some(vec![404]);
    assert!(filter_response(404, "x", 1, 0, &a));
    assert!(!filter_response(200, "x", 1, 0, &a));
    a.filter_reponse_len = Some(vec![10, 20]);
    assert!(filter_response(200, "x", 20, 0, &a));
    a.filter_words = Some(vec![3]);
    assert!(filter_response(200, "x", 1, 3, &a));
    a.contain = Some("Found".to_string());
    assert!(filter_response(200, "Not Found page", 14, 0, &a));
    assert!(!filter_response(200, "Other", 5, 0, &a));
    assert!(!filter_response(200, "", 0, 0, &a));
}

#[test]
fn filter_response_body_holds_text() {
    let mut f = Args::default();
    f.filter_status = Some(vec![]);
    f.contain = Some("Not Found".to_string());
    assert!(filter_response(404, "<h1>Not Found</h1>", 18, 2, &f));
}

#[test]
fn summarize_response_filters_by_word_count() {
    let mut a = Args::default();
    a.filter_status = Some(vec![]);
    a.filter_words = Some(vec![2]);
    assert_eq!(summarize_response(404, "Not Found", &a), None);
    assert!(summarize_response(404, "Not Found here", &a).is_some());
}

#[test]
fn summarize_response_counts() {
    let mut a = Args::default();
    a.filter_status = Some(vec![]);
    let body = "héllo world\nsecond line\n";
    let s = summarize_response(200, body, &a).unwrap();
    assert_eq!(s, ResponseSummary { size: body.len(), words: 4, lines: 2 });
    let d = Args::default();
    assert_eq!(summarize_response(200, body, &d), None);
    assert!(summarize_response(404, "", &d).is_some());
}

#[test]
fn default_headers_keep_last_accept() {
    let map = init_headers_with_defaults();
    assert_eq!(map.len(), 3);
    assert_eq!(value_of(&map, "content-type").as_deref(), Some("application/json"));
    assert_eq!(value_of(&map, "accept").as_deref(), Some("*/*"));
    assert_eq!(value_of(&map, "user-agent").as_deref(), Some("SafeBuster/1.0"));
    assert_eq!(map.get_all("accept").iter().count(), 1);
}

#[test]
fn headers_from_lines_skip_bad_ones() {
    let lines = vec![
        "Host:  example.com ".to_string(),
        "no colon here".to_string(),
        "Bad Name: x".to_string(),
        "X-Bad-Value: a\u{1}b".to_string(),
        "X-Time: 12:30:00".to_string(),
        "host: second.example.com".to_string(),
        ": empty name".to_string(),
    ];
    let map = init_headers_with_value(lines).unwrap();
    assert_eq!(map.len(), 2);
    assert_eq!(value_of(&map, "host").as_deref(), Some("second.example.com"));
    assert_eq!(value_of(&map, "x-time").as_deref(), Some("12:30:00"));
}

#[test]
fn prepare_headers_given_or_default() {
    let none = prepare_headers(None).unwrap();
    assert_eq!(none.len(), 3);
    let empty = prepare_headers(Some(vec![])).unwrap();
    assert_eq!(empty.len(), 0);
    let one = prepare_headers(Some(vec!["A: b".to_string()])).unwrap();
    assert_eq!(value_of(&one, "a").as_deref(), Some("b"));
}

#[test]
fn header_value_text() {
    let v = HeaderValue::from_static("text/html");
    assert_eq!(HeaderValeExt::to_string(&v), "text/html");
    let odd = HeaderValue::from_bytes(b"caf\xe9").unwrap();
    assert_eq!(HeaderValeExt::to_string(&odd), "");
}

#[test]
fn craft_request_plan_for_get_and_post() {
    let a = args_with(Some("http://example.com/FUZZ"), "", None);
    let p = craft_request_plan(a, "admin").ok().unwrap();
    assert_eq!(p.method, HTTPMethods::GET);
    assert_eq!(p.url, "http://example.com/admin");
    assert!(p.body.is_none());
    assert_eq!(p.headers.len(), 3);

    let mut b = args_with(Some("http://example.com/login"), "pw=FUZZ", Some(vec!["X-A: FUZZ"]));
    b.method = Some(HTTPMethods::POST);
    let q = craft_request_plan(b, "123").ok().unwrap();
    assert_eq!(q.method, HTTPMethods::POST);
    assert_eq!(q.body.as_deref(), Some("pw=123"));
    assert_eq!(value_of(&q.headers, "x-a").as_deref(), Some("123"));
}

#[test]
fn craft_request_plan_errors() {
    let a = args_with(Some("http://example.com/"), "", None);
    assert!(matches!(craft_request_plan(a, "w"), Err(CraftError::NoFuzz)));
    let b = args_with(None, "FUZZ", None);
    assert!(matches!(craft_request_plan(b, "w"), Err(CraftError::MissingUrl)));
}

#[test]
fn many_header_names_still_fit() {
    let many: Vec<String> = (0..7000).map(|i| format!("X-H{}: v", i)).collect();
    let map = init_headers_with_value(many.clone()).unwrap();
    assert_eq!(map.len(), 7000);
    assert_eq!(value_of(&map, "x-h6999").as_deref(), Some("v"));
    let repeated: Vec<String> = (0..7000).map(|_| "X-Same: v".to_string()).collect();
    assert_eq!(init_headers_with_value(repeated).unwrap().len(), 1);
    let mut a = args_with(Some("http://e/FUZZ"), "", None);
    a.headers = Some(many.clone());
    let p = craft_request_plan(a, "w").ok().unwrap();
    assert_eq!(p.url, "http://e/w");
    assert_eq!(p.headers.len(), 7000);
    let mut b = args_with(None, "FUZZ", None);
    b.headers = Some(many);
    assert!(matches!(craft_request_plan(b, "w"), Err(CraftError::MissingUrl)));
}
