use safebuster::buster::cli::{str_equal, Args, HTTPMethods};
use safebuster::buster::filehandle::{FileParsing, RequestFileError};
use safebuster::buster::PartingFileInfo;

fn parser_with(content: &str) -> FileParsing {
    let mut fp = FileParsing::new(Args::default());
    fp.set_file_content(content.to_string());
    fp
}

#[test]
fn method_names_in_any_case() {
    assert_eq!(HTTPMethods::from_name("GET"), Ok(HTTPMethods::GET));
    assert_eq!(HTTPMethods::from_name("get"), Ok(HTTPMethods::GET));
    assert_eq!(HTTPMethods::from_name("pOsT"), Ok(HTTPMethods::POST));
    assert_eq!(HTTPMethods::from_name("PUT"), Err(()));
    assert_eq!(HTTPMethods::from_name(""), Err(()));
    assert_eq!(HTTPMethods::from_name("GET "), Err(()));
}

#[test]
fn method_from_str_trait() {
    assert_eq!("post".parse::<HTTPMethods>(), Ok(HTTPMethods::POST));
    assert_eq!("delete".parse::<HTTPMethods>(), Err(()));
}

#[test]
fn method_uppercase_only_compare() {
    assert_eq!(HTTPMethods::from_uppercase("GET"), Ok(HTTPMethods::GET));
    assert_eq!(HTTPMethods::from_uppercase("get"), Err(()));
}

#[test]
fn method_name_round_trip() {
    for m in [HTTPMethods::GET, HTTPMethods::POST] {
        let name = m.to_string();
        assert_eq!(HTTPMethods::from_name(&name), Ok(m));
    }
    assert_eq!(HTTPMethods::GET.to_string(), "GET");
    assert_eq!(HTTPMethods::POST.to_string(), "POST");
}

#[test]
fn str_equal_compares_characters() {
    assert!(str_equal("abc", "abc"));
    assert!(!str_equal("abc", "abd"));
    assert!(!str_equal("ab", "abc"));
    assert!(str_equal("", ""));
}

#[test]
fn default_args_are_empty() {
    let a = Args::default();
    assert!(a.url.is_none());
    assert!(a.headers.is_none());
    assert_eq!(a.wordlist, "");
    assert!(a.method.is_none());
    assert_eq!(a.threads, 0);
    assert_eq!(a.data, "");
    assert!(a.filter_status.is_none());
    assert!(a.contain.is_none());
    assert!(a.filter_reponse_len.is_none());
    assert!(a.filter_words.is_none());
    assert_eq!(a.concurrent_tasks, 0);
    assert!(a.file.is_none());
}

#[test]
fn new_parser_keeps_args() {
    let mut args = Args::default();
    args.file = Some("req.txt".to_string());
    args.threads = 5;
    let fp = FileParsing::new(args);
    assert_eq!(fp.args.file.as_deref(), Some("req.txt"));
    assert_eq!(fp.args.threads, 5);
    assert_eq!(fp.file_content, "");
}

#[test]
fn read_until_char_cuts_at_first_delimiter() {
    let p = FileParsing::read_until_char("GET / HTTP/2\r\nHost: a\r\n", "\r\n").unwrap();
    assert_eq!(p.0, "GET / HTTP/2");
    assert_eq!(p.1, "Host: a\r\n");
    assert!(FileParsing::read_until_char("no line end", "\r\n").is_none());
    let q = FileParsing::read_until_char("a\r\n\r\nbody\r\n\r\nmore", "\r\n\r\n").unwrap();
    assert_eq!(q.0, "a");
    assert_eq!(q.1, "body\r\n\r\nmore");
}

#[test]
fn read_until_char_loses_nothing() {
    let input = "x::y::z";
    let p = FileParsing::read_until_char(input, "::").unwrap();
    assert_eq!(format!("{}::{}", p.0, p.1), input);
    assert!(!p.0.contains("::"));
}

#[test]
fn handle_match_parsing_unwraps() {
    let p = FileParsing::handle_match_parsing(Some(PartingFileInfo("a".to_string(), "b".to_string())));
    assert_eq!(p.0, "a");
    assert_eq!(p.1, "b");
}

#[test]
fn extract_method_reads_first_word() {
    let mut fp = parser_with("");
    fp.extract_method("POST /login HTTP/2");
    assert_eq!(fp.args.method, Some(HTTPMethods::POST));
    fp.extract_method("get /x HTTP/1.1");
    assert_eq!(fp.args.method, Some(HTTPMethods::GET));
    fp.extract_method("PATCH /x HTTP/1.1");
    assert_eq!(fp.args.method, None);
}

#[test]
fn extract_headers_splits_lines() {
    let mut fp = parser_with("");
    fp.extract_headers("Host: a\r\nAccept: */*".to_string());
    assert_eq!(fp.args.headers, Some(vec!["Host: a".to_string(), "Accept: */*".to_string()]));
}

#[test]
fn extract_hostname_uses_first_host_line() {
    let fp = parser_with("");
    let headers = Some(vec![
        "User-Agent: x".to_string(),
        "Host:   FUZZ.example.com  ".to_string(),
        "Host: other".to_string(),
    ]);
    assert_eq!(fp.extract_hostname(&headers), Some("http://FUZZ.example.com".to_string()));
}

#[test]
fn extract_hostname_keeps_the_port() {
    let fp = parser_with("");
    let with_port = Some(vec!["Host: example.com:8080".to_string()]);
    assert_eq!(fp.extract_hostname(&with_port), Some("http://example.com:8080".to_string()));
}

#[test]
fn extract_hostname_takes_the_host_header_only() {
    let fp = parser_with("");
    let headers = Some(vec![
        "X-Forwarded-Host: proxy.internal".to_string(),
        "host : example.com".to_string(),
    ]);
    assert_eq!(fp.extract_hostname(&headers), Some("http://example.com".to_string()));
}

#[test]
fn extract_get_path_appends_path() {
    let mut fp = parser_with("");
    fp.args.url = Some("http://example.com".to_string());
    fp.extract_get_path(Some("GET /FUZZ?a=1 HTTP/2".to_string()));
    assert_eq!(fp.args.url, Some("http://example.com/FUZZ?a=1".to_string()));
}

#[test]
fn extract_post_path_appends_path_or_slash() {
    let mut fp = parser_with("");
    fp.args.url = Some("http://h".to_string());
    fp.extract_post_path(Some("/login".to_string()));
    assert_eq!(fp.args.url, Some("http://h/login".to_string()));
    fp.args.url = Some("http://h".to_string());
    fp.extract_post_path(None);
    assert_eq!(fp.args.url, Some("http://h/".to_string()));
}

#[test]
fn check_request_file_finds_each_problem() {
    assert_eq!(parser_with("GET / HTTP/2").check_request_file(), Err(RequestFileError::MissingRequestLine));
    assert_eq!(parser_with("GET / HTTP/2\r\nHost: a\r\n").check_request_file(), Err(RequestFileError::MissingHeaderEnd));
    assert_eq!(parser_with("GET / HTTP/2\r\nAccept: */*\r\n\r\n").check_request_file(), Err(RequestFileError::HostNotFound));
    assert_eq!(parser_with("GET / HTTP/2\r\nHost:\r\n\r\n").check_request_file(), Err(RequestFileError::HostNotFound));
    assert_eq!(parser_with("GET / HTTP/2\r\nHost   \r\n\r\n").check_request_file(), Err(RequestFileError::HostNotFound));
    assert_eq!(parser_with("GET / HTTP/2\r\nX-Host: a\r\n\r\n").check_request_file(), Err(RequestFileError::HostNotFound));
    assert_eq!(parser_with("GET\r\nHost: a\r\n\r\n").check_request_file(), Err(RequestFileError::MissingPath));
    assert_eq!(parser_with("GET / HTTP/2\r\nHost: a\r\n\r\n").check_request_file(), Ok(()));
}

#[test]
fn prepare_args_from_get_request_file() {
    let content = "GET /FUZZ HTTP/2\r\nHost: example.com\r\nUser-Agent: Mozilla/5.0\r\nAccept: */*\r\n\r\n";
    let mut fp = parser_with(content);
    assert_eq!(fp.check_request_file(), Ok(()));
    fp.prepare_args_from_file();
    assert_eq!(fp.args.method, Some(HTTPMethods::GET));
    assert_eq!(fp.args.url, Some("http://example.com/FUZZ".to_string()));
    assert_eq!(
        fp.args.headers,
        Some(vec![
            "Host: example.com".to_string(),
            "User-Agent: Mozilla/5.0".to_string(),
            "Accept: */*".to_string(),
        ])
    );
    assert_eq!(fp.args.data, "");
    assert_eq!(fp.file_content, content);
}

#[test]
fn prepare_args_from_post_request_file() {
    let content = "POST /login HTTP/2\r\nHost: example.com\r\nContent-Type: application/x-www-form-urlencoded\r\n\r\nusername=admin&password=FUZZ";
    let mut fp = parser_with(content);
    fp.args.threads = 7;
    fp.prepare_args_from_file();
    assert_eq!(fp.args.method, Some(HTTPMethods::POST));
    assert_eq!(fp.args.url, Some("http://example.com/login".to_string()));
    assert_eq!(fp.args.data, "username=admin&password=FUZZ");
    assert_eq!(fp.args.threads, 7);
}

#[test]
fn request_file_reassembles_from_its_parts() {
    let content = "GET /index.php HTTP/2\r\nHost: FUZZ.example.com\r\nUser-Agent: Mozilla/5.0\r\n\r\nbody\r\n\r\ntail";
    let mut fp = parser_with(content);
    fp.prepare_args_from_file();
    let line = FileParsing::read_until_char(content, "\r\n").unwrap().0;
    let rebuilt = format!(
        "{}\r\n{}\r\n\r\n{}",
        line,
        fp.args.headers.clone().unwrap().join("\r\n"),
        fp.args.data
    );
    assert_eq!(rebuilt, content);
}
