use web_server::{
    body_length, parse_header_line, parse_http_request_start_line, HttpHeader, HttpMethod,
    HttpRequest, HttpRequestRaw, HttpVersion, StrMap,
};

fn raw(line: &str, headers: Vec<HttpHeader>, body: Vec<u8>) -> HttpRequestRaw {
    HttpRequestRaw {
        request_line: line.to_owned(),
        headers,
        body,
        peer_ip: "0.0.0.0".to_owned(),
        local_ip: "0.0.0.0".to_owned(),
    }
}

#[test]
fn test_parse_request_line() {
    let expected = (HttpMethod::GET, "/home".to_owned(), HttpVersion::HTTP1_1);
    let actual = HttpRequest::parse_request_line("GET /home HTTP/1.1").unwrap();

    assert_eq!(expected, actual);
}

#[test]
fn test_parse_query_line() {
    let mut expected: StrMap<String> = StrMap::new();
    expected.insert("query", "This+is+a+query".to_owned());
    expected.insert("mode", "foo".to_owned());
    expected.insert("Format", "json".to_owned());

    let query_line = "query=This+is+a+query&mode=foo&Format=json";
    let actual = HttpRequest::parse_query_line(&query_line).unwrap();

    assert_eq!(expected, actual);
}

#[test]
fn test_from_raw_request_simple_get() {
    let actual = HttpRequest::from_raw_request(raw("GET /api/weather HTTP/1.1", vec![], vec![]))
        .unwrap();

    assert_eq!(HttpMethod::GET, actual.method);
    assert_eq!("/api/weather", actual.resource_path);
    assert_eq!(HttpVersion::HTTP1_1, actual.version);
    assert_eq!("/api/weather", actual.url);
    assert_eq!(0, actual.query.len());
    assert_eq!(0, actual.headers.len());
    assert_eq!(0, actual.cookies.len());
    assert!(actual.body.is_empty());
    assert_eq!("0.0.0.0", actual.peer_ip);
    assert_eq!("0.0.0.0", actual.local_ip);
}

#[test]
fn test_from_raw_request_get_with_query() {
    let actual = HttpRequest::from_raw_request(raw(
        "GET /api/weather?country=France&city=Paris HTTP/1.1",
        vec![],
        vec![],
    ))
    .unwrap();

    assert_eq!("/api/weather?country=France&city=Paris", actual.resource_path);
    assert_eq!("/api/weather", actual.url);
    assert_eq!(Some(&"France".to_owned()), actual.query.get("country"));
    assert_eq!(Some(&"Paris".to_owned()), actual.query.get("city"));
    assert_eq!(2, actual.query.len());
}

#[test]
fn test_from_raw_request_get_with_headers() {
    let actual = HttpRequest::from_raw_request(raw(
        "GET /api/weather HTTP/1.1",
        vec![
            HttpHeader::new("Authorization", "Bearer JWT"),
            HttpHeader::new("X-CSRF-Token", "HelloWorld"),
        ],
        vec![],
    ))
    .unwrap();

    assert_eq!(
        "Bearer JWT",
        actual.headers.get("Authorization").unwrap().value
    );
    assert_eq!(
        "HelloWorld",
        actual.headers.get("X-CSRF-Token").unwrap().value
    );
    assert_eq!(2, actual.headers.len());
}

#[test]
fn test_from_raw_request_post_body() {
    let body_bytes = "username:john,password:doe".as_bytes();

    let actual = HttpRequest::from_raw_request(raw(
        "POST /users HTTP/1.1",
        vec![],
        body_bytes.to_vec(),
    ))
    .unwrap();

    assert_eq!(HttpMethod::POST, actual.method);
    assert_eq!("/users", actual.url);
    assert_eq!(body_bytes.to_vec(), actual.body);
}

#[test]
fn test_from_raw_request_one_cookie() {
    let actual = HttpRequest::from_raw_request(raw(
        "GET /users HTTP/1.1",
        vec![HttpHeader::new("Cookie", "foo=foov")],
        vec![],
    ))
    .unwrap();

    assert_eq!(1, actual.cookies.len());
    assert_eq!("foov", actual.cookies.get("foo").unwrap().value);
    assert_eq!(0, actual.headers.len());
}

#[test]
fn test_from_raw_request_multi_cookies() {
    let actual = HttpRequest::from_raw_request(raw(
        "GET /users HTTP/1.1",
        vec![
            HttpHeader::new("Cookie", "foo=foov"),
            HttpHeader::new("Cookie", "bar=barv"),
        ],
        vec![],
    ))
    .unwrap();

    assert_eq!(2, actual.cookies.len());
    assert_eq!("foov", actual.cookies.get("foo").unwrap().value);
    assert_eq!("barv", actual.cookies.get("bar").unwrap().value);
}

#[test]
fn test_from_raw_request_multi_cookies_same_header() {
    let actual = HttpRequest::from_raw_request(raw(
        "GET /users HTTP/1.1",
        vec![HttpHeader::new("Cookie", "foo=foov; bar=barv")],
        vec![],
    ))
    .unwrap();

    assert_eq!(2, actual.cookies.len());
    assert_eq!("foov", actual.cookies.get("foo").unwrap().value);
    assert_eq!("barv", actual.cookies.get("bar").unwrap().value);
}

#[test]
fn test_from_raw_request_missing_version_err() {
    assert!(HttpRequest::from_raw_request(raw("GET /hello", vec![], vec![])).is_err());
}

#[test]
fn test_from_raw_request_bad_query_err() {
    assert!(HttpRequest::from_raw_request(raw("GET /a?broken HTTP/1.1", vec![], vec![])).is_err());
}

#[test]
fn test_parse_start_line_lenient_accepts_versionless() {
    let (method, path, version) = parse_http_request_start_line("GET /index").unwrap();
    assert_eq!(HttpMethod::GET, method);
    assert_eq!("/index", path);
    assert_eq!(HttpVersion::HTTP0_9, version);
}

#[test]
fn test_parse_start_line_unknown_method_err() {
    assert!(parse_http_request_start_line("FETCH /index HTTP/1.1").is_err());
}

#[test]
fn test_parse_header_line_splits_on_first_colon() {
    let h = parse_header_line("Host: example.com:8080\r\n").unwrap();
    assert_eq!("Host", h.name);
    assert_eq!("example.com:8080", h.value);
    assert!(parse_header_line("no colon here").is_none());
}

#[test]
fn test_body_length() {
    assert_eq!(
        0,
        body_length(&vec![HttpHeader::new("Host", "x")]).unwrap()
    );
    assert_eq!(
        42,
        body_length(&vec![HttpHeader::new("Content-Length", "42")]).unwrap()
    );
    assert!(body_length(&vec![HttpHeader::new("Content-Length", "many")]).is_err());
}

#[test]
fn test_get_str_body() {
    let rq = HttpRequest::from_raw_request(raw(
        "POST /x HTTP/1.1",
        vec![],
        "hello".as_bytes().to_vec(),
    ))
    .unwrap();
    assert_eq!("hello", rq.get_str_body().unwrap());

    let bad = HttpRequest::from_raw_request(raw("POST /x HTTP/1.1", vec![], vec![0xff, 0xfe]))
        .unwrap();
    assert!(bad.get_str_body().is_err());
}

#[test]
fn test_get_multipart_body() {
    let body = "--B\nContent-Disposition: form-data; name=\"f\"\nContent-Type: text/plain\n\ndata\n--B--"
        .as_bytes()
        .to_vec();
    let rq = HttpRequest::from_raw_request(raw(
        "POST /upload HTTP/1.1",
        vec![HttpHeader::new(
            "Content-Type",
            "multipart/form-data; boundary=B",
        )],
        body,
    ))
    .unwrap();
    let mp = rq.get_multipart_body().unwrap();
    assert_eq!(1, mp.parts.len());
    assert_eq!("f", mp.parts[0].name);
    assert_eq!("text/plain", mp.parts[0].content_type);
    assert_eq!("data\n".as_bytes().to_vec(), mp.parts[0].data);

    let no_header = HttpRequest::from_raw_request(raw("POST /u HTTP/1.1", vec![], vec![]))
        .unwrap();
    assert!(no_header.get_multipart_body().is_err());
}
