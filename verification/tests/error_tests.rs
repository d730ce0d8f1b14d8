use web_server::{
    ContentDispositionHeader, FileError, FileServer, HttpCookie, HttpHeader, HttpMethod,
    HttpRequest, HttpRequestRaw, MultipartBody, RequestRoute, Router, RouterError, StoredRoute,
};

struct UnitHandler;

impl web_server::Handler for UnitHandler {
    fn call(
        &self,
        _request: &HttpRequest,
        _routing_data: &web_server::RoutingData,
    ) -> Result<web_server::HttpResponse, String> {
        web_server::HttpResponseBuilder::new()
            .set_html_body("ok")
            .build()
            .map_err(|_| "build failed".to_owned())
    }
}

fn request(line: &str) -> HttpRequest {
    HttpRequest::from_raw_request(HttpRequestRaw {
        request_line: line.to_owned(),
        headers: Vec::new(),
        body: vec![],
        peer_ip: "0.0.0.0".to_owned(),
        local_ip: "0.0.0.0".to_owned(),
    })
    .unwrap()
}

#[test]
fn test_cookie_expires_out_of_range_err() {
    let r = HttpCookie::new("foo", "bar").set_expires(Some(i64::MAX)).to_str();
    assert!(r.is_err());
}

#[test]
fn test_request_line_missing_path_err() {
    assert!(HttpRequest::parse_request_line("GET").is_err());
}

#[test]
fn test_request_line_unknown_version_err() {
    assert!(HttpRequest::parse_request_line("GET /x HTTP/9.9").is_err());
}

#[test]
fn test_multipart_missing_content_disposition_prefix_err() {
    assert!(ContentDispositionHeader::from_line("X-Other: form-data").is_err());
}

#[test]
fn test_multipart_missing_name_directive_err() {
    assert!(ContentDispositionHeader::from_line("Content-Disposition: form-data; x=1").is_err());
}

#[test]
fn test_multipart_missing_terminator_err() {
    let body = "--B\nContent-Disposition: form-data; name=\"f\"\nContent-Type: text/plain\n\nx"
        .as_bytes();
    assert!(MultipartBody::from_bytes("B", body).is_err());
}

#[test]
fn test_multipart_invalid_text_err() {
    let body: Vec<u8> = vec![0xff, 0xfe, 0x0a];
    assert!(MultipartBody::from_bytes("B", &body).is_err());
}

#[test]
fn test_multipart_no_boundary_declared_err() {
    let rq = HttpRequest::from_raw_request(HttpRequestRaw {
        request_line: "POST /u HTTP/1.1".to_owned(),
        headers: vec![HttpHeader::new("Content-Type", "text/plain")],
        body: vec![],
        peer_ip: "0.0.0.0".to_owned(),
        local_ip: "0.0.0.0".to_owned(),
    })
    .unwrap();
    assert!(rq.get_multipart_body().is_err());
}

#[test]
fn test_file_server_not_a_file_err() {
    let fs = FileServer::new().map_file("/here", ".").unwrap();
    assert_eq!(Err(FileError::NotAFile), fs.handle_file_access("/here"));
}

#[test]
fn test_ambiguous_match_err() {
    let router = Router::new()
        .get("/a/:x", UnitHandler)
        .unwrap()
        .get("/a", UnitHandler)
        .unwrap();
    let outcome = router.handle_request(&request("GET /a HTTP/1.1"));
    assert_eq!(Err(RouterError::AmbiguousMatch), outcome);
}

#[test]
fn test_routing_data_unknown_parameter_err() {
    let route = StoredRoute::new(HttpMethod::GET, "/users/:id").unwrap();
    let rd = route.extract_routing_data("/users/5").unwrap();
    assert_eq!(Some("5".to_owned()), rd.get_str_value("id").unwrap());
    assert!(rd.get_str_value("nope").is_err());
}

#[test]
fn test_routing_data_bad_parameter_value_err() {
    let route = StoredRoute::new(HttpMethod::GET, "/users/:id").unwrap();
    let rd = route.extract_routing_data("/users/five").unwrap();
    assert!(rd.get_value("id").is_err());
}

#[test]
fn test_request_route_bad_format_err() {
    assert!(RequestRoute::from_str("nospace").is_err());
    assert!(RequestRoute::from_str("FETCH /x").is_err());
    assert!(RequestRoute::from_str("GET /x").is_ok());
}

#[test]
fn test_routing_data_absent_segment_is_none() {
    let route = StoredRoute::new(HttpMethod::GET, "/users/:id").unwrap();
    let rd = route.extract_routing_data("/users").unwrap();
    assert_eq!(None, rd.get_str_value("id").unwrap());
}
