use web_server::{
    file_response, HttpCookie, HttpResponse, HttpResponseBuilder, HttpStatusCode, SameSitePolicy,
};

#[test]
fn response_builder_test_cookie() {
    let expected = "HTTP/1.1 200 OK\r\n\
Content-Length: 20\r\n\
Content-Type: text/html\r\n\
Date: Tue, 29 Oct 2024 16:56:32 UTC\r\n\
Set-Cookie: User=jhondoe; SameSite=Lax; Secure\r\n\
Set-Cookie: foo=bar; HttpOnly; Path=/some/path\r\n\r\n<p>Hello World</p>\r\n"
        .as_bytes();

    let expires = chrono::DateTime::parse_from_rfc2822("Tue, 29 Oct 2024 16:56:32 +0000")
        .unwrap()
        .timestamp();

    let actual = HttpResponseBuilder::new()
        .set_status(HttpStatusCode::OK)
        .set_date(expires)
        .set_html_body("<p>Hello World</p>")
        .set_cookie(
            HttpCookie::new("foo", "bar")
                .set_http_only(true)
                .set_path(Some("/some/path")),
        )
        .set_cookie(
            HttpCookie::new("User", "jhondoe")
                .set_secure(true)
                .set_same_site(Some(SameSitePolicy::Lax)),
        )
        .build()
        .unwrap()
        .to_bytes()
        .unwrap();

    assert_eq!(expected, actual);
}

#[test]
fn test_new_response_defaults() {
    let r = HttpResponse::new();
    assert_eq!("200 OK", r.status);
    assert_eq!("HTTP/1.1 200 OK", r.start_line());
    assert!(r.body.is_empty());
}

#[test]
fn test_empty_status_fails_serialization() {
    let built = HttpResponseBuilder::new().set_raw_status("").build();
    assert!(built.is_err());
}

#[test]
fn test_bad_cookie_fails_serialization() {
    let resp = HttpResponseBuilder::new()
        .set_cookie(HttpCookie::new("f<oo", "bar"))
        .build()
        .unwrap();
    assert!(resp.to_bytes().is_err());
}

#[test]
fn test_headers_serialized_sorted() {
    let expires = chrono::DateTime::parse_from_rfc2822("Tue, 29 Oct 2024 16:56:32 +0000")
        .unwrap()
        .timestamp();
    let bytes = HttpResponseBuilder::new()
        .set_date(expires)
        .set_header("Zeta", "1")
        .set_header("Alpha", "2")
        .build()
        .unwrap()
        .to_bytes()
        .unwrap();
    let text = String::from_utf8(bytes).unwrap();
    assert_eq!(
        "HTTP/1.1 200 OK\r\nAlpha: 2\r\nDate: Tue, 29 Oct 2024 16:56:32 UTC\r\nZeta: 1\r\n\r\n",
        text
    );
}

#[test]
fn test_header_replaced_by_name() {
    let expires = chrono::DateTime::parse_from_rfc2822("Tue, 29 Oct 2024 16:56:32 +0000")
        .unwrap()
        .timestamp();
    let bytes = HttpResponseBuilder::new()
        .set_date(expires)
        .set_header("X-Thing", "old")
        .set_header("X-Thing", "new")
        .build()
        .unwrap()
        .to_bytes()
        .unwrap();
    let text = String::from_utf8(bytes).unwrap();
    assert_eq!(
        "HTTP/1.1 200 OK\r\nDate: Tue, 29 Oct 2024 16:56:32 UTC\r\nX-Thing: new\r\n\r\n",
        text
    );
}

#[test]
fn test_file_response_mime_type() {
    let resp = file_response("assets/page.html", "hi".as_bytes().to_vec());
    assert_eq!("200 OK", resp.status);
    assert_eq!("hi".as_bytes().to_vec(), resp.body);
    let mut found = false;
    let mut i = 0;
    while i < resp.headers.len() {
        let h = resp.headers.get_at(i);
        if h.name == "Content-Type" {
            assert_eq!("text/html", h.value);
            found = true;
        }
        i += 1;
    }
    assert!(found);
}

#[test]
fn test_file_response_unknown_extension_octet_stream() {
    let resp = file_response("data.zzzybq", vec![1, 2, 3]);
    let mut i = 0;
    let mut content_type = String::new();
    while i < resp.headers.len() {
        let h = resp.headers.get_at(i);
        if h.name == "Content-Type" {
            content_type = h.value.clone();
        }
        i += 1;
    }
    assert_eq!("application/octet-stream", content_type);
}

#[test]
fn test_set_raw_body_sets_length() {
    let resp = HttpResponseBuilder::new()
        .set_raw_body(vec![7; 11])
        .build()
        .unwrap();
    let mut i = 0;
    let mut length = String::new();
    while i < resp.headers.len() {
        let h = resp.headers.get_at(i);
        if h.name == "Content-Length" {
            length = h.value.clone();
        }
        i += 1;
    }
    assert_eq!("11", length);
}
