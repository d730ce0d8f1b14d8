use web_server::{HttpCookie, SameSitePolicy};

#[test]
fn test_cookie() {
    let expected = "foo=bar";
    let actual = HttpCookie::new("foo", "bar").to_str().unwrap();
    assert_eq!(expected, actual);
}

#[test]
fn test_cookie_name_illegal() {
    assert!(HttpCookie::new("f<oo", "bar").to_str().is_err())
}

#[test]
fn test_cookie_value_illegal() {
    assert!(HttpCookie::new("foo", "b,ar").to_str().is_err())
}

#[test]
fn test_cookie_domain() {
    let expected = "foo=bar; Domain=example.com";
    let actual = HttpCookie::new("foo", "bar")
        .set_domain(Some("example.com"))
        .to_str()
        .unwrap();

    assert_eq!(expected, actual);
}

#[test]
fn test_cookie_attr_domain() {
    let expected = "foo=bar; Domain=example.com";
    let actual = HttpCookie::new("foo", "bar")
        .set_domain(Some("example.com"))
        .to_str()
        .unwrap();

    assert_eq!(expected, actual);
}

#[test]
fn test_cookie_attr_expires() {
    let expires_str = "Tue, 29 Oct 2024 16:56:32 +0000";
    let expires = chrono::DateTime::parse_from_rfc2822(expires_str)
        .unwrap()
        .timestamp();

    let expected = format!("foo=bar; Expires={}", expires_str);
    let actual = HttpCookie::new("foo", "bar")
        .set_expires(Some(expires))
        .to_str()
        .unwrap();

    assert_eq!(expected, actual);
}

#[test]
fn test_cookie_expires_known_timestamp() {
    let actual = HttpCookie::new("foo", "bar")
        .set_expires(Some(1730220992))
        .to_str()
        .unwrap();

    assert_eq!("foo=bar; Expires=Tue, 29 Oct 2024 16:56:32 +0000", actual);
}

#[test]
fn test_cookie_attr_http_only_true() {
    let expected = "foo=bar; HttpOnly";
    let actual = HttpCookie::new("foo", "bar")
        .set_http_only(true)
        .to_str()
        .unwrap();

    assert_eq!(expected, actual);
}

#[test]
fn test_cookie_attr_http_only_false() {
    let expected = "foo=bar";
    let actual = HttpCookie::new("foo", "bar")
        .set_http_only(false)
        .to_str()
        .unwrap();

    assert_eq!(expected, actual);
}

#[test]
fn test_cookie_attr_max_age_negative() {
    let expected = "foo=bar; Max-Age=-1";
    let actual = HttpCookie::new("foo", "bar")
        .set_max_age(Some(-1))
        .to_str()
        .unwrap();

    assert_eq!(expected, actual);
}

#[test]
fn test_cookie_attr_max_age_zero() {
    let expected = "foo=bar; Max-Age=0";
    let actual = HttpCookie::new("foo", "bar")
        .set_max_age(Some(0))
        .to_str()
        .unwrap();

    assert_eq!(expected, actual);
}

#[test]
fn test_cookie_attr_max_age_positive() {
    let expected = "foo=bar; Max-Age=31536000";
    let actual = HttpCookie::new("foo", "bar")
        .set_max_age(Some(31_536_000))
        .to_str()
        .unwrap();

    assert_eq!(expected, actual);
}

#[test]
fn test_cookie_attr_partitioned_true() {
    let expected = "foo=bar; Partitioned";
    let actual = HttpCookie::new("foo", "bar")
        .set_partitioned(true)
        .to_str()
        .unwrap();

    assert_eq!(expected, actual);
}

#[test]
fn test_cookie_attr_partitioned_false() {
    let expected = "foo=bar";
    let actual = HttpCookie::new("foo", "bar")
        .set_partitioned(false)
        .to_str()
        .unwrap();

    assert_eq!(expected, actual);
}

#[test]
fn test_cookie_attr_path() {
    let expected = "foo=bar; Path=/foo/bar/baz";
    let actual = HttpCookie::new("foo", "bar")
        .set_path(Some("/foo/bar/baz"))
        .to_str()
        .unwrap();

    assert_eq!(expected, actual);
}

#[test]
fn test_cookie_same_site_strict() {
    let expected = "foo=bar; SameSite=Strict";
    let actual = HttpCookie::new("foo", "bar")
        .set_same_site(Some(SameSitePolicy::Strict))
        .to_str()
        .unwrap();

    assert_eq!(expected, actual);
}

#[test]
fn test_cookie_same_site_lax() {
    let expected = "foo=bar; SameSite=Lax";
    let actual = HttpCookie::new("foo", "bar")
        .set_same_site(Some(SameSitePolicy::Lax))
        .to_str()
        .unwrap();

    assert_eq!(expected, actual);
}

#[test]
fn test_cookie_same_site_none_secure() {
    let expected = "foo=bar; SameSite=None; Secure";
    let actual = HttpCookie::new("foo", "bar")
        .set_same_site(Some(SameSitePolicy::NonePolicy))
        .set_secure(true)
        .to_str()
        .unwrap();

    assert_eq!(expected, actual);
}

#[test]
fn test_cookie_same_site_none_nosecure_err() {
    let actual = HttpCookie::new("foo", "bar")
        .set_same_site(Some(SameSitePolicy::NonePolicy))
        .to_str();

    assert!(actual.is_err());
}

#[test]
fn test_cookie_attr_secure_true() {
    let expected = "foo=bar; Secure";
    let actual = HttpCookie::new("foo", "bar")
        .set_secure(true)
        .to_str()
        .unwrap();

    assert_eq!(expected, actual);
}

#[test]
fn test_cookie_attr_secure_false() {
    let expected = "foo=bar";
    let actual = HttpCookie::new("foo", "bar")
        .set_secure(false)
        .to_str()
        .unwrap();

    assert_eq!(expected, actual);
}

#[test]
fn test_cookie_attr_multiple() {
    let expected = "foo=bar; Domain=example.com; HttpOnly; Secure";
    let actual = HttpCookie::new("foo", "bar")
        .set_domain(Some("example.com"))
        .set_secure(true)
        .set_http_only(true)
        .to_str()
        .unwrap();

    assert_eq!(expected, actual);
}

#[test]
fn test_cookie_from_request_multi_cookies_same_header_all_valid() {
    let mut expected = vec![];
    expected.push(HttpCookie::new("foo", "foov"));
    expected.push(HttpCookie::new("bar", "barv"));
    expected.push(HttpCookie::new("baz", "bazv"));

    let actual =
        HttpCookie::from_req_header_cookie_line("foo =foov; bar=barv; baz= bazv  ").unwrap();

    assert_eq!(expected, actual);
}

#[test]
fn test_cookie_from_request_multi_same_header_skips_malformed() {
    let mut expected = vec![];
    expected.push(HttpCookie::new("foo", "foov"));
    expected.push(HttpCookie::new("baz", "bazv"));

    let actual =
        HttpCookie::from_req_header_cookie_line("foo =foov; b; rrr; baz= bazv  ").unwrap();

    assert_eq!(expected, actual);
}

#[test]
fn test_cookie_from_set_cookie_header_line_missing_name_val_err() {
    let cookie_line = "HttpOnly; Max-Age=3600";
    assert!(HttpCookie::from_set_cookie_header_line(cookie_line).is_err());
}

#[test]
fn test_cookie_from_set_cookie_header_line_ok() {
    let expires = chrono::DateTime::parse_from_rfc2822("Tue, 29 Oct 2024 16:56:32 +0000")
        .unwrap()
        .timestamp();

    let expected = HttpCookie::new("foo", "bar")
        .set_domain(Some("example.com"))
        .set_expires(Some(expires))
        .set_http_only(true)
        .set_max_age(Some(3600))
        .set_partitioned(true)
        .set_path(Some("/some/path"))
        .set_secure(true)
        .set_same_site(Some(SameSitePolicy::Strict));

    let cookie_line = "foo=bar; Domain=example.com; Expires=Tue, 29 Oct 2024 16:56:32 +0000; HttpOnly; Max-Age=3600; Partitioned; Path=/some/path; Secure; SameSite=Strict";
    let actual = HttpCookie::from_set_cookie_header_line(cookie_line).unwrap();

    assert_eq!(expected, actual);
}

#[test]
fn test_cookie_from_set_cookie_header_line_unknown_attr_ok() {
    let expires = chrono::DateTime::parse_from_rfc2822("Tue, 29 Oct 2024 16:56:32 +0000")
        .unwrap()
        .timestamp();

    let expected = HttpCookie::new("foo", "bar")
        .set_domain(Some("example.com"))
        .set_expires(Some(expires))
        .set_http_only(true)
        .set_max_age(Some(3600))
        .set_partitioned(true)
        .set_path(Some("/some/path"))
        .set_secure(true)
        .set_same_site(Some(SameSitePolicy::Strict));

    let cookie_line = "foo=bar; Domain=example.com; Expires=Tue, 29 Oct 2024 16:56:32 +0000; HttpOnly; Max-Age=3600; SomeUnknownAttribute=BAZ; Partitioned; Path=/some/path; Secure; SameSite=Strict";

    let actual = HttpCookie::from_set_cookie_header_line(cookie_line).unwrap();

    assert_eq!(expected, actual);
}

#[test]
fn test_cookie_round_trip_plain() {
    let cookie = HttpCookie::new("session", "abc123");
    let line = cookie.to_str().unwrap();
    assert_eq!("session=abc123", line);
    let parsed = HttpCookie::from_set_cookie_header_line(&line).unwrap();
    assert_eq!(cookie, parsed);
}

#[test]
fn test_cookie_bad_expires_err() {
    assert!(HttpCookie::from_set_cookie_header_line("foo=bar; Expires=not-a-date").is_err());
}

#[test]
fn test_cookie_bad_max_age_err() {
    assert!(HttpCookie::from_set_cookie_header_line("foo=bar; Max-Age=ten").is_err());
}

#[test]
fn test_cookie_bad_same_site_err() {
    assert!(HttpCookie::from_set_cookie_header_line("foo=bar; SameSite=Sometimes").is_err());
}

#[test]
fn test_cookie_quoted_value_ok() {
    let actual = HttpCookie::new("foo", "\"bar\"").to_str().unwrap();
    assert_eq!("foo=\"bar\"", actual);
}

#[test]
fn test_cookie_name_value_validation() {
    assert!(web_server::HttpCookie::new("", "x").to_str().is_ok());
    assert!(web_server::HttpCookie::new("a b", "x").to_str().is_err());
    assert!(web_server::HttpCookie::new("ok", "a b").to_str().is_err());
}
