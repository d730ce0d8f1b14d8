use web_server::HttpVersion;

#[test]
fn test_from_str_version_0_9() {
    let expected = HttpVersion::HTTP0_9;
    let actual = HttpVersion::from_str("").unwrap();

    assert_eq!(expected, actual);
}

#[test]
fn test_to_str_version_0_9() {
    let expected = "";
    let actual = HttpVersion::HTTP0_9.to_str();

    assert_eq!(expected, actual);
}

#[test]
fn test_from_str_version_1_0() {
    let expected = HttpVersion::HTTP1_0;
    let actual = HttpVersion::from_str("HTTP/1.0").unwrap();

    assert_eq!(expected, actual);
}

#[test]
fn test_to_str_version_1_0() {
    let expected = "HTTP/1.0";
    let actual = HttpVersion::HTTP1_0.to_str();

    assert_eq!(expected, actual);
}

#[test]
fn test_from_str_version_1_1() {
    let expected = HttpVersion::HTTP1_1;
    let actual = HttpVersion::from_str("HTTP/1.1").unwrap();

    assert_eq!(expected, actual);
}

#[test]
fn test_to_str_version_1_1() {
    let expected = "HTTP/1.1";
    let actual = HttpVersion::HTTP1_1.to_str();

    assert_eq!(expected, actual);
}

#[test]
fn test_unknown_version_rejected() {
    assert!(HttpVersion::from_str("HTTP/2.0").is_none());
}
