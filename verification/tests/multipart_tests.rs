use web_server::{ContentDispositionHeader, MultipartBody, MultipartBodyPart};

#[test]
fn test_multipart_body_single_text_part_ok() {
    let boundary = "ExampleBoundaryString";
    let body = "--ExampleBoundaryString
Content-Disposition: form-data; name=\"description\"
Content-Type: text/html

This is a description
--ExampleBoundaryString--"
        .as_bytes();

    let actual = MultipartBody::from_bytes(boundary, &body).unwrap();
    let expected = MultipartBody {
        parts: vec![MultipartBodyPart {
            name: "description".to_owned(),
            filename: None,
            content_type: "text/html".to_owned(),
            data: "This is a description\n".as_bytes().to_vec(),
        }],
    };

    assert_eq!(expected, actual);
}

#[test]
// This test checks for err because multipart support is single-part only.
// In a full decoder, the body here would denote a valid multipart body.
fn test_mutlipart_body_multiple_parts_is_err() {
    let boundary = "--delimiter123";
    let body = "
--delimiter123
Content-Disposition: form-data; name=\"field1\"

value1
--delimiter123
Content-Disposition: form-data; name=\"field2\"; filename=\"example.txt\"

value2
--delimiter123--"
        .as_bytes();

    assert!(MultipartBody::from_bytes(boundary, &body).is_err());
}

#[test]
fn test_content_disposition_with_filename() {
    let header = ContentDispositionHeader::from_line(
        "Content-Disposition: form-data; name=\"photo\"; filename=\"cat.png\"",
    )
    .unwrap();
    assert_eq!("photo", header.form_name);
    assert_eq!(Some("cat.png".to_owned()), header.filename);
}

#[test]
fn test_content_disposition_not_form_data_err() {
    assert!(ContentDispositionHeader::from_line("Content-Disposition: attachment").is_err());
}

#[test]
fn test_multipart_boundary_mismatch_err() {
    let body = "--other\r\n".as_bytes();
    assert!(MultipartBody::from_bytes("B", body).is_err());
}

#[test]
fn test_multipart_missing_blank_line_err() {
    let body = "--B\nContent-Disposition: form-data; name=\"f\"\nContent-Type: text/plain\nno blank\ndata--B--"
        .as_bytes();
    assert!(MultipartBody::from_bytes("B", body).is_err());
}

#[test]
fn test_multipart_tail_must_be_terminator_err() {
    let body = "--B\nContent-Disposition: form-data; name=\"f\"\nContent-Type: text/plain\n\ndata\n--B--\r\n"
        .as_bytes();
    assert!(MultipartBody::from_bytes("B", body).is_err());
}

#[test]
fn test_multipart_exact_terminator_ok() {
    let body = "--B\nContent-Disposition: form-data; name=\"f\"\nContent-Type: text/plain\n\ndata\n--B--"
        .as_bytes();
    let mp = MultipartBody::from_bytes("B", body).unwrap();
    assert_eq!("data\n".as_bytes().to_vec(), mp.parts[0].data);
}
