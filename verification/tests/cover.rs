use m4b_pipeline::cover::{
    image_data_url, make_data_url, mime_for_path, parse_cover_source, CoverSource,
};
use m4b_pipeline::errors::ConvertError;

#[test]
fn data_url_encodes_payload() {
    let bytes: Vec<u8> = b"hello".to_vec();
    assert_eq!(make_data_url("image/jpeg", &bytes), "data:image/jpeg;base64,aGVsbG8=");
}

#[test]
fn data_url_of_empty_payload() {
    let bytes: Vec<u8> = Vec::new();
    assert_eq!(make_data_url("image/png", &bytes), "data:image/png;base64,");
}

#[test]
fn mime_follows_extension_case_insensitively() {
    assert_eq!(mime_for_path("a.png"), "image/png");
    assert_eq!(mime_for_path("a.PNG"), "image/png");
    assert_eq!(mime_for_path("a.webp"), "image/webp");
    assert_eq!(mime_for_path("a.WeBp"), "image/webp");
    assert_eq!(mime_for_path("a.jpg"), "image/jpeg");
    assert_eq!(mime_for_path("a.jpeg"), "image/jpeg");
    assert_eq!(mime_for_path("noext"), "image/jpeg");
}

#[test]
fn image_data_url_uses_path_mime() {
    let bytes: Vec<u8> = vec![1, 2, 3];
    assert_eq!(image_data_url("c.png", &bytes), "data:image/png;base64,AQID");
}

#[test]
fn plain_path_is_passed_through() {
    match parse_cover_source("/covers/front.jpg").unwrap() {
        CoverSource::FilePath(p) => assert_eq!(p, "/covers/front.jpg"),
        other => panic!("expected a file path, got {:?}", other),
    }
}

#[test]
fn inline_payload_is_decoded() {
    match parse_cover_source("data:image/jpeg;base64,aGVsbG8=").unwrap() {
        CoverSource::InlineImage(b) => assert_eq!(b, b"hello".to_vec()),
        other => panic!("expected inline bytes, got {:?}", other),
    }
}

#[test]
fn data_url_without_comma_is_rejected() {
    let e = parse_cover_source("data:image/png;base64").unwrap_err();
    assert_eq!(e, ConvertError::Validation("Invalid data URL format".to_string()));
}

#[test]
fn invalid_base64_payload_is_rejected() {
    let e = parse_cover_source("data:image/png;base64,!!!").unwrap_err();
    match e {
        ConvertError::Validation(m) => assert!(m.starts_with("Failed to decode base64: ")),
        other => panic!("expected a validation error, got {:?}", other),
    }
}

#[test]
fn encode_then_parse_gives_bytes_back() {
    let bytes: Vec<u8> = vec![0, 1, 2, 250, 251, 252];
    let url = make_data_url("image/jpeg", &bytes);
    match parse_cover_source(&url).unwrap() {
        CoverSource::InlineImage(b) => assert_eq!(b, bytes),
        other => panic!("expected inline bytes, got {:?}", other),
    }
}
