use rl_matting::encoding::{decode_base64_bytes, decode_mask_payload, encode_base64, image_data_url, mime_type};

#[test]
fn base64_of_short_inputs() {
    assert_eq!(encode_base64(b"Man"), "TWFu");
    assert_eq!(encode_base64(b"Ma"), "TWE=");
    assert_eq!(encode_base64(b"M"), "TQ==");
    assert_eq!(encode_base64(b""), "");
    assert_eq!(encode_base64(&[0xff, 0xfe, 0x3e]), "//4+");
}

#[test]
fn base64_decoding() {
    assert_eq!(decode_base64_bytes(b"TWFu"), Ok(b"Man".to_vec()));
    assert_eq!(decode_base64_bytes(b"TQ=="), Ok(b"M".to_vec()));
    assert!(decode_base64_bytes(b"TWF").is_err());
    assert!(decode_base64_bytes(b"T@==").is_err());
}

#[test]
fn decoding_gives_the_encoded_bytes_back() {
    let bytes: Vec<u8> = (0..=255u8).chain(0..7u8).collect();
    let text = encode_base64(&bytes);
    assert_eq!(decode_base64_bytes(text.as_bytes()), Ok(bytes.clone()));
    assert_eq!(decode_mask_payload(&text), Ok(bytes));
}

#[test]
fn mask_payload_errors_are_labelled() {
    assert_eq!(decode_mask_payload("TWE="), Ok(b"Ma".to_vec()));
    let e = decode_mask_payload("%%%").unwrap_err();
    assert!(e.starts_with("base64 decode failed: "), "{}", e);
    assert!(e.len() > "base64 decode failed: ".len());
}

#[test]
fn media_types_by_extension() {
    assert_eq!(mime_type(Some("jpg")), "image/jpeg");
    assert_eq!(mime_type(Some("JPEG")), "image/jpeg");
    assert_eq!(mime_type(Some("WebP")), "image/webp");
    assert_eq!(mime_type(Some("bmp")), "image/bmp");
    assert_eq!(mime_type(Some("png")), "image/png");
    assert_eq!(mime_type(Some("gif")), "image/png");
    assert_eq!(mime_type(Some("")), "image/png");
    assert_eq!(mime_type(None), "image/png");
}

#[test]
fn data_url_of_an_image_file() {
    assert_eq!(image_data_url(Some("png"), b"Man"), "data:image/png;base64,TWFu");
    assert_eq!(image_data_url(Some("JPG"), b"M"), "data:image/jpeg;base64,TQ==");
    assert_eq!(image_data_url(None, b""), "data:image/png;base64,");
}

#[test]
fn only_canonical_base64_is_accepted() {
    assert!(decode_base64_bytes(b"TWE").is_err());
    assert!(decode_base64_bytes(b"TWF=").is_err());
    assert!(decode_base64_bytes(b"TQ").is_err());
    assert_eq!(decode_base64_bytes(b""), Ok(Vec::new()));
}
