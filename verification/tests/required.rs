use web_image_meta::jpeg;
use web_image_meta::png;
use web_image_meta::Error;

#[test]
fn test_png_signature_validation() {
    let invalid_data = vec![0, 1, 2, 3];
    assert!(png::clean_chunks(&invalid_data).is_err());
    assert!(png::read_text_chunks(&invalid_data).is_err());
    assert!(png::add_text_chunk(&invalid_data, "test", "value").is_err());
}

#[test]
fn png_test_keyword_validation() {
    let valid_png = vec![137, 80, 78, 71, 13, 10, 26, 10];

    assert!(png::add_text_chunk(&valid_png, "", "text").is_err());

    let long_keyword = "a".repeat(80);
    assert!(png::add_text_chunk(&valid_png, &long_keyword, "text").is_err());

    assert!(png::add_text_chunk(&valid_png, "テスト", "text").is_err());
}

#[test]
fn test_invalid_jpeg_data() {
    let invalid_data = vec![0x00, 0x01, 0x02, 0x03];

    assert!(matches!(
        jpeg::clean_metadata(&invalid_data),
        Err(Error::InvalidFormat(_))
    ));

    assert!(matches!(
        jpeg::read_comment(&invalid_data),
        Err(Error::InvalidFormat(_))
    ));

    assert!(matches!(
        jpeg::write_comment(&invalid_data, "test"),
        Err(Error::InvalidFormat(_))
    ));
}

#[test]
fn test_corrupted_jpeg_decode() {
    let mut corrupted_data = vec![0xFF, 0xD8, 0xFF, 0xE0, 0x00, 0x10];
    corrupted_data.extend_from_slice(b"JFIF\0");
    corrupted_data.extend_from_slice(&[0x01, 0x01, 0x00, 0x00, 0x48, 0x00, 0x48]);

    assert!(matches!(
        jpeg::clean_metadata(&corrupted_data),
        Err(Error::InvalidFormat(_))
    ));
}

#[test]
fn test_invalid_png_data() {
    let invalid_data = vec![0x00, 0x01, 0x02, 0x03];

    assert!(matches!(
        png::clean_chunks(&invalid_data),
        Err(Error::InvalidFormat(_))
    ));

    assert!(matches!(
        png::read_text_chunks(&invalid_data),
        Err(Error::InvalidFormat(_))
    ));

    assert!(matches!(
        png::add_text_chunk(&invalid_data, "test", "value"),
        Err(Error::InvalidFormat(_))
    ));
}

#[test]
fn test_corrupted_png_decode() {
    let mut corrupted_data = vec![137, 80, 78, 71, 13, 10, 26, 10];
    corrupted_data.extend_from_slice(&[0x00, 0x00, 0x00, 0x0D]);
    corrupted_data.extend_from_slice(b"IHDR");

    assert!(matches!(
        png::clean_chunks(&corrupted_data),
        Err(Error::InvalidFormat(_))
    ));
}
