use agterm::encoding::{Confidence, Encoding, EncodingError};

#[test]
fn test_encoding_as_str() {
    assert_eq!(Encoding::Utf8.as_str(), "UTF-8");
    assert_eq!(Encoding::EucKr.as_str(), "EUC-KR");
    assert_eq!(Encoding::ShiftJis.as_str(), "Shift-JIS");
}

#[test]
fn test_encoding_from_str() {
    assert_eq!(Encoding::from_str("utf-8"), Some(Encoding::Utf8));
    assert_eq!(Encoding::from_str("UTF8"), Some(Encoding::Utf8));
    assert_eq!(Encoding::from_str("euc-kr"), Some(Encoding::EucKr));
    assert_eq!(Encoding::from_str("shift_jis"), Some(Encoding::ShiftJis));
    assert_eq!(Encoding::from_str("unknown"), None);
}

#[test]
fn test_utf8_decode() {
    let text = "Hello, 世界!";
    let bytes = text.as_bytes();
    let decoded = Encoding::Utf8.decode(bytes).unwrap();
    assert_eq!(decoded, text);
}

#[test]
fn test_utf8_encode() {
    let text = "Hello, 世界!";
    let encoded = Encoding::Utf8.encode(text).unwrap();
    assert_eq!(encoded, text.as_bytes());
}

#[test]
fn test_latin1_decode() {
    let bytes = vec![0x48, 0x65, 0x6C, 0x6C, 0x6F, 0xE9]; // "Helloé"
    let decoded = Encoding::Latin1.decode(&bytes).unwrap();
    assert_eq!(decoded, "Helloé");
}

#[test]
fn test_latin1_encode() {
    let text = "Helloé";
    let encoded = Encoding::Latin1.encode(text).unwrap();
    assert_eq!(encoded, vec![0x48, 0x65, 0x6C, 0x6C, 0x6F, 0xE9]);

    // Test character outside Latin-1 range
    let text = "Hello世界";
    let encoded = Encoding::Latin1.encode(text).unwrap();
    assert_eq!(encoded, vec![0x48, 0x65, 0x6C, 0x6C, 0x6F, b'?', b'?']);
}

#[test]
fn test_utf16le_decode() {
    // "Hi" in UTF-16LE
    let bytes = vec![0x48, 0x00, 0x69, 0x00];
    let decoded = Encoding::Utf16Le.decode(&bytes).unwrap();
    assert_eq!(decoded, "Hi");
}

#[test]
fn test_utf16le_encode() {
    let text = "Hi";
    let encoded = Encoding::Utf16Le.encode(text).unwrap();
    assert_eq!(encoded, vec![0x48, 0x00, 0x69, 0x00]);
}

#[test]
fn test_utf16be_decode() {
    // "Hi" in UTF-16BE
    let bytes = vec![0x00, 0x48, 0x00, 0x69];
    let decoded = Encoding::Utf16Be.decode(&bytes).unwrap();
    assert_eq!(decoded, "Hi");
}

#[test]
fn test_utf16be_encode() {
    let text = "Hi";
    let encoded = Encoding::Utf16Be.encode(text).unwrap();
    assert_eq!(encoded, vec![0x00, 0x48, 0x00, 0x69]);
}

#[test]
fn test_utf16_invalid_length() {
    let bytes = vec![0x48, 0x00, 0x69]; // Odd number of bytes
    let result = Encoding::Utf16Le.decode(&bytes);
    assert!(result.is_err());
}

#[test]
fn test_auto_detect_utf8_bom() {
    let bytes = vec![0xEF, 0xBB, 0xBF, 0x48, 0x65, 0x6C, 0x6C, 0x6F];
    let (encoding, confidence) = Encoding::detect(&bytes).unwrap();
    assert_eq!(encoding, Encoding::Utf8);
    assert_eq!(confidence, Confidence::Certain);
}

#[test]
fn test_auto_detect_utf16be_bom() {
    let bytes = vec![0xFE, 0xFF, 0x00, 0x48];
    let (encoding, confidence) = Encoding::detect(&bytes).unwrap();
    assert_eq!(encoding, Encoding::Utf16Be);
    assert_eq!(confidence, Confidence::Certain);
}

#[test]
fn test_auto_detect_utf16le_bom() {
    let bytes = vec![0xFF, 0xFE, 0x48, 0x00];
    let (encoding, confidence) = Encoding::detect(&bytes).unwrap();
    assert_eq!(encoding, Encoding::Utf16Le);
    assert_eq!(confidence, Confidence::Certain);
}

#[test]
fn test_auto_detect_valid_utf8() {
    let bytes = "Hello, world!".as_bytes();
    let (encoding, confidence) = Encoding::detect(bytes).unwrap();
    assert_eq!(encoding, Encoding::Utf8);
    assert_eq!(confidence, Confidence::High);
}

#[test]
fn test_available_encodings() {
    let encodings = Encoding::available();
    assert!(encodings.contains(&Encoding::Utf8));
    assert!(encodings.contains(&Encoding::EucKr));
    assert!(encodings.len() == 10);
}

#[test]
fn test_unsupported_encodings() {
    let text = "Hello";

    // EUC-KR encoding should return unsupported error
    let result = Encoding::EucKr.encode(text);
    assert!(matches!(result, Err(EncodingError::UnsupportedEncoding(_))));

    // ShiftJIS decoding should return unsupported error
    let bytes = vec![0x82, 0xA0];
    let result = Encoding::ShiftJis.decode(&bytes);
    assert!(matches!(result, Err(EncodingError::UnsupportedEncoding(_))));
}
