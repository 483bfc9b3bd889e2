use pdf_editor_backend::text::encode_utf16_be_no_bom;

#[test]
fn ascii_text_takes_two_bytes_per_character() {
    assert_eq!(encode_utf16_be_no_bom("Hi"), vec![0x00, 0x48, 0x00, 0x69]);
}

#[test]
fn empty_text_encodes_to_nothing() {
    assert_eq!(encode_utf16_be_no_bom(""), Vec::<u8>::new());
}

#[test]
fn latin_and_bmp_characters_are_one_unit() {
    assert_eq!(encode_utf16_be_no_bom("é"), vec![0x00, 0xE9]);
    assert_eq!(encode_utf16_be_no_bom("€"), vec![0x20, 0xAC]);
    assert_eq!(encode_utf16_be_no_bom("\u{FFFF}"), vec![0xFF, 0xFF]);
}

#[test]
fn supplementary_characters_become_surrogate_pairs() {
    assert_eq!(encode_utf16_be_no_bom("😀"), vec![0xD8, 0x3D, 0xDE, 0x00]);
    assert_eq!(encode_utf16_be_no_bom("\u{10000}"), vec![0xD8, 0x00, 0xDC, 0x00]);
    assert_eq!(encode_utf16_be_no_bom("\u{10FFFF}"), vec![0xDB, 0xFF, 0xDF, 0xFF]);
}

#[test]
fn encoding_matches_the_standard_library() {
    let text = "Patente ÁB-123 ✓ 𝄞 fin";
    let expected: Vec<u8> = text.encode_utf16().flat_map(|u| u.to_be_bytes()).collect();
    assert_eq!(encode_utf16_be_no_bom(text), expected);
}

#[test]
fn encoding_a_joined_text_joins_the_encodings() {
    let a = "Hola ";
    let b = "𝄞 mundo";
    let mut joined = encode_utf16_be_no_bom(a);
    joined.extend(encode_utf16_be_no_bom(b));
    assert_eq!(encode_utf16_be_no_bom(&format!("{a}{b}")), joined);
}

#[test]
fn encoding_length_is_two_bytes_per_unit() {
    let text = "a😀ñ";
    let out = encode_utf16_be_no_bom(text);
    assert_eq!(out.len(), 2 * text.encode_utf16().count());
    assert!(out.len() >= 2 * text.chars().count() && out.len() <= 4 * text.chars().count());
}

fn decode(bytes: &[u8]) -> Result<String, std::string::FromUtf16Error> {
    let units: Vec<u16> = bytes.chunks(2).map(|c| u16::from_be_bytes([c[0], c[1]])).collect();
    String::from_utf16(&units)
}

#[test]
fn decoding_the_encoding_gives_the_text_back() {
    for text in ["", "Hi", "Plaza Mayor 1, 2ºB", "€ 12,50", "\u{1F600} ok \u{10FFFF}", "\u{FFFF}\u{10000}"] {
        let bytes = encode_utf16_be_no_bom(text);
        assert_eq!(decode(&bytes).unwrap(), text);
    }
}
