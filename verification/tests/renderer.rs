use pdf_editor_backend::font::OverlayFontNames;
use pdf_editor_backend::renderer::text_show;

fn fonts() -> OverlayFontNames {
    OverlayFontNames { regular: b"FCOHelveticaRegular".to_vec(), bold: b"FCOHelveticaBold".to_vec() }
}

#[test]
fn draws_without_a_font_use_the_overlay_fonts() {
    let s = text_show("AB", false, &Vec::new(), &fonts());
    assert_eq!(s.font_name, b"FCOHelveticaRegular".to_vec());
    assert_eq!(s.encoded_text, vec![0, 0x41, 0, 0x42]);
    let s = text_show("AB", true, &Vec::new(), &fonts());
    assert_eq!(s.font_name, b"FCOHelveticaBold".to_vec());
}

#[test]
fn draws_with_a_font_keep_it() {
    let s = text_show("ñ", true, &b"FCOArialBold".to_vec(), &fonts());
    assert_eq!(s.font_name, b"FCOArialBold".to_vec());
    assert_eq!(s.encoded_text, vec![0, 0xF1]);
}
