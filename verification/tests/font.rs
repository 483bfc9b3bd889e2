use std::collections::BTreeSet;

use lopdf::{Dictionary, Document, Object, ObjectId};
use pdf_editor_backend::error::AppError;
use pdf_editor_backend::font::{
    embed_type0_unicode_ttf, ensure_page_font_resources, ensure_unicode_overlay_fonts,
    try_ensure_unicode_overlay_fonts, FontProgram, OverlayFontNames, OverlayFontPrograms,
};

fn be16(v: &mut Vec<u8>, x: u16) {
    v.extend_from_slice(&x.to_be_bytes());
}

fn be32(v: &mut Vec<u8>, x: u32) {
    v.extend_from_slice(&x.to_be_bytes());
}

/// A minimal TrueType font: glyph 1 for 'A', glyph 2 for 'B', glyph 3 for
/// the space and glyph 4 for U+1F600; 1000 units per em; advances 250,
/// 600, 700 (glyphs 3 and 4 take the last one) when `with_metrics`.
fn test_font(with_metrics: bool) -> Vec<u8> {
    let mut head = Vec::new();
    be32(&mut head, 0x0001_0000);
    be32(&mut head, 0x0001_0000);
    be32(&mut head, 0);
    be32(&mut head, 0x5F0F_3CF5);
    be16(&mut head, 0);
    be16(&mut head, 1000);
    head.extend_from_slice(&[0u8; 16]);
    for _ in 0..4 {
        be16(&mut head, 0);
    }
    be16(&mut head, 0);
    be16(&mut head, 8);
    be16(&mut head, 2);
    be16(&mut head, 0);
    be16(&mut head, 0);
    assert_eq!(head.len(), 54);

    let mut hhea = Vec::new();
    be32(&mut hhea, 0x0001_0000);
    be16(&mut hhea, 800);
    be16(&mut hhea, 0xFF38);
    be16(&mut hhea, 0);
    hhea.extend_from_slice(&[0u8; 24]);
    be16(&mut hhea, 3);
    assert_eq!(hhea.len(), 36);

    let mut maxp = Vec::new();
    be32(&mut maxp, 0x0000_5000);
    be16(&mut maxp, 5);

    let mut hmtx = Vec::new();
    for adv in [250u16, 600, 700] {
        be16(&mut hmtx, adv);
        be16(&mut hmtx, 0);
    }
    be16(&mut hmtx, 0);
    be16(&mut hmtx, 0);

    let groups: [(u32, u32, u32); 3] = [(0x20, 0x20, 3), (0x41, 0x42, 1), (0x1F600, 0x1F600, 4)];
    let mut sub = Vec::new();
    be16(&mut sub, 12);
    be16(&mut sub, 0);
    be32(&mut sub, 16 + 12 * groups.len() as u32);
    be32(&mut sub, 0);
    be32(&mut sub, groups.len() as u32);
    for (s, e, g) in groups {
        be32(&mut sub, s);
        be32(&mut sub, e);
        be32(&mut sub, g);
    }
    let mut cmap = Vec::new();
    be16(&mut cmap, 0);
    be16(&mut cmap, 1);
    be16(&mut cmap, 0);
    be16(&mut cmap, 4);
    be32(&mut cmap, 12);
    cmap.extend_from_slice(&sub);

    let mut tables: Vec<(&[u8; 4], Vec<u8>)> = vec![
        (b"cmap", cmap),
        (b"head", head),
        (b"hhea", hhea),
        (b"maxp", maxp),
    ];
    if with_metrics {
        tables.push((b"hmtx", hmtx));
    }
    let mut font = Vec::new();
    be32(&mut font, 0x0001_0000);
    be16(&mut font, tables.len() as u16);
    be16(&mut font, 0);
    be16(&mut font, 0);
    be16(&mut font, 0);
    let mut offset = 12 + 16 * tables.len() as u32;
    for (tag, data) in &tables {
        font.extend_from_slice(&tag[..]);
        be32(&mut font, 0);
        be32(&mut font, offset);
        be32(&mut font, data.len() as u32);
        offset += data.len() as u32;
    }
    for (_, data) in &tables {
        font.extend_from_slice(data);
    }
    font
}


fn doc_with_page(page: Dictionary) -> (Document, ObjectId) {
    let mut doc = Document::with_version("1.5");
    let mut p = page;
    p.set("Type", Object::Name(b"Page".to_vec()));
    let id = doc.add_object(Object::Dictionary(p));
    (doc, id)
}

fn dict(doc: &Document, id: ObjectId) -> &Dictionary {
    doc.get_object(id).unwrap().as_dict().unwrap()
}

fn widths() -> Result<Object, AppError> {
    Ok(Object::Array(vec![Object::Integer(65), Object::Array(vec![Object::Integer(600)])]))
}

fn program(data: Vec<u8>) -> Result<FontProgram, AppError> {
    Ok(FontProgram { data, cid_widths: widths() })
}

#[test]
fn missing_resources_get_new_objects() {
    let (mut doc, page) = doc_with_page(Dictionary::new());
    let fonts = ensure_page_font_resources(&mut doc, page).unwrap();
    assert_eq!(fonts, (3, 0));
    assert_eq!(dict(&doc, page).get(b"Resources").unwrap(), &Object::Reference((2, 0)));
    assert_eq!(dict(&doc, (2, 0)).get(b"Font").unwrap(), &Object::Reference((3, 0)));
    assert!(dict(&doc, (3, 0)).is_empty());
    assert_eq!(doc.objects.len(), 3);
}

#[test]
fn ensuring_font_resources_twice_changes_nothing() {
    let (mut doc, page) = doc_with_page(Dictionary::new());
    let first = ensure_page_font_resources(&mut doc, page).unwrap();
    let snapshot = doc.objects.clone();
    let max = doc.max_id;
    let second = ensure_page_font_resources(&mut doc, page).unwrap();
    assert_eq!(first, second);
    assert_eq!(doc.objects, snapshot);
    assert_eq!(doc.max_id, max);
}

#[test]
fn inline_resources_and_fonts_are_moved_into_objects() {
    let mut fonts = Dictionary::new();
    fonts.set("F1", Object::Reference((40, 0)));
    let mut resources = Dictionary::new();
    resources.set("Font", Object::Dictionary(fonts));
    resources.set("ProcSet", Object::Name(b"PDF".to_vec()));
    let mut page = Dictionary::new();
    page.set("Resources", Object::Dictionary(resources));
    let (mut doc, page_id) = doc_with_page(page);
    let fonts_id = ensure_page_font_resources(&mut doc, page_id).unwrap();
    assert_eq!(fonts_id, (3, 0));
    let res = dict(&doc, (2, 0));
    assert_eq!(res.get(b"ProcSet").unwrap(), &Object::Name(b"PDF".to_vec()));
    assert_eq!(res.get(b"Font").unwrap(), &Object::Reference((3, 0)));
    assert_eq!(dict(&doc, (3, 0)).get(b"F1").unwrap(), &Object::Reference((40, 0)));
    assert_eq!(dict(&doc, page_id).get(b"Resources").unwrap(), &Object::Reference((2, 0)));
}

#[test]
fn referenced_resources_are_kept() {
    let mut doc = Document::with_version("1.5");
    let fonts_id = doc.add_object(Object::Dictionary(Dictionary::new()));
    let mut resources = Dictionary::new();
    resources.set("Font", Object::Reference(fonts_id));
    let res_id = doc.add_object(Object::Dictionary(resources));
    let mut page = Dictionary::new();
    page.set("Resources", Object::Reference(res_id));
    let page_id = doc.add_object(Object::Dictionary(page));
    let before = doc.objects.clone();
    assert_eq!(ensure_page_font_resources(&mut doc, page_id).unwrap(), fonts_id);
    assert_eq!(doc.objects, before);
}

#[test]
fn a_resources_entry_that_is_no_dictionary_is_replaced() {
    let mut page = Dictionary::new();
    page.set("Resources", Object::Integer(7));
    let (mut doc, page_id) = doc_with_page(page);
    let fonts_id = ensure_page_font_resources(&mut doc, page_id).unwrap();
    assert_eq!(fonts_id, (3, 0));
    assert_eq!(dict(&doc, page_id).get(b"Resources").unwrap(), &Object::Reference((2, 0)));
}

#[test]
fn a_missing_page_is_an_error() {
    let mut doc = Document::with_version("1.5");
    match ensure_page_font_resources(&mut doc, (9, 0)) {
        Err(AppError::Pdfium(m)) => assert!(m.starts_with("No se pudo abrir pagina: ")),
        other => panic!("unexpected {other:?}"),
    }
    assert!(doc.objects.is_empty());
}

#[test]
fn a_page_that_is_no_dictionary_is_an_error() {
    let mut doc = Document::with_version("1.5");
    let id = doc.add_object(Object::Integer(3));
    match ensure_page_font_resources(&mut doc, id) {
        Err(AppError::Pdfium(m)) => assert!(m.starts_with("Pagina no es diccionario: ")),
        other => panic!("unexpected {other:?}"),
    }
}

#[test]
fn resources_that_refer_to_no_dictionary_are_an_error() {
    let mut doc = Document::with_version("1.5");
    let bad = doc.add_object(Object::Integer(1));
    let mut page = Dictionary::new();
    page.set("Resources", Object::Reference(bad));
    let page_id = doc.add_object(Object::Dictionary(page));
    match ensure_page_font_resources(&mut doc, page_id) {
        Err(AppError::Pdfium(m)) => assert!(m.starts_with("Resources no es diccionario: ")),
        other => panic!("unexpected {other:?}"),
    }
}

#[test]
fn embedding_adds_six_objects_ending_with_the_type0_font() {
    let mut doc = Document::with_version("1.5");
    let used: BTreeSet<u16> = [0x41u16, 0x20].into_iter().collect();
    let font = test_font(true);
    let id = embed_type0_unicode_ttf(&mut doc, "Helvetica", font.clone(), &used, widths()).unwrap();
    assert_eq!(id, (6, 0));
    assert_eq!(doc.objects.len(), 6);
    let type0 = dict(&doc, id);
    assert_eq!(type0.get(b"Subtype").unwrap(), &Object::Name(b"Type0".to_vec()));
    assert_eq!(type0.get(b"BaseFont").unwrap(), &Object::Name(b"Helvetica".to_vec()));
    assert_eq!(type0.get(b"Encoding").unwrap(), &Object::Name(b"Identity-H".to_vec()));
    assert_eq!(
        type0.get(b"DescendantFonts").unwrap(),
        &Object::Array(vec![Object::Reference((4, 0))])
    );
    assert_eq!(type0.get(b"ToUnicode").unwrap(), &Object::Reference((5, 0)));
    let cid = dict(&doc, (4, 0));
    assert_eq!(cid.get(b"Subtype").unwrap(), &Object::Name(b"CIDFontType2".to_vec()));
    assert_eq!(cid.get(b"DW").unwrap(), &Object::Integer(500));
    assert_eq!(cid.get(b"W").unwrap(), &widths().unwrap());
    assert_eq!(cid.get(b"FontDescriptor").unwrap(), &Object::Reference((2, 0)));
    assert_eq!(cid.get(b"CIDToGIDMap").unwrap(), &Object::Reference((3, 0)));
    let info = cid.get(b"CIDSystemInfo").unwrap().as_dict().unwrap();
    assert_eq!(info.get(b"Ordering").unwrap().as_str().unwrap(), b"Identity");
    let descriptor = dict(&doc, (2, 0));
    assert_eq!(descriptor.get(b"FontFile2").unwrap(), &Object::Reference((1, 0)));
    assert_eq!(descriptor.get(b"Flags").unwrap(), &Object::Integer(32));
    let file = doc.get_object((1, 0)).unwrap().as_stream().unwrap();
    assert_eq!(file.content, font);
    assert_eq!(file.dict.get(b"Length1").unwrap(), &Object::Integer(font.len() as i64));
    let gid = doc.get_object((3, 0)).unwrap().as_stream().unwrap();
    assert_eq!(gid.content.len(), 0x42 * 2);
    assert_eq!(&gid.content[0x82..0x84], &[0, 1]);
    let cmap = doc.get_object((5, 0)).unwrap().as_stream().unwrap();
    assert!(String::from_utf8(cmap.content.clone()).unwrap().contains("2 beginbfchar\n<0020> <0020>\n<0041> <0041>\n"));
}

#[test]
fn embedding_a_bad_font_adds_nothing() {
    let mut doc = Document::with_version("1.5");
    let used: BTreeSet<u16> = [0x41u16].into_iter().collect();
    let r = embed_type0_unicode_ttf(&mut doc, "Helvetica", b"junk".to_vec(), &used, widths());
    assert!(matches!(r, Err(AppError::Pdfium(_))));
    assert!(doc.objects.is_empty());
}

#[test]
fn embedding_passes_on_the_widths_error() {
    let mut doc = Document::with_version("1.5");
    let used: BTreeSet<u16> = [0x41u16].into_iter().collect();
    let err = AppError::Pdfium("anchos".to_string());
    let r = embed_type0_unicode_ttf(&mut doc, "Helvetica", test_font(true), &used, Err(err.clone()));
    assert_eq!(r, Err(err));
    assert!(doc.objects.is_empty());
}

#[test]
fn overlay_fonts_are_registered_on_the_page() {
    let (mut doc, page_id) = doc_with_page(Dictionary::new());
    let used: BTreeSet<u16> = [0x41u16, 0x42].into_iter().collect();
    let fonts = OverlayFontPrograms {
        helvetica: program(test_font(true)),
        helvetica_bold: program(test_font(true)),
        arial: program(test_font(true)),
        arial_bold: program(test_font(false)),
    };
    let names = ensure_unicode_overlay_fonts(&mut doc, page_id, &used, fonts).unwrap();
    assert_eq!(
        names,
        OverlayFontNames {
            regular: b"FCOHelveticaRegular".to_vec(),
            bold: b"FCOHelveticaBold".to_vec()
        }
    );
    assert_eq!(doc.objects.len(), 3 + 24);
    let font_dict = dict(&doc, (3, 0));
    assert_eq!(font_dict.get(b"FCOHelveticaRegular").unwrap(), &Object::Reference((9, 0)));
    assert_eq!(font_dict.get(b"FCOHelveticaBold").unwrap(), &Object::Reference((15, 0)));
    assert_eq!(font_dict.get(b"FCOArialRegular").unwrap(), &Object::Reference((21, 0)));
    assert_eq!(font_dict.get(b"FCOArialBold").unwrap(), &Object::Reference((27, 0)));
    assert_eq!(
        dict(&doc, (27, 0)).get(b"BaseFont").unwrap(),
        &Object::Name(b"Arial-BoldMT".to_vec())
    );
}

#[test]
fn a_missing_font_program_stops_after_the_resources() {
    let (mut doc, page_id) = doc_with_page(Dictionary::new());
    let used: BTreeSet<u16> = BTreeSet::new();
    let missing = AppError::Pdfium("No se pudo leer fuente ARIAL.TTF".to_string());
    let fonts = OverlayFontPrograms {
        helvetica: program(test_font(true)),
        helvetica_bold: program(test_font(true)),
        arial: Err(missing.clone()),
        arial_bold: program(test_font(true)),
    };
    assert_eq!(ensure_unicode_overlay_fonts(&mut doc, page_id, &used, fonts), Err(missing));
    assert_eq!(doc.objects.len(), 3);
}

fn four_programs() -> OverlayFontPrograms {
    OverlayFontPrograms {
        helvetica: program(test_font(true)),
        helvetica_bold: program(test_font(true)),
        arial: program(test_font(true)),
        arial_bold: program(test_font(true)),
    }
}

#[test]
fn overlay_fonts_with_room_are_ensured_and_keep_the_rest_of_the_document() {
    let (mut doc, page_id) = doc_with_page(Dictionary::new());
    doc.trailer.set("Root", Object::Reference(page_id));
    let trailer = doc.trailer.clone();
    let used: BTreeSet<u16> = [0x41u16].into_iter().collect();
    let names = try_ensure_unicode_overlay_fonts(&mut doc, page_id, &used, four_programs())
        .unwrap()
        .unwrap();
    assert_eq!(names.regular, b"FCOHelveticaRegular".to_vec());
    assert_eq!(doc.max_id, 1 + 2 + 24);
    assert_eq!(doc.version, "1.5");
    assert_eq!(doc.trailer, trailer);
}

#[test]
fn overlay_fonts_without_room_stop_before_embedding() {
    let (mut doc, page_id) = doc_with_page(Dictionary::new());
    doc.max_id = u32::MAX - 25;
    let used: BTreeSet<u16> = [0x41u16].into_iter().collect();
    assert!(try_ensure_unicode_overlay_fonts(&mut doc, page_id, &used, four_programs()).is_none());
    assert_eq!(doc.max_id, u32::MAX - 23);
    assert_eq!(doc.objects.len(), 3);
}

#[test]
fn overlay_fonts_with_no_number_left_for_the_resources_change_nothing() {
    let (mut doc, page_id) = doc_with_page(Dictionary::new());
    doc.max_id = u32::MAX;
    let used: BTreeSet<u16> = [0x41u16].into_iter().collect();
    assert!(try_ensure_unicode_overlay_fonts(&mut doc, page_id, &used, four_programs()).is_none());
    assert_eq!(doc.max_id, u32::MAX);
    assert_eq!(doc.objects.len(), 1);
}

#[test]
fn overlay_fonts_on_a_missing_page_report_the_page_without_room() {
    let mut doc = Document::with_version("1.5");
    doc.max_id = u32::MAX;
    let used: BTreeSet<u16> = BTreeSet::new();
    match try_ensure_unicode_overlay_fonts(&mut doc, (9, 0), &used, four_programs()) {
        Some(Err(AppError::Pdfium(m))) => assert!(m.starts_with("No se pudo abrir pagina: ")),
        other => panic!("unexpected {other:?}"),
    }
}

#[test]
fn overlay_fonts_need_room_only_for_the_fonts_that_are_embedded() {
    let (mut doc, page_id) = doc_with_page(Dictionary::new());
    doc.max_id = u32::MAX - 25;
    let used: BTreeSet<u16> = [0x41u16].into_iter().collect();
    let fonts = OverlayFontPrograms {
        helvetica: program(test_font(true)),
        helvetica_bold: program(test_font(true)),
        arial: program(b"junk".to_vec()),
        arial_bold: program(test_font(true)),
    };
    match try_ensure_unicode_overlay_fonts(&mut doc, page_id, &used, fonts) {
        Some(Err(AppError::Pdfium(m))) => {
            assert!(m.starts_with("No se pudo parsear TTF para CIDToGIDMap: "))
        }
        other => panic!("unexpected {other:?}"),
    }
    assert_eq!(doc.max_id, u32::MAX - 23 + 12);
}

#[test]
fn overlay_fonts_with_resources_in_place_need_room_for_the_fonts_only() {
    let mut doc = Document::with_version("1.5");
    let fonts_id = doc.add_object(Object::Dictionary(Dictionary::new()));
    let mut resources = Dictionary::new();
    resources.set("Font", Object::Reference(fonts_id));
    let res_id = doc.add_object(Object::Dictionary(resources));
    let mut page = Dictionary::new();
    page.set("Resources", Object::Reference(res_id));
    let page_id = doc.add_object(Object::Dictionary(page));
    doc.max_id = u32::MAX - 24;
    let used: BTreeSet<u16> = [0x41u16].into_iter().collect();
    assert!(try_ensure_unicode_overlay_fonts(&mut doc, page_id, &used, four_programs())
        .unwrap()
        .is_ok());
    assert_eq!(doc.max_id, u32::MAX);
}

#[test]
fn ensuring_font_resources_after_success_returns_the_same_dictionary() {
    let mut page = Dictionary::new();
    let mut inline = Dictionary::new();
    inline.set("Font", Object::Dictionary(Dictionary::new()));
    page.set("Resources", Object::Dictionary(inline));
    let (mut doc, page_id) = doc_with_page(page);
    let first = ensure_page_font_resources(&mut doc, page_id).unwrap();
    let after = doc.clone();
    assert_eq!(ensure_page_font_resources(&mut doc, page_id).unwrap(), first);
    assert_eq!(doc.objects, after.objects);
    assert_eq!(doc.max_id, after.max_id);
}

#[test]
fn overlay_fonts_with_exactly_enough_room_are_ensured() {
    let (mut doc, page_id) = doc_with_page(Dictionary::new());
    doc.max_id = u32::MAX - 26;
    let used: BTreeSet<u16> = [0x41u16].into_iter().collect();
    assert!(try_ensure_unicode_overlay_fonts(&mut doc, page_id, &used, four_programs())
        .unwrap()
        .is_ok());
    assert_eq!(doc.max_id, u32::MAX);
}
