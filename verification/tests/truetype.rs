use std::collections::BTreeSet;

use pdf_editor_backend::error::AppError;
use pdf_editor_backend::truetype::{cid_glyph_advances, create_cid_to_gid_map};

fn be16(v: &mut Vec<u8>, x: u16) {
    v.extend_from_slice(&x.to_be_bytes());
}

fn be32(v: &mut Vec<u8>, x: u32) {
    v.extend_from_slice(&x.to_be_bytes());
}

/// A minimal TrueType font: glyph 1 for 'A', glyph 2 for 'B', glyph 3 for
/// the space and glyph 4 for U+1F600; 1000 units per em; advances 250,
/// 600, 700 (glyphs 3 and 4 take the last one) when `with_metrics`.
fn test_font(with_metrics: bool) -> Vec<u8> {
    let mut head = Vec::new();
    be32(&mut head, 0x0001_0000);
    be32(&mut head, 0x0001_0000);
    be32(&mut head, 0);
    be32(&mut head, 0x5F0F_3CF5);
    be16(&mut head, 0);
    be16(&mut head, 1000);
    head.extend_from_slice(&[0u8; 16]);
    for _ in 0..4 {
        be16(&mut head, 0);
    }
    be16(&mut head, 0);
    be16(&mut head, 8);
    be16(&mut head, 2);
    be16(&mut head, 0);
    be16(&mut head, 0);
    assert_eq!(head.len(), 54);

    let mut hhea = Vec::new();
    be32(&mut hhea, 0x0001_0000);
    be16(&mut hhea, 800);
    be16(&mut hhea, 0xFF38);
    be16(&mut hhea, 0);
    hhea.extend_from_slice(&[0u8; 24]);
    be16(&mut hhea, 3);
    assert_eq!(hhea.len(), 36);

    let mut maxp = Vec::new();
    be32(&mut maxp, 0x0000_5000);
    be16(&mut maxp, 5);

    let mut hmtx = Vec::new();
    for adv in [250u16, 600, 700] {
        be16(&mut hmtx, adv);
        be16(&mut hmtx, 0);
    }
    be16(&mut hmtx, 0);
    be16(&mut hmtx, 0);

    let groups: [(u32, u32, u32); 3] = [(0x20, 0x20, 3), (0x41, 0x42, 1), (0x1F600, 0x1F600, 4)];
    let mut sub = Vec::new();
    be16(&mut sub, 12);
    be16(&mut sub, 0);
    be32(&mut sub, 16 + 12 * groups.len() as u32);
    be32(&mut sub, 0);
    be32(&mut sub, groups.len() as u32);
    for (s, e, g) in groups {
        be32(&mut sub, s);
        be32(&mut sub, e);
        be32(&mut sub, g);
    }
    let mut cmap = Vec::new();
    be16(&mut cmap, 0);
    be16(&mut cmap, 1);
    be16(&mut cmap, 0);
    be16(&mut cmap, 4);
    be32(&mut cmap, 12);
    cmap.extend_from_slice(&sub);

    let mut tables: Vec<(&[u8; 4], Vec<u8>)> = vec![
        (b"cmap", cmap),
        (b"head", head),
        (b"hhea", hhea),
        (b"maxp", maxp),
    ];
    if with_metrics {
        tables.push((b"hmtx", hmtx));
    }
    let mut font = Vec::new();
    be32(&mut font, 0x0001_0000);
    be16(&mut font, tables.len() as u16);
    be16(&mut font, 0);
    be16(&mut font, 0);
    be16(&mut font, 0);
    let mut offset = 12 + 16 * tables.len() as u32;
    for (tag, data) in &tables {
        font.extend_from_slice(&tag[..]);
        be32(&mut font, 0);
        be32(&mut font, offset);
        be32(&mut font, data.len() as u32);
        offset += data.len() as u32;
    }
    for (_, data) in &tables {
        font.extend_from_slice(data);
    }
    font
}


fn set(codes: &[u16]) -> BTreeSet<u16> {
    codes.iter().copied().collect()
}

#[test]
fn gid_map_places_glyph_ids_big_endian() {
    let font = test_font(true);
    let map = create_cid_to_gid_map(&font, &set(&[0x41, 0x20, 0x42])).unwrap();
    assert_eq!(map.len(), (0x42 + 1) * 2);
    assert_eq!(&map[0x40..0x42], &[0, 3]);
    assert_eq!(&map[0x82..0x84], &[0, 1]);
    assert_eq!(&map[0x84..0x86], &[0, 2]);
    let nonzero: usize = map.iter().filter(|b| **b != 0).count();
    assert_eq!(nonzero, 3);
}

#[test]
fn gid_map_covers_at_least_the_space() {
    let font = test_font(true);
    let map = create_cid_to_gid_map(&font, &BTreeSet::new()).unwrap();
    assert_eq!(map, vec![0u8; 0x21 * 2]);
    let map = create_cid_to_gid_map(&font, &set(&[0x05])).unwrap();
    assert_eq!(map, vec![0u8; 0x21 * 2]);
}

#[test]
fn gid_map_leaves_unmapped_and_surrogate_codes_zero() {
    let font = test_font(true);
    let map = create_cid_to_gid_map(&font, &set(&[0x43, 0xD83D])).unwrap();
    assert_eq!(map.len(), (0xD83D + 1) * 2);
    assert!(map.iter().all(|b| *b == 0));
}

#[test]
fn gid_map_rejects_a_font_that_does_not_parse() {
    match create_cid_to_gid_map(b"not a font", &set(&[0x41])) {
        Err(AppError::Pdfium(m)) => {
            assert!(m.starts_with("No se pudo parsear TTF para CIDToGIDMap: "));
            assert!(m.len() > "No se pudo parsear TTF para CIDToGIDMap: ".len());
        }
        other => panic!("unexpected {other:?}"),
    }
}

#[test]
fn advances_list_the_used_codes_with_glyphs_in_order() {
    let font = test_font(true);
    let a = cid_glyph_advances(&font, &set(&[0x43, 0x42, 0x41, 0x20, 0])).unwrap();
    assert_eq!(a.units_per_em, 1000);
    assert_eq!(a.entries, vec![(0x20, 700), (0x41, 600), (0x42, 700)]);
}

#[test]
fn advances_default_to_500_without_metrics() {
    let font = test_font(false);
    let a = cid_glyph_advances(&font, &set(&[0x41, 0x20])).unwrap();
    assert_eq!(a.entries, vec![(0x20, 500), (0x41, 500)]);
}

#[test]
fn advances_reject_a_font_that_does_not_parse() {
    match cid_glyph_advances(&[0u8; 3], &set(&[0x41])) {
        Err(AppError::Pdfium(m)) => {
            assert!(m.starts_with("No se pudo parsear TTF para anchos CID: "))
        }
        other => panic!("unexpected {other:?}"),
    }
}
