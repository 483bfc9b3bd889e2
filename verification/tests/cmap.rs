use std::collections::BTreeSet;

use pdf_editor_backend::cmap::create_to_unicode_cmap;

const HEADER: &str = "/CIDInit /ProcSet findresource begin\n12 dict begin\nbegincmap\n/CIDSystemInfo << /Registry (Adobe) /Ordering (Identity) /Supplement 0 >> def\n/CMapName /FCOIdentityUnicode def\n/CMapType 2 def\n1 begincodespacerange\n<0000> <FFFF>\nendcodespacerange\n";
const FOOTER: &str = "endcmap\nCMapName currentdict /CMap defineresource pop\nend\nend\n";

fn cmap_of(codes: &[u16]) -> String {
    let set: BTreeSet<u16> = codes.iter().copied().collect();
    String::from_utf8(create_to_unicode_cmap(&set)).unwrap()
}

#[test]
fn empty_set_maps_only_the_space() {
    let expected = format!("{HEADER}1 beginbfchar\n<0020> <0020>\nendbfchar\n{FOOTER}");
    assert_eq!(cmap_of(&[]), expected);
}

#[test]
fn zero_is_dropped_and_codes_are_sorted_with_the_space() {
    let expected = format!(
        "{HEADER}3 beginbfchar\n<0020> <0020>\n<0041> <0041>\n<ABCD> <ABCD>\nendbfchar\n{FOOTER}"
    );
    assert_eq!(cmap_of(&[0xABCD, 0, 0x41]), expected);
}

#[test]
fn a_used_space_is_listed_once() {
    let expected = format!("{HEADER}2 beginbfchar\n<0009> <0009>\n<0020> <0020>\nendbfchar\n{FOOTER}");
    assert_eq!(cmap_of(&[0x20, 0x09]), expected);
}

#[test]
fn hex_digits_are_upper_case_and_padded() {
    let out = cmap_of(&[0x1, 0xFFFF, 0xbeef]);
    assert!(out.contains("<0001> <0001>\n"));
    assert!(out.contains("<BEEF> <BEEF>\n"));
    assert!(out.contains("<FFFF> <FFFF>\n<0000> <FFFF>") == false);
    assert!(out.contains("<FFFF> <FFFF>\nendbfchar"));
}

#[test]
fn codes_come_in_sections_of_at_most_one_hundred() {
    let codes: Vec<u16> = (0x100..0x100 + 150).collect();
    let out = cmap_of(&codes);
    assert_eq!(out.matches("beginbfchar").count(), 2);
    assert!(out.contains("100 beginbfchar\n<0020> <0020>\n<0100> <0100>\n"));
    assert!(out.contains("51 beginbfchar\n<0163> <0163>\n"));
    let lines = out.lines().filter(|l| l.starts_with('<') && l.len() == 13 && *l != "<0000> <FFFF>").count();
    assert_eq!(lines, 151);
}

#[test]
fn exactly_one_hundred_codes_make_one_section() {
    let codes: Vec<u16> = (0x100..0x100 + 99).collect();
    let out = cmap_of(&codes);
    assert_eq!(out.matches("beginbfchar").count(), 1);
    assert!(out.contains("100 beginbfchar\n"));
}
