//! What the PDF font objects need from a TrueType font program: the glyph
//! that each character code is drawn with, and the glyphs' advance widths.
//! The font program is read by the `ttf-parser` crate.

use std::collections::BTreeSet;
use vstd::prelude::*;
use vstd::std_specs::iter::IteratorSpec;
use crate::error::{AppError, starts_with, with_detail};

verus! {

#[verifier::external_type_specification]
#[verifier::external_body]
pub struct ExFaceParsingError(ttf_parser::FaceParsingError);

/// Whether `ttf_parser::Face::parse` accepts the font program (face index 0).
pub uninterp spec fn ttf_face_parses(font: Seq<u8>) -> bool;

/// The glyph id that `ttf_parser::Face::glyph_index` gives for a character
/// of the font program parsed at face index 0.
pub uninterp spec fn ttf_glyph_index(font: Seq<u8>, c: char) -> Option<u16>;

/// The `unitsPerEm` value that `ttf_parser::Face::units_per_em` reads from
/// the font program's `head` table.
pub uninterp spec fn ttf_units_per_em(font: Seq<u8>) -> u16;

/// The horizontal advance that `ttf_parser::Face::glyph_hor_advance` gives
/// for a glyph id of the font program.
pub uninterp spec fn ttf_glyph_hor_advance(font: Seq<u8>, glyph: u16) -> Option<u16>;

/// Calls `ttf_parser::Face::parse(font_data, 0)` and keeps only whether it
/// succeeded, with the parse error. Claimed: success exactly when the font
/// program parses, as named by `ttf_face_parses`.
#[verifier::external_body]
pub(crate) fn parse_face(font_data: &[u8]) -> (r: Result<(), ttf_parser::FaceParsingError>)
    ensures
        r is Ok <==> ttf_face_parses(font_data@),
{
    ttf_parser::Face::parse(font_data, 0).map(|_face| ())
}

/// The `Debug` text of a `ttf_parser::FaceParsingError`. Nothing is
/// claimed of the text.
#[verifier::external_body]
fn face_error_text(e: &ttf_parser::FaceParsingError) -> String {
    format!("{e:?}")
}

/// Parses the font program and calls `ttf_parser::Face::glyph_index` for
/// `c`, returning the glyph id's number. Claimed: the result is
/// `ttf_glyph_index` of the font program and `c`.
#[verifier::external_body]
fn face_glyph_index(font_data: &[u8], c: char) -> (g: Option<u16>)
    requires
        ttf_face_parses(font_data@),
    ensures
        g == ttf_glyph_index(font_data@, c),
{
    match ttf_parser::Face::parse(font_data, 0) {
        Ok(face) => face.glyph_index(c).map(|id| id.0),
        Err(_) => None,
    }
}

/// Parses the font program and calls `ttf_parser::Face::units_per_em`.
/// Claimed: the result is `ttf_units_per_em` of the font program.
#[verifier::external_body]
fn face_units_per_em(font_data: &[u8]) -> (u: u16)
    requires
        ttf_face_parses(font_data@),
    ensures
        u == ttf_units_per_em(font_data@),
{
    match ttf_parser::Face::parse(font_data, 0) {
        Ok(face) => face.units_per_em(),
        Err(_) => 0,
    }
}

/// Parses the font program and calls `ttf_parser::Face::glyph_hor_advance`
/// for the glyph id `glyph`. Claimed: the result is `ttf_glyph_hor_advance`
/// of the font program and the glyph id.
#[verifier::external_body]
fn face_glyph_hor_advance(font_data: &[u8], glyph: u16) -> (a: Option<u16>)
    requires
        ttf_face_parses(font_data@),
    ensures
        a == ttf_glyph_hor_advance(font_data@, glyph),
{
    match ttf_parser::Face::parse(font_data, 0) {
        Ok(face) => face.glyph_hor_advance(ttf_parser::GlyphId(glyph)),
        Err(_) => None,
    }
}

/// Whether a 16-bit code is a UTF-16 surrogate, which is no character.
pub open spec fn is_surrogate(code: u16) -> bool {
    0xD800 <= code <= 0xDFFF
}

/// Calls `char::from_u32`. Claimed, as its documentation states: `None`
/// exactly for surrogates and values above U+10FFFF, else the character
/// with that scalar value.
#[verifier::external_body]
fn char_from_u32(i: u32) -> (c: Option<char>)
    ensures
        c is Some <==> (i <= 0x10FFFF && !(0xD800 <= i <= 0xDFFF)),
        c matches Some(ch) ==> ch as u32 == i,
{
    char::from_u32(i)
}

/// The glyph that the character code `cid` (a UTF-16 code unit) is drawn
/// with, if it is a character and the font maps it.
pub open spec fn cid_glyph(font: Seq<u8>, cid: u16) -> Option<u16> {
    if is_surrogate(cid) {
        None
    } else {
        ttf_glyph_index(font, char_of(cid))
    }
}

/// The character whose scalar value is `cid`.
pub open spec fn char_of(cid: u16) -> char {
    cid as char
}

/// Byte `i` of the CIDToGIDMap stream: each used code `c` that has a glyph
/// `g` stores `g` big-endian at bytes `2c` and `2c + 1`; all else is 0.
pub open spec fn gid_map_byte(font: Seq<u8>, used: Set<u16>, i: int) -> u8 {
    let cid = (i / 2) as u16;
    if used.contains(cid) && cid_glyph(font, cid) is Some {
        let g = cid_glyph(font, cid)->0;
        if i % 2 == 0 {
            (g / 256) as u8
        } else {
            (g % 256) as u8
        }
    } else {
        0
    }
}

/// The highest code the CIDToGIDMap covers: the largest used code, but at
/// least the space character U+0020.
pub open spec fn gid_map_top(used: Set<u16>, top: u16) -> bool {
    &&& top >= 0x20
    &&& forall|c: u16| used.contains(c) ==> c <= top
    &&& (top == 0x20 || used.contains(top))
}

/// The CIDToGIDMap stream for the used codes, given the font program parses.
pub open spec fn is_gid_map(font: Seq<u8>, used: Set<u16>, map: Seq<u8>) -> bool {
    &&& map.len() % 2 == 0
    &&& 2 <= map.len() <= 0x20000
    &&& gid_map_top(used, (map.len() / 2 - 1) as u16)
    &&& forall|i: int| 0 <= i < map.len() ==> map[i] == gid_map_byte(font, used, i)
}

/// The CIDToGIDMap stream for the used codes of a font program that parses.
pub open spec fn cid_to_gid_map_of(font: Seq<u8>, used: Set<u16>) -> Seq<u8> {
    choose|m: Seq<u8>| is_gid_map(font, used, m)
}

/// The CIDToGIDMap stream is determined by the font program and the used
/// codes.
pub proof fn lemma_gid_map_unique(font: Seq<u8>, used: Set<u16>, m: Seq<u8>)
    requires
        is_gid_map(font, used, m),
    ensures
        cid_to_gid_map_of(font, used) == m,
{
    let c = cid_to_gid_map_of(font, used);
    assert(is_gid_map(font, used, c));
    let t1 = (c.len() / 2 - 1) as u16;
    let t2 = (m.len() / 2 - 1) as u16;
    if t1 != 0x20 {
        assert(used.contains(t1));
    }
    if t2 != 0x20 {
        assert(used.contains(t2));
    }
    assert(t1 == t2);
    assert(c.len() == m.len());
    assert(c =~= m);
}

/// The CIDToGIDMap has an entry for every used code, and every code that is
/// not used, or has no glyph, maps to glyph 0.
pub proof fn lemma_gid_map_covers(font: Seq<u8>, used: Set<u16>, map: Seq<u8>, c: u16)
    requires
        is_gid_map(font, used, map),
    ensures
        used.contains(c) ==> 2 * c + 1 < map.len(),
        2 * c + 1 < map.len() && (!used.contains(c) || cid_glyph(font, c) is None) ==> map[2 * c]
            == 0 && map[2 * c + 1] == 0,
        2 * c + 1 < map.len() && used.contains(c) && cid_glyph(font, c) is Some ==> map[2 * c] == (
        cid_glyph(font, c)->0 / 256) as u8 && map[2 * c + 1] == (cid_glyph(font, c)->0 % 256) as u8,
{
    if 2 * c + 1 < map.len() {
        assert((2 * c) / 2 == c);
        assert((2 * c + 1) / 2 == c);
        assert(map[2 * c] == gid_map_byte(font, used, 2 * c));
        assert(map[2 * c + 1] == gid_map_byte(font, used, 2 * c + 1));
    }
}

/// Bytes `2c` and `2c + 1` of a CIDToGIDMap hold glyph `g` big-endian, or
/// glyph 0 when there is none.
pub open spec fn holds_glyph(map: Seq<u8>, c: u16, g: Option<u16>) -> bool {
    &&& 2 * c + 1 < map.len()
    &&& match g {
        Some(g) => map[2 * c] == (g / 256) as u8 && map[2 * c + 1] == (g % 256) as u8,
        None => map[2 * c] == 0 && map[2 * c + 1] == 0,
    }
}

/// In the CIDToGIDMap, every used code that is a character holds the glyph
/// that the font maps that character to (glyph 0 when it maps none), every
/// used surrogate half holds glyph 0, and so does every code that is not
/// used.
pub proof fn lemma_gid_map_glyphs(font: Seq<u8>, used: Set<u16>, map: Seq<u8>, c: u16)
    requires
        is_gid_map(font, used, map),
    ensures
        used.contains(c) && !(0xD800 <= c <= 0xDFFF) ==> holds_glyph(
            map,
            c,
            ttf_glyph_index(font, c as char),
        ),
        used.contains(c) && 0xD800 <= c <= 0xDFFF ==> holds_glyph(map, c, None),
        !used.contains(c) && 2 * c + 1 < map.len() ==> holds_glyph(map, c, None),
{
    lemma_gid_map_covers(font, used, map, c);
}

proof fn lemma_char_of(cid: u16, ch: char)
    requires
        ch as u32 == cid as u32,
    ensures
        char_of(cid) == ch,
{
}

/// The glyph of a character code, asked of the font program.
fn glyph_of_cid(font_data: &[u8], cid: u16) -> (g: Option<u16>)
    requires
        ttf_face_parses(font_data@),
    ensures
        g == cid_glyph(font_data@, cid),
{
    match char_from_u32(cid as u32) {
        Some(ch) => {
            proof {
                lemma_char_of(cid, ch);
            }
            face_glyph_index(font_data, ch)
        },
        None => None,
    }
}

/// Builds the CIDToGIDMap stream of a Type0 font whose character codes are
/// UTF-16 code units: two bytes per code from 0 up to the largest used code
/// (at least the space), holding the glyph id of each used code that the
/// font maps, and 0 elsewhere. Fails when the font program does not parse.
pub fn create_cid_to_gid_map(font_data: &[u8], used_utf16: &BTreeSet<u16>) -> (r: Result<
    Vec<u8>,
    AppError,
>)
    ensures
        r is Ok <==> ttf_face_parses(font_data@),
        r matches Ok(map) ==> is_gid_map(font_data@, used_utf16@, map@) && map@ == cid_to_gid_map_of(
            font_data@,
            used_utf16@,
        ),
        r matches Ok(map) ==> forall|c: u16|
            #[trigger] used_utf16@.contains(c) ==> holds_glyph(
                map@,
                c,
                if 0xD800 <= c <= 0xDFFF {
                    None
                } else {
                    ttf_glyph_index(font_data@, c as char)
                },
            ),
        r matches Err(e) ==> e is Pdfium && starts_with(
            e.text(),
            "No se pudo parsear TTF para CIDToGIDMap: "@,
        ),
{
    match parse_face(font_data) {
        Err(e) => {
            let detail = face_error_text(&e);
            return Err(
                AppError::Pdfium(
                    with_detail("No se pudo parsear TTF para CIDToGIDMap: ", detail.as_str()),
                ),
            );
        },
        Ok(()) => {},
    }
    let codes = crate::cmap::sorted_members(used_utf16);
    let n = codes.len();
    let mut max_cid: u16 = if n == 0 {
        0x20
    } else {
        codes[n - 1]
    };
    if max_cid < 0x20 {
        max_cid = 0x20;
    }
    proof {
        assert forall|c: u16| used_utf16@.contains(c) implies c <= max_cid by {
            assert(codes@.to_set().contains(c));
            assert(codes@.contains(c));
            let k = choose|k: int| 0 <= k < n && codes@[k] == c;
            if k < n - 1 {
                assert(codes@[k] < codes@[n - 1]);
            }
        }
        if max_cid != 0x20 {
            assert(codes@.contains(codes@[n - 1]));
            assert(codes@.to_set().contains(codes@[n - 1]));
        }
    }
    let len: usize = (max_cid as usize + 1) * 2;
    let mut map: Vec<u8> = Vec::new();
    let mut j: usize = 0;
    while j < len
        invariant
            j <= len,
            map@.len() == j,
            forall|i: int| 0 <= i < j ==> map@[i] == 0u8,
        decreases len - j,
    {
        map.push(0u8);
        j = j + 1;
    }
    let mut k: usize = 0;
    while k < n
        invariant
            n == codes@.len(),
            k <= n,
            crate::cmap::strictly_increasing(codes@),
            codes@.to_set() == used_utf16@,
            ttf_face_parses(font_data@),
            len == (max_cid as int + 1) * 2,
            map@.len() == len,
            forall|c: u16| used_utf16@.contains(c) ==> c <= max_cid,
            forall|i: int|
                0 <= i < len ==> map@[i] == (if codes@.take(k as int).contains((i / 2) as u16) {
                    gid_map_byte(font_data@, used_utf16@, i)
                } else {
                    0u8
                }),
        decreases n - k,
    {
        let cid = codes[k];
        proof {
            assert(codes@.contains(cid));
            assert(codes@.to_set().contains(cid));
        }
        let g = glyph_of_cid(font_data, cid);
        match g {
            Some(gid) => {
                let idx: usize = cid as usize * 2;
                map.set(idx, (gid / 256) as u8);
                map.set(idx + 1, (gid % 256) as u8);
            },
            None => {},
        }
        proof {
            let t0 = codes@.take(k as int);
            let t1 = codes@.take(k + 1);
            assert(t1 =~= t0.push(cid));
            assert forall|i: int| 0 <= i < len implies map@[i] == (if t1.contains((i / 2) as u16) {
                gid_map_byte(font_data@, used_utf16@, i)
            } else {
                0u8
            }) by {
                let c = (i / 2) as u16;
                assert(t1.contains(c) <==> (t0.contains(c) || c == cid)) by {
                    if t1.contains(c) {
                        let q = choose|q: int| 0 <= q < t1.len() && t1[q] == c;
                        if q < t0.len() {
                            assert(t0[q] == c);
                        }
                    }
                    if t0.contains(c) {
                        let q = choose|q: int| 0 <= q < t0.len() && t0[q] == c;
                        assert(t1[q] == c);
                    }
                    if c == cid {
                        assert(t1[k as int] == c);
                    }
                }
                if c == cid {
                    assert(!t0.contains(c)) by {
                        if t0.contains(c) {
                            let q = choose|q: int| 0 <= q < t0.len() && t0[q] == c;
                            assert(codes@[q] < codes@[k as int]);
                        }
                    }
                }
            }
        }
        k = k + 1;
    }
    proof {
        assert(codes@.take(n as int) =~= codes@);
        assert forall|i: int| 0 <= i < len implies map@[i] == gid_map_byte(
            font_data@,
            used_utf16@,
            i,
        ) by {
            let c = (i / 2) as u16;
            assert(codes@.contains(c) <==> codes@.to_set().contains(c));
        }
        assert((map@.len() / 2 - 1) as u16 == max_cid);
        lemma_gid_map_unique(font_data@, used_utf16@, map@);
        assert forall|c: u16| #[trigger] used_utf16@.contains(c) implies holds_glyph(
            map@,
            c,
            if 0xD800 <= c <= 0xDFFF {
                None
            } else {
                ttf_glyph_index(font_data@, c as char)
            },
        ) by {
            lemma_gid_map_glyphs(font_data@, used_utf16@, map@, c);
        }
    }
    Ok(map)
}

/// The advance width recorded for a glyph: the font's horizontal advance,
/// or 500 font units when the font gives none.
pub open spec fn glyph_advance(font: Seq<u8>, glyph: u16) -> u16 {
    match ttf_glyph_hor_advance(font, glyph) {
        Some(a) => a,
        None => 500,
    }
}

/// The `(code, advance)` entries of the codes in `codes` that have a glyph,
/// in the order of `codes`.
pub open spec fn advance_entries(font: Seq<u8>, codes: Seq<u16>) -> Seq<(u16, u16)>
    decreases codes.len(),
{
    if codes.len() == 0 {
        seq![]
    } else {
        let rest = advance_entries(font, codes.drop_last());
        let c = codes.last();
        match cid_glyph(font, c) {
            Some(g) => rest.push((c, glyph_advance(font, g))),
            None => rest,
        }
    }
}

/// The advance recorded for the character of code `c` in a font that maps
/// it to a glyph: the glyph's horizontal advance, or 500 when the font gives
/// none.
pub open spec fn mapped_advance(font: Seq<u8>, c: u16) -> u16 {
    match ttf_glyph_hor_advance(font, ttf_glyph_index(font, c as char)->0) {
        Some(a) => a,
        None => 500,
    }
}

/// Code `c` is a character (no surrogate half) that the font maps to a
/// glyph.
pub open spec fn font_maps(font: Seq<u8>, c: u16) -> bool {
    !(0xD800 <= c <= 0xDFFF) && ttf_glyph_index(font, c as char) is Some
}

proof fn lemma_advance_entries_props(font: Seq<u8>, codes: Seq<u16>)
    requires
        crate::cmap::strictly_increasing(codes),
    ensures
        ({
            let es = advance_entries(font, codes);
            &&& forall|i: int|
                0 <= i < es.len() ==> codes.contains(#[trigger] es[i].0) && font_maps(font, es[i].0)
                    && es[i].1 == mapped_advance(font, es[i].0)
            &&& forall|c: u16|
                codes.contains(c) && font_maps(font, c) ==> #[trigger] es.contains(
                    (c, mapped_advance(font, c)),
                )
            &&& forall|i: int, j: int| 0 <= i < j < es.len() ==> es[i].0 < es[j].0
        }),
    decreases codes.len(),
{
    if codes.len() > 0 {
        let p = codes.drop_last();
        let c = codes.last();
        lemma_advance_entries_props(font, p);
        let rest = advance_entries(font, p);
        let es = advance_entries(font, codes);
        assert forall|x: u16| p.contains(x) implies codes.contains(x) && x < c by {
            let k = choose|k: int| 0 <= k < p.len() && p[k] == x;
            assert(codes[k] == x);
        }
        assert(codes.contains(c)) by {
            assert(codes[codes.len() - 1] == c);
        }
        assert forall|x: u16| codes.contains(x) implies p.contains(x) || x == c by {
            let k = choose|k: int| 0 <= k < codes.len() && codes[k] == x;
            if k < codes.len() - 1 {
                assert(p[k] == x);
            }
        }
        match cid_glyph(font, c) {
            Some(g) => {
                assert(es == rest.push((c, glyph_advance(font, g))));
                assert forall|x: u16| codes.contains(x) && font_maps(font, x) implies #[trigger] es.contains(
                    (x, mapped_advance(font, x)),
                ) by {
                    if x == c {
                        assert(es[rest.len() as int] == (x, mapped_advance(font, x)));
                    } else {
                        assert(rest.contains((x, mapped_advance(font, x))));
                        let k = choose|k: int| 0 <= k < rest.len() && rest[k] == (x, mapped_advance(font, x));
                        assert(es[k] == rest[k]);
                    }
                }
                assert forall|i: int| 0 <= i < es.len() implies codes.contains(#[trigger] es[i].0)
                    && font_maps(font, es[i].0) && es[i].1 == mapped_advance(font, es[i].0) by {
                    if i < rest.len() {
                        assert(es[i] == rest[i]);
                    }
                }
                assert forall|i: int, j: int| 0 <= i < j < es.len() implies es[i].0 < es[j].0 by {
                    if j < rest.len() {
                        assert(es[i] == rest[i] && es[j] == rest[j]);
                    } else {
                        assert(es[i] == rest[i]);
                        assert(p.contains(rest[i].0));
                    }
                }
            },
            None => {
                assert(es == rest);
                assert forall|x: u16| codes.contains(x) && font_maps(font, x) implies #[trigger] es.contains(
                    (x, mapped_advance(font, x)),
                ) by {
                    assert(x != c);
                }
            },
        }
    }
}

/// The glyph advance entries of the used codes: one for every used code
/// that is a character the font maps to a glyph, with that glyph's
/// horizontal advance (500 when the font gives none), in increasing order of
/// code, and no other.
pub proof fn lemma_advance_entries_of_used(font: Seq<u8>, used: Set<u16>)
    ensures
        ({
            let es = advance_entries(font, crate::cmap::ascending(used));
            &&& forall|c: u16|
                used.contains(c) && font_maps(font, c) ==> #[trigger] es.contains(
                    (c, mapped_advance(font, c)),
                )
            &&& forall|i: int|
                0 <= i < es.len() ==> used.contains(#[trigger] es[i].0) && font_maps(font, es[i].0)
                    && es[i].1 == mapped_advance(font, es[i].0)
            &&& forall|i: int, j: int| 0 <= i < j < es.len() ==> es[i].0 < es[j].0
        }),
{
    let codes = crate::cmap::ascending(used);
    crate::cmap::lemma_ascending_exists(used);
    lemma_advance_entries_props(font, codes);
    assert forall|c: u16| codes.contains(c) <==> used.contains(c) by {
        assert(codes.to_set().contains(c) <==> codes.contains(c));
    }
}

/// What the `W` (glyph widths) array of a CID font is computed from.
#[derive(Debug, Clone, PartialEq, Eq)]
pub struct CidAdvances {
    /// The font's design units per em.
    pub units_per_em: u16,
    /// Each used code that has a glyph, in increasing order, with the
    /// glyph's advance in font units.
    pub entries: Vec<(u16, u16)>,
}

/// Collects, for each used code that the font draws with a glyph (in
/// increasing order), the glyph's horizontal advance (500 units when the
/// font gives none), along with the font's units per em. Fails when the font
/// program does not parse.
pub fn cid_glyph_advances(font_data: &[u8], used_utf16: &BTreeSet<u16>) -> (r: Result<
    CidAdvances,
    AppError,
>)
    ensures
        r is Ok <==> ttf_face_parses(font_data@),
        r matches Ok(a) ==> a.units_per_em == ttf_units_per_em(font_data@) && a.entries@
            == advance_entries(font_data@, crate::cmap::ascending(used_utf16@)),
        r matches Ok(a) ==> forall|c: u16|
            used_utf16@.contains(c) && font_maps(font_data@, c) ==> #[trigger] a.entries@.contains(
                (c, mapped_advance(font_data@, c)),
            ),
        r matches Ok(a) ==> forall|i: int|
            0 <= i < a.entries@.len() ==> used_utf16@.contains(#[trigger] a.entries@[i].0) && font_maps(
                font_data@,
                a.entries@[i].0,
            ) && a.entries@[i].1 == mapped_advance(font_data@, a.entries@[i].0),
        r matches Ok(a) ==> forall|i: int, j: int|
            0 <= i < j < a.entries@.len() ==> a.entries@[i].0 < a.entries@[j].0,
        r matches Err(e) ==> e is Pdfium && starts_with(
            e.text(),
            "No se pudo parsear TTF para anchos CID: "@,
        ),
{
    match parse_face(font_data) {
        Err(e) => {
            let detail = face_error_text(&e);
            return Err(
                AppError::Pdfium(
                    with_detail("No se pudo parsear TTF para anchos CID: ", detail.as_str()),
                ),
            );
        },
        Ok(()) => {},
    }
    let units_per_em = face_units_per_em(font_data);
    let codes = crate::cmap::sorted_members(used_utf16);
    proof {
        crate::cmap::lemma_ascending(used_utf16@, codes@);
    }
    let n = codes.len();
    let mut entries: Vec<(u16, u16)> = Vec::new();
    let mut k: usize = 0;
    while k < n
        invariant
            n == codes@.len(),
            k <= n,
            ttf_face_parses(font_data@),
            entries@ == advance_entries(font_data@, codes@.take(k as int)),
        decreases n - k,
    {
        let cid = codes[k];
        match glyph_of_cid(font_data, cid) {
            Some(g) => {
                let advance = match face_glyph_hor_advance(font_data, g) {
                    Some(a) => a,
                    None => 500,
                };
                entries.push((cid, advance));
            },
            None => {},
        }
        proof {
            assert(codes@.take(k + 1).drop_last() =~= codes@.take(k as int));
            assert(codes@.take(k + 1).last() == cid);
        }
        k = k + 1;
    }
    proof {
        assert(codes@.take(n as int) =~= codes@);
        lemma_advance_entries_of_used(font_data@, used_utf16@);
    }
    Ok(CidAdvances { units_per_em, entries })
}

} // verus!
