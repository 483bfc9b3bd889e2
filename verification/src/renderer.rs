//! What a Unicode text draw on a PDF page shows: the font resource it uses
//! and its text as a UTF-16BE string for an `Identity-H` Type0 font.

use vstd::prelude::*;
use crate::font::OverlayFontNames;
use crate::text::{encode_utf16_be_no_bom, utf16_be};

verus! {

/// A copy of a byte vector.
fn copy_bytes(v: &Vec<u8>) -> (c: Vec<u8>)
    ensures
        c@ == v@,
{
    let c = v.clone();
    proof {
        assert(c@ =~= v@);
    }
    c
}

/// The font resource a draw uses: the one it names, or, when it names none,
/// the overlay bold font for bold text and the regular one otherwise.
pub open spec fn draw_font(font_name: Seq<u8>, is_bold: bool, fonts: OverlayFontNames) -> Seq<u8> {
    if font_name.len() == 0 {
        if is_bold {
            fonts.bold@
        } else {
            fonts.regular@
        }
    } else {
        font_name
    }
}

/// A draw that names a font uses that font, bold or not; one that names
/// none uses the overlay bold font for bold text and the regular one
/// otherwise.
pub proof fn lemma_draw_font_choice(font_name: Seq<u8>, is_bold: bool, fonts: OverlayFontNames)
    ensures
        font_name.len() > 0 ==> draw_font(font_name, is_bold, fonts) == font_name,
        font_name.len() == 0 && is_bold ==> draw_font(font_name, is_bold, fonts) == fonts.bold@,
        font_name.len() == 0 && !is_bold ==> draw_font(font_name, is_bold, fonts) == fonts.regular@,
{
}

/// The font resource and the shown bytes of a text draw.
#[derive(Debug, Clone, PartialEq, Eq)]
pub struct TextShow {
    /// The font resource name for the `Tf` operator.
    pub font_name: Vec<u8>,
    /// The text as UTF-16BE bytes for the `Tj` operator.
    pub encoded_text: Vec<u8>,
}

/// The font resource and the shown bytes of a text draw: the text encoded
/// as UTF-16BE without a byte order mark, and the draw's font, or the
/// overlay bold or regular font when it names none.
pub fn text_show(text: &str, is_bold: bool, font_name: &Vec<u8>, fonts: &OverlayFontNames) -> (s: TextShow)
    ensures
        s.encoded_text@ == utf16_be(text@),
        s.font_name@ == draw_font(font_name@, is_bold, *fonts),
        font_name@.len() > 0 ==> s.font_name@ == font_name@,
        font_name@.len() == 0 && is_bold ==> s.font_name@ == fonts.bold@,
        font_name@.len() == 0 && !is_bold ==> s.font_name@ == fonts.regular@,
{
    let encoded_text = encode_utf16_be_no_bom(text);
    let name = if font_name.len() == 0 {
        if is_bold {
            copy_bytes(&fonts.bold)
        } else {
            copy_bytes(&fonts.regular)
        }
    } else {
        copy_bytes(font_name)
    };
    TextShow { font_name: name, encoded_text }
}

} // verus!
