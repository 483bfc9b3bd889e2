//! Overlay fonts for drawing Unicode text on a PDF page: the page's font
//! resources, and the embedded Type0 fonts with their CID font, CIDToGIDMap
//! and ToUnicode CMap.

use std::collections::BTreeSet;
use vstd::prelude::*;
use crate::error::{AppError, starts_with, with_detail};
use crate::pdf::{
    PdfState, PdfValue, add_value, dict_at, dict_get, dict_new, dict_set, doc_add_object, doc_get_object,
    doc_get_object_mut, key, key_bytes, lopdf_error_text, next_id, no_entries, obj_dictionary,
    obj_reference, object_as_dict, object_as_dict_mut, object_as_reference, object_clone, pdf_max_id, doc_max_id,
    pdf_state, pdf_objects, set_entry, next_ids_free, lemma_add_fresh, obj_integer, obj_name, obj_array, obj_stream,
    obj_literal_string, object_value, lookup, lemma_resolve_add, lemma_resolve_replace,
    lemma_resolve_target,
};

verus! {

/// The resource names under which the overlay fonts are registered.
#[derive(Debug, Clone, PartialEq, Eq)]
pub struct OverlayFontNames {
    pub regular: Vec<u8>,
    pub bold: Vec<u8>,
}

/// The error texts for the stages of linking an entry of a dictionary.
pub struct LinkMessages<'a> {
    pub open: &'a str,
    pub not_dict: &'a str,
    pub open_mut: &'a str,
    pub not_dict_mut: &'a str,
}

/// The value of the object that linking entry `k` of `d` creates: the
/// entry's dictionary when it holds one inline, else an empty dictionary.
pub open spec fn linked_value(d: Map<Seq<u8>, PdfValue>, k: Seq<u8>) -> PdfValue {
    if d.contains_key(k) && d[k] is Dict {
        d[k]
    } else {
        PdfValue::Dict(no_entries())
    }
}

/// The step at which linking an entry fails.
pub enum LinkStage {
    /// The holder cannot be looked up.
    Open,
    /// The holder is no dictionary.
    NotDict,
    /// After the new object is added, the holder cannot be looked up.
    OpenAgain,
    /// After the new object is added, the holder is no dictionary.
    NotDictAgain,
}

/// The step at which linking entry `k` of `holder` fails, when it fails.
pub open spec fn link_failure(s: PdfState, holder: (u32, u16), k: Seq<u8>) -> LinkStage {
    if lookup(s.objects, holder) is None {
        LinkStage::Open
    } else if dict_at(s.objects, holder) is None {
        LinkStage::NotDict
    } else if lookup(add_value(s, linked_value(dict_at(s.objects, holder)->0, k)).objects, holder) is None {
        LinkStage::OpenAgain
    } else {
        LinkStage::NotDictAgain
    }
}

/// The error text prefix of a failed step.
pub open spec fn stage_prefix(stage: LinkStage, msgs: LinkMessages) -> Seq<char> {
    match stage {
        LinkStage::Open => msgs.open@,
        LinkStage::NotDict => msgs.not_dict@,
        LinkStage::OpenAgain => msgs.open_mut@,
        LinkStage::NotDictAgain => msgs.not_dict_mut@,
    }
}

/// Makes entry `k` of the dictionary that `holder` looks up to refer to a
/// dictionary object, and gives that object's id: a reference already there
/// is kept as it is; an inline dictionary is moved into a new object; a
/// missing entry or any other value gives a new empty dictionary object. In
/// the last two cases the entry is then set to refer to the new object.
/// `None` when `holder` looks up to no dictionary.
pub open spec fn link_entry(s: PdfState, holder: (u32, u16), k: Seq<u8>) -> (PdfState, Option<
    (u32, u16),
>) {
    match dict_at(s.objects, holder) {
        None => (s, None),
        Some(d) => if d.contains_key(k) && d[k] is Reference {
            (s, Some((d[k]->Reference_0, d[k]->Reference_1)))
        } else {
            let s1 = add_value(s, linked_value(d, k));
            let id = next_id(s);
            match set_entry(s1, holder, k, PdfValue::Reference(id.0, id.1)) {
                Some(s2) => (s2, Some(id)),
                None => (s1, None),
            }
        },
    }
}

/// Linking entry `k` of `holder` adds an object: the holder is a dictionary
/// whose entry holds no reference.
pub open spec fn link_adds(s: PdfState, holder: (u32, u16), k: Seq<u8>) -> bool {
    &&& dict_at(s.objects, holder) is Some
    &&& !(dict_at(s.objects, holder)->0.contains_key(k) && dict_at(s.objects, holder)->0[k] is Reference)
}

/// `lopdf` has an object number left for each object that ensuring the
/// page's font resources adds (it panics when it has none).
pub open spec fn page_font_resources_fits(s: PdfState, page_id: (u32, u16)) -> bool {
    let (s1, r) = link_entry(s, page_id, key("Resources"));
    &&& link_adds(s, page_id, key("Resources")) ==> s.max_id < u32::MAX
    &&& r is Some ==> (link_adds(s1, r->0, key("Font")) ==> s1.max_id < u32::MAX)
}

/// The page's font resources: the page's `Resources` entry is linked to a
/// dictionary object, and that dictionary's `Font` entry to another one,
/// whose id is the result.
pub open spec fn page_font_resources(s: PdfState, page_id: (u32, u16)) -> (PdfState, Option<
    (u32, u16),
>) {
    let (s1, r) = link_entry(s, page_id, key("Resources"));
    match r {
        Some(rid) => link_entry(s1, rid, key("Font")),
        None => (s1, None),
    }
}

fn pdf_error(prefix: &str, e: &lopdf::Error) -> (r: AppError)
    ensures
        r is Pdfium,
        starts_with(r.text(), prefix@),
{
    let detail = lopdf_error_text(e);
    let r = AppError::Pdfium(with_detail(prefix, detail.as_str()));
    proof {
        assert(r.text().subrange(0, prefix@.len() as int) =~= prefix@);
    }
    r
}

/// Links entry `k` of the dictionary that `holder` looks up to, as
/// `link_entry` describes.
fn link_dictionary_entry(
    document: &mut lopdf::Document,
    holder: (u32, u16),
    k: &str,
    msgs: &LinkMessages,
) -> (r: Result<(u32, u16), AppError>)
    requires
        link_adds(pdf_state(*old(document)), holder, key(k)) ==> pdf_max_id(*old(document))
            < u32::MAX,
    ensures
        pdf_state(*final(document)) == link_entry(pdf_state(*old(document)), holder, key(k)).0,
        r matches Ok(id) ==> link_entry(pdf_state(*old(document)), holder, key(k)).1 == Some(id),
        r is Err ==> link_entry(pdf_state(*old(document)), holder, key(k)).1 is None,
        r matches Err(e) ==> e is Pdfium && starts_with(
            e.text(),
            stage_prefix(link_failure(pdf_state(*old(document)), holder, key(k)), *msgs),
        ),
{
    let ghost s = pdf_state(*document);
    let kb = key_bytes(k);
    let existing: Option<lopdf::Object> = {
        let obj = match doc_get_object(document, holder) {
            Ok(o) => o,
            Err(e) => {
                return Err(pdf_error(msgs.open, &e));
            },
        };
        let dict = match object_as_dict(obj) {
            Ok(d) => d,
            Err(e) => {
                return Err(pdf_error(msgs.not_dict, &e));
            },
        };
        match dict_get(dict, kb.as_slice()) {
            Ok(o) => Some(object_clone(o)),
            Err(_) => None,
        }
    };
    let ghost d = dict_at(s.objects, holder)->0;
    let value = match existing {
        Some(o) => {
            match object_as_reference(&o) {
                Ok(id) => {
                    return Ok(id);
                },
                Err(_) => {},
            }
            let is_dict = object_as_dict(&o).is_ok();
            if is_dict {
                o
            } else {
                obj_dictionary(dict_new())
            }
        },
        None => obj_dictionary(dict_new()),
    };
    let new_id = doc_add_object(document, value);
    let ghost s1 = pdf_state(*document);
    match doc_get_object(document, holder) {
        Err(e) => {
            return Err(pdf_error(msgs.open_mut, &e));
        },
        Ok(obj) => match object_as_dict(obj) {
            Err(e) => {
                return Err(pdf_error(msgs.not_dict_mut, &e));
            },
            Ok(_) => {},
        },
    }
    let obj = doc_get_object_mut(document, holder);
    let dict = object_as_dict_mut(obj);
    dict_set(dict, kb, obj_reference(new_id));
    Ok(new_id)
}

/// The error text prefix of the page's step at which ensuring the page's
/// font resources fails.
pub open spec fn page_stage_prefix(stage: LinkStage) -> Seq<char> {
    match stage {
        LinkStage::Open => "No se pudo abrir pagina: "@,
        LinkStage::NotDict => "Pagina no es diccionario: "@,
        LinkStage::OpenAgain => "No se pudo abrir pagina mutable: "@,
        LinkStage::NotDictAgain => "Pagina mutable no es diccionario: "@,
    }
}

/// The error text prefix of the resources' step at which ensuring the
/// page's font resources fails.
pub open spec fn resources_stage_prefix(stage: LinkStage) -> Seq<char> {
    match stage {
        LinkStage::Open => "No se pudo abrir Resources: "@,
        LinkStage::NotDict => "Resources no es diccionario: "@,
        LinkStage::OpenAgain => "No se pudo abrir Resources mutable: "@,
        LinkStage::NotDictAgain => "Resources mutable no es diccionario: "@,
    }
}

/// The error text prefix when ensuring the page's font resources fails:
/// that of the failed step of linking the page's `Resources`, or else that
/// of linking the resources' `Font`.
pub open spec fn page_font_resources_failure(s: PdfState, page_id: (u32, u16)) -> Seq<char> {
    let (s1, r) = link_entry(s, page_id, key("Resources"));
    match r {
        None => page_stage_prefix(link_failure(s, page_id, key("Resources"))),
        Some(rid) => resources_stage_prefix(link_failure(s1, rid, key("Font"))),
    }
}

/// Makes sure the page has a `Resources` dictionary object with a `Font`
/// dictionary object in it, moving inline dictionaries into objects of
/// their own and creating empty ones where there are none, and returns the
/// id of the `Font` dictionary object. References already in place are
/// kept as they are.
pub fn ensure_page_font_resources(document: &mut lopdf::Document, page_id: (u32, u16)) -> (r: Result<
    (u32, u16),
    AppError,
>)
    requires
        page_font_resources_fits(pdf_state(*old(document)), page_id),
    ensures
        pdf_state(*final(document)) == page_font_resources(pdf_state(*old(document)), page_id).0,
        r matches Ok(id) ==> page_font_resources(pdf_state(*old(document)), page_id).1 == Some(id),
        r is Err ==> page_font_resources(pdf_state(*old(document)), page_id).1 is None,
        r matches Err(e) ==> e is Pdfium && starts_with(
            e.text(),
            page_font_resources_failure(pdf_state(*old(document)), page_id),
        ),
{
    let resources_id = link_dictionary_entry(document, page_id, "Resources", &page_messages())?;
    link_dictionary_entry(document, resources_id, "Font", &resources_messages())
}

/// Entry `k` of `d` refers to the object `id`.
pub open spec fn refers(d: Map<Seq<u8>, PdfValue>, k: Seq<u8>, id: (u32, u16)) -> bool {
    d.contains_key(k) && d[k] == PdfValue::Reference(id.0, id.1)
}

/// The page's dictionary refers through `Resources` to a dictionary object
/// whose `Font` entry refers to `fonts_id`.
pub open spec fn font_resources_in_place(s: PdfState, page_id: (u32, u16), fonts_id: (u32, u16)) -> bool {
    exists|rid: (u32, u16)|
        {
            &&& dict_at(s.objects, page_id) is Some
            &&& refers(dict_at(s.objects, page_id)->0, key("Resources"), rid)
            &&& dict_at(s.objects, rid) is Some
            &&& refers(dict_at(s.objects, rid)->0, key("Font"), fonts_id)
        }
}

/// The keys `Font` and `Resources` are different.
pub proof fn lemma_font_resources_keys_differ()
    ensures
        key("Font") != key("Resources"),
{
    reveal_strlit("Font");
    reveal_strlit("Resources");
    broadcast use vstd::string::is_ascii_spec_bytes;

    assert(vstd::string::is_ascii("Font"));
    assert(vstd::string::is_ascii("Resources"));
    assert(key("Font").len() == 4);
    assert(key("Resources").len() == 9);
}

/// What one successful link does to a document where the number of the
/// object it may add is free: the entry refers to the result; every
/// dictionary that was looked up stays the same but for that entry; an
/// object is added only when `link_adds` says so; and the numbers after it
/// stay free.
proof fn lemma_link_entry_effect(s: PdfState, holder: (u32, u16), k: Seq<u8>)
    requires
        link_adds(s, holder, k) ==> s.max_id < u32::MAX && next_ids_free(s, 1),
        link_entry(s, holder, k).1 is Some,
    ensures
        ({
            let (s2, r) = link_entry(s, holder, k);
            let id = r->0;
            &&& !link_adds(s, holder, k) ==> s2 == s
            &&& link_adds(s, holder, k) ==> s2.max_id == s.max_id + 1 && forall|m: nat|
                next_ids_free(s, m + 1) ==> #[trigger] next_ids_free(s2, m)
            &&& dict_at(s2.objects, holder) is Some
            &&& refers(dict_at(s2.objects, holder)->0, k, id)
            &&& forall|x: (u32, u16)|
                #![trigger dict_at(s2.objects, x)]
                dict_at(s.objects, x) is Some ==> dict_at(s2.objects, x) is Some && (dict_at(
                    s2.objects,
                    x,
                )->0 == dict_at(s.objects, x)->0 || dict_at(s2.objects, x)->0 == dict_at(
                    s.objects,
                    x,
                )->0.insert(k, PdfValue::Reference(id.0, id.1)))
        }),
{
    let d = dict_at(s.objects, holder)->0;
    if d.contains_key(k) && d[k] is Reference {
        assert(refers(d, k, link_entry(s, holder, k).1->0));
    } else {
        let v = if d.contains_key(k) && d[k] is Dict {
            d[k]
        } else {
            PdfValue::Dict(no_entries())
        };
        let s1 = add_value(s, v);
        let n = next_id(s);
        lemma_add_fresh(s, v, 0);
        assert(!s.objects.contains_key(n));
        let th = lookup(s.objects, holder)->0;
        lemma_resolve_target(s.objects, holder, crate::pdf::deref_limit());
        lemma_resolve_add(s.objects, n, v, holder, crate::pdf::deref_limit());
        assert(dict_at(s1.objects, holder) == dict_at(s.objects, holder));
        let ref_v = PdfValue::Reference(n.0, n.1);
        let s2 = set_entry(s1, holder, k, ref_v)->0;
        assert(s1.objects[th] is Dict);
        assert forall|x: (u32, u16)| dict_at(s.objects, x) is Some implies dict_at(s2.objects, x)
            is Some && (dict_at(s2.objects, x)->0 == dict_at(s.objects, x)->0 || dict_at(
            s2.objects,
            x,
        )->0 == dict_at(s.objects, x)->0.insert(k, ref_v)) by {
            let tx = lookup(s.objects, x)->0;
            lemma_resolve_target(s.objects, x, crate::pdf::deref_limit());
            lemma_resolve_add(s.objects, n, v, x, crate::pdf::deref_limit());
            lemma_resolve_replace(
                s1.objects,
                th,
                PdfValue::Dict(d.insert(k, ref_v)),
                x,
                crate::pdf::deref_limit(),
            );
        }
        lemma_resolve_replace(
            s1.objects,
            th,
            PdfValue::Dict(d.insert(k, ref_v)),
            holder,
            crate::pdf::deref_limit(),
        );
        assert(dict_at(s2.objects, holder)->0 == d.insert(k, ref_v));
        assert(refers(d.insert(k, ref_v), k, n));
        assert forall|m: nat| next_ids_free(s, m + 1) implies #[trigger] next_ids_free(s2, m) by {
            lemma_add_fresh(s, v, m);
            assert forall|id: (u32, u16)| #[trigger] s2.objects.contains_key(id) && id.1 == 0 implies id.0
                <= s2.max_id || id.0 > s2.max_id + m by {
                assert(s1.objects.contains_key(id));
            }
        }
    }
}

/// The number of objects that ensuring the page's font resources adds.
pub open spec fn page_font_resources_adds(s: PdfState, page_id: (u32, u16)) -> nat {
    (page_font_resources(s, page_id).0.max_id - s.max_id) as nat
}

/// After the page's font resources are ensured on a document where the
/// numbers of the objects this adds are free, the page's dictionary refers
/// through `Resources` to a dictionary object whose `Font` entry refers to
/// the returned id, and the numbers after them stay free.
pub proof fn lemma_page_font_resources_in_place(s: PdfState, page_id: (u32, u16))
    requires
        page_font_resources_fits(s, page_id),
        page_font_resources(s, page_id).1 is Some,
        next_ids_free(s, page_font_resources_adds(s, page_id)),
    ensures
        font_resources_in_place(
            page_font_resources(s, page_id).0,
            page_id,
            page_font_resources(s, page_id).1->0,
        ),
        page_font_resources_adds(s, page_id) <= 2,
        forall|m: nat|
            next_ids_free(s, m + page_font_resources_adds(s, page_id)) ==> #[trigger] next_ids_free(
                page_font_resources(s, page_id).0,
                m,
            ),
{
    let (s1, r1) = link_entry(s, page_id, key("Resources"));
    let a1 = link_adds(s, page_id, key("Resources"));
    lemma_link_entry_effect(s, page_id, key("Resources"));
    let rid = r1->0;
    let (s2, r2) = link_entry(s1, rid, key("Font"));
    let a2 = link_adds(s1, rid, key("Font"));
    if a1 {
        if a2 {
            assert(next_ids_free(s1, 1));
        }
    }
    lemma_link_entry_effect(s1, rid, key("Font"));
    let fid = r2->0;
    lemma_font_resources_keys_differ();
    assert(dict_at(s1.objects, page_id) is Some);
    let pd1 = dict_at(s1.objects, page_id)->0;
    let pd2 = dict_at(s2.objects, page_id)->0;
    assert(pd2 == pd1 || pd2 == pd1.insert(key("Font"), PdfValue::Reference(fid.0, fid.1)));
    assert(refers(pd2, key("Resources"), rid));
    assert(font_resources_in_place(s2, page_id, fid));
    assert forall|m: nat|
        next_ids_free(s, m + page_font_resources_adds(s, page_id)) implies #[trigger] next_ids_free(
        s2,
        m,
    ) by {
        if a1 {
            if a2 {
                assert(next_ids_free(s1, m + 1));
            }
        } else {
            if a2 {
                assert(next_ids_free(s1, m + 1));
            }
        }
    }
}

/// Ensuring the page's font resources where they are already in place
/// changes nothing and returns the `Font` dictionary object already
/// referred to.
pub proof fn lemma_page_font_resources_idempotent(
    s: PdfState,
    page_id: (u32, u16),
    fonts_id: (u32, u16),
)
    requires
        font_resources_in_place(s, page_id, fonts_id),
    ensures
        page_font_resources(s, page_id) == (s, Some(fonts_id)),
{
    let rid = choose|rid: (u32, u16)|
        {
            &&& dict_at(s.objects, page_id) is Some
            &&& refers(dict_at(s.objects, page_id)->0, key("Resources"), rid)
            &&& dict_at(s.objects, rid) is Some
            &&& refers(dict_at(s.objects, rid)->0, key("Font"), fonts_id)
        };
    assert(link_entry(s, page_id, key("Resources")) == (s, Some(rid)));
    assert(link_entry(s, rid, key("Font")) == (s, Some(fonts_id)));
}

/// Ensuring the page's font resources a second time, right after it
/// succeeded on a document where the numbers of the objects it added were
/// free, changes nothing and returns the same `Font` dictionary object.
pub proof fn lemma_page_font_resources_twice(s: PdfState, page_id: (u32, u16))
    requires
        page_font_resources_fits(s, page_id),
        page_font_resources(s, page_id).1 is Some,
        next_ids_free(s, page_font_resources_adds(s, page_id)),
    ensures
        page_font_resources(page_font_resources(s, page_id).0, page_id) == page_font_resources(
            s,
            page_id,
        ),
{
    lemma_page_font_resources_in_place(s, page_id);
    lemma_page_font_resources_idempotent(
        page_font_resources(s, page_id).0,
        page_id,
        page_font_resources(s, page_id).1->0,
    );
}

/// An integer object's value.
pub open spec fn int_v(i: i64) -> PdfValue {
    PdfValue::Integer(i)
}

/// A name object's value.
pub open spec fn name_v(n: &str) -> PdfValue {
    PdfValue::Name(key(n))
}

/// A reference's value.
pub open spec fn ref_v(id: (u32, u16)) -> PdfValue {
    PdfValue::Reference(id.0, id.1)
}

/// The embedded font program: a stream holding the TrueType data, with
/// `Length1` (and `Length`) its size.
#[verifier::opaque]
pub open spec fn font_file_value(font: Seq<u8>) -> PdfValue {
    PdfValue::Stream(
        no_entries().insert(key("Length1"), int_v(font.len() as i64)).insert(
            key("Length"),
            int_v(font.len() as i64),
        ),
        font,
    )
}

/// The font descriptor of an embedded font.
#[verifier::opaque]
pub open spec fn font_descriptor_value(font_name: Seq<u8>, file_id: (u32, u16)) -> PdfValue {
    PdfValue::Dict(
        no_entries().insert(key("Type"), name_v("FontDescriptor")).insert(
            key("FontName"),
            PdfValue::Name(font_name),
        ).insert(key("Flags"), int_v(32)).insert(
            key("FontBBox"),
            PdfValue::Array(seq![int_v(0), int_v(-200i64), int_v(1000), int_v(900)]),
        ).insert(key("ItalicAngle"), int_v(0)).insert(key("Ascent"), int_v(800)).insert(
            key("Descent"),
            int_v(-200i64),
        ).insert(key("CapHeight"), int_v(700)).insert(key("StemV"), int_v(80)).insert(
            key("FontFile2"),
            ref_v(file_id),
        ),
    )
}

/// A stream with an otherwise empty dictionary.
#[verifier::opaque]
pub open spec fn plain_stream_value(content: Seq<u8>) -> PdfValue {
    PdfValue::Stream(no_entries().insert(key("Length"), int_v(content.len() as i64)), content)
}

/// The descendant CID font of a Type0 font.
#[verifier::opaque]
pub open spec fn cid_font_value(
    font_name: Seq<u8>,
    descriptor_id: (u32, u16),
    gid_map_id: (u32, u16),
    widths: PdfValue,
) -> PdfValue {
    PdfValue::Dict(
        no_entries().insert(key("Type"), name_v("Font")).insert(
            key("Subtype"),
            name_v("CIDFontType2"),
        ).insert(key("BaseFont"), PdfValue::Name(font_name)).insert(
            key("CIDSystemInfo"),
            crate::font_info::cid_system_info_value(),
        ).insert(key("FontDescriptor"), ref_v(descriptor_id)).insert(
            key("CIDToGIDMap"),
            ref_v(gid_map_id),
        ).insert(key("DW"), int_v(500)).insert(key("W"), widths),
    )
}

/// The Type0 font with `Identity-H` encoding.
#[verifier::opaque]
pub open spec fn type0_font_value(
    font_name: Seq<u8>,
    cid_font_id: (u32, u16),
    to_unicode_id: (u32, u16),
) -> PdfValue {
    PdfValue::Dict(
        no_entries().insert(key("Type"), name_v("Font")).insert(key("Subtype"), name_v("Type0")).insert(
            key("BaseFont"),
            PdfValue::Name(font_name),
        ).insert(key("Encoding"), name_v("Identity-H")).insert(
            key("DescendantFonts"),
            PdfValue::Array(seq![ref_v(cid_font_id)]),
        ).insert(key("ToUnicode"), ref_v(to_unicode_id)),
    )
}

/// The document after a font is embedded: six new objects, in this order:
/// the font program, its descriptor, the CIDToGIDMap stream, the CID font,
/// the ToUnicode CMap stream and the Type0 font.
pub open spec fn embedded_font_state(
    s: PdfState,
    font_name: Seq<u8>,
    font: Seq<u8>,
    gid_map: Seq<u8>,
    cmap: Seq<u8>,
    widths: PdfValue,
) -> PdfState {
    let s1 = add_value(s, font_file_value(font));
    let s2 = add_value(s1, font_descriptor_value(font_name, next_id(s)));
    let s3 = add_value(s2, plain_stream_value(gid_map));
    let s4 = add_value(s3, cid_font_value(font_name, next_id(s1), next_id(s2), widths));
    let s5 = add_value(s4, plain_stream_value(cmap));
    add_value(s5, type0_font_value(font_name, next_id(s3), next_id(s4)))
}

/// The error of a failed embedding: the font program does not parse, or
/// else the widths could not be computed.
pub open spec fn embed_error(font: Seq<u8>, cid_widths: Result<lopdf::Object, AppError>, e: AppError) -> bool {
    if !crate::truetype::ttf_face_parses(font) {
        e is Pdfium && starts_with(e.text(), "No se pudo parsear TTF para CIDToGIDMap: "@)
    } else {
        cid_widths == Err::<lopdf::Object, AppError>(e)
    }
}

/// The id of the Type0 font among the six objects an embedding adds.
pub open spec fn embedded_font_id(s: PdfState) -> (u32, u16) {
    ((s.max_id + 6) as u32, 0u16)
}

fn int_obj_array4(a: i64, b: i64, c: i64, d: i64) -> (o: lopdf::Object)
    ensures
        object_value(o) == PdfValue::Array(seq![int_v(a), int_v(b), int_v(c), int_v(d)]),
{
    let mut v: Vec<lopdf::Object> = Vec::new();
    v.push(obj_integer(a));
    v.push(obj_integer(b));
    v.push(obj_integer(c));
    v.push(obj_integer(d));
    let o = obj_array(v);
    proof {
        assert(v@.map_values(|i: lopdf::Object| object_value(i)) =~= seq![
            int_v(a),
            int_v(b),
            int_v(c),
            int_v(d),
        ]);
    }
    o
}

fn set_name(d: &mut lopdf::Dictionary, k: &str, n: &str)
    ensures
        crate::pdf::dict_entries(*final(d)) == crate::pdf::dict_entries(*old(d)).insert(key(k), name_v(n)),
{
    dict_set(d, key_bytes(k), obj_name(key_bytes(n)));
}

fn set_int(d: &mut lopdf::Dictionary, k: &str, i: i64)
    ensures
        crate::pdf::dict_entries(*final(d)) == crate::pdf::dict_entries(*old(d)).insert(key(k), int_v(i)),
{
    dict_set(d, key_bytes(k), obj_integer(i));
}

fn set_ref(d: &mut lopdf::Dictionary, k: &str, id: (u32, u16))
    ensures
        crate::pdf::dict_entries(*final(d)) == crate::pdf::dict_entries(*old(d)).insert(key(k), ref_v(id)),
{
    dict_set(d, key_bytes(k), obj_reference(id));
}

fn font_descriptor(font_name: &str, file_id: (u32, u16)) -> (o: lopdf::Object)
    ensures
        object_value(o) == font_descriptor_value(key(font_name), file_id),
{
    reveal(font_descriptor_value);
    let mut d = dict_new();
    set_name(&mut d, "Type", "FontDescriptor");
    dict_set(&mut d, key_bytes("FontName"), obj_name(key_bytes(font_name)));
    set_int(&mut d, "Flags", 32);
    dict_set(&mut d, key_bytes("FontBBox"), int_obj_array4(0, -200, 1000, 900));
    set_int(&mut d, "ItalicAngle", 0);
    set_int(&mut d, "Ascent", 800);
    set_int(&mut d, "Descent", -200);
    set_int(&mut d, "CapHeight", 700);
    set_int(&mut d, "StemV", 80);
    set_ref(&mut d, "FontFile2", file_id);
    obj_dictionary(d)
}

fn cid_font(
    font_name: &str,
    descriptor_id: (u32, u16),
    gid_map_id: (u32, u16),
    widths: lopdf::Object,
) -> (o: lopdf::Object)
    ensures
        object_value(o) == cid_font_value(
            key(font_name),
            descriptor_id,
            gid_map_id,
            object_value(widths),
        ),
{
    reveal(cid_font_value);
    let mut d = dict_new();
    set_name(&mut d, "Type", "Font");
    set_name(&mut d, "Subtype", "CIDFontType2");
    dict_set(&mut d, key_bytes("BaseFont"), obj_name(key_bytes(font_name)));
    dict_set(&mut d, key_bytes("CIDSystemInfo"), crate::font_info::cid_system_info());
    set_ref(&mut d, "FontDescriptor", descriptor_id);
    set_ref(&mut d, "CIDToGIDMap", gid_map_id);
    set_int(&mut d, "DW", 500);
    dict_set(&mut d, key_bytes("W"), widths);
    obj_dictionary(d)
}

fn type0_font(font_name: &str, cid_font_id: (u32, u16), to_unicode_id: (u32, u16)) -> (o: lopdf::Object)
    ensures
        object_value(o) == type0_font_value(key(font_name), cid_font_id, to_unicode_id),
{
    reveal(type0_font_value);
    let mut d = dict_new();
    set_name(&mut d, "Type", "Font");
    set_name(&mut d, "Subtype", "Type0");
    dict_set(&mut d, key_bytes("BaseFont"), obj_name(key_bytes(font_name)));
    set_name(&mut d, "Encoding", "Identity-H");
    let mut fonts: Vec<lopdf::Object> = Vec::new();
    fonts.push(obj_reference(cid_font_id));
    let descendants = obj_array(fonts);
    proof {
        assert(fonts@.map_values(|i: lopdf::Object| object_value(i)) =~= seq![ref_v(cid_font_id)]);
    }
    dict_set(&mut d, key_bytes("DescendantFonts"), descendants);
    set_ref(&mut d, "ToUnicode", to_unicode_id);
    obj_dictionary(d)
}

/// Embeds a TrueType font program as a Type0 font with `Identity-H`
/// encoding whose character codes are UTF-16 code units, and returns the id
/// of the Type0 font object. Adds, in order: the font program stream, the
/// font descriptor, the CIDToGIDMap stream, the CID font (with the given
/// `W` widths array), the ToUnicode CMap stream and the Type0 font. Fails,
/// before adding anything, when the font program does not parse or the
/// widths could not be computed.
pub fn embed_type0_unicode_ttf(
    document: &mut lopdf::Document,
    font_name: &str,
    font_data: Vec<u8>,
    used_utf16: &BTreeSet<u16>,
    cid_widths: Result<lopdf::Object, AppError>,
) -> (r: Result<(u32, u16), AppError>)
    requires
        crate::truetype::ttf_face_parses(font_data@) && cid_widths is Ok ==> pdf_max_id(*old(document))
            <= u32::MAX - 6,
    ensures
        r is Ok <==> crate::truetype::ttf_face_parses(font_data@) && cid_widths is Ok,
        r matches Ok(id) ==> id == embedded_font_id(pdf_state(*old(document))) && pdf_state(*final(document))
            == embedded_font_state(
            pdf_state(*old(document)),
            key(font_name),
            font_data@,
            crate::truetype::cid_to_gid_map_of(font_data@, used_utf16@),
            crate::cmap::to_unicode_cmap(used_utf16@),
            object_value(cid_widths->Ok_0),
        ),
        r matches Ok(id) ==> crate::font_laws::embeds_program(
            pdf_objects(*final(document)),
            id,
            key(font_name),
            font_data@,
            object_value(cid_widths->Ok_0),
            used_utf16@,
        ),
        r is Err ==> pdf_state(*final(document)) == pdf_state(*old(document)),
        r matches Err(e) ==> embed_error(font_data@, cid_widths, e),
{
    let cid_to_gid_map = crate::truetype::create_cid_to_gid_map(font_data.as_slice(), used_utf16)?;
    let cid_widths = cid_widths?;
    let ghost s0 = pdf_state(*document);

    let font_len = font_data.len() as i64;
    let mut file_dict = dict_new();
    set_int(&mut file_dict, "Length1", font_len);
    let file_obj = obj_stream(file_dict, font_data);
    proof {
        reveal(font_file_value);
        assert(object_value(file_obj) == font_file_value(font_data@));
    }
    let font_file_id = doc_add_object(document, file_obj);
    let ghost s1 = pdf_state(*document);

    let font_descriptor_id = doc_add_object(document, font_descriptor(font_name, font_file_id));
    let ghost s2 = pdf_state(*document);

    let gid_obj = obj_stream(dict_new(), cid_to_gid_map);
    proof {
        reveal(plain_stream_value);
        assert(object_value(gid_obj) == plain_stream_value(cid_to_gid_map@));
    }
    let cid_to_gid_id = doc_add_object(document, gid_obj);
    let ghost s3 = pdf_state(*document);

    let cid_font_id = doc_add_object(
        document,
        cid_font(font_name, font_descriptor_id, cid_to_gid_id, cid_widths),
    );
    let ghost s4 = pdf_state(*document);

    let to_unicode_cmap = crate::cmap::create_to_unicode_cmap(used_utf16);
    let cmap_obj = obj_stream(dict_new(), to_unicode_cmap);
    proof {
        reveal(plain_stream_value);
        assert(object_value(cmap_obj) == plain_stream_value(to_unicode_cmap@));
    }
    let to_unicode_id = doc_add_object(document, cmap_obj);
    let ghost s5 = pdf_state(*document);

    let type0_id = doc_add_object(document, type0_font(font_name, cid_font_id, to_unicode_id));
    proof {
        assert(s1 == add_value(s0, font_file_value(font_data@)));
        assert(font_file_id == next_id(s0));
        assert(font_descriptor_id == next_id(s1));
        assert(cid_to_gid_id == next_id(s2));
        assert(cid_font_id == next_id(s3));
        assert(to_unicode_id == next_id(s4));
        crate::font_laws::lemma_embed_places_program(
            s0,
            key(font_name),
            font_data@,
            used_utf16@,
            object_value(cid_widths),
        );
    }
    Ok(type0_id)
}

/// A TrueType font program to embed, with the `W` widths array computed
/// for it (or the error met computing it).
pub struct FontProgram {
    pub data: Vec<u8>,
    pub cid_widths: Result<lopdf::Object, AppError>,
}

/// The four overlay font programs, each as read (or the error met reading
/// it): Helvetica, Helvetica Bold, Arial and Arial Bold.
pub struct OverlayFontPrograms {
    pub helvetica: Result<FontProgram, AppError>,
    pub helvetica_bold: Result<FontProgram, AppError>,
    pub arial: Result<FontProgram, AppError>,
    pub arial_bold: Result<FontProgram, AppError>,
}

/// What embedding a font program does to the document, and the id of the
/// Type0 font when it succeeds.
pub open spec fn embed_outcome(s: PdfState, font_name: Seq<u8>, p: FontProgram, used: Set<u16>) -> (
    PdfState,
    Option<(u32, u16)>,
) {
    if crate::truetype::ttf_face_parses(p.data@) && p.cid_widths is Ok {
        (
            embedded_font_state(
                s,
                font_name,
                p.data@,
                crate::truetype::cid_to_gid_map_of(p.data@, used),
                crate::cmap::to_unicode_cmap(used),
                object_value(p.cid_widths->Ok_0),
            ),
            Some(embedded_font_id(s)),
        )
    } else {
        (s, None)
    }
}

/// The font dictionary after registering the four Type0 fonts under their
/// overlay resource names.
pub open spec fn registered_fonts(
    d: Map<Seq<u8>, PdfValue>,
    regular: (u32, u16),
    bold: (u32, u16),
    arial_regular: (u32, u16),
    arial_bold: (u32, u16),
) -> Map<Seq<u8>, PdfValue> {
    d.insert(key("FCOHelveticaRegular"), ref_v(regular)).insert(key("FCOHelveticaBold"), ref_v(bold)).insert(
        key("FCOArialRegular"),
        ref_v(arial_regular),
    ).insert(key("FCOArialBold"), ref_v(arial_bold))
}

/// What registering the overlay fonts in the font dictionary `fonts_id`
/// does to the document, and whether it succeeds: the four font programs
/// must all have been read; they are embedded in order (Helvetica,
/// Helvetica-Bold, ArialMT, Arial-BoldMT); and the font dictionary
/// registers them under `FCOHelveticaRegular`, `FCOHelveticaBold`,
/// `FCOArialRegular` and `FCOArialBold`. Each step that fails stops the
/// rest and keeps what the earlier steps did.
pub open spec fn register_outcome(
    s1: PdfState,
    fonts_id: (u32, u16),
    used: Set<u16>,
    fonts: OverlayFontPrograms,
) -> (PdfState, bool) {
    if !(fonts.helvetica is Ok && fonts.helvetica_bold is Ok && fonts.arial is Ok
        && fonts.arial_bold is Ok) {
        (s1, false)
    } else {
        let (s2, a) = embed_outcome(s1, key("Helvetica"), fonts.helvetica->Ok_0, used);
        let (s3, b) = embed_outcome(s2, key("Helvetica-Bold"), fonts.helvetica_bold->Ok_0, used);
        let (s4, c) = embed_outcome(s3, key("ArialMT"), fonts.arial->Ok_0, used);
        let (s5, d) = embed_outcome(s4, key("Arial-BoldMT"), fonts.arial_bold->Ok_0, used);
        if a is None {
            (s2, false)
        } else if b is None {
            (s3, false)
        } else if c is None {
            (s4, false)
        } else if d is None {
            (s5, false)
        } else {
            match dict_at(s5.objects, fonts_id) {
                Some(fd) => (
                    PdfState {
                        objects: s5.objects.insert(
                            lookup(s5.objects, fonts_id)->0,
                            PdfValue::Dict(registered_fonts(fd, a->0, b->0, c->0, d->0)),
                        ),
                        max_id: s5.max_id,
                        rest: s5.rest,
                    },
                    true,
                ),
                None => (s5, false),
            }
        }
    }
}

/// What ensuring the overlay fonts does to the document, and whether it
/// succeeds: the page's font resources are ensured, and the overlay fonts
/// are then registered in the page's font dictionary.
pub open spec fn overlay_fonts_outcome(
    s: PdfState,
    page_id: (u32, u16),
    used: Set<u16>,
    fonts: OverlayFontPrograms,
) -> (PdfState, bool) {
    let (s1, f) = page_font_resources(s, page_id);
    if f is None {
        (s1, false)
    } else {
        register_outcome(s1, f->0, used, fonts)
    }
}

/// The error of a failed registration of the overlay fonts: the first font
/// program that could not be read; else that of the first font that could
/// not be embedded; else the font dictionary could not be opened.
pub open spec fn register_error(
    s1: PdfState,
    fonts_id: (u32, u16),
    used: Set<u16>,
    fonts: OverlayFontPrograms,
    e: AppError,
) -> bool {
    if fonts.helvetica is Err {
        e == fonts.helvetica->Err_0
    } else if fonts.helvetica_bold is Err {
        e == fonts.helvetica_bold->Err_0
    } else if fonts.arial is Err {
        e == fonts.arial->Err_0
    } else if fonts.arial_bold is Err {
        e == fonts.arial_bold->Err_0
    } else {
        let p1 = fonts.helvetica->Ok_0;
        let p2 = fonts.helvetica_bold->Ok_0;
        let p3 = fonts.arial->Ok_0;
        let p4 = fonts.arial_bold->Ok_0;
        let (s2, a) = embed_outcome(s1, key("Helvetica"), p1, used);
        let (s3, b) = embed_outcome(s2, key("Helvetica-Bold"), p2, used);
        let (s4, c) = embed_outcome(s3, key("ArialMT"), p3, used);
        let (s5, d) = embed_outcome(s4, key("Arial-BoldMT"), p4, used);
        if a is None {
            embed_error(p1.data@, p1.cid_widths, e)
        } else if b is None {
            embed_error(p2.data@, p2.cid_widths, e)
        } else if c is None {
            embed_error(p3.data@, p3.cid_widths, e)
        } else if d is None {
            embed_error(p4.data@, p4.cid_widths, e)
        } else if lookup(s5.objects, fonts_id) is None {
            e is Pdfium && starts_with(e.text(), "No se pudo abrir Font mutable: "@)
        } else {
            e is Pdfium && starts_with(e.text(), "Font no es diccionario mutable: "@)
        }
    }
}

/// The error of a failed `ensure_unicode_overlay_fonts`: that of the page's
/// font resources, or else that of registering the overlay fonts.
pub open spec fn overlay_fonts_error(
    s: PdfState,
    page_id: (u32, u16),
    used: Set<u16>,
    fonts: OverlayFontPrograms,
    e: AppError,
) -> bool {
    let (s1, f) = page_font_resources(s, page_id);
    if f is None {
        e is Pdfium && starts_with(e.text(), page_font_resources_failure(s, page_id))
    } else {
        register_error(s1, f->0, used, fonts, e)
    }
}

/// `lopdf` has object numbers left for the six objects that embedding a font
/// program adds, when it adds them.
pub open spec fn embed_fits(s: PdfState, p: FontProgram) -> bool {
    crate::truetype::ttf_face_parses(p.data@) && p.cid_widths is Ok ==> s.max_id <= u32::MAX - 6
}

/// `lopdf` has object numbers left for every font that registering the
/// overlay fonts embeds (it panics when it has none).
pub open spec fn register_fits(s1: PdfState, used: Set<u16>, fonts: OverlayFontPrograms) -> bool {
    (fonts.helvetica is Ok && fonts.helvetica_bold is Ok && fonts.arial is Ok
        && fonts.arial_bold is Ok) ==> {
        let p1 = fonts.helvetica->Ok_0;
        let p2 = fonts.helvetica_bold->Ok_0;
        let p3 = fonts.arial->Ok_0;
        let p4 = fonts.arial_bold->Ok_0;
        let (s2, a) = embed_outcome(s1, key("Helvetica"), p1, used);
        let (s3, b) = embed_outcome(s2, key("Helvetica-Bold"), p2, used);
        let (s4, c) = embed_outcome(s3, key("ArialMT"), p3, used);
        &&& embed_fits(s1, p1)
        &&& a is Some ==> embed_fits(s2, p2)
        &&& a is Some && b is Some ==> embed_fits(s3, p3)
        &&& a is Some && b is Some && c is Some ==> embed_fits(s4, p4)
    }
}

/// `lopdf` has object numbers left for every object that ensuring the
/// overlay fonts adds (it panics when it has none).
pub open spec fn overlay_fonts_fit(
    s: PdfState,
    page_id: (u32, u16),
    used: Set<u16>,
    fonts: OverlayFontPrograms,
) -> bool {
    let (s1, f) = page_font_resources(s, page_id);
    &&& page_font_resources_fits(s, page_id)
    &&& f is Some ==> register_fits(s1, used, fonts)
}

/// Embeds a font program, as `embed_outcome` describes.
fn embed_program(
    document: &mut lopdf::Document,
    font_name: &str,
    program: FontProgram,
    used_utf16: &BTreeSet<u16>,
) -> (r: Result<(u32, u16), AppError>)
    requires
        embed_fits(pdf_state(*old(document)), program),
    ensures
        pdf_state(*final(document)) == embed_outcome(
            pdf_state(*old(document)),
            key(font_name),
            program,
            used_utf16@,
        ).0,
        r matches Ok(id) ==> embed_outcome(
            pdf_state(*old(document)),
            key(font_name),
            program,
            used_utf16@,
        ).1 == Some(id),
        r is Err ==> embed_outcome(
            pdf_state(*old(document)),
            key(font_name),
            program,
            used_utf16@,
        ).1 is None,
        r matches Err(e) ==> embed_error(program.data@, program.cid_widths, e),
{
    embed_type0_unicode_ttf(document, font_name, program.data, used_utf16, program.cid_widths)
}

/// Registers the overlay fonts in the font dictionary `fonts_id`, as
/// `register_outcome` describes.
fn register_overlay_fonts(
    document: &mut lopdf::Document,
    fonts_id: (u32, u16),
    used_utf16: &BTreeSet<u16>,
    fonts: OverlayFontPrograms,
) -> (r: Result<OverlayFontNames, AppError>)
    requires
        register_fits(pdf_state(*old(document)), used_utf16@, fonts),
    ensures
        pdf_state(*final(document)) == register_outcome(
            pdf_state(*old(document)),
            fonts_id,
            used_utf16@,
            fonts,
        ).0,
        r is Ok <==> register_outcome(pdf_state(*old(document)), fonts_id, used_utf16@, fonts).1,
        r matches Ok(names) ==> names.regular@ == key("FCOHelveticaRegular") && names.bold@ == key(
            "FCOHelveticaBold",
        ),
        r matches Err(e) ==> register_error(
            pdf_state(*old(document)),
            fonts_id,
            used_utf16@,
            fonts,
            e,
        ),
{
    let helvetica = fonts.helvetica?;
    let helvetica_bold = fonts.helvetica_bold?;
    let arial = fonts.arial?;
    let arial_bold = fonts.arial_bold?;
    let regular_font_id = embed_program(document, "Helvetica", helvetica, used_utf16)?;
    let bold_font_id = embed_program(document, "Helvetica-Bold", helvetica_bold, used_utf16)?;
    let arial_regular_font_id = embed_program(document, "ArialMT", arial, used_utf16)?;
    let arial_bold_font_id = embed_program(document, "Arial-BoldMT", arial_bold, used_utf16)?;
    match doc_get_object(document, fonts_id) {
        Err(e) => {
            return Err(pdf_error("No se pudo abrir Font mutable: ", &e));
        },
        Ok(obj) => match object_as_dict(obj) {
            Err(e) => {
                return Err(pdf_error("Font no es diccionario mutable: ", &e));
            },
            Ok(_) => {},
        },
    }
    let obj = doc_get_object_mut(document, fonts_id);
    let fonts_dict = object_as_dict_mut(obj);
    set_ref(fonts_dict, "FCOHelveticaRegular", regular_font_id);
    set_ref(fonts_dict, "FCOHelveticaBold", bold_font_id);
    set_ref(fonts_dict, "FCOArialRegular", arial_regular_font_id);
    set_ref(fonts_dict, "FCOArialBold", arial_bold_font_id);
    Ok(
        OverlayFontNames {
            regular: key_bytes("FCOHelveticaRegular"),
            bold: key_bytes("FCOHelveticaBold"),
        },
    )
}

/// Makes the page ready for Unicode text overlays: ensures its font
/// resources, embeds Helvetica, Helvetica Bold, Arial and Arial Bold as
/// Type0 fonts, registers them in the page's font dictionary under
/// `FCOHelveticaRegular`, `FCOHelveticaBold`, `FCOArialRegular` and
/// `FCOArialBold`, and returns the names of the Helvetica pair.
pub fn ensure_unicode_overlay_fonts(
    document: &mut lopdf::Document,
    page_id: (u32, u16),
    used_utf16: &BTreeSet<u16>,
    fonts: OverlayFontPrograms,
) -> (r: Result<OverlayFontNames, AppError>)
    requires
        overlay_fonts_fit(pdf_state(*old(document)), page_id, used_utf16@, fonts),
    ensures
        pdf_state(*final(document)) == overlay_fonts_outcome(
            pdf_state(*old(document)),
            page_id,
            used_utf16@,
            fonts,
        ).0,
        r is Ok <==> overlay_fonts_outcome(pdf_state(*old(document)), page_id, used_utf16@, fonts).1,
        r matches Ok(names) ==> names.regular@ == key("FCOHelveticaRegular") && names.bold@ == key(
            "FCOHelveticaBold",
        ),
        r is Ok ==> crate::font_laws::overlay_programs_registered(
            pdf_objects(*final(document)),
            page_font_resources(pdf_state(*old(document)), page_id).1->0,
            fonts,
            used_utf16@,
        ),
        r matches Err(e) ==> overlay_fonts_error(
            pdf_state(*old(document)),
            page_id,
            used_utf16@,
            fonts,
            e,
        ),
{
    let ghost s0 = pdf_state(*document);
    let fonts_id = ensure_page_font_resources(document, page_id)?;
    let r = register_overlay_fonts(document, fonts_id, used_utf16, fonts);
    proof {
        if r is Ok {
            crate::font_laws::lemma_overlay_fonts_embed_programs(s0, page_id, used_utf16@, fonts);
        }
    }
    r
}

/// Whether linking entry `k` of `holder` adds an object, as `link_adds`
/// says; the document is only read.
fn link_adds_now(document: &lopdf::Document, holder: (u32, u16), k: &str) -> (b: bool)
    ensures
        b == link_adds(pdf_state(*document), holder, key(k)),
{
    match doc_get_object(document, holder) {
        Err(_) => false,
        Ok(obj) => match object_as_dict(obj) {
            Err(_) => false,
            Ok(d) => {
                let kb = key_bytes(k);
                match dict_get(d, kb.as_slice()) {
                    Err(_) => true,
                    Ok(v) => object_as_reference(v).is_err(),
                }
            },
        },
    }
}

/// Whether embedding the font program adds objects: it parses and its
/// widths were computed.
fn embeds(p: &FontProgram) -> (b: bool)
    ensures
        b == (crate::truetype::ttf_face_parses(p.data@) && p.cid_widths is Ok),
{
    crate::truetype::parse_face(p.data.as_slice()).is_ok() && p.cid_widths.is_ok()
}

proof fn lemma_embed_max(s: PdfState, font_name: Seq<u8>, p: FontProgram, used: Set<u16>)
    ensures
        crate::truetype::ttf_face_parses(p.data@) && p.cid_widths is Ok && s.max_id <= u32::MAX - 6
            ==> embed_outcome(s, font_name, p, used).0.max_id == s.max_id + 6,
        !(crate::truetype::ttf_face_parses(p.data@) && p.cid_widths is Ok) ==> embed_outcome(
            s,
            font_name,
            p,
            used,
        ).0 == s,
{
}

/// Whether `lopdf` has object numbers left for every font that registering
/// the overlay fonts embeds, as `register_fits` says.
fn register_fits_now(document: &lopdf::Document, used_utf16: &BTreeSet<u16>, fonts: &OverlayFontPrograms) -> (b:
    bool)
    ensures
        b == register_fits(pdf_state(*document), used_utf16@, *fonts),
{
    let ghost s1 = pdf_state(*document);
    let ghost used = used_utf16@;
    let max: u64 = doc_max_id(document) as u64;
    match (&fonts.helvetica, &fonts.helvetica_bold, &fonts.arial, &fonts.arial_bold) {
        (Ok(p1), Ok(p2), Ok(p3), Ok(p4)) => {
            let need: u64 = if !embeds(p1) {
                0
            } else if !embeds(p2) {
                6
            } else if !embeds(p3) {
                12
            } else if !embeds(p4) {
                18
            } else {
                24
            };
            proof {
                lemma_embed_max(s1, key("Helvetica"), *p1, used);
                let s2 = embed_outcome(s1, key("Helvetica"), *p1, used).0;
                lemma_embed_max(s2, key("Helvetica-Bold"), *p2, used);
                let s3 = embed_outcome(s2, key("Helvetica-Bold"), *p2, used).0;
                lemma_embed_max(s3, key("ArialMT"), *p3, used);
            }
            max + need <= 0xFFFF_FFFFu64
        },
        _ => true,
    }
}

/// The messages of the page's step of ensuring its font resources.
fn page_messages() -> (m: LinkMessages<'static>)
    ensures
        forall|st: LinkStage| stage_prefix(st, m) == page_stage_prefix(st),
{
    LinkMessages {
        open: "No se pudo abrir pagina: ",
        not_dict: "Pagina no es diccionario: ",
        open_mut: "No se pudo abrir pagina mutable: ",
        not_dict_mut: "Pagina mutable no es diccionario: ",
    }
}

/// The messages of the resources' step of ensuring the page's font
/// resources.
fn resources_messages() -> (m: LinkMessages<'static>)
    ensures
        forall|st: LinkStage| stage_prefix(st, m) == resources_stage_prefix(st),
{
    LinkMessages {
        open: "No se pudo abrir Resources: ",
        not_dict: "Resources no es diccionario: ",
        open_mut: "No se pudo abrir Resources mutable: ",
        not_dict_mut: "Resources mutable no es diccionario: ",
    }
}

/// What `try_ensure_unicode_overlay_fonts` leaves in the document when
/// `lopdf` would run out of object numbers: the steps of the page's font
/// resources before the first one that would add an object with no number
/// left, and no font embedded.
pub open spec fn overlay_fonts_stop(s: PdfState, page_id: (u32, u16)) -> PdfState {
    let (s1, r) = link_entry(s, page_id, key("Resources"));
    if link_adds(s, page_id, key("Resources")) && s.max_id == u32::MAX {
        s
    } else if r is Some && link_adds(s1, r->0, key("Font")) && s1.max_id == u32::MAX {
        s1
    } else {
        page_font_resources(s, page_id).0
    }
}

/// Ensures the overlay fonts as `ensure_unicode_overlay_fonts` does when
/// `lopdf` has object numbers left for every object that this adds. When it
/// has not (where `lopdf` panics), gives `None` before adding the first
/// object that would need one, leaving what `overlay_fonts_stop` says.
pub fn try_ensure_unicode_overlay_fonts(
    document: &mut lopdf::Document,
    page_id: (u32, u16),
    used_utf16: &BTreeSet<u16>,
    fonts: OverlayFontPrograms,
) -> (r: Option<Result<OverlayFontNames, AppError>>)
    ensures
        r is None <==> !overlay_fonts_fit(pdf_state(*old(document)), page_id, used_utf16@, fonts),
        r is None ==> pdf_state(*final(document)) == overlay_fonts_stop(
            pdf_state(*old(document)),
            page_id,
        ),
        r is Some ==> pdf_state(*final(document)) == overlay_fonts_outcome(
            pdf_state(*old(document)),
            page_id,
            used_utf16@,
            fonts,
        ).0,
        r matches Some(res) ==> (res is Ok <==> overlay_fonts_outcome(
            pdf_state(*old(document)),
            page_id,
            used_utf16@,
            fonts,
        ).1),
        r matches Some(Ok(names)) ==> names.regular@ == key("FCOHelveticaRegular") && names.bold@
            == key("FCOHelveticaBold"),
        r matches Some(Ok(_)) ==> crate::font_laws::overlay_programs_registered(
            pdf_objects(*final(document)),
            page_font_resources(pdf_state(*old(document)), page_id).1->0,
            fonts,
            used_utf16@,
        ),
        r matches Some(Err(e)) ==> overlay_fonts_error(
            pdf_state(*old(document)),
            page_id,
            used_utf16@,
            fonts,
            e,
        ),
{
    let ghost s0 = pdf_state(*document);
    if link_adds_now(document, page_id, "Resources") && doc_max_id(document) == u32::MAX {
        return None;
    }
    let resources_id = match link_dictionary_entry(document, page_id, "Resources", &page_messages()) {
        Ok(id) => id,
        Err(e) => {
            return Some(Err(e));
        },
    };
    if link_adds_now(document, resources_id, "Font") && doc_max_id(document) == u32::MAX {
        return None;
    }
    let fonts_id = match link_dictionary_entry(document, resources_id, "Font", &resources_messages()) {
        Ok(id) => id,
        Err(e) => {
            return Some(Err(e));
        },
    };
    if !register_fits_now(document, used_utf16, &fonts) {
        return None;
    }
    let r = register_overlay_fonts(document, fonts_id, used_utf16, fonts);
    proof {
        if r is Ok {
            crate::font_laws::lemma_overlay_fonts_embed_programs(s0, page_id, used_utf16@, fonts);
        }
    }
    Some(r)
}

} // verus!
