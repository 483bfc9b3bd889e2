//! What ensuring the overlay fonts leaves in a document.

use vstd::prelude::*;
use crate::font::{
    embed_outcome, embedded_font_id, embedded_font_state, font_resources_in_place,
    lemma_page_font_resources_in_place, overlay_fonts_outcome, page_font_resources, refers,
    registered_fonts, type0_font_value,
};
use crate::pdf::{
    PdfState, PdfValue, add_value, dict_at, next_ids_free, lemma_add_fresh, key, lemma_resolve_add,
    lemma_resolve_replace, lemma_resolve_target, lookup, next_id,
};

verus! {

/// The objects of `s` are all still in `t`, unchanged, and every lookup
/// that succeeds in `s` ends at the same object in `t`.
pub open spec fn extends(s: PdfState, t: PdfState) -> bool {
    &&& forall|k: (u32, u16)|
        #![trigger s.objects.contains_key(k)]
        s.objects.contains_key(k) ==> t.objects.contains_key(k) && t.objects[k] == s.objects[k]
    &&& forall|x: (u32, u16)|
        #![trigger lookup(t.objects, x)]
        lookup(s.objects, x) is Some ==> lookup(t.objects, x) == lookup(s.objects, x)
}

proof fn lemma_add_extends(s: PdfState, v: PdfValue)
    requires
        next_ids_free(s, 1),
        s.max_id < u32::MAX,
    ensures
        forall|m: nat| next_ids_free(s, m + 1) ==> #[trigger] next_ids_free(add_value(s, v), m),
        add_value(s, v).max_id == s.max_id + 1,
        extends(s, add_value(s, v)),
        !s.objects.contains_key(next_id(s)),
        add_value(s, v).objects[next_id(s)] == v,
{
    let n = next_id(s);
    lemma_add_fresh(s, v, 0);
    assert(!s.objects.contains_key(n));
    assert forall|m: nat| next_ids_free(s, m + 1) implies #[trigger] next_ids_free(add_value(s, v), m) by {
        lemma_add_fresh(s, v, m);
    }
    assert forall|x: (u32, u16)| lookup(s.objects, x) is Some implies lookup(
        add_value(s, v).objects,
        x,
    ) == lookup(s.objects, x) by {
        lemma_resolve_add(s.objects, n, v, x, crate::pdf::deref_limit());
    }
}

proof fn lemma_extends_trans(a: PdfState, b: PdfState, c: PdfState)
    requires
        extends(a, b),
        extends(b, c),
    ensures
        extends(a, c),
{
    assert forall|x: (u32, u16)| lookup(a.objects, x) is Some implies lookup(c.objects, x) == lookup(
        a.objects,
        x,
    ) by {
        assert(lookup(b.objects, x) == lookup(a.objects, x));
    }
    assert forall|k: (u32, u16)| a.objects.contains_key(k) implies c.objects.contains_key(k)
        && c.objects[k] == a.objects[k] by {
        assert(b.objects.contains_key(k) && b.objects[k] == a.objects[k]);
        assert(c.objects.contains_key(k) && c.objects[k] == b.objects[k]);
    }
}

proof fn lemma_extends_dict_at(s: PdfState, t: PdfState, x: (u32, u16))
    requires
        extends(s, t),
        dict_at(s.objects, x) is Some,
    ensures
        dict_at(t.objects, x) == dict_at(s.objects, x),
{
    lemma_resolve_target(s.objects, x, crate::pdf::deref_limit());
    assert(lookup(t.objects, x) == lookup(s.objects, x));
    assert(t.objects.contains_key(lookup(s.objects, x)->0));
}

/// Embedding a font on a document where the numbers of the six objects it
/// adds are free keeps every object and lookup, leaves a Type0 font at the
/// returned id, and keeps the numbers after them free.
pub proof fn lemma_embed_extends(
    s: PdfState,
    font_name: Seq<u8>,
    font: Seq<u8>,
    gid_map: Seq<u8>,
    cmap: Seq<u8>,
    widths: PdfValue,
)
    requires
        next_ids_free(s, 6),
        s.max_id <= u32::MAX - 6,
    ensures
        ({
            let t = embedded_font_state(s, font_name, font, gid_map, cmap, widths);
            &&& forall|m: nat| next_ids_free(s, m + 6) ==> #[trigger] next_ids_free(t, m)
            &&& t.max_id == s.max_id + 6
            &&& extends(s, t)
            &&& !s.objects.contains_key(embedded_font_id(s))
            &&& t.objects.contains_key(embedded_font_id(s))
            &&& t.objects[embedded_font_id(s)] == type0_font_value(
                font_name,
                next_id(add_value(add_value(add_value(s, crate::font::font_file_value(font)),
                    crate::font::font_descriptor_value(font_name, next_id(s))),
                    crate::font::plain_stream_value(gid_map))),
                ((s.max_id + 5) as u32, 0u16),
            )
        }),
{
    let s1 = add_value(s, crate::font::font_file_value(font));
    let s2 = add_value(s1, crate::font::font_descriptor_value(font_name, next_id(s)));
    let s3 = add_value(s2, crate::font::plain_stream_value(gid_map));
    let s4 = add_value(
        s3,
        crate::font::cid_font_value(font_name, next_id(s1), next_id(s2), widths),
    );
    let s5 = add_value(s4, crate::font::plain_stream_value(cmap));
    let v6 = type0_font_value(font_name, next_id(s3), next_id(s4));
    let s6 = add_value(s5, v6);
    lemma_add_extends(s, crate::font::font_file_value(font));
    assert(next_ids_free(s1, 5));
    lemma_add_extends(s1, crate::font::font_descriptor_value(font_name, next_id(s)));
    assert(next_ids_free(s2, 4));
    lemma_add_extends(s2, crate::font::plain_stream_value(gid_map));
    assert(next_ids_free(s3, 3));
    lemma_add_extends(s3, crate::font::cid_font_value(font_name, next_id(s1), next_id(s2), widths));
    assert(next_ids_free(s4, 2));
    lemma_add_extends(s4, crate::font::plain_stream_value(cmap));
    assert(next_ids_free(s5, 1));
    lemma_add_extends(s5, v6);
    assert forall|m: nat| next_ids_free(s, m + 6) implies #[trigger] next_ids_free(s6, m) by {
        assert(next_ids_free(s1, m + 5));
        assert(next_ids_free(s2, m + 4));
        assert(next_ids_free(s3, m + 3));
        assert(next_ids_free(s4, m + 2));
        assert(next_ids_free(s5, m + 1));
    }
    lemma_extends_trans(s, s1, s2);
    lemma_extends_trans(s, s2, s3);
    lemma_extends_trans(s, s3, s4);
    lemma_extends_trans(s, s4, s5);
    lemma_extends_trans(s, s5, s6);
    assert(embedded_font_id(s) == next_id(s5));
    assert(s6 == embedded_font_state(s, font_name, font, gid_map, cmap, widths));
}

/// Entry `name` of `d` refers to an object of `objects` that holds a Type0
/// font.
pub open spec fn registers_type0(
    objects: Map<(u32, u16), PdfValue>,
    d: Map<Seq<u8>, PdfValue>,
    name: Seq<u8>,
) -> bool {
    exists|id: (u32, u16)|
        {
            &&& refers(d, name, id)
            &&& objects.contains_key(id)
            &&& objects[id] is Dict
            &&& objects[id]->Dict_0.contains_key(key("Subtype"))
            &&& objects[id]->Dict_0[key("Subtype")] == PdfValue::Name(key("Type0"))
        }
}

/// The page's font dictionary registers the four overlay fonts.
pub open spec fn overlay_fonts_in_place(s: PdfState, page_id: (u32, u16)) -> bool {
    exists|fid: (u32, u16)|
        {
            &&& font_resources_in_place(s, page_id, fid)
            &&& registers_type0(s.objects, dict_at(s.objects, fid)->0, key("FCOHelveticaRegular"))
            &&& registers_type0(s.objects, dict_at(s.objects, fid)->0, key("FCOHelveticaBold"))
            &&& registers_type0(s.objects, dict_at(s.objects, fid)->0, key("FCOArialRegular"))
            &&& registers_type0(s.objects, dict_at(s.objects, fid)->0, key("FCOArialBold"))
        }
}

proof fn lemma_overlay_keys_differ()
    ensures
        key("FCOHelveticaRegular") != key("Resources"),
        key("FCOHelveticaBold") != key("Resources"),
        key("FCOArialRegular") != key("Resources"),
        key("FCOArialBold") != key("Resources"),
        key("FCOHelveticaRegular") != key("Font"),
        key("FCOHelveticaBold") != key("Font"),
        key("FCOArialRegular") != key("Font"),
        key("FCOArialBold") != key("Font"),
        key("FCOHelveticaRegular") != key("FCOHelveticaBold"),
        key("FCOHelveticaRegular") != key("FCOArialRegular"),
        key("FCOHelveticaRegular") != key("FCOArialBold"),
        key("FCOHelveticaBold") != key("FCOArialRegular"),
        key("FCOHelveticaBold") != key("FCOArialBold"),
        key("FCOArialRegular") != key("FCOArialBold"),
        key("FCOHelveticaRegular") != key("Subtype"),
        key("FCOHelveticaBold") != key("Subtype"),
        key("FCOArialRegular") != key("Subtype"),
        key("FCOArialBold") != key("Subtype"),
{
    reveal_strlit("Subtype");
    reveal_strlit("FCOHelveticaRegular");
    reveal_strlit("FCOHelveticaBold");
    reveal_strlit("FCOArialRegular");
    reveal_strlit("FCOArialBold");
    reveal_strlit("Resources");
    reveal_strlit("Font");
    broadcast use vstd::string::is_ascii_spec_bytes;

    assert(vstd::string::is_ascii("FCOHelveticaRegular"));
    assert(vstd::string::is_ascii("FCOHelveticaBold"));
    assert(vstd::string::is_ascii("FCOArialRegular"));
    assert(vstd::string::is_ascii("FCOArialBold"));
    assert(vstd::string::is_ascii("Resources"));
    assert(vstd::string::is_ascii("Font"));
    assert(vstd::string::is_ascii("Subtype"));
    assert(key("Subtype").len() == 7);
    assert(key("FCOHelveticaRegular").len() == 19);
    assert(key("FCOHelveticaBold").len() == 16);
    assert(key("FCOArialRegular").len() == 15);
    assert(key("FCOArialBold").len() == 12);
    assert(key("Resources").len() == 9);
    assert(key("Font").len() == 4);
    assert(key("FCOHelveticaBold")[3] != key("FCOArialBold")[3]);
}

proof fn lemma_type0_subtype(n: Seq<u8>, a: (u32, u16), b: (u32, u16))
    ensures
        type0_font_value(n, a, b) is Dict,
        type0_font_value(n, a, b)->Dict_0.contains_key(key("Subtype")),
        type0_font_value(n, a, b)->Dict_0[key("Subtype")] == PdfValue::Name(key("Type0")),
{
    reveal(type0_font_value);
    reveal_strlit("Subtype");
    reveal_strlit("Type");
    reveal_strlit("BaseFont");
    reveal_strlit("Encoding");
    reveal_strlit("DescendantFonts");
    reveal_strlit("ToUnicode");
    broadcast use vstd::string::is_ascii_spec_bytes;

    assert(vstd::string::is_ascii("Subtype"));
    assert(vstd::string::is_ascii("BaseFont"));
    assert(vstd::string::is_ascii("Encoding"));
    assert(vstd::string::is_ascii("DescendantFonts"));
    assert(vstd::string::is_ascii("ToUnicode"));
    assert(key("Subtype").len() == 7);
    assert(key("BaseFont").len() == 8);
    assert(key("Encoding").len() == 8);
    assert(key("DescendantFonts").len() == 15);
    assert(key("ToUnicode").len() == 9);
    assert(key("Subtype")[0] != key("Encoding")[0]);
    assert(key("Subtype")[0] != key("BaseFont")[0]);
}

/// The number of objects that ensuring the overlay fonts adds.
pub open spec fn overlay_fonts_adds(
    s: PdfState,
    page_id: (u32, u16),
    used: Set<u16>,
    fonts: crate::font::OverlayFontPrograms,
) -> nat {
    (overlay_fonts_outcome(s, page_id, used, fonts).0.max_id - s.max_id) as nat
}

/// After the overlay fonts are ensured on a document where the numbers of
/// the objects this adds are free, the page's font resources are in place and
/// its font dictionary registers `FCOHelveticaRegular`, `FCOHelveticaBold`,
/// `FCOArialRegular` and `FCOArialBold`, each referring to a Type0 font.
pub proof fn lemma_overlay_fonts_in_place(
    s: PdfState,
    page_id: (u32, u16),
    used: Set<u16>,
    fonts: crate::font::OverlayFontPrograms,
)
    requires
        next_ids_free(s, overlay_fonts_adds(s, page_id, used, fonts)),
        crate::font::overlay_fonts_fit(s, page_id, used, fonts),
        overlay_fonts_outcome(s, page_id, used, fonts).1,
    ensures
        overlay_fonts_in_place(overlay_fonts_outcome(s, page_id, used, fonts).0, page_id),
{
    let (s1, f) = page_font_resources(s, page_id);
    let c = crate::font::page_font_resources_adds(s, page_id);
    assert(next_ids_free(s, c + 24));
    assert(next_ids_free(s, c));
    lemma_page_font_resources_in_place(s, page_id);
    assert(next_ids_free(s1, 24));
    let fid = f->0;
    let (s2, a) = embed_outcome(s1, key("Helvetica"), fonts.helvetica->Ok_0, used);
    let (s3, b) = embed_outcome(s2, key("Helvetica-Bold"), fonts.helvetica_bold->Ok_0, used);
    let (s4, c) = embed_outcome(s3, key("ArialMT"), fonts.arial->Ok_0, used);
    let (s5, d) = embed_outcome(s4, key("Arial-BoldMT"), fonts.arial_bold->Ok_0, used);
    let p1 = fonts.helvetica->Ok_0;
    let p2 = fonts.helvetica_bold->Ok_0;
    let p3 = fonts.arial->Ok_0;
    let p4 = fonts.arial_bold->Ok_0;
    lemma_embed_extends(
        s1,
        key("Helvetica"),
        p1.data@,
        crate::truetype::cid_to_gid_map_of(p1.data@, used),
        crate::cmap::to_unicode_cmap(used),
        crate::pdf::object_value(p1.cid_widths->Ok_0),
    );
    assert(next_ids_free(s2, 18));
    lemma_embed_extends(
        s2,
        key("Helvetica-Bold"),
        p2.data@,
        crate::truetype::cid_to_gid_map_of(p2.data@, used),
        crate::cmap::to_unicode_cmap(used),
        crate::pdf::object_value(p2.cid_widths->Ok_0),
    );
    assert(next_ids_free(s3, 12));
    lemma_embed_extends(
        s3,
        key("ArialMT"),
        p3.data@,
        crate::truetype::cid_to_gid_map_of(p3.data@, used),
        crate::cmap::to_unicode_cmap(used),
        crate::pdf::object_value(p3.cid_widths->Ok_0),
    );
    assert(next_ids_free(s4, 6));
    lemma_embed_extends(
        s4,
        key("Arial-BoldMT"),
        p4.data@,
        crate::truetype::cid_to_gid_map_of(p4.data@, used),
        crate::cmap::to_unicode_cmap(used),
        crate::pdf::object_value(p4.cid_widths->Ok_0),
    );
    lemma_extends_trans(s1, s2, s3);
    lemma_extends_trans(s1, s3, s4);
    lemma_extends_trans(s1, s4, s5);

    let rid = choose|rid: (u32, u16)|
        {
            &&& dict_at(s1.objects, page_id) is Some
            &&& refers(dict_at(s1.objects, page_id)->0, key("Resources"), rid)
            &&& dict_at(s1.objects, rid) is Some
            &&& refers(dict_at(s1.objects, rid)->0, key("Font"), fid)
        };
    lemma_extends_dict_at(s1, s5, page_id);
    lemma_extends_dict_at(s1, s5, rid);
    let fd = dict_at(s5.objects, fid)->0;
    let tf = lookup(s5.objects, fid)->0;
    lemma_resolve_target(s5.objects, fid, crate::pdf::deref_limit());
    let nd = registered_fonts(fd, a->0, b->0, c->0, d->0);
    let objs6 = s5.objects.insert(tf, PdfValue::Dict(nd));
    let s6 = PdfState { objects: objs6, max_id: s5.max_id, rest: s5.rest };
    assert(overlay_fonts_outcome(s, page_id, used, fonts).0 == s6);
    lemma_resolve_replace(s5.objects, tf, PdfValue::Dict(nd), page_id, crate::pdf::deref_limit());
    lemma_resolve_replace(s5.objects, tf, PdfValue::Dict(nd), rid, crate::pdf::deref_limit());
    lemma_resolve_replace(s5.objects, tf, PdfValue::Dict(nd), fid, crate::pdf::deref_limit());
    lemma_overlay_keys_differ();
    crate::font::lemma_font_resources_keys_differ();

    let pd5 = dict_at(s5.objects, page_id)->0;
    let rd5 = dict_at(s5.objects, rid)->0;
    assert(refers(dict_at(s6.objects, page_id)->0, key("Resources"), rid)) by {
        if lookup(s5.objects, page_id)->0 == tf {
            assert(dict_at(s6.objects, page_id)->0 == nd);
            assert(pd5 == fd);
        }
    }
    assert(refers(dict_at(s6.objects, rid)->0, key("Font"), fid)) by {
        if lookup(s5.objects, rid)->0 == tf {
            assert(dict_at(s6.objects, rid)->0 == nd);
            assert(rd5 == fd);
        }
    }
    assert(font_resources_in_place(s6, page_id, fid));
    assert(dict_at(s6.objects, fid)->0 == nd);

    let ta = next_id(add_value(add_value(add_value(s1, crate::font::font_file_value(p1.data@)),
        crate::font::font_descriptor_value(key("Helvetica"), next_id(s1))),
        crate::font::plain_stream_value(crate::truetype::cid_to_gid_map_of(p1.data@, used))));
    let tb = next_id(add_value(add_value(add_value(s2, crate::font::font_file_value(p2.data@)),
        crate::font::font_descriptor_value(key("Helvetica-Bold"), next_id(s2))),
        crate::font::plain_stream_value(crate::truetype::cid_to_gid_map_of(p2.data@, used))));
    let tc = next_id(add_value(add_value(add_value(s3, crate::font::font_file_value(p3.data@)),
        crate::font::font_descriptor_value(key("ArialMT"), next_id(s3))),
        crate::font::plain_stream_value(crate::truetype::cid_to_gid_map_of(p3.data@, used))));
    let td = next_id(add_value(add_value(add_value(s4, crate::font::font_file_value(p4.data@)),
        crate::font::font_descriptor_value(key("Arial-BoldMT"), next_id(s4))),
        crate::font::plain_stream_value(crate::truetype::cid_to_gid_map_of(p4.data@, used))));
    lemma_type0_subtype(key("Helvetica"), ta, ((s1.max_id + 5) as u32, 0u16));
    lemma_type0_subtype(key("Helvetica-Bold"), tb, ((s2.max_id + 5) as u32, 0u16));
    lemma_type0_subtype(key("ArialMT"), tc, ((s3.max_id + 5) as u32, 0u16));
    lemma_type0_subtype(key("Arial-BoldMT"), td, ((s4.max_id + 5) as u32, 0u16));
    assert(s2.objects.contains_key(a->0));
    assert(s3.objects.contains_key(b->0));
    assert(s4.objects.contains_key(c->0));
    assert(s5.objects[a->0] == s2.objects[a->0]);
    assert(s5.objects[b->0] == s3.objects[b->0]);
    assert(s5.objects[c->0] == s4.objects[c->0]);
    let sub = key("Subtype");
    let t0 = PdfValue::Name(key("Type0"));
    assert forall|x: (u32, u16)|
        #![trigger s6.objects[x]]
        s5.objects.contains_key(x) && s5.objects[x] is Dict && s5.objects[x]->Dict_0.contains_key(sub)
            && s5.objects[x]->Dict_0[sub] == t0 implies s6.objects.contains_key(x)
        && s6.objects[x] is Dict && s6.objects[x]->Dict_0.contains_key(sub)
        && s6.objects[x]->Dict_0[sub] == t0 by {
        if x == tf {
            assert(fd == s5.objects[x]->Dict_0);
            assert(nd.contains_key(sub));
            assert(nd[sub] == fd[sub]);
        }
    }
    assert(registers_type0(s6.objects, nd, key("FCOHelveticaRegular"))) by {
        assert(refers(nd, key("FCOHelveticaRegular"), a->0));
        assert(s6.objects[a->0] == s6.objects[a->0]);
    }
    assert(registers_type0(s6.objects, nd, key("FCOHelveticaBold"))) by {
        assert(refers(nd, key("FCOHelveticaBold"), b->0));
        assert(s6.objects[b->0] == s6.objects[b->0]);
    }
    assert(registers_type0(s6.objects, nd, key("FCOArialRegular"))) by {
        assert(refers(nd, key("FCOArialRegular"), c->0));
        assert(s6.objects[c->0] == s6.objects[c->0]);
    }
    assert(registers_type0(s6.objects, nd, key("FCOArialBold"))) by {
        assert(refers(nd, key("FCOArialBold"), d->0));
        assert(s6.objects[d->0] == s6.objects[d->0]);
    }
    assert(overlay_fonts_in_place(s6, page_id));
}

/// Entry `k` of the dictionary that object `id` holds, if it holds a
/// dictionary with that entry.
pub open spec fn entry_of(objects: Map<(u32, u16), PdfValue>, id: (u32, u16), k: Seq<u8>) -> Option<
    PdfValue,
> {
    if objects.contains_key(id) && objects[id] is Dict && objects[id]->Dict_0.contains_key(k) {
        Some(objects[id]->Dict_0[k])
    } else {
        None
    }
}

/// Object `id` is a Type0 font named `name` with `Identity-H` encoding
/// whose only descendant is the CID font `cid`, which has the `W` widths
/// `widths`, the CIDToGIDMap stream `gm` and the font descriptor `fd`, whose
/// `FontFile2` entry refers to the stream `ff` holding the TrueType program
/// `data`; the CIDToGIDMap is the one of `data` for the used codes, and the
/// font's ToUnicode stream `tu` is the CMap of the used codes.
pub open spec fn embeds_program_via(
    objects: Map<(u32, u16), PdfValue>,
    id: (u32, u16),
    ids: ((u32, u16), (u32, u16), (u32, u16), (u32, u16), (u32, u16)),
    name: Seq<u8>,
    data: Seq<u8>,
    widths: PdfValue,
    used: Set<u16>,
) -> bool {
    let (cid, fd, ff, gm, tu) = ids;
    &&& entry_of(objects, id, key("Subtype")) == Some(PdfValue::Name(key("Type0")))
    &&& entry_of(objects, id, key("BaseFont")) == Some(PdfValue::Name(name))
    &&& entry_of(objects, id, key("Encoding")) == Some(PdfValue::Name(key("Identity-H")))
    &&& entry_of(objects, id, key("DescendantFonts")) == Some(
        PdfValue::Array(seq![PdfValue::Reference(cid.0, cid.1)]),
    )
    &&& entry_of(objects, id, key("ToUnicode")) == Some(PdfValue::Reference(tu.0, tu.1))
    &&& entry_of(objects, cid, key("W")) == Some(widths)
    &&& entry_of(objects, cid, key("FontDescriptor")) == Some(PdfValue::Reference(fd.0, fd.1))
    &&& entry_of(objects, cid, key("CIDToGIDMap")) == Some(PdfValue::Reference(gm.0, gm.1))
    &&& entry_of(objects, fd, key("FontFile2")) == Some(PdfValue::Reference(ff.0, ff.1))
    &&& objects.contains_key(ff)
    &&& objects[ff] is Stream
    &&& objects[ff]->Stream_1 == data
    &&& objects.contains_key(gm)
    &&& objects[gm] is Stream
    &&& objects[gm]->Stream_1 == crate::truetype::cid_to_gid_map_of(data, used)
    &&& objects.contains_key(tu)
    &&& objects[tu] is Stream
    &&& objects[tu]->Stream_1 == crate::cmap::to_unicode_cmap(used)
}

/// Object `id` is a Type0 font named `name` that embeds the TrueType
/// program `data` (its `FontFile2` stream) with the `W` widths `widths`, for
/// the used codes `used`.
pub open spec fn embeds_program(
    objects: Map<(u32, u16), PdfValue>,
    id: (u32, u16),
    name: Seq<u8>,
    data: Seq<u8>,
    widths: PdfValue,
    used: Set<u16>,
) -> bool {
    exists|ids: ((u32, u16), (u32, u16), (u32, u16), (u32, u16), (u32, u16))|
        embeds_program_via(objects, id, ids, name, data, widths, used)
}

/// Entry `entry` of the font dictionary `d` refers to a Type0 font named
/// `name` that embeds the font program `p` with its widths, for the used
/// codes `used`.
pub open spec fn registers_program(
    objects: Map<(u32, u16), PdfValue>,
    d: Map<Seq<u8>, PdfValue>,
    entry: Seq<u8>,
    name: Seq<u8>,
    p: crate::font::FontProgram,
    used: Set<u16>,
) -> bool {
    exists|id: (u32, u16)|
        refers(d, entry, id) && embeds_program(
            objects,
            id,
            name,
            p.data@,
            crate::pdf::object_value(p.cid_widths->Ok_0),
            used,
        )
}

/// The font dictionary `fonts_id` registers each overlay font program under
/// its own resource name: Helvetica under `FCOHelveticaRegular`, Helvetica
/// Bold under `FCOHelveticaBold`, Arial under `FCOArialRegular` and Arial
/// Bold under `FCOArialBold`.
pub open spec fn overlay_programs_registered(
    objects: Map<(u32, u16), PdfValue>,
    fonts_id: (u32, u16),
    fonts: crate::font::OverlayFontPrograms,
    used: Set<u16>,
) -> bool {
    &&& dict_at(objects, fonts_id) is Some
    &&& registers_program(
        objects,
        dict_at(objects, fonts_id)->0,
        key("FCOHelveticaRegular"),
        key("Helvetica"),
        fonts.helvetica->Ok_0,
        used,
    )
    &&& registers_program(
        objects,
        dict_at(objects, fonts_id)->0,
        key("FCOHelveticaBold"),
        key("Helvetica-Bold"),
        fonts.helvetica_bold->Ok_0,
        used,
    )
    &&& registers_program(
        objects,
        dict_at(objects, fonts_id)->0,
        key("FCOArialRegular"),
        key("ArialMT"),
        fonts.arial->Ok_0,
        used,
    )
    &&& registers_program(
        objects,
        dict_at(objects, fonts_id)->0,
        key("FCOArialBold"),
        key("Arial-BoldMT"),
        fonts.arial_bold->Ok_0,
        used,
    )
}

proof fn lemma_font_keys_differ()
    ensures
        key("BaseFont") != key("Encoding"),
        key("BaseFont") != key("DescendantFonts"),
        key("BaseFont") != key("ToUnicode"),
        key("Encoding") != key("DescendantFonts"),
        key("Encoding") != key("ToUnicode"),
        key("DescendantFonts") != key("ToUnicode"),
        key("FontDescriptor") != key("CIDToGIDMap"),
        key("FontDescriptor") != key("DW"),
        key("FontDescriptor") != key("W"),
        key("CIDToGIDMap") != key("DW"),
        key("CIDToGIDMap") != key("W"),
{
    reveal_strlit("BaseFont");
    reveal_strlit("Encoding");
    reveal_strlit("DescendantFonts");
    reveal_strlit("ToUnicode");
    reveal_strlit("FontDescriptor");
    reveal_strlit("CIDToGIDMap");
    reveal_strlit("DW");
    reveal_strlit("W");
    broadcast use vstd::string::is_ascii_spec_bytes;

    assert(vstd::string::is_ascii("BaseFont"));
    assert(vstd::string::is_ascii("Encoding"));
    assert(vstd::string::is_ascii("DescendantFonts"));
    assert(vstd::string::is_ascii("ToUnicode"));
    assert(vstd::string::is_ascii("FontDescriptor"));
    assert(vstd::string::is_ascii("CIDToGIDMap"));
    assert(vstd::string::is_ascii("DW"));
    assert(vstd::string::is_ascii("W"));
    assert(key("BaseFont").len() == 8);
    assert(key("Encoding").len() == 8);
    assert(key("DescendantFonts").len() == 15);
    assert(key("ToUnicode").len() == 9);
    assert(key("FontDescriptor").len() == 14);
    assert(key("CIDToGIDMap").len() == 11);
    assert(key("DW").len() == 2);
    assert(key("W").len() == 1);
    assert(key("BaseFont")[0] != key("Encoding")[0]);
}

proof fn lemma_registered_keys_differ()
    ensures
        key("FCOHelveticaRegular") != key("Subtype"),
        key("FCOHelveticaRegular") != key("BaseFont"),
        key("FCOHelveticaRegular") != key("Encoding"),
        key("FCOHelveticaRegular") != key("DescendantFonts"),
        key("FCOHelveticaRegular") != key("ToUnicode"),
        key("FCOHelveticaRegular") != key("W"),
        key("FCOHelveticaRegular") != key("FontDescriptor"),
        key("FCOHelveticaRegular") != key("CIDToGIDMap"),
        key("FCOHelveticaRegular") != key("FontFile2"),
        key("FCOHelveticaBold") != key("Subtype"),
        key("FCOHelveticaBold") != key("BaseFont"),
        key("FCOHelveticaBold") != key("Encoding"),
        key("FCOHelveticaBold") != key("DescendantFonts"),
        key("FCOHelveticaBold") != key("ToUnicode"),
        key("FCOHelveticaBold") != key("W"),
        key("FCOHelveticaBold") != key("FontDescriptor"),
        key("FCOHelveticaBold") != key("CIDToGIDMap"),
        key("FCOHelveticaBold") != key("FontFile2"),
        key("FCOArialRegular") != key("Subtype"),
        key("FCOArialRegular") != key("BaseFont"),
        key("FCOArialRegular") != key("Encoding"),
        key("FCOArialRegular") != key("DescendantFonts"),
        key("FCOArialRegular") != key("ToUnicode"),
        key("FCOArialRegular") != key("W"),
        key("FCOArialRegular") != key("FontDescriptor"),
        key("FCOArialRegular") != key("CIDToGIDMap"),
        key("FCOArialRegular") != key("FontFile2"),
        key("FCOArialBold") != key("Subtype"),
        key("FCOArialBold") != key("BaseFont"),
        key("FCOArialBold") != key("Encoding"),
        key("FCOArialBold") != key("DescendantFonts"),
        key("FCOArialBold") != key("ToUnicode"),
        key("FCOArialBold") != key("W"),
        key("FCOArialBold") != key("FontDescriptor"),
        key("FCOArialBold") != key("CIDToGIDMap"),
        key("FCOArialBold") != key("FontFile2"),
{
    reveal_strlit("FCOHelveticaRegular");
    reveal_strlit("FCOHelveticaBold");
    reveal_strlit("FCOArialRegular");
    reveal_strlit("FCOArialBold");
    reveal_strlit("Subtype");
    reveal_strlit("BaseFont");
    reveal_strlit("Encoding");
    reveal_strlit("DescendantFonts");
    reveal_strlit("ToUnicode");
    reveal_strlit("W");
    reveal_strlit("FontDescriptor");
    reveal_strlit("CIDToGIDMap");
    reveal_strlit("FontFile2");
    broadcast use vstd::string::is_ascii_spec_bytes;

    assert(vstd::string::is_ascii("FCOHelveticaRegular"));
    assert(vstd::string::is_ascii("FCOHelveticaBold"));
    assert(vstd::string::is_ascii("FCOArialRegular"));
    assert(vstd::string::is_ascii("FCOArialBold"));
    assert(vstd::string::is_ascii("Subtype"));
    assert(vstd::string::is_ascii("BaseFont"));
    assert(vstd::string::is_ascii("Encoding"));
    assert(vstd::string::is_ascii("DescendantFonts"));
    assert(vstd::string::is_ascii("ToUnicode"));
    assert(vstd::string::is_ascii("W"));
    assert(vstd::string::is_ascii("FontDescriptor"));
    assert(vstd::string::is_ascii("CIDToGIDMap"));
    assert(vstd::string::is_ascii("FontFile2"));
    assert(key("FCOHelveticaRegular").len() == 19);
    assert(key("FCOHelveticaBold").len() == 16);
    assert(key("FCOArialRegular").len() == 15);
    assert(key("FCOArialBold").len() == 12);
    assert(key("Subtype").len() == 7);
    assert(key("BaseFont").len() == 8);
    assert(key("Encoding").len() == 8);
    assert(key("DescendantFonts").len() == 15);
    assert(key("ToUnicode").len() == 9);
    assert(key("W").len() == 1);
    assert(key("FontDescriptor").len() == 14);
    assert(key("CIDToGIDMap").len() == 11);
    assert(key("FontFile2").len() == 9);
    assert(key("FCOArialRegular")[0] != key("DescendantFonts")[0]);
}

/// The numbers of the objects that embedding a font on `s` adds, other
/// than the Type0 font: the CID font, the descriptor, the font program, the
/// CIDToGIDMap and the ToUnicode CMap.
pub open spec fn embedded_parts(s: PdfState) -> ((u32, u16), (u32, u16), (u32, u16), (u32, u16), (u32, u16)) {
    (
        ((s.max_id + 4) as u32, 0u16),
        ((s.max_id + 2) as u32, 0u16),
        ((s.max_id + 1) as u32, 0u16),
        ((s.max_id + 3) as u32, 0u16),
        ((s.max_id + 5) as u32, 0u16),
    )
}

/// Embedding a font program leaves, at the id it returns, a Type0 font that
/// embeds the program with the given widths, its CIDToGIDMap and the CMap
/// of the used codes, and changes no object outside the six numbers it adds.
pub proof fn lemma_embed_places_program(
    s: PdfState,
    font_name: Seq<u8>,
    font: Seq<u8>,
    used: Set<u16>,
    widths: PdfValue,
)
    requires
        s.max_id <= u32::MAX - 6,
    ensures
        ({
            let t = embedded_font_state(
                s,
                font_name,
                font,
                crate::truetype::cid_to_gid_map_of(font, used),
                crate::cmap::to_unicode_cmap(used),
                widths,
            );
            &&& embeds_program_via(
                t.objects,
                embedded_font_id(s),
                embedded_parts(s),
                font_name,
                font,
                widths,
                used,
            )
            &&& embeds_program(t.objects, embedded_font_id(s), font_name, font, widths, used)
            &&& t.max_id == s.max_id + 6
            &&& forall|k: (u32, u16)|
                (k.1 != 0 || k.0 <= s.max_id || k.0 > s.max_id + 6) ==> (#[trigger] t.objects.contains_key(
                    k,
                ) == s.objects.contains_key(k) && t.objects[k] == s.objects[k])
        }),
{
    reveal(crate::font::font_file_value);
    reveal(crate::font::font_descriptor_value);
    reveal(crate::font::cid_font_value);
    reveal(crate::font::plain_stream_value);
    reveal(type0_font_value);
    lemma_font_keys_differ();
    crate::font::lemma_font_resources_keys_differ();
    let b = s.max_id;
    lemma_type0_subtype(font_name, ((b + 4) as u32, 0u16), ((b + 5) as u32, 0u16));
    let gid_map = crate::truetype::cid_to_gid_map_of(font, used);
    let cmap = crate::cmap::to_unicode_cmap(used);
    let t = embedded_font_state(s, font_name, font, gid_map, cmap, widths);
    let idt = embedded_font_id(s);
    let (cid, fd, ff, gm, tu) = embedded_parts(s);
    assert(t.objects[idt] == type0_font_value(font_name, cid, tu));
    assert(t.objects[cid] == crate::font::cid_font_value(font_name, fd, gm, widths));
    assert(t.objects[fd] == crate::font::font_descriptor_value(font_name, ff));
    assert(t.objects[ff] == crate::font::font_file_value(font));
    assert(t.objects[gm] == crate::font::plain_stream_value(gid_map));
    assert(t.objects[tu] == crate::font::plain_stream_value(cmap));
    assert(embeds_program_via(t.objects, idt, embedded_parts(s), font_name, font, widths, used));
}

/// The numbers of a Type0 font and its parts are all at most `m`.
pub open spec fn parts_within(
    id: (u32, u16),
    ids: ((u32, u16), (u32, u16), (u32, u16), (u32, u16), (u32, u16)),
    m: u32,
) -> bool {
    &&& id.0 <= m
    &&& ids.0.0 <= m
    &&& ids.1.0 <= m
    &&& ids.2.0 <= m
    &&& ids.3.0 <= m
    &&& ids.4.0 <= m
}

/// A font embedded in a document stays embedded when another font is
/// embedded after it.
proof fn lemma_embed_keeps_program(
    s: PdfState,
    font_name: Seq<u8>,
    font: Seq<u8>,
    w: PdfValue,
    id: (u32, u16),
    ids: ((u32, u16), (u32, u16), (u32, u16), (u32, u16), (u32, u16)),
    name: Seq<u8>,
    data: Seq<u8>,
    widths: PdfValue,
    used: Set<u16>,
)
    requires
        s.max_id <= u32::MAX - 6,
        embeds_program_via(s.objects, id, ids, name, data, widths, used),
        parts_within(id, ids, s.max_id),
    ensures
        embeds_program_via(
            embedded_font_state(
                s,
                font_name,
                font,
                crate::truetype::cid_to_gid_map_of(font, used),
                crate::cmap::to_unicode_cmap(used),
                w,
            ).objects,
            id,
            ids,
            name,
            data,
            widths,
            used,
        ),
{
    lemma_embed_places_program(s, font_name, font, used, w);
    let t = embedded_font_state(
        s,
        font_name,
        font,
        crate::truetype::cid_to_gid_map_of(font, used),
        crate::cmap::to_unicode_cmap(used),
        w,
    );
    let (cid, fd, ff, gm, tu) = ids;
    assert(t.objects.contains_key(id) == s.objects.contains_key(id));
    assert(t.objects.contains_key(cid) == s.objects.contains_key(cid));
    assert(t.objects.contains_key(fd) == s.objects.contains_key(fd));
    assert(t.objects.contains_key(ff) == s.objects.contains_key(ff));
    assert(t.objects.contains_key(gm) == s.objects.contains_key(gm));
    assert(t.objects.contains_key(tu) == s.objects.contains_key(tu));
}

/// A font embedded in a document stays embedded when the overlay font
/// names are registered in a font dictionary.
proof fn lemma_embeds_registration(
    o1: Map<(u32, u16), PdfValue>,
    tf: (u32, u16),
    fdm: Map<Seq<u8>, PdfValue>,
    ra: (u32, u16),
    rb: (u32, u16),
    rc: (u32, u16),
    rd: (u32, u16),
    id: (u32, u16),
    ids: ((u32, u16), (u32, u16), (u32, u16), (u32, u16), (u32, u16)),
    name: Seq<u8>,
    data: Seq<u8>,
    widths: PdfValue,
    used: Set<u16>,
)
    requires
        embeds_program_via(o1, id, ids, name, data, widths, used),
        o1.contains_key(tf),
        o1[tf] == PdfValue::Dict(fdm),
    ensures
        embeds_program_via(
            o1.insert(tf, PdfValue::Dict(registered_fonts(fdm, ra, rb, rc, rd))),
            id,
            ids,
            name,
            data,
            widths,
            used,
        ),
{
    lemma_registered_keys_differ();
}

/// After the overlay fonts are ensured, the page's font dictionary registers
/// each font program under its own name: `FCOHelveticaRegular` refers to a
/// Type0 font named Helvetica whose `FontFile2` stream holds the Helvetica
/// program and whose CID font has the Helvetica widths (and the Helvetica
/// CIDToGIDMap), `FCOHelveticaBold` to one named Helvetica-Bold holding the
/// Helvetica Bold program and its widths, and likewise `FCOArialRegular`
/// (ArialMT) and `FCOArialBold` (Arial-BoldMT); each has the CMap of the
/// used codes as its ToUnicode stream.
#[verifier::rlimit(60)]
pub proof fn lemma_overlay_fonts_embed_programs(
    s: PdfState,
    page_id: (u32, u16),
    used: Set<u16>,
    fonts: crate::font::OverlayFontPrograms,
)
    requires
        crate::font::overlay_fonts_fit(s, page_id, used, fonts),
        overlay_fonts_outcome(s, page_id, used, fonts).1,
    ensures
        overlay_programs_registered(
            overlay_fonts_outcome(s, page_id, used, fonts).0.objects,
            page_font_resources(s, page_id).1->0,
            fonts,
            used,
        ),
{
    let (s1, f) = page_font_resources(s, page_id);
    let fid = f->0;
    let p1 = fonts.helvetica->Ok_0;
    let p2 = fonts.helvetica_bold->Ok_0;
    let p3 = fonts.arial->Ok_0;
    let p4 = fonts.arial_bold->Ok_0;
    let w1 = crate::pdf::object_value(p1.cid_widths->Ok_0);
    let w2 = crate::pdf::object_value(p2.cid_widths->Ok_0);
    let w3 = crate::pdf::object_value(p3.cid_widths->Ok_0);
    let w4 = crate::pdf::object_value(p4.cid_widths->Ok_0);
    let n1 = key("Helvetica");
    let n2 = key("Helvetica-Bold");
    let n3 = key("ArialMT");
    let n4 = key("Arial-BoldMT");
    let (s2, a) = embed_outcome(s1, n1, p1, used);
    let (s3, b) = embed_outcome(s2, n2, p2, used);
    let (s4, c) = embed_outcome(s3, n3, p3, used);
    let (s5, d) = embed_outcome(s4, n4, p4, used);
    lemma_embed_places_program(s1, n1, p1.data@, used, w1);
    lemma_embed_places_program(s2, n2, p2.data@, used, w2);
    lemma_embed_places_program(s3, n3, p3.data@, used, w3);
    lemma_embed_places_program(s4, n4, p4.data@, used, w4);
    let ia = embedded_parts(s1);
    let ib = embedded_parts(s2);
    let ic = embedded_parts(s3);
    let id = embedded_parts(s4);
    lemma_embed_keeps_program(s2, n2, p2.data@, w2, a->0, ia, n1, p1.data@, w1, used);
    lemma_embed_keeps_program(s3, n3, p3.data@, w3, a->0, ia, n1, p1.data@, w1, used);
    lemma_embed_keeps_program(s4, n4, p4.data@, w4, a->0, ia, n1, p1.data@, w1, used);
    lemma_embed_keeps_program(s3, n3, p3.data@, w3, b->0, ib, n2, p2.data@, w2, used);
    lemma_embed_keeps_program(s4, n4, p4.data@, w4, b->0, ib, n2, p2.data@, w2, used);
    lemma_embed_keeps_program(s4, n4, p4.data@, w4, c->0, ic, n3, p3.data@, w3, used);

    let fdm = dict_at(s5.objects, fid)->0;
    let tf = lookup(s5.objects, fid)->0;
    lemma_resolve_target(s5.objects, fid, crate::pdf::deref_limit());
    let nd = registered_fonts(fdm, a->0, b->0, c->0, d->0);
    let objs6 = s5.objects.insert(tf, PdfValue::Dict(nd));
    assert(overlay_fonts_outcome(s, page_id, used, fonts).0.objects == objs6);
    lemma_resolve_replace(s5.objects, tf, PdfValue::Dict(nd), fid, crate::pdf::deref_limit());
    assert(dict_at(objs6, fid) == Some(nd));
    lemma_overlay_keys_differ();
    lemma_embeds_registration(s5.objects, tf, fdm, a->0, b->0, c->0, d->0, a->0, ia, n1, p1.data@, w1, used);
    lemma_embeds_registration(s5.objects, tf, fdm, a->0, b->0, c->0, d->0, b->0, ib, n2, p2.data@, w2, used);
    lemma_embeds_registration(s5.objects, tf, fdm, a->0, b->0, c->0, d->0, c->0, ic, n3, p3.data@, w3, used);
    lemma_embeds_registration(s5.objects, tf, fdm, a->0, b->0, c->0, d->0, d->0, id, n4, p4.data@, w4, used);
    assert(refers(nd, key("FCOHelveticaRegular"), a->0));
    assert(refers(nd, key("FCOHelveticaBold"), b->0));
    assert(refers(nd, key("FCOArialRegular"), c->0));
    assert(refers(nd, key("FCOArialBold"), d->0));
    assert(embeds_program(objs6, a->0, n1, p1.data@, w1, used));
    assert(embeds_program(objs6, b->0, n2, p2.data@, w2, used));
    assert(embeds_program(objs6, c->0, n3, p3.data@, w3, used));
    assert(embeds_program(objs6, d->0, n4, p4.data@, w4, used));
    assert(registers_program(objs6, nd, key("FCOHelveticaRegular"), n1, p1, used));
    assert(registers_program(objs6, nd, key("FCOHelveticaBold"), n2, p2, used));
    assert(registers_program(objs6, nd, key("FCOArialRegular"), n3, p3, used));
    assert(registers_program(objs6, nd, key("FCOArialBold"), n4, p4, used));
}

} // verus!
