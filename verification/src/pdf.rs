//! The PDF object graph as the `lopdf` crate holds it, seen through a
//! mathematical model, with the `lopdf` operations that the font code uses.

use vstd::prelude::*;
use vstd::string::StringSliceAdditionalSpecFns;

verus! {

#[verifier::external_type_specification]
#[verifier::external_body]
pub struct ExDocument(lopdf::Document);

#[verifier::external_type_specification]
#[verifier::external_body]
pub struct ExObject(lopdf::Object);

#[verifier::external_type_specification]
#[verifier::external_body]
pub struct ExDictionary(lopdf::Dictionary);

#[verifier::external_type_specification]
#[verifier::external_body]
pub struct ExLopdfError(lopdf::Error);

/// The value of a PDF object. Real numbers are modelled without their
/// value, which nothing here reads.
pub enum PdfValue {
    Null,
    Boolean(bool),
    Integer(i64),
    Real,
    Name(Seq<u8>),
    /// A string and whether it is written in hexadecimal form.
    Str(Seq<u8>, bool),
    Array(Seq<PdfValue>),
    Dict(Map<Seq<u8>, PdfValue>),
    /// A stream: its dictionary and its content.
    Stream(Map<Seq<u8>, PdfValue>, Seq<u8>),
    Reference(u32, u16),
}

/// The indirect objects of a `lopdf::Document` (its `objects` map), by
/// object id.
pub uninterp spec fn pdf_objects(doc: lopdf::Document) -> Map<(u32, u16), PdfValue>;

/// The largest object number a `lopdf::Document` has handed out (its
/// `max_id`), from which new objects are numbered.
pub uninterp spec fn pdf_max_id(doc: lopdf::Document) -> u32;

/// The entries of a `lopdf::Dictionary`, by key.
pub uninterp spec fn dict_entries(d: lopdf::Dictionary) -> Map<Seq<u8>, PdfValue>;

/// The value that a `lopdf::Object` holds.
pub uninterp spec fn object_value(o: lopdf::Object) -> PdfValue;

/// What a `lopdf::Document` holds besides its objects and `max_id`, as far
/// as it is made of plain values: its version, binary mark, trailer
/// entries, cross-reference start, largest bookmark id and bookmark list.
/// (Its cross-reference table, bookmark table, recovery record and
/// encryption state are of `lopdf` types, and are left out.)
pub struct PdfRest {
    pub version: Seq<char>,
    pub binary_mark: Seq<u8>,
    pub trailer: Map<Seq<u8>, PdfValue>,
    pub xref_start: usize,
    pub max_bookmark_id: u32,
    pub bookmarks: Seq<u32>,
}

/// The fields of a `lopdf::Document` besides its objects and `max_id`.
pub uninterp spec fn pdf_rest(doc: lopdf::Document) -> PdfRest;

/// The entries of an empty dictionary.
pub open spec fn no_entries() -> Map<Seq<u8>, PdfValue> {
    Map::empty()
}

/// The model of a whole document: its objects, its largest object number
/// and the rest of its fields.
pub struct PdfState {
    pub objects: Map<(u32, u16), PdfValue>,
    pub max_id: u32,
    pub rest: PdfRest,
}

/// The model of a document.
pub open spec fn pdf_state(doc: lopdf::Document) -> PdfState {
    PdfState { objects: pdf_objects(doc), max_id: pdf_max_id(doc), rest: pdf_rest(doc) }
}

/// How many references `lopdf` follows when it looks an object up.
pub open spec fn deref_limit() -> nat {
    128
}

/// The object that looking up `id` ends at: references are followed, at
/// most `steps` times; `None` when an object is missing or the limit is hit.
pub open spec fn resolve(objects: Map<(u32, u16), PdfValue>, id: (u32, u16), steps: nat) -> Option<
    (u32, u16),
>
    decreases steps,
{
    if !objects.contains_key(id) {
        None
    } else {
        match objects[id] {
            PdfValue::Reference(n, g) => if steps == 0 {
                None
            } else {
                resolve(objects, (n, g), (steps - 1) as nat)
            },
            _ => Some(id),
        }
    }
}

/// The id of the object that looking up `id` yields, as
/// `lopdf::Document::get_object` does it.
pub open spec fn lookup(objects: Map<(u32, u16), PdfValue>, id: (u32, u16)) -> Option<(u32, u16)> {
    resolve(objects, id, deref_limit())
}

/// The entries of the dictionary that looking up `id` yields, if it yields
/// a dictionary.
pub open spec fn dict_at(objects: Map<(u32, u16), PdfValue>, id: (u32, u16)) -> Option<
    Map<Seq<u8>, PdfValue>,
> {
    match lookup(objects, id) {
        Some(t) => match objects[t] {
            PdfValue::Dict(d) => Some(d),
            _ => None,
        },
        None => None,
    }
}

/// The id that the next added object gets.
pub open spec fn next_id(s: PdfState) -> (u32, u16) {
    ((s.max_id + 1) as u32, 0u16)
}

/// The document after adding an object holding `v`.
pub open spec fn add_value(s: PdfState, v: PdfValue) -> PdfState {
    PdfState { objects: s.objects.insert(next_id(s), v), max_id: (s.max_id + 1) as u32, rest: s.rest }
}

/// The document after setting `key` to `v` in the dictionary that `holder`
/// looks up to, or `None` when it looks up to no dictionary.
pub open spec fn set_entry(s: PdfState, holder: (u32, u16), key: Seq<u8>, v: PdfValue) -> Option<
    PdfState,
> {
    match dict_at(s.objects, holder) {
        Some(d) => Some(
            PdfState {
                objects: s.objects.insert(lookup(s.objects, holder)->0, PdfValue::Dict(d.insert(key, v))),
                max_id: s.max_id,
                rest: s.rest,
            },
        ),
        None => None,
    }
}

/// The bytes of a text key.
pub open spec fn key(s: &str) -> Seq<u8> {
    s.spec_bytes()
}

/// Calls `lopdf::Document::get_object`. Claimed: it yields the object that
/// looking `id` up ends at, and fails exactly when the lookup fails.
#[verifier::external_body]
pub(crate) fn doc_get_object<'a>(doc: &'a lopdf::Document, id: (u32, u16)) -> (r: Result<
    &'a lopdf::Object,
    lopdf::Error,
>)
    ensures
        r is Ok <==> lookup(pdf_objects(*doc), id) is Some,
        r matches Ok(o) ==> object_value(*o) == pdf_objects(*doc)[lookup(pdf_objects(*doc), id)->0],
{
    doc.get_object(id)
}

/// Calls `lopdf::Object::as_dict`. Claimed: it succeeds exactly on a
/// dictionary and yields that dictionary.
#[verifier::external_body]
pub(crate) fn object_as_dict<'a>(o: &'a lopdf::Object) -> (r: Result<&'a lopdf::Dictionary, lopdf::Error>)
    ensures
        r is Ok <==> object_value(*o) is Dict,
        r matches Ok(d) ==> object_value(*o) == PdfValue::Dict(dict_entries(*d)),
{
    o.as_dict()
}

/// Calls `lopdf::Object::as_reference`. Claimed: it succeeds exactly on a
/// reference and yields its object id.
#[verifier::external_body]
pub(crate) fn object_as_reference(o: &lopdf::Object) -> (r: Result<(u32, u16), lopdf::Error>)
    ensures
        r is Ok <==> object_value(*o) is Reference,
        r matches Ok(id) ==> object_value(*o) == PdfValue::Reference(id.0, id.1),
{
    o.as_reference()
}

/// Calls `lopdf::Dictionary::get`. Claimed: it succeeds exactly when the
/// key is present and yields the entry's object.
#[verifier::external_body]
pub(crate) fn dict_get<'a>(d: &'a lopdf::Dictionary, key: &[u8]) -> (r: Result<&'a lopdf::Object, lopdf::Error>)
    ensures
        r is Ok <==> dict_entries(*d).contains_key(key@),
        r matches Ok(o) ==> object_value(*o) == dict_entries(*d)[key@],
{
    d.get(key)
}

/// Calls `Clone::clone` on a `lopdf::Object`. Claimed: the copy holds the
/// same value.
#[verifier::external_body]
pub(crate) fn object_clone(o: &lopdf::Object) -> (c: lopdf::Object)
    ensures
        object_value(c) == object_value(*o),
{
    o.clone()
}

/// Calls `lopdf::Document::add_object`, which numbers the object
/// `max_id + 1` (generation 0) and panics when `max_id` is `u32::MAX`.
/// Claimed: the object is stored under that id, which is returned,
/// `max_id` grows by one, and no other field of the document changes.
#[verifier::external_body]
pub(crate) fn doc_add_object(doc: &mut lopdf::Document, obj: lopdf::Object) -> (id: (u32, u16))
    requires
        pdf_max_id(*old(doc)) < u32::MAX,
    ensures
        id == next_id(pdf_state(*old(doc))),
        pdf_state(*final(doc)) == add_value(pdf_state(*old(doc)), object_value(obj)),
{
    doc.add_object(obj)
}

/// Reads the `max_id` field of a `lopdf::Document`.
#[verifier::external_body]
pub(crate) fn doc_max_id(doc: &lopdf::Document) -> (m: u32)
    ensures
        m == pdf_max_id(*doc),
{
    doc.max_id
}

/// Calls `lopdf::Document::get_object_mut` on an id that looks up to an
/// object. Claimed: the reference reaches the object that the lookup ends
/// at, what is written through it is what the document then holds there,
/// and nothing else in the document changes.
#[verifier::external_body]
pub(crate) fn doc_get_object_mut<'a>(doc: &'a mut lopdf::Document, id: (u32, u16)) -> (o: &'a mut lopdf::Object)
    requires
        lookup(pdf_objects(*old(doc)), id) is Some,
    ensures
        object_value(*o) == pdf_objects(*old(doc))[lookup(pdf_objects(*old(doc)), id)->0],
        pdf_state(*final(doc)) == (PdfState {
            objects: pdf_objects(*old(doc)).insert(
                lookup(pdf_objects(*old(doc)), id)->0,
                object_value(*final(o)),
            ),
            max_id: pdf_max_id(*old(doc)),
            rest: pdf_rest(*old(doc)),
        }),
{
    doc.get_object_mut(id).unwrap()
}

/// Calls `lopdf::Object::as_dict_mut` on a dictionary object. Claimed: the
/// reference reaches the dictionary, and the object then holds what is
/// written through it.
#[verifier::external_body]
pub(crate) fn object_as_dict_mut<'a>(o: &'a mut lopdf::Object) -> (d: &'a mut lopdf::Dictionary)
    requires
        object_value(*old(o)) is Dict,
    ensures
        object_value(*old(o)) == PdfValue::Dict(dict_entries(*d)),
        object_value(*final(o)) == PdfValue::Dict(dict_entries(*final(d))),
{
    o.as_dict_mut().unwrap()
}

/// Calls `lopdf::Dictionary::new`. Claimed: the dictionary is empty.
#[verifier::external_body]
pub(crate) fn dict_new() -> (d: lopdf::Dictionary)
    ensures
        dict_entries(d) == no_entries(),
{
    lopdf::Dictionary::new()
}

/// Calls `lopdf::Dictionary::set`. Claimed: the entry for the key is set
/// to the object, and all other entries stay.
#[verifier::external_body]
pub(crate) fn dict_set(d: &mut lopdf::Dictionary, key: Vec<u8>, value: lopdf::Object)
    ensures
        dict_entries(*final(d)) == dict_entries(*old(d)).insert(key@, object_value(value)),
{
    d.set(key, value)
}

/// Builds `lopdf::Object::Integer`.
#[verifier::external_body]
pub(crate) fn obj_integer(i: i64) -> (o: lopdf::Object)
    ensures
        object_value(o) == PdfValue::Integer(i),
{
    lopdf::Object::Integer(i)
}

/// Builds `lopdf::Object::Name`.
#[verifier::external_body]
pub(crate) fn obj_name(name: Vec<u8>) -> (o: lopdf::Object)
    ensures
        object_value(o) == PdfValue::Name(name@),
{
    lopdf::Object::Name(name)
}

/// Builds `lopdf::Object::String` in literal form.
#[verifier::external_body]
pub(crate) fn obj_literal_string(bytes: Vec<u8>) -> (o: lopdf::Object)
    ensures
        object_value(o) == PdfValue::Str(bytes@, false),
{
    lopdf::Object::String(bytes, lopdf::StringFormat::Literal)
}

/// Builds `lopdf::Object::Reference`.
#[verifier::external_body]
pub(crate) fn obj_reference(id: (u32, u16)) -> (o: lopdf::Object)
    ensures
        object_value(o) == PdfValue::Reference(id.0, id.1),
{
    lopdf::Object::Reference(id)
}

/// Builds `lopdf::Object::Dictionary`.
#[verifier::external_body]
pub(crate) fn obj_dictionary(d: lopdf::Dictionary) -> (o: lopdf::Object)
    ensures
        object_value(o) == PdfValue::Dict(dict_entries(d)),
{
    lopdf::Object::Dictionary(d)
}

/// Builds `lopdf::Object::Array`.
#[verifier::external_body]
pub(crate) fn obj_array(items: Vec<lopdf::Object>) -> (o: lopdf::Object)
    ensures
        object_value(o) == PdfValue::Array(items@.map_values(|i: lopdf::Object| object_value(i))),
{
    lopdf::Object::Array(items)
}

/// Builds a stream object with `lopdf::Stream::new`, which sets the
/// dictionary's `Length` to the content's length (converted with `as
/// i64`). Claimed: the stream's
/// dictionary is the given one with `Length` set, and its content is the
/// given bytes.
#[verifier::external_body]
pub(crate) fn obj_stream(dict: lopdf::Dictionary, content: Vec<u8>) -> (o: lopdf::Object)
    ensures
        object_value(o) == PdfValue::Stream(
            dict_entries(dict).insert(key("Length"), PdfValue::Integer(content@.len() as i64)),
            content@,
        ),
{
    lopdf::Object::Stream(lopdf::Stream::new(dict, content))
}

/// The `Display` text of a `lopdf::Error`. Nothing is claimed of the text.
#[verifier::external_body]
pub(crate) fn lopdf_error_text(e: &lopdf::Error) -> String {
    e.to_string()
}

/// The object numbers `max_id + 1` to `max_id + n` (generation 0), which
/// `lopdf` gives to the next `n` objects added, are free.
pub open spec fn next_ids_free(s: PdfState, n: nat) -> bool {
    forall|id: (u32, u16)|
        #[trigger] s.objects.contains_key(id) && id.1 == 0 ==> id.0 <= s.max_id || id.0 > s.max_id + n
}

/// Adding an object where the next number is free adds it under a new id,
/// and the numbers after it stay free.
pub proof fn lemma_add_fresh(s: PdfState, v: PdfValue, n: nat)
    requires
        next_ids_free(s, n + 1),
        s.max_id < u32::MAX,
    ensures
        !s.objects.contains_key(next_id(s)),
        next_ids_free(add_value(s, v), n),
{
    if s.objects.contains_key(next_id(s)) {
        assert(next_id(s).0 <= s.max_id || next_id(s).0 > s.max_id + n + 1);
    }
    let t = add_value(s, v);
    assert forall|id: (u32, u16)| #[trigger] t.objects.contains_key(id) && id.1 == 0 implies id.0
        <= t.max_id || id.0 > t.max_id + n by {
        if id != next_id(s) {
            assert(s.objects.contains_key(id));
        }
    }
}

/// Adding an object under an id that was free leaves every successful
/// lookup as it was.
pub proof fn lemma_resolve_add(
    objects: Map<(u32, u16), PdfValue>,
    n: (u32, u16),
    v: PdfValue,
    id: (u32, u16),
    steps: nat,
)
    requires
        !objects.contains_key(n),
        resolve(objects, id, steps) is Some,
    ensures
        resolve(objects.insert(n, v), id, steps) == resolve(objects, id, steps),
    decreases steps,
{
    let o2 = objects.insert(n, v);
    assert(objects.contains_key(id));
    assert(id != n);
    assert(o2[id] == objects[id]);
    match objects[id] {
        PdfValue::Reference(a, b) => {
            lemma_resolve_add(objects, n, v, (a, b), (steps - 1) as nat);
        },
        _ => {},
    }
}

/// Replacing an object that is no reference by another value that is no
/// reference leaves every lookup as it was.
pub proof fn lemma_resolve_replace(
    objects: Map<(u32, u16), PdfValue>,
    t: (u32, u16),
    v: PdfValue,
    id: (u32, u16),
    steps: nat,
)
    requires
        objects.contains_key(t),
        !(objects[t] is Reference),
        !(v is Reference),
    ensures
        resolve(objects.insert(t, v), id, steps) == resolve(objects, id, steps),
    decreases steps,
{
    let o2 = objects.insert(t, v);
    if objects.contains_key(id) {
        if id == t {
        } else {
            assert(o2[id] == objects[id]);
            match objects[id] {
                PdfValue::Reference(a, b) => {
                    if steps > 0 {
                        lemma_resolve_replace(objects, t, v, (a, b), (steps - 1) as nat);
                    }
                },
                _ => {},
            }
        }
    } else {
        assert(!o2.contains_key(id));
    }
}

/// A lookup ends at an object that is there and is no reference.
pub proof fn lemma_resolve_target(objects: Map<(u32, u16), PdfValue>, id: (u32, u16), steps: nat)
    requires
        resolve(objects, id, steps) is Some,
    ensures
        objects.contains_key(resolve(objects, id, steps)->0),
        !(objects[resolve(objects, id, steps)->0] is Reference),
    decreases steps,
{
    match objects[id] {
        PdfValue::Reference(a, b) => {
            lemma_resolve_target(objects, (a, b), (steps - 1) as nat);
        },
        _ => {},
    }
}

/// The bytes of a text key, as an owned vector.
pub(crate) fn key_bytes(s: &str) -> (v: Vec<u8>)
    ensures
        v@ == key(s),
{
    let mut v: Vec<u8> = Vec::new();
    crate::cmap::push_str_bytes(&mut v, s);
    proof {
        assert(v@ =~= key(s));
    }
    v
}

} // verus!
