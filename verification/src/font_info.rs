//! The character collection that the embedded CID fonts declare.

use vstd::prelude::*;
use crate::pdf::{PdfValue, dict_new, dict_set, key, key_bytes, no_entries, obj_dictionary,
    obj_integer, obj_literal_string, object_value};

verus! {

/// The `CIDSystemInfo` dictionary of the `Adobe-Identity-0` collection.
pub open spec fn cid_system_info_value() -> PdfValue {
    PdfValue::Dict(
        no_entries().insert(key("Registry"), PdfValue::Str(key("Adobe"), false)).insert(
            key("Ordering"),
            PdfValue::Str(key("Identity"), false),
        ).insert(key("Supplement"), PdfValue::Integer(0)),
    )
}

/// Builds the `CIDSystemInfo` dictionary object.
pub fn cid_system_info() -> (o: lopdf::Object)
    ensures
        object_value(o) == cid_system_info_value(),
{
    let mut d = dict_new();
    dict_set(&mut d, key_bytes("Registry"), obj_literal_string(key_bytes("Adobe")));
    dict_set(&mut d, key_bytes("Ordering"), obj_literal_string(key_bytes("Identity")));
    dict_set(&mut d, key_bytes("Supplement"), obj_integer(0));
    obj_dictionary(d)
}

} // verus!
