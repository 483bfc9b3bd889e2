//! Facts about the order of `u16` that the standard library's ordered
//! collections rely on.

use vstd::prelude::*;
use vstd::std_specs::cmp::OrdSpec;

verus! {

/// `u16` follows the total order that ordered collections assume.
pub proof fn lemma_u16_total_order()
    ensures
        vstd::laws_cmp::obeys_cmp::<u16>(),
        vstd::std_specs::btree::key_obeys_cmp_spec::<u16>(),
{
    broadcast use vstd::laws_cmp::group_laws_cmp;
    broadcast use vstd::std_specs::btree::group_btree_axioms;
}

/// An increasing sequence of `u16` keys, in the sense of the ordered
/// collections, is strictly increasing as numbers.
pub proof fn lemma_u16_increasing(s: Seq<&u16>)
    requires
        vstd::std_specs::btree::increasing_seq(s),
    ensures
        forall|i: int, j: int| 0 <= i < j < s.len() ==> *s[i] < *s[j],
{
    broadcast use vstd::laws_cmp::group_laws_cmp;
    broadcast use vstd::std_specs::btree::group_btree_axioms;
    broadcast use vstd::laws_cmp::lemma_ref_obeys_cmp_spec;
    assert(vstd::laws_cmp::obeys_cmp::<u16>());
    assert(vstd::laws_cmp::obeys_cmp::<&u16>());
    assert forall|i: int, j: int| 0 <= i < j < s.len() implies *s[i] < *s[j] by {
        assert(OrdSpec::cmp_spec(&s[i], &s[j]) is Less);
    }
}

} // verus!
