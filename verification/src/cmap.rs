//! The ToUnicode CMap that maps the two-byte character codes of an
//! `Identity-H` Type0 font back to the UTF-16 code units they stand for.

use std::collections::BTreeSet;
use vstd::prelude::*;
use vstd::std_specs::iter::IteratorSpec;
use vstd::string::StringSliceAdditionalSpecFns;

verus! {

/// `s` lists its elements in strictly increasing order.
pub open spec fn strictly_increasing(s: Seq<u16>) -> bool {
    forall|i: int, j: int| 0 <= i < j < s.len() ==> s[i] < s[j]
}

/// The codes that the CMap maps: every used code but 0, and always the
/// space character U+0020.
pub open spec fn mapped_codes(used: Set<u16>) -> Set<u16> {
    used.remove(0).insert(0x20)
}

/// The members of a set of codes in increasing order.
pub open spec fn ascending(set: Set<u16>) -> Seq<u16> {
    choose|s: Seq<u16>| strictly_increasing(s) && s.to_set() == set
}

/// The mapped codes in increasing order.
pub open spec fn cmap_codes(used: Set<u16>) -> Seq<u16> {
    ascending(mapped_codes(used))
}

/// Upper-case hexadecimal digit of `d` (0 to 15), as an ASCII byte.
pub open spec fn hex_digit(d: u16) -> u8 {
    if d < 10 {
        (48 + d) as u8
    } else {
        (55 + d) as u8
    }
}

/// A code written as exactly four upper-case hexadecimal digits.
pub open spec fn hex4(c: u16) -> Seq<u8> {
    seq![hex_digit(c / 4096), hex_digit((c / 256) % 16), hex_digit((c / 16) % 16), hex_digit(c % 16)]
}

/// The value of an upper-case hexadecimal digit written as an ASCII byte.
pub open spec fn hex_value(b: u8) -> int {
    if 48 <= b <= 57 {
        b - 48
    } else {
        b - 55
    }
}

/// Each code is written as four upper-case hexadecimal digits (`0`-`9`,
/// `A`-`F`), most significant first, that read back as the code.
pub proof fn lemma_hex4_reads_back(c: u16)
    ensures
        hex4(c).len() == 4,
        forall|i: int| 0 <= i < 4 ==> (48 <= #[trigger] hex4(c)[i] <= 57 || 65 <= hex4(c)[i] <= 70),
        hex_value(hex4(c)[0]) * 4096 + hex_value(hex4(c)[1]) * 256 + hex_value(hex4(c)[2]) * 16
            + hex_value(hex4(c)[3]) == c,
{
    assert((c / 4096) * 4096 + ((c / 256) % 16) * 256 + ((c / 16) % 16) * 16 + c % 16 == c)
        by (nonlinear_arith);
    assert(c / 4096 < 16) by (nonlinear_arith);
}

/// A natural number written in decimal, as ASCII bytes.
pub open spec fn decimal(n: nat) -> Seq<u8>
    decreases n,
{
    if n < 10 {
        seq![(48 + n) as u8]
    } else {
        decimal(n / 10) + seq![(48 + n % 10) as u8]
    }
}

/// One `bfchar` mapping line, `<XXXX> <XXXX>`: the code maps to itself.
pub open spec fn bfchar_line(c: u16) -> Seq<u8> {
    seq![60u8] + hex4(c) + seq![62u8, 32u8, 60u8] + hex4(c) + seq![62u8, 10u8]
}

/// The mapping lines of `codes`, in order.
pub open spec fn bfchar_lines(codes: Seq<u16>) -> Seq<u8>
    decreases codes.len(),
{
    if codes.len() == 0 {
        seq![]
    } else {
        bfchar_lines(codes.drop_last()) + bfchar_line(codes.last())
    }
}

/// One `beginbfchar` ... `endbfchar` section listing `chunk`.
pub open spec fn bfchar_section(chunk: Seq<u16>) -> Seq<u8> {
    decimal(chunk.len()) + " beginbfchar\n".spec_bytes() + bfchar_lines(chunk)
        + "endbfchar\n".spec_bytes()
}

/// The sections of `codes`, cut into consecutive chunks of 100 codes (the
/// last one possibly shorter).
pub open spec fn bfchar_sections(codes: Seq<u16>) -> Seq<u8>
    decreases codes.len(),
{
    if codes.len() == 0 {
        seq![]
    } else if codes.len() <= 100 {
        bfchar_section(codes)
    } else {
        bfchar_section(codes.take(100)) + bfchar_sections(codes.skip(100))
    }
}

/// The fixed text before the mapping sections.
pub open spec fn cmap_header() -> Seq<u8> {
    "/CIDInit /ProcSet findresource begin\n12 dict begin\nbegincmap\n/CIDSystemInfo << /Registry (Adobe) /Ordering (Identity) /Supplement 0 >> def\n/CMapName /FCOIdentityUnicode def\n/CMapType 2 def\n1 begincodespacerange\n<0000> <FFFF>\nendcodespacerange\n".spec_bytes()
}

/// The fixed text after the mapping sections.
pub open spec fn cmap_footer() -> Seq<u8> {
    "endcmap\nCMapName currentdict /CMap defineresource pop\nend\nend\n".spec_bytes()
}

/// The complete CMap program for the given ordered codes.
pub open spec fn cmap_text(codes: Seq<u16>) -> Seq<u8> {
    cmap_header() + bfchar_sections(codes) + cmap_footer()
}

/// The ToUnicode CMap for a set of used UTF-16 code units.
pub open spec fn to_unicode_cmap(used: Set<u16>) -> Seq<u8> {
    cmap_text(cmap_codes(used))
}

proof fn lemma_drop_last_to_set(s: Seq<u16>)
    requires
        s.len() > 0,
        strictly_increasing(s),
    ensures
        s.drop_last().to_set() == s.to_set().remove(s.last()),
        forall|x: u16| s.to_set().contains(x) ==> x <= s.last(),
{
    assert forall|x: u16| s.to_set().contains(x) implies x <= s.last() by {
        let k = choose|k: int| 0 <= k < s.len() && s[k] == x;
        assert(s.contains(x));
    }
    assert forall|x: u16|
        s.drop_last().to_set().contains(x) <==> s.to_set().remove(s.last()).contains(x) by {
        if s.drop_last().to_set().contains(x) {
            assert(s.drop_last().contains(x));
            let k = choose|k: int| 0 <= k < s.len() - 1 && s.drop_last()[k] == x;
            assert(s[k] == x);
            assert(s.contains(x));
        }
        if s.to_set().remove(s.last()).contains(x) {
            assert(s.contains(x));
            let k = choose|k: int| 0 <= k < s.len() && s[k] == x;
            assert(k != s.len() - 1);
            assert(s.drop_last()[k] == x);
            assert(s.drop_last().contains(x));
        }
    }
    assert(s.drop_last().to_set() =~= s.to_set().remove(s.last()));
}

/// Two strictly increasing sequences with the same elements are equal.
pub proof fn lemma_increasing_unique(a: Seq<u16>, b: Seq<u16>)
    requires
        strictly_increasing(a),
        strictly_increasing(b),
        a.to_set() == b.to_set(),
    ensures
        a == b,
    decreases a.len(),
{
    if a.len() == 0 {
        if b.len() > 0 {
            assert(b.contains(b[0]));
            assert(b.to_set().contains(b[0]));
        }
        assert(a =~= b);
    } else {
        if b.len() == 0 {
            assert(a.contains(a[0]));
            assert(a.to_set().contains(a[0]));
        }
        lemma_drop_last_to_set(a);
        lemma_drop_last_to_set(b);
        assert(a.contains(a.last()));
        assert(b.contains(b.last()));
        assert(a.to_set().contains(a.last()));
        assert(b.to_set().contains(b.last()));
        assert(a.last() == b.last());
        lemma_increasing_unique(a.drop_last(), b.drop_last());
        assert(a =~= a.drop_last().push(a.last()));
        assert(b =~= b.drop_last().push(b.last()));
    }
}

/// The ordered codes of a CMap are exactly the mapped codes, in strictly
/// increasing order: every used code but 0 appears once, and so does the
/// space character.
pub proof fn lemma_cmap_codes_characterized(used: Set<u16>, s: Seq<u16>)
    requires
        strictly_increasing(s),
        s.to_set() == mapped_codes(used),
    ensures
        cmap_codes(used) == s,
        strictly_increasing(cmap_codes(used)),
        cmap_codes(used).to_set() == mapped_codes(used),
{
    lemma_ascending(mapped_codes(used), s);
}

/// A strictly increasing sequence of the members of a set is the set's
/// ascending sequence.
pub proof fn lemma_ascending(set: Set<u16>, s: Seq<u16>)
    requires
        strictly_increasing(s),
        s.to_set() == set,
    ensures
        ascending(set) == s,
{
    let c = ascending(set);
    assert(strictly_increasing(c) && c.to_set() == set);
    lemma_increasing_unique(c, s);
}

/// The members of `set` below `n`, in increasing order.
spec fn members_below(set: Set<u16>, n: nat) -> Seq<u16>
    decreases n,
{
    if n == 0 {
        seq![]
    } else if set.contains((n - 1) as u16) {
        members_below(set, (n - 1) as nat).push((n - 1) as u16)
    } else {
        members_below(set, (n - 1) as nat)
    }
}

proof fn lemma_members_below(set: Set<u16>, n: nat)
    requires
        n <= 0x10000,
    ensures
        strictly_increasing(members_below(set, n)),
        forall|k: int| 0 <= k < members_below(set, n).len() ==> members_below(set, n)[k] < n,
        forall|x: u16| members_below(set, n).contains(x) <==> (set.contains(x) && x < n),
    decreases n,
{
    if n > 0 {
        let m = (n - 1) as nat;
        let p = members_below(set, m);
        lemma_members_below(set, m);
        let v = m as u16;
        lemma_push_contains(p, v);
        assert forall|x: u16| members_below(set, n).contains(x) <==> (set.contains(x) && x < n) by {
            assert(p.contains(x) <==> (set.contains(x) && x < m));
        }
    }
}

/// Every set of codes has an ascending sequence of its members.
pub proof fn lemma_ascending_exists(set: Set<u16>)
    ensures
        strictly_increasing(ascending(set)),
        ascending(set).to_set() == set,
{
    lemma_members_below(set, 0x10000);
    let q = members_below(set, 0x10000);
    assert forall|x: u16| q.to_set().contains(x) <==> set.contains(x) by {
        assert(q.to_set().contains(x) <==> q.contains(x));
    }
    assert(q.to_set() =~= set);
    lemma_ascending(set, q);
}

/// The CMap maps exactly the used codes but 0, and the space character,
/// each once and in increasing order: whatever the used codes are
/// (surrogate halves included), the CMap is the one listing such codes.
pub proof fn lemma_to_unicode_cmap_lists_used(used: Set<u16>, s: Seq<u16>)
    requires
        strictly_increasing(s),
        forall|x: u16| s.contains(x) <==> ((x != 0 && used.contains(x)) || x == 0x20),
    ensures
        to_unicode_cmap(used) == cmap_text(s),
        cmap_codes(used) == s,
{
    assert forall|x: u16| s.to_set().contains(x) <==> mapped_codes(used).contains(x) by {
        assert(s.to_set().contains(x) <==> s.contains(x));
    }
    assert(s.to_set() =~= mapped_codes(used));
    lemma_ascending(mapped_codes(used), s);
}

/// The ordered codes of a CMap contain every used code but 0, and the space
/// character, and nothing else.
pub proof fn lemma_cmap_codes_of_used(used: Set<u16>)
    ensures
        strictly_increasing(cmap_codes(used)),
        forall|x: u16| #[trigger]
            cmap_codes(used).contains(x) <==> ((x != 0 && used.contains(x)) || x == 0x20),
{
    lemma_ascending_exists(mapped_codes(used));
    assert forall|x: u16|
        cmap_codes(used).contains(x) <==> ((x != 0 && used.contains(x)) || x == 0x20) by {
        assert(cmap_codes(used).to_set().contains(x) <==> cmap_codes(used).contains(x));
    }
}

proof fn lemma_push_contains(s: Seq<u16>, v: u16)
    ensures
        forall|x: u16| #[trigger] s.push(v).contains(x) <==> (s.contains(x) || x == v),
{
    assert forall|x: u16| s.push(v).contains(x) <==> (s.contains(x) || x == v) by {
        if s.push(v).contains(x) {
            let k = choose|k: int| 0 <= k < s.push(v).len() && s.push(v)[k] == x;
            if k < s.len() {
                assert(s[k] == x);
            }
        }
        if s.contains(x) {
            let k = choose|k: int| 0 <= k < s.len() && s[k] == x;
            assert(s.push(v)[k] == x);
        }
        if x == v {
            assert(s.push(v)[s.len() as int] == x);
        }
    }
}

/// The members of a set of code units, in increasing order.
pub(crate) fn sorted_members(used: &BTreeSet<u16>) -> (v: Vec<u16>)
    ensures
        strictly_increasing(v@),
        v@.to_set() == used@,
{
    proof {
        crate::order::lemma_u16_total_order();
    }
    broadcast use vstd::std_specs::btree::group_btree_axioms;

    let mut v: Vec<u16> = Vec::new();
    let ghost keys = used.iter().remaining().unref();
    proof {
        crate::order::lemma_u16_increasing(used.iter().remaining());
    }
    for c in it: used.iter()
        invariant
            it.seq().unref() == keys,
            v@ == keys.take(it.index() as int),
    {
        v.push(*c);
        proof {
            assert(v@ =~= keys.take(it.index() + 1));
        }
    }
    proof {
        assert(keys.take(keys.len() as int) =~= keys);
    }
    v
}

/// The codes to map, in increasing order: the used codes without 0, with
/// the space character placed in order if it was not used.
fn ordered_mapped_codes(used: &BTreeSet<u16>) -> (codes: Vec<u16>)
    ensures
        codes@ == cmap_codes(used@),
        strictly_increasing(codes@),
        forall|x: u16| codes@.contains(x) <==> ((x != 0 && used@.contains(x)) || x == 0x20),
{
    let members = sorted_members(used);
    let mut codes: Vec<u16> = Vec::new();
    let mut space_done = false;
    let n = members.len();
    let mut i: usize = 0;
    while i < n
        invariant
            n == members@.len(),
            0 <= i <= n,
            strictly_increasing(members@),
            strictly_increasing(codes@),
            forall|x: u16|
                codes@.contains(x) <==> ((x != 0 && members@.take(i as int).contains(x)) || (
                space_done && x == 0x20)),
            space_done <==> exists|k: int| 0 <= k < i && members@[k] >= 0x20,
            i < n ==> forall|k: int| 0 <= k < codes@.len() ==> codes@[k] < members@[i as int],
            !space_done ==> forall|k: int| 0 <= k < codes@.len() ==> codes@[k] < 0x20,
        decreases n - i,
    {
        let c = members[i];
        let ghost before = codes@;
        let ghost old_sd = space_done;
        let ghost t0 = members@.take(i as int);
        let ghost t1 = members@.take(i + 1);
        proof {
            assert(t1 =~= t0.push(c));
            lemma_push_contains(t0, c);
            if i + 1 < n {
                assert(members@[i as int] < members@[i + 1]);
            }
        }
        if c != 0 {
            if !space_done && c > 0x20 {
                codes.push(0x20);
                proof {
                    lemma_push_contains(before, 0x20);
                }
                let ghost mid = codes@;
                codes.push(c);
                proof {
                    lemma_push_contains(mid, c);
                    assert(members@[i as int] >= 0x20);
                }
                space_done = true;
            } else {
                codes.push(c);
                proof {
                    lemma_push_contains(before, c);
                }
                if c >= 0x20 {
                    proof {
                        assert(members@[i as int] >= 0x20);
                    }
                    space_done = true;
                }
            }
        }
        proof {
            assert forall|x: u16|
                codes@.contains(x) <==> ((x != 0 && t1.contains(x)) || (space_done && x == 0x20)) by {
                assert(t0.push(c).contains(x) <==> (t0.contains(x) || x == c));
                assert(before.contains(x) <==> ((x != 0 && t0.contains(x)) || (old_sd && x == 0x20)));
                assert(t1.contains(x) <==> (t0.contains(x) || x == c));
            }
            assert(members@.take(i + 1) == t1);
        }
        i = i + 1;
    }
    let ghost space_done_at_end = space_done;
    let ghost loop_codes = codes@;
    if !space_done {
        codes.push(0x20);
    }
    proof {
        assert(members@.take(n as int) =~= members@);
        if !space_done_at_end {
            lemma_push_contains(loop_codes, 0x20);
            assert(codes@ == loop_codes.push(0x20));
        } else {
            assert(codes@ == loop_codes);
        }
        assert forall|x: u16| codes@.to_set().contains(x) <==> mapped_codes(used@).contains(x) by {
            assert(codes@.to_set().contains(x) <==> codes@.contains(x));
            assert(members@.to_set().contains(x) <==> members@.contains(x));
            assert(loop_codes.contains(x) <==> ((x != 0 && members@.take(n as int).contains(x)) || (
            space_done_at_end && x == 0x20)));
        }
        assert(codes@.to_set() =~= mapped_codes(used@));
        lemma_cmap_codes_characterized(used@, codes@);
        assert forall|x: u16| codes@.contains(x) <==> ((x != 0 && used@.contains(x)) || x == 0x20) by {
            assert(codes@.to_set().contains(x) <==> codes@.contains(x));
            assert(members@.to_set().contains(x) <==> members@.contains(x));
        }
    }
    codes
}

/// Appends the bytes of `s`.
pub fn push_str_bytes(out: &mut Vec<u8>, s: &str)
    ensures
        final(out)@ == old(out)@ + s.spec_bytes(),
{
    out.extend_from_slice(s.as_bytes());
    proof {
        assert(out@ =~= old(out)@ + s.spec_bytes());
    }
}

/// The upper-case hexadecimal digit of `d`.
fn hex_digit_byte(d: u16) -> (b: u8)
    requires
        d < 16,
    ensures
        b == hex_digit(d),
{
    if d < 10 {
        (48 + d) as u8
    } else {
        (55 + d) as u8
    }
}

/// Appends `c` as four upper-case hexadecimal digits.
fn push_hex4(out: &mut Vec<u8>, c: u16)
    ensures
        final(out)@ == old(out)@ + hex4(c),
{
    out.push(hex_digit_byte(c / 4096));
    out.push(hex_digit_byte((c / 256) % 16));
    out.push(hex_digit_byte((c / 16) % 16));
    out.push(hex_digit_byte(c % 16));
    proof {
        assert(out@ =~= old(out)@ + hex4(c));
    }
}

/// Appends `n` in decimal.
fn push_decimal(out: &mut Vec<u8>, n: usize)
    ensures
        final(out)@ == old(out)@ + decimal(n as nat),
    decreases n,
{
    if n < 10 {
        out.push((48 + n) as u8);
        proof {
            assert(out@ =~= old(out)@ + decimal(n as nat));
        }
    } else {
        push_decimal(out, n / 10);
        out.push((48 + n % 10) as u8);
        proof {
            assert(out@ =~= old(out)@ + decimal(n as nat));
        }
    }
}

/// Appends the mapping line of `c`.
fn push_bfchar_line(out: &mut Vec<u8>, c: u16)
    ensures
        final(out)@ == old(out)@ + bfchar_line(c),
{
    out.push(60u8);
    push_hex4(out, c);
    out.push(62u8);
    out.push(32u8);
    out.push(60u8);
    push_hex4(out, c);
    out.push(62u8);
    out.push(10u8);
    proof {
        assert(out@ =~= old(out)@ + bfchar_line(c));
    }
}

/// Appends the section listing `codes[start..end]`.
fn push_bfchar_section(out: &mut Vec<u8>, codes: &Vec<u16>, start: usize, end: usize)
    requires
        start <= end <= codes@.len(),
    ensures
        final(out)@ == old(out)@ + bfchar_section(codes@.subrange(start as int, end as int)),
{
    push_decimal(out, end - start);
    push_str_bytes(out, " beginbfchar\n");
    let ghost lines_start = out@;
    let mut k: usize = start;
    while k < end
        invariant
            start <= k <= end <= codes@.len(),
            out@ == lines_start + bfchar_lines(codes@.subrange(start as int, k as int)),
        decreases end - k,
    {
        push_bfchar_line(out, codes[k]);
        proof {
            let next = codes@.subrange(start as int, k + 1);
            assert(next.drop_last() =~= codes@.subrange(start as int, k as int));
            assert(next.last() == codes@[k as int]);
        }
        k = k + 1;
    }
    push_str_bytes(out, "endbfchar\n");
    proof {
        assert(codes@.subrange(start as int, end as int).len() == end - start);
        assert(out@ =~= old(out)@ + bfchar_section(codes@.subrange(start as int, end as int)));
    }
}

/// Appends the fixed text before the mapping sections.
fn push_cmap_header(out: &mut Vec<u8>)
    ensures
        final(out)@ == old(out)@ + cmap_header(),
{
    push_str_bytes(out, "/CIDInit /ProcSet findresource begin\n12 dict begin\nbegincmap\n/CIDSystemInfo << /Registry (Adobe) /Ordering (Identity) /Supplement 0 >> def\n/CMapName /FCOIdentityUnicode def\n/CMapType 2 def\n1 begincodespacerange\n<0000> <FFFF>\nendcodespacerange\n");
}

/// Builds the ToUnicode CMap stream content for the UTF-16 code units in
/// `used_utf16`: each mapped code (every used code but 0, plus the space)
/// maps to itself, listed in increasing order in sections of at most 100.
pub fn create_to_unicode_cmap(used_utf16: &BTreeSet<u16>) -> (cmap: Vec<u8>)
    ensures
        cmap@ == to_unicode_cmap(used_utf16@),
        forall|s: Seq<u16>|
            strictly_increasing(s) && (forall|x: u16|
                s.contains(x) <==> ((x != 0 && used_utf16@.contains(x)) || x == 0x20)) ==> cmap@
                == #[trigger] cmap_text(s),
{
    proof {
        assert forall|s: Seq<u16>|
            strictly_increasing(s) && (forall|x: u16|
                s.contains(x) <==> ((x != 0 && used_utf16@.contains(x)) || x == 0x20)) implies
            to_unicode_cmap(used_utf16@) == #[trigger] cmap_text(s) by {
            lemma_to_unicode_cmap_lists_used(used_utf16@, s);
        }
    }
    let codes = ordered_mapped_codes(used_utf16);
    let mut out: Vec<u8> = Vec::new();
    push_cmap_header(&mut out);
    let ghost sections_start = out@;
    let n = codes.len();
    let mut i: usize = 0;
    proof {
        assert(codes@.skip(0) =~= codes@);
        assert(out@.subrange(sections_start.len() as int, out@.len() as int) =~= Seq::<u8>::empty());
        assert(out@.subrange(0, sections_start.len() as int) =~= sections_start);
    }
    while i < n
        invariant
            n == codes@.len(),
            i <= n,
            bfchar_sections(codes@) == (out@.subrange(sections_start.len() as int, out@.len() as int))
                + bfchar_sections(codes@.skip(i as int)),
            out@.subrange(0, sections_start.len() as int) == sections_start,
            sections_start.len() <= out@.len(),
        decreases n - i,
    {
        let end = if n - i <= 100 {
            n
        } else {
            i + 100
        };
        let ghost before = out@;
        push_bfchar_section(&mut out, &codes, i, end);
        proof {
            let rest = codes@.skip(i as int);
            assert(rest.len() > 0);
            if rest.len() <= 100 {
                assert(rest =~= codes@.subrange(i as int, end as int));
                assert(codes@.skip(end as int) =~= Seq::<u16>::empty());
                assert(bfchar_sections(codes@.skip(end as int)) =~= Seq::<u8>::empty());
            } else {
                assert(rest.take(100) =~= codes@.subrange(i as int, end as int));
                assert(rest.skip(100) =~= codes@.skip(end as int));
            }
            assert(out@.subrange(sections_start.len() as int, out@.len() as int) =~= before.subrange(
                sections_start.len() as int,
                before.len() as int,
            ) + bfchar_section(codes@.subrange(i as int, end as int)));
            assert(out@.subrange(0, sections_start.len() as int) =~= before.subrange(
                0,
                sections_start.len() as int,
            ));
        }
        i = end;
    }
    let ghost body = out@;
    push_str_bytes(&mut out, "endcmap\nCMapName currentdict /CMap defineresource pop\nend\nend\n");
    proof {
        assert(codes@.skip(n as int) =~= Seq::<u16>::empty());
        assert(bfchar_sections(codes@.skip(n as int)) =~= Seq::<u8>::empty());
        assert(body =~= sections_start + bfchar_sections(codes@));
        assert(sections_start == cmap_header());
        assert(out@ =~= cmap_header() + bfchar_sections(codes@) + cmap_footer());
    }
    out
}

} // verus!
