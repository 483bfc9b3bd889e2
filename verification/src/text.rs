//! UTF-16 big-endian encoding of text, as used by hexadecimal PDF strings
//! shown with an `Identity-H` encoded Type0 font.

use vstd::prelude::*;

verus! {

/// The UTF-16 code units of one Unicode scalar value: one unit below
/// U+10000, otherwise a surrogate pair.
pub open spec fn char_utf16_units(c: char) -> Seq<u16> {
    let v = c as u32;
    if v < 0x10000 {
        seq![v as u16]
    } else {
        let w = (v - 0x10000) as u32;
        seq![(0xD800 + w / 0x400) as u16, (0xDC00 + w % 0x400) as u16]
    }
}

/// The UTF-16 code units of a string, in order.
pub open spec fn utf16_units(s: Seq<char>) -> Seq<u16>
    decreases s.len(),
{
    if s.len() == 0 {
        seq![]
    } else {
        utf16_units(s.drop_last()) + char_utf16_units(s.last())
    }
}

/// The two bytes of a code unit, most significant first.
pub open spec fn u16_be(u: u16) -> Seq<u8> {
    seq![(u / 256) as u8, (u % 256) as u8]
}

/// The big-endian byte string of a sequence of code units.
pub open spec fn units_be_bytes(units: Seq<u16>) -> Seq<u8>
    decreases units.len(),
{
    if units.len() == 0 {
        seq![]
    } else {
        units_be_bytes(units.drop_last()) + u16_be(units.last())
    }
}

/// The UTF-16BE encoding of a string, without a byte order mark.
pub open spec fn utf16_be(s: Seq<char>) -> Seq<u8> {
    units_be_bytes(utf16_units(s))
}

proof fn lemma_units_be_bytes_append(a: Seq<u16>, b: Seq<u16>)
    ensures
        units_be_bytes(a + b) == units_be_bytes(a) + units_be_bytes(b),
    decreases b.len(),
{
    if b.len() == 0 {
        assert(a + b =~= a);
        assert(units_be_bytes(b) =~= Seq::<u8>::empty());
        assert(units_be_bytes(a) + units_be_bytes(b) =~= units_be_bytes(a));
    } else {
        lemma_units_be_bytes_append(a, b.drop_last());
        assert((a + b).drop_last() =~= a + b.drop_last());
        assert((a + b).last() == b.last());
        assert(units_be_bytes(a + b) =~= units_be_bytes(a) + units_be_bytes(b));
    }
}

proof fn lemma_utf16_units_append(a: Seq<char>, b: Seq<char>)
    ensures
        utf16_units(a + b) == utf16_units(a) + utf16_units(b),
    decreases b.len(),
{
    if b.len() == 0 {
        assert(a + b =~= a);
        assert(utf16_units(b) =~= Seq::<u16>::empty());
        assert(utf16_units(a) + utf16_units(b) =~= utf16_units(a));
    } else {
        lemma_utf16_units_append(a, b.drop_last());
        assert((a + b).drop_last() =~= a + b.drop_last());
        assert((a + b).last() == b.last());
        assert(utf16_units(a + b) =~= utf16_units(a) + utf16_units(b));
    }
}

/// Encoding two texts one after the other gives the encoding of the joined
/// text.
pub proof fn lemma_utf16_be_concat(a: Seq<char>, b: Seq<char>)
    ensures
        utf16_be(a + b) == utf16_be(a) + utf16_be(b),
{
    lemma_utf16_units_append(a, b);
    lemma_units_be_bytes_append(utf16_units(a), utf16_units(b));
}

proof fn lemma_units_be_bytes_len(u: Seq<u16>)
    ensures
        units_be_bytes(u).len() == 2 * u.len(),
    decreases u.len(),
{
    if u.len() > 0 {
        lemma_units_be_bytes_len(u.drop_last());
    }
}

proof fn lemma_utf16_units_len(s: Seq<char>)
    ensures
        s.len() <= utf16_units(s).len() <= 2 * s.len(),
    decreases s.len(),
{
    if s.len() > 0 {
        lemma_utf16_units_len(s.drop_last());
    }
}

/// The encoding has two bytes per UTF-16 code unit, so between two and four
/// bytes per character.
pub proof fn lemma_utf16_be_len(s: Seq<char>)
    ensures
        utf16_be(s).len() == 2 * utf16_units(s).len(),
        2 * s.len() <= utf16_be(s).len() <= 4 * s.len(),
{
    lemma_units_be_bytes_len(utf16_units(s));
    lemma_utf16_units_len(s);
}

/// The code units read from a byte string two bytes at a time, most
/// significant byte first (a byte string of even length).
pub open spec fn be_units(bytes: Seq<u8>) -> Seq<u16>
    decreases bytes.len(),
{
    if bytes.len() < 2 {
        seq![]
    } else {
        be_units(bytes.subrange(0, bytes.len() - 2)) + seq![
            (bytes[bytes.len() - 2] * 256 + bytes[bytes.len() - 1]) as u16,
        ]
    }
}

/// A UTF-16 high (leading) surrogate.
pub open spec fn is_high_surrogate(u: u16) -> bool {
    0xD800 <= u <= 0xDBFF
}

/// A UTF-16 low (trailing) surrogate.
pub open spec fn is_low_surrogate(u: u16) -> bool {
    0xDC00 <= u <= 0xDFFF
}

/// The scalar value that a surrogate pair stands for.
pub open spec fn pair_value(hi: u16, lo: u16) -> int {
    0x10000 + (hi - 0xD800) * 0x400 + (lo - 0xDC00)
}

/// Decoding UTF-16 code units as `String::from_utf16` does: a unit outside
/// the surrogate range is a character of its own, a high surrogate followed
/// by a low one is one character, and any other surrogate makes the units
/// invalid (`None`).
pub open spec fn utf16_decode(units: Seq<u16>) -> Option<Seq<char>>
    decreases units.len(),
{
    if units.len() == 0 {
        Some(seq![])
    } else if !is_high_surrogate(units[0]) && !is_low_surrogate(units[0]) {
        match utf16_decode(units.subrange(1, units.len() as int)) {
            Some(rest) => Some(seq![(units[0] as u32) as char] + rest),
            None => None,
        }
    } else if is_high_surrogate(units[0]) && units.len() >= 2 && is_low_surrogate(units[1]) {
        match utf16_decode(units.subrange(2, units.len() as int)) {
            Some(rest) => Some(seq![(pair_value(units[0], units[1]) as u32) as char] + rest),
            None => None,
        }
    } else {
        None
    }
}

proof fn lemma_be_units_of_bytes(u: Seq<u16>)
    ensures
        be_units(units_be_bytes(u)) == u,
    decreases u.len(),
{
    if u.len() > 0 {
        let b = units_be_bytes(u);
        let p = units_be_bytes(u.drop_last());
        lemma_units_be_bytes_len(u.drop_last());
        lemma_be_units_of_bytes(u.drop_last());
        let x = u.last();
        assert(b == p + u16_be(x));
        assert(b.subrange(0, b.len() - 2) =~= p);
        assert(b[b.len() - 2] == (x / 256) as u8);
        assert(b[b.len() - 1] == (x % 256) as u8);
        assert((x / 256) * 256 + x % 256 == x);
        assert(u =~= u.drop_last() + seq![x]);
    }
}

proof fn lemma_decode_char_then(c: char, rest: Seq<u16>)
    ensures
        utf16_decode(char_utf16_units(c) + rest) == match utf16_decode(rest) {
            Some(r) => Some(seq![c] + r),
            None => None::<Seq<char>>,
        },
{
    let units = char_utf16_units(c) + rest;
    let v = c as u32;
    if v < 0x10000 {
        assert(units[0] == v as u16);
        assert(units.subrange(1, units.len() as int) =~= rest);
        assert(!is_high_surrogate(units[0]) && !is_low_surrogate(units[0]));
        assert(((units[0] as u32) as char) == c);
    } else {
        let w = (v - 0x10000) as u32;
        let hi = (0xD800 + w / 0x400) as u16;
        let lo = (0xDC00 + w % 0x400) as u16;
        assert(w < 0x100000);
        assert(w / 0x400 < 0x400);
        assert(units[0] == hi);
        assert(units[1] == lo);
        assert(is_high_surrogate(hi) && is_low_surrogate(lo));
        assert(units.subrange(2, units.len() as int) =~= rest);
        assert((w / 0x400) * 0x400 + w % 0x400 == w);
        assert(pair_value(hi, lo) == v);
        assert(((pair_value(hi, lo) as u32) as char) == c);
    }
}

proof fn lemma_decode_utf16_units(s: Seq<char>)
    ensures
        utf16_decode(utf16_units(s)) == Some(s),
    decreases s.len(),
{
    if s.len() > 0 {
        let tail = s.subrange(1, s.len() as int);
        assert(s =~= seq![s[0]] + tail);
        lemma_utf16_units_append(seq![s[0]], tail);
        assert(seq![s[0]].drop_last() =~= Seq::<char>::empty());
        assert(utf16_units(Seq::<char>::empty()) =~= Seq::<u16>::empty());
        assert(utf16_units(seq![s[0]]) =~= char_utf16_units(s[0]));
        lemma_decode_utf16_units(tail);
        lemma_decode_char_then(s[0], utf16_units(tail));
    }
}

/// Reading the encoding back, two bytes per code unit, and decoding the
/// units as UTF-16 gives the text back.
pub proof fn lemma_utf16_be_round_trip(s: Seq<char>)
    ensures
        utf16_decode(be_units(utf16_be(s))) == Some(s),
{
    lemma_be_units_of_bytes(utf16_units(s));
    lemma_decode_utf16_units(s);
}

/// Appends the big-endian bytes of one code unit.
fn push_unit_be(out: &mut Vec<u8>, u: u16)
    ensures
        final(out)@ == old(out)@ + u16_be(u),
{
    out.push((u / 256) as u8);
    out.push((u % 256) as u8);
}

/// Encodes `text` as UTF-16 big-endian bytes, without a byte order mark.
pub fn encode_utf16_be_no_bom(text: &str) -> (out: Vec<u8>)
    ensures
        out@ == utf16_be(text@),
        utf16_decode(be_units(out@)) == Some(text@),
{
    let mut out: Vec<u8> = Vec::new();
    for c in it: text.chars()
        invariant
            it.seq() == text@,
            out@ == utf16_be(text@.take(it.index() as int)),
    {
        let ghost done = text@.take(it.index() as int);
        let ghost before = out@;
        let v: u32 = c as u32;
        if v < 0x10000 {
            push_unit_be(&mut out, v as u16);
            proof {
                let cu = char_utf16_units(c);
                assert(units_be_bytes(Seq::<u16>::empty()) =~= Seq::<u8>::empty());
                assert(cu.drop_last() =~= Seq::<u16>::empty());
                assert(units_be_bytes(cu) =~= u16_be(v as u16));
            }
        } else {
            let w: u32 = v - 0x10000;
            push_unit_be(&mut out, (0xD800 + w / 0x400) as u16);
            push_unit_be(&mut out, (0xDC00 + w % 0x400) as u16);
            proof {
                let cu = char_utf16_units(c);
                assert(units_be_bytes(Seq::<u16>::empty()) =~= Seq::<u8>::empty());
                assert(cu.drop_last().drop_last() =~= Seq::<u16>::empty());
                assert(cu.drop_last() =~= seq![(0xD800 + w / 0x400) as u16]);
                assert(units_be_bytes(cu.drop_last()) =~= u16_be((0xD800 + w / 0x400) as u16));
                assert(units_be_bytes(cu) =~= u16_be((0xD800 + w / 0x400) as u16) + u16_be(
                    (0xDC00 + w % 0x400) as u16,
                ));
            }
        }
        proof {
            let next = text@.take(it.index() + 1);
            assert(next.drop_last() =~= done);
            assert(next.last() == c);
            lemma_units_be_bytes_append(utf16_units(done), char_utf16_units(c));
            assert(utf16_units(next) == utf16_units(done) + char_utf16_units(c));
            assert(out@ =~= before + units_be_bytes(char_utf16_units(c)));
        }
    }
    proof {
        assert(text@.take(text@.len() as int) =~= text@);
        lemma_utf16_be_round_trip(text@);
    }
    out
}

} // verus!
