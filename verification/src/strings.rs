//! Text helpers with the meaning that the standard library documents for
//! them: whitespace trimming, suffix trimming, ASCII case folding and
//! substring search.

use vstd::prelude::*;

verus! {

/// Whether `c` has the Unicode `White_Space` property, which is what
/// `char::is_whitespace` tests.
pub open spec fn is_white_space(c: char) -> bool {
    let v = c as u32;
    ||| 0x09 <= v <= 0x0D
    ||| v == 0x20
    ||| v == 0x85
    ||| v == 0xA0
    ||| v == 0x1680
    ||| 0x2000 <= v <= 0x200A
    ||| v == 0x2028
    ||| v == 0x2029
    ||| v == 0x202F
    ||| v == 0x205F
    ||| v == 0x3000
}

/// `r` is `s` with leading and trailing whitespace removed.
pub open spec fn is_trim_of(s: Seq<char>, r: Seq<char>) -> bool {
    exists|a: int, b: int|
        {
            &&& 0 <= a <= b <= s.len()
            &&& r == s.subrange(a, b)
            &&& forall|i: int| 0 <= i < a ==> is_white_space(#[trigger] s[i])
            &&& forall|i: int| b <= i < s.len() ==> is_white_space(#[trigger] s[i])
            &&& a < b ==> !is_white_space(s[a]) && !is_white_space(s[b - 1])
        }
}

/// Calls `str::trim`. Claimed, as its documentation states: the result is
/// the string with leading and trailing `White_Space` characters removed.
#[verifier::external_body]
pub(crate) fn trim(s: &str) -> (r: &str)
    ensures
        is_trim_of(s@, r@),
{
    s.trim()
}

/// `r` is `s` with every trailing `c` removed.
pub open spec fn is_trim_end_of(s: Seq<char>, c: char, r: Seq<char>) -> bool {
    &&& r.len() <= s.len()
    &&& r == s.subrange(0, r.len() as int)
    &&& forall|i: int| r.len() <= i < s.len() ==> s[i] == c
    &&& (r.len() > 0 ==> r.last() != c)
}

/// Calls `str::trim_end_matches` with a character. Claimed, as its
/// documentation states: every trailing occurrence of the character is
/// removed, and no more.
#[verifier::external_body]
pub(crate) fn trim_end_char(s: &str, c: char) -> (r: &str)
    ensures
        is_trim_end_of(s@, c, r@),
{
    s.trim_end_matches(c)
}

/// The ASCII lower-case form of a character, as `to_ascii_lowercase` maps
/// it: `A` to `Z` become `a` to `z`, everything else stays.
pub open spec fn ascii_lower(c: char) -> char {
    if 'A' <= c <= 'Z' {
        ((c as u32) + 32) as char
    } else {
        c
    }
}

/// `needle` occurs in `hay` starting at `i`.
pub open spec fn occurs_at(hay: Seq<char>, needle: Seq<char>, i: int) -> bool {
    &&& 0 <= i
    &&& i + needle.len() <= hay.len()
    &&& forall|j: int| 0 <= j < needle.len() ==> hay[i + j] == needle[j]
}

/// `needle` occurs somewhere in `hay`.
pub open spec fn contains_seq(hay: Seq<char>, needle: Seq<char>) -> bool {
    exists|i: int| occurs_at(hay, needle, i)
}

/// `s` in ASCII lower case.
pub open spec fn ascii_lowercase(s: Seq<char>) -> Seq<char> {
    s.map_values(|c: char| ascii_lower(c))
}

/// The characters of a string, in order.
pub fn chars_of(s: &str) -> (v: Vec<char>)
    ensures
        v@ == s@,
{
    let mut v: Vec<char> = Vec::new();
    for c in it: s.chars()
        invariant
            it.seq() == s@,
            v@ == s@.take(it.index() as int),
    {
        v.push(c);
        proof {
            assert(v@ =~= s@.take(it.index() + 1));
        }
    }
    proof {
        assert(s@.take(s@.len() as int) =~= s@);
    }
    v
}

/// Whether `c` lower-cases (in ASCII) to `lower`. No character lower-cases
/// to an upper-case ASCII letter.
fn lowers_to(c: char, lower: char) -> (b: bool)
    ensures
        b == (ascii_lower(c) == lower),
{
    if 'a' <= lower && lower <= 'z' {
        let upper_code: u32 = lower as u32 - 32;
        c == lower || c as u32 == upper_code
    } else if 'A' <= lower && lower <= 'Z' {
        false
    } else {
        c == lower
    }
}

/// Whether the ASCII lower-case form of `text` contains `needle`. This is
/// `text.to_ascii_lowercase().contains(needle)`.
pub fn lowercase_contains(text: &str, needle: &str) -> (b: bool)
    ensures
        b == contains_seq(ascii_lowercase(text@), needle@),
{
    let hay = chars_of(text);
    let pat = chars_of(needle);
    let ghost low = ascii_lowercase(text@);
    let n = hay.len();
    let m = pat.len();
    if m > n {
        proof {
            assert forall|i: int| !occurs_at(low, needle@, i) by {}
        }
        return false;
    }
    let mut i: usize = 0;
    while i <= n - m
        invariant
            i <= n - m + 1,
            hay@ == text@,
            pat@ == needle@,
            n == hay@.len(),
            m == pat@.len(),
            m <= n,
            low == ascii_lowercase(text@),
            forall|k: int| 0 <= k < i ==> !occurs_at(low, needle@, k),
        decreases n - i,
    {
        let mut j: usize = 0;
        let mut all = true;
        while j < m
            invariant
                hay@ == text@,
                pat@ == needle@,
                n == hay@.len(),
                m == pat@.len(),
                i + m <= n,
                j <= m,
                low == ascii_lowercase(text@),
                all == forall|q: int| 0 <= q < j ==> low[i + q] == needle@[q],
            decreases m - j,
        {
            let same = lowers_to(hay[i + j], pat[j]);
            proof {
                assert(low[i + j] == ascii_lower(hay@[i + j]));
            }
            all = all && same;
            j = j + 1;
        }
        if all {
            proof {
                assert(occurs_at(low, needle@, i as int));
            }
            return true;
        }
        i = i + 1;
    }
    proof {
        assert forall|k: int| !occurs_at(low, needle@, k) by {}
    }
    false
}

/// Whether two strings are equal.
pub fn str_equals(a: &str, b: &str) -> (eq: bool)
    ensures
        eq == (a@ == b@),
{
    let x = chars_of(a);
    let y = chars_of(b);
    if x.len() != y.len() {
        return false;
    }
    let n = x.len();
    let mut i: usize = 0;
    while i < n
        invariant
            x@ == a@,
            y@ == b@,
            n == x@.len(),
            n == y@.len(),
            i <= n,
            forall|k: int| 0 <= k < i ==> x@[k] == y@[k],
        decreases n - i,
    {
        if x[i] != y[i] {
            return false;
        }
        i = i + 1;
    }
    proof {
        assert(a@ =~= b@);
    }
    true
}

/// `a` followed by `b` (`format!("{a}{b}")`).
pub fn concat(a: &str, b: &str) -> (s: String)
    ensures
        s@ == a@ + b@,
{
    crate::error::with_detail(a, b)
}

/// Trimming has one result.
proof fn lemma_trim_unique(s: Seq<char>, r1: Seq<char>, r2: Seq<char>)
    requires
        is_trim_of(s, r1),
        is_trim_of(s, r2),
    ensures
        r1 == r2,
{
    let (a1, b1) = choose|a: int, b: int|
        {
            &&& 0 <= a <= b <= s.len()
            &&& r1 == s.subrange(a, b)
            &&& forall|i: int| 0 <= i < a ==> is_white_space(#[trigger] s[i])
            &&& forall|i: int| b <= i < s.len() ==> is_white_space(#[trigger] s[i])
            &&& a < b ==> !is_white_space(s[a]) && !is_white_space(s[b - 1])
        };
    let (a2, b2) = choose|a: int, b: int|
        {
            &&& 0 <= a <= b <= s.len()
            &&& r2 == s.subrange(a, b)
            &&& forall|i: int| 0 <= i < a ==> is_white_space(#[trigger] s[i])
            &&& forall|i: int| b <= i < s.len() ==> is_white_space(#[trigger] s[i])
            &&& a < b ==> !is_white_space(s[a]) && !is_white_space(s[b - 1])
        };
    if a1 < b1 && a2 < b2 {
        assert(a1 == a2) by {
            if a1 < a2 {
                assert(is_white_space(s[a1]));
            } else if a2 < a1 {
                assert(is_white_space(s[a2]));
            }
        }
        assert(b1 == b2) by {
            if b1 < b2 {
                assert(is_white_space(s[b2 - 1]));
            } else if b2 < b1 {
                assert(is_white_space(s[b1 - 1]));
            }
        }
    } else if a1 < b1 {
        assert(is_white_space(s[a1])) by {
            if a1 < a2 {
            } else {
                assert(a1 >= b2);
            }
        }
    } else if a2 < b2 {
        assert(is_white_space(s[a2])) by {
            if a2 < a1 {
            } else {
                assert(a2 >= b1);
            }
        }
    }
    assert(r1 =~= r2);
}

pub proof fn lemma_trim_unique_all()
    ensures
        forall|s: Seq<char>, r1: Seq<char>, r2: Seq<char>|
            #![trigger is_trim_of(s, r1), is_trim_of(s, r2)]
            is_trim_of(s, r1) && is_trim_of(s, r2) ==> r1 == r2,
{
    assert forall|s: Seq<char>, r1: Seq<char>, r2: Seq<char>|
        is_trim_of(s, r1) && is_trim_of(s, r2) implies r1 == r2 by {
        lemma_trim_unique(s, r1, r2);
    }
}

} // verus!
