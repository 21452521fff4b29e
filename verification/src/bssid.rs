//! Validation, case normalization and ordering of access-point hardware
//! addresses (BSSIDs): six colon-separated pairs of hexadecimal digits.

use vstd::prelude::*;
use crate::text;

verus! {

/// ASCII hexadecimal digit, either case.
pub open spec fn is_hex_digit_char(c: char) -> bool {
    ('0' <= c && c <= '9') || ('a' <= c && c <= 'f') || ('A' <= c && c <= 'F')
}

pub fn is_hex_digit(c: char) -> (r: bool)
    ensures
        r == is_hex_digit_char(c),
{
    ('0' <= c && c <= '9') || ('a' <= c && c <= 'f') || ('A' <= c && c <= 'F')
}

/// A syntactically valid BSSID: exactly 17 characters, with a colon at every
/// position of the form 3k + 2 and a hexadecimal digit everywhere else.
/// This puts the colons at positions 2, 5, 8, 11 and 14, so the string is
/// six two-digit hexadecimal groups separated by five colons.
pub open spec fn valid_bssid_seq(s: Seq<char>) -> bool {
    &&& s.len() == 17
    &&& forall|i: int|
        0 <= i < s.len() ==> (if i % 3 == 2 {
            s[i] == ':'
        } else {
            is_hex_digit_char(#[trigger] s[i])
        })
}

/// Whether `s[from..to]` is a valid BSSID.
pub fn valid_bssid_range(s: &[char], from: usize, to: usize) -> (r: bool)
    requires
        from <= to <= s@.len(),
    ensures
        r == valid_bssid_seq(s@.subrange(from as int, to as int)),
{
    let ghost t = s@.subrange(from as int, to as int);
    if to - from != 17 {
        return false;
    }
    let mut i: usize = 0;
    while i < 17
        invariant
            i <= 17,
            from + 17 == to <= s@.len(),
            t == s@.subrange(from as int, to as int),
            forall|j: int|
                0 <= j < i ==> (if j % 3 == 2 {
                    t[j] == ':'
                } else {
                    is_hex_digit_char(#[trigger] t[j])
                }),
        decreases 17 - i,
    {
        let c = s[from + i];
        proof {
            assert(t[i as int] == s@[from + i]);
        }
        if i % 3 == 2 {
            if c != ':' {
                return false;
            }
        } else {
            if !is_hex_digit(c) {
                return false;
            }
        }
        i += 1;
    }
    true
}

/// Whether `candidate` is a syntactically valid BSSID.  No normalization is
/// performed: both hexadecimal cases are accepted.
pub fn is_valid_bssid(candidate: &str) -> (r: bool)
    ensures
        r == valid_bssid_seq(candidate@),
{
    let v = text::to_chars(candidate);
    let n = v.len();
    let r = valid_bssid_range(v.as_slice(), 0, n);
    proof {
        assert(v@.subrange(0, v@.len() as int) =~= candidate@);
    }
    r
}

/// The validity predicate matches exactly the grouped shape of the
/// pattern `^[0-9A-Fa-f]{2}(:[0-9A-Fa-f]{2}){5}$`: six groups of two
/// hexadecimal digits, the six groups separated by five colons.
pub open spec fn valid_bssid_grouped(s: Seq<char>) -> bool {
    &&& s.len() == 17
    &&& forall|g: int|
        0 <= g < 6 ==> is_hex_digit_char(#[trigger] s[3 * g]) && is_hex_digit_char(s[3 * g + 1])
    &&& forall|g: int| 0 <= g < 5 ==> #[trigger] s[3 * g + 2] == ':'
}

/// The positional validity predicate and the grouped form of the pattern
/// agree on every string.
pub proof fn lemma_valid_bssid_forms(s: Seq<char>)
    ensures
        valid_bssid_seq(s) <==> valid_bssid_grouped(s),
{
    if valid_bssid_seq(s) {
        assert forall|g: int| 0 <= g < 6 implies is_hex_digit_char(#[trigger] s[3 * g])
            && is_hex_digit_char(s[3 * g + 1]) by {
            assert((3 * g) % 3 == 0);
            assert((3 * g + 1) % 3 == 1);
        }
        assert forall|g: int| 0 <= g < 5 implies #[trigger] s[3 * g + 2] == ':' by {
            assert((3 * g + 2) % 3 == 2);
        }
    }
    if valid_bssid_grouped(s) {
        assert forall|i: int| 0 <= i < s.len() implies (if i % 3 == 2 {
            s[i] == ':'
        } else {
            is_hex_digit_char(#[trigger] s[i])
        }) by {
            let g = i / 3;
            let r = i % 3;
            assert(i == 3 * g + r);
            if r == 2 {
                assert(0 <= g < 5);
                assert(s[3 * g + 2] == ':');
            } else if r == 0 {
                assert(0 <= g < 6);
                assert(is_hex_digit_char(s[3 * g]));
            } else {
                assert(r == 1);
                assert(0 <= g < 6);
                assert(is_hex_digit_char(s[3 * g + 1]));
            }
        }
    }
}

/// Maps a lowercase hexadecimal digit to its uppercase form and leaves every
/// other character unchanged.
pub open spec fn upper_hex_char(c: char) -> char {
    if c == 'a' {
        'A'
    } else if c == 'b' {
        'B'
    } else if c == 'c' {
        'C'
    } else if c == 'd' {
        'D'
    } else if c == 'e' {
        'E'
    } else if c == 'f' {
        'F'
    } else {
        c
    }
}

/// The canonical (uppercase) form of a BSSID.
pub open spec fn canonical_seq(s: Seq<char>) -> Seq<char> {
    Seq::new(s.len(), |i: int| upper_hex_char(s[i]))
}

/// Canonicalization changes no character class: validity is preserved, and a
/// canonical sequence is its own canonical form.
pub proof fn lemma_canonical_bssid(s: Seq<char>)
    requires
        valid_bssid_seq(s),
    ensures
        valid_bssid_seq(canonical_seq(s)),
        canonical_seq(canonical_seq(s)) == canonical_seq(s),
{
    assert(canonical_seq(canonical_seq(s)) =~= canonical_seq(s));
}

/// Builds the canonical form of the BSSID at `s[from..to]`.
pub fn canonical_range(s: &[char], from: usize, to: usize) -> (r: String)
    requires
        from <= to <= s@.len(),
    ensures
        r@ == canonical_seq(s@.subrange(from as int, to as int)),
{
    let ghost t = s@.subrange(from as int, to as int);
    let mut out = String::new();
    let mut i: usize = from;
    while i < to
        invariant
            from <= i <= to <= s@.len(),
            t == s@.subrange(from as int, to as int),
            out@ == canonical_seq(t.take(i - from)),
        decreases to - i,
    {
        let c = s[i];
        let u: char = if c == 'a' {
            'A'
        } else if c == 'b' {
            'B'
        } else if c == 'c' {
            'C'
        } else if c == 'd' {
            'D'
        } else if c == 'e' {
            'E'
        } else if c == 'f' {
            'F'
        } else {
            c
        };
        proof {
            assert(u == upper_hex_char(t[i - from]));
        }
        text::push_char(&mut out, u);
        i += 1;
        proof {
            assert(out@ =~= canonical_seq(t.take(i - from)));
        }
    }
    proof {
        assert(t.take(to - from) =~= t);
    }
    out
}

/// Canonicalizes a whole string.
pub fn canonical_bssid(s: &str) -> (r: String)
    ensures
        r@ == canonical_seq(s@),
{
    let v = text::to_chars(s);
    let n = v.len();
    let r = canonical_range(v.as_slice(), 0, n);
    proof {
        assert(v@.subrange(0, v@.len() as int) =~= s@);
        assert(canonical_seq(v@.subrange(0, v@.len() as int)) =~= canonical_seq(s@));
    }
    r
}

/// Byte-lexicographic order on character sequences: `a` is less than or
/// equal to `b` when `a` is a prefix of `b` or the first differing
/// character of `a` is smaller.
pub open spec fn lex_le(a: Seq<char>, b: Seq<char>) -> bool
    decreases a.len(),
{
    if a.len() == 0 {
        true
    } else if b.len() == 0 {
        false
    } else if (a[0] as u32) < (b[0] as u32) {
        true
    } else if (a[0] as u32) > (b[0] as u32) {
        false
    } else {
        lex_le(a.drop_first(), b.drop_first())
    }
}

/// The lexicographic order is total.
pub proof fn lemma_lex_le_total(a: Seq<char>, b: Seq<char>)
    ensures
        lex_le(a, b) || lex_le(b, a),
    decreases a.len(),
{
    if a.len() == 0 {
    } else if b.len() == 0 {
    } else if (a[0] as u32) == (b[0] as u32) {
        lemma_lex_le_total(a.drop_first(), b.drop_first());
    }
}

/// The lexicographic order is transitive.
pub proof fn lemma_lex_le_trans(a: Seq<char>, b: Seq<char>, c: Seq<char>)
    requires
        lex_le(a, b),
        lex_le(b, c),
    ensures
        lex_le(a, c),
    decreases a.len(),
{
    if a.len() == 0 {
    } else if b.len() == 0 {
    } else if c.len() == 0 {
    } else if (a[0] as u32) == (b[0] as u32) && (b[0] as u32) == (c[0] as u32) {
        lemma_lex_le_trans(a.drop_first(), b.drop_first(), c.drop_first());
    }
}

/// Compares two strings in the lexicographic order.
pub fn str_lex_le(a: &str, b: &str) -> (r: bool)
    ensures
        r == lex_le(a@, b@),
{
    let va = text::to_chars(a);
    let vb = text::to_chars(b);
    let mut i: usize = 0;
    proof {
        assert(a@.skip(0) =~= a@);
        assert(b@.skip(0) =~= b@);
    }
    loop
        invariant
            va@ == a@,
            vb@ == b@,
            i <= a@.len(),
            i <= b@.len(),
            forall|j: int| 0 <= j < i ==> (a@[j] as u32) == (b@[j] as u32),
            lex_le(a@.skip(i as int), b@.skip(i as int)) == lex_le(a@, b@),
        decreases a@.len() - i,
    {
        if i == va.len() {
            return true;
        }
        if i == vb.len() {
            return false;
        }
        let ca = va[i] as u32;
        let cb = vb[i] as u32;
        proof {
            assert(a@.skip(i as int)[0] == a@[i as int]);
            assert(b@.skip(i as int)[0] == b@[i as int]);
        }
        if ca < cb {
            return true;
        }
        if ca > cb {
            return false;
        }
        proof {
            assert(a@.skip(i as int).drop_first() =~= a@.skip(i + 1));
            assert(b@.skip(i as int).drop_first() =~= b@.skip(i + 1));
        }
        i += 1;
    }
}

} // verus!
