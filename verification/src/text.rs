//! Bridging between ASCII byte sequences and character strings: the token
//! codec computes over bytes while tokens travel as `String`s.
use vstd::prelude::*;
use vstd::string::StrSliceExecFns;

verus! {

/// The characters denoted by a sequence of ASCII bytes.
pub open spec fn ascii_chars_of(s: Seq<u8>) -> Seq<char> {
    Seq::new(s.len(), |i: int| s[i] as char)
}

/// The bytes of a sequence of ASCII characters.
pub open spec fn ascii_bytes_of(s: Seq<char>) -> Seq<u8> {
    Seq::new(s.len(), |i: int| s[i] as u8)
}

pub open spec fn all_ascii_bytes(s: Seq<u8>) -> bool {
    forall|i: int| 0 <= i < s.len() ==> #[trigger] s[i] < 128
}

/// Byte/character casts invert each other below 128.
pub proof fn lemma_ascii_bytes_chars(s: Seq<u8>)
    requires
        all_ascii_bytes(s),
    ensures
        ascii_bytes_of(ascii_chars_of(s)) == s,
        vstd::utf8::is_ascii_chars(ascii_chars_of(s)),
{
    assert(ascii_bytes_of(ascii_chars_of(s)) =~= s);
}

/// Relies on `String::from_utf8`: bytes below 128 are valid UTF-8 and decode
/// to the characters with the same code points.
#[verifier::external_body]
pub fn ascii_string_from_bytes(v: Vec<u8>) -> (r: String)
    requires
        all_ascii_bytes(v@),
    ensures
        r@ == ascii_chars_of(v@),
{
    String::from_utf8(v).unwrap()
}

/// The bytes of an ASCII string, as a vector.
pub fn str_ascii_bytes(s: &str) -> (r: Vec<u8>)
    requires
        s.is_ascii(),
    ensures
        r@ == ascii_bytes_of(s@),
        all_ascii_bytes(r@),
        r@.len() == s@.len(),
{
    let v = s.as_bytes_vec();
    proof {
        broadcast use vstd::string::is_ascii_spec_bytes;

        assert(v@ =~= ascii_bytes_of(s@));
        broadcast use vstd::utf8::is_ascii_chars_nat_bound;

        assert(vstd::utf8::is_ascii_chars(s@));
        assert forall|i: int| 0 <= i < v@.len() implies #[trigger] v@[i] < 128 by {
            assert(s@[i] <= '\u{7f}');
        }
    }
    v
}

/// Character/byte casts invert each other on ASCII strings.
pub proof fn lemma_ascii_chars_roundtrip(s: Seq<char>)
    requires
        vstd::utf8::is_ascii_chars(s),
    ensures
        ascii_chars_of(ascii_bytes_of(s)) == s,
        all_ascii_bytes(ascii_bytes_of(s)),
{
    assert forall|i: int| 0 <= i < s.len() implies #[trigger] ascii_bytes_of(s)[i] < 128 by {
        assert(s[i] <= '\u{7f}');
    }
    assert(ascii_chars_of(ascii_bytes_of(s)) =~= s);
}

/// String equality decided by comparing UTF-8 bytes.
pub fn str_eq(a: &str, b: &str) -> (r: bool)
    ensures
        r == (a@ == b@),
{
    broadcast use vstd::utf8::encode_utf8_decode_utf8;

    let ab = a.as_bytes_vec();
    let bb = b.as_bytes_vec();
    if ab.len() != bb.len() {
        return false;
    }
    let mut j: usize = 0;
    while j < ab.len()
        invariant
            j <= ab@.len(),
            ab@.len() == bb@.len(),
            ab@ == vstd::utf8::encode_utf8(a@),
            bb@ == vstd::utf8::encode_utf8(b@),
            forall|q: int| 0 <= q < j ==> ab@[q] == bb@[q],
        decreases ab@.len() - j,
    {
        if ab[j] != bb[j] {
            proof {
                assert(ab@ != bb@);
            }
            return false;
        }
        j = j + 1;
    }
    proof {
        assert(ab@ =~= bb@);
        assert(vstd::utf8::decode_utf8(ab@) == a@);
        assert(vstd::utf8::decode_utf8(bb@) == b@);
    }
    true
}

} // verus!
