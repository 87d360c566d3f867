//! The claims object carried by a session token: a fixed-shape JSON record
//! `{"sub":"<id>","exp":<n>,"iat":<n>}` over bytes, with its serializer,
//! parser, and the round-trip lemma between them.
use crate::digits::{
    dec_i64_of, hex_digit_char, hex_digit_val, hex_digits_le, hex_value_be, is_hex_digit,
    lemma_hex_digit_roundtrip, lemma_hex_digits_le_vals, lemma_hex_le_reverse_value,
    lemma_parse_dec_i64_roundtrip, lemma_pow_int_positive, parse_dec_i64, parse_dec_i64_spec,
    pow_int, push_dec_i64,
};
use vstd::prelude::*;

verus! {

/// Mathematical view of a session token: subject id, expiry, issue time.
pub struct TokenModel {
    pub sub: int,
    pub exp: int,
    pub iat: int,
}

/// The ranges the executable representation (`u128`, `i64`, `i64`) can hold.
pub open spec fn valid_token_model(t: TokenModel) -> bool {
    &&& 0 <= t.sub <= u128::MAX
    &&& i64::MIN <= t.exp <= i64::MAX
    &&& i64::MIN <= t.iat <= i64::MAX
}

pub proof fn lemma_pow16_32()
    ensures
        pow_int(16, 32nat) == u128::MAX + 1,
{
    reveal_with_fuel(pow_int, 35);
}

// ---------------------------------------------------------------------------
// hyphenated hexadecimal ids
// ---------------------------------------------------------------------------

/// Byte position of hex digit `j` within the 36-byte hyphenated id form.
pub open spec fn uuid_digit_pos(j: int) -> int {
    if j < 8 {
        j
    } else if j < 12 {
        j + 1
    } else if j < 16 {
        j + 2
    } else if j < 20 {
        j + 3
    } else {
        j + 4
    }
}

/// Big-endian hex digit characters of a 128-bit value.
pub open spec fn uuid_hex_chars(v: int) -> Seq<u8> {
    hex_digits_le(v, 32nat).reverse().map_values(|d: int| hex_digit_char(d))
}

/// The 36-byte hyphenated lowercase hexadecimal form of a 128-bit id.
pub open spec fn uuid36_of(v: int) -> Seq<u8> {
    let ds = uuid_hex_chars(v);
    ds.subrange(0, 8) + seq![45u8] + ds.subrange(8, 12) + seq![45u8] + ds.subrange(12, 16)
        + seq![45u8] + ds.subrange(16, 20) + seq![45u8] + ds.subrange(20, 32)
}

pub proof fn lemma_uuid36_shape(v: int)
    requires
        v >= 0,
    ensures
        uuid36_of(v).len() == 36,
        uuid36_of(v)[8] == 45u8,
        uuid36_of(v)[13] == 45u8,
        uuid36_of(v)[18] == 45u8,
        uuid36_of(v)[23] == 45u8,
        forall|j: int|
            0 <= j < 32 ==> uuid36_of(v)[#[trigger] uuid_digit_pos(j)] == uuid_hex_chars(v)[j],
{
    lemma_hex_digits_le_vals(v, 32nat);
    let ds = uuid_hex_chars(v);
    assert(ds.len() == 32);
    let u = uuid36_of(v);
    assert(u.len() == 36);
    assert forall|j: int| 0 <= j < 32 implies u[#[trigger] uuid_digit_pos(j)] == ds[j] by {
        if j < 8 {
            assert(u[uuid_digit_pos(j)] == ds.subrange(0, 8)[j]);
        } else if j < 12 {
            assert(u[uuid_digit_pos(j)] == ds.subrange(8, 12)[j - 8]);
        } else if j < 16 {
            assert(u[uuid_digit_pos(j)] == ds.subrange(12, 16)[j - 12]);
        } else if j < 20 {
            assert(u[uuid_digit_pos(j)] == ds.subrange(16, 20)[j - 16]);
        } else {
            assert(u[uuid_digit_pos(j)] == ds.subrange(20, 32)[j - 20]);
        }
    }
}

/// Exec form of `hex_digit_char`.
fn hex_char(d: u8) -> (c: u8)
    requires
        d < 16,
    ensures
        c == hex_digit_char(d as int),
{
    if d < 10 {
        48 + d
    } else {
        97 + (d - 10)
    }
}

/// Exec form of `hex_digit_val`: `None` for non-hex bytes.
fn hex_val(b: u8) -> (r: Option<u8>)
    ensures
        match r {
            Some(v) => v < 16 && hex_digit_val(b) == v as int,
            None => hex_digit_val(b) == -1,
        },
{
    if 48 <= b && b <= 57 {
        Some(b - 48)
    } else if 97 <= b && b <= 102 {
        Some(b - 97 + 10)
    } else if 65 <= b && b <= 70 {
        Some(b - 65 + 10)
    } else {
        None
    }
}

/// Appends `src[lo..hi]` to `out`.
pub(crate) fn push_range(out: &mut Vec<u8>, src: &Vec<u8>, lo: usize, hi: usize)
    requires
        lo <= hi <= src@.len(),
    ensures
        final(out)@ == old(out)@ + src@.subrange(lo as int, hi as int),
{
    let mut j: usize = lo;
    while j < hi
        invariant
            lo <= j <= hi <= src@.len(),
            out@ =~= old(out)@ + src@.subrange(lo as int, j as int),
        decreases hi - j,
    {
        out.push(src[j]);
        proof {
            assert(src@.subrange(lo as int, j + 1) =~= src@.subrange(lo as int, j as int).push(
                src@[j as int]));
        }
        j = j + 1;
    }
    proof {
        assert(final(out)@ =~= old(out)@ + src@.subrange(lo as int, hi as int));
    }
}

/// Appends the hyphenated hexadecimal form of `v` to `out`.
pub fn push_uuid36(out: &mut Vec<u8>, v: u128)
    ensures
        final(out)@ == old(out)@ + uuid36_of(v as int),
{
    // little-endian digit characters of v
    let mut rev: Vec<u8> = Vec::new();
    let ghost mut vals: Seq<int> = Seq::empty();
    let mut x: u128 = v;
    let mut k: usize = 0;
    proof {
        assert(hex_digits_le(v as int, 32nat) =~= vals + hex_digits_le(v as int, 32nat));
    }
    while k < 32
        invariant
            k <= 32,
            vals.len() == k,
            rev@ == vals.map_values(|d: int| hex_digit_char(d)),
            hex_digits_le(v as int, 32nat) == vals + hex_digits_le(x as int, (32 - k) as nat),
        decreases 32 - k,
    {
        let d: u8 = (x % 16) as u8;
        rev.push(hex_char(d));
        proof {
            assert(hex_digits_le(x as int, (32 - k) as nat) == seq![x as int % 16]
                + hex_digits_le(x as int / 16, (32 - (k + 1)) as nat));
            let vals2 = vals.push(d as int);
            assert(hex_digits_le(v as int, 32nat) =~= vals2 + hex_digits_le(
                x as int / 16,
                (32 - (k + 1)) as nat,
            ));
            assert(rev@ =~= vals2.map_values(|q: int| hex_digit_char(q)));
            vals = vals2;
        }
        x = x / 16;
        k = k + 1;
    }
    proof {
        assert(hex_digits_le(x as int, 0nat) =~= Seq::<int>::empty());
        assert(hex_digits_le(v as int, 32nat) =~= vals);
        assert(rev@ == hex_digits_le(v as int, 32nat).map_values(|d: int| hex_digit_char(d)));
    }
    // big-endian digit characters
    let mut be: Vec<u8> = Vec::new();
    let mut j: usize = 0;
    while j < 32
        invariant
            j <= 32,
            rev@.len() == 32,
            rev@ == hex_digits_le(v as int, 32nat).map_values(|d: int| hex_digit_char(d)),
            be@ =~= rev@.reverse().take(j as int),
        decreases 32 - j,
    {
        be.push(rev[31 - j]);
        proof {
            assert(rev@.reverse()[j as int] == rev@[31 - j]);
            assert(rev@.reverse().take(j + 1) =~= rev@.reverse().take(j as int).push(
                rev@[31 - j]));
        }
        j = j + 1;
    }
    proof {
        assert(be@ =~= rev@.reverse());
        assert(be@ =~= uuid_hex_chars(v as int)) by {
            let le = hex_digits_le(v as int, 32nat);
            let f = |d: int| hex_digit_char(d);
            assert(le.map_values(f).reverse() =~= le.reverse().map_values(f));
        }
    }
    // assemble with hyphens
    let ghost out0 = out@;
    push_range(out, &be, 0, 8);
    out.push(45);
    push_range(out, &be, 8, 12);
    out.push(45);
    push_range(out, &be, 12, 16);
    out.push(45);
    push_range(out, &be, 16, 20);
    out.push(45);
    push_range(out, &be, 20, 32);
    proof {
        assert(final(out)@ =~= out0 + uuid36_of(v as int));
    }
}

/// Reads a 36-byte hyphenated hexadecimal id at `from`; either letter case
/// is accepted.
pub open spec fn uuid36_wellformed(t: Seq<u8>) -> bool {
    &&& t.len() == 36
    &&& t[8] == 45u8
    &&& t[13] == 45u8
    &&& t[18] == 45u8
    &&& t[23] == 45u8
    &&& forall|j: int| 0 <= j < 32 ==> is_hex_digit(t[#[trigger] uuid_digit_pos(j)])
}

pub open spec fn uuid36_value(t: Seq<u8>) -> int {
    hex_value_be(Seq::new(32nat, |j: int| hex_digit_val(t[uuid_digit_pos(j)])))
}

pub open spec fn parse_uuid36_spec(s: Seq<u8>, from: int) -> Option<int> {
    if 0 <= from && from + 36 <= s.len() && uuid36_wellformed(s.subrange(from, from + 36)) {
        Some(uuid36_value(s.subrange(from, from + 36)))
    } else {
        None
    }
}

/// Exec position of hex digit `j` in the 36-byte id form.
fn uuid_pos(j: usize) -> (p: usize)
    requires
        j < 32,
    ensures
        p == uuid_digit_pos(j as int),
        p < 36,
{
    if j < 8 {
        j
    } else if j < 12 {
        j + 1
    } else if j < 16 {
        j + 2
    } else if j < 20 {
        j + 3
    } else {
        j + 4
    }
}

/// Parses a hyphenated hexadecimal id at `from`.
pub fn parse_uuid36(s: &Vec<u8>, from: usize) -> (r: Option<u128>)
    ensures
        match r {
            Some(v) => parse_uuid36_spec(s@, from as int) == Some(v as int),
            None => parse_uuid36_spec(s@, from as int) is None,
        },
{
    if s.len() < 36 || from > s.len() - 36 {
        return None;
    }
    let ghost t = s@.subrange(from as int, from + 36);
    if s[from + 8] != 45 || s[from + 13] != 45 || s[from + 18] != 45 || s[from + 23] != 45 {
        proof {
            assert(t[8] == s@[from + 8] && t[13] == s@[from + 13] && t[18] == s@[from + 18]
                && t[23] == s@[from + 23]);
        }
        return None;
    }
    let mut acc: u128 = 0;
    let mut j: usize = 0;
    proof {
        lemma_pow16_32();
    }
    while j < 32
        invariant
            j <= 32,
            from + 36 <= s@.len() <= usize::MAX,
            t == s@.subrange(from as int, from + 36),
            forall|q: int| 0 <= q < j ==> is_hex_digit(t[#[trigger] uuid_digit_pos(q)]),
            acc == hex_value_be(Seq::new(j as nat, |q: int| hex_digit_val(t[uuid_digit_pos(q)]))),
            acc < pow_int(16, j as nat),
            pow_int(16, 32nat) == u128::MAX + 1,
        decreases 32 - j,
    {
        let p = uuid_pos(j);
        let b = s[from + p];
        proof {
            assert(t[uuid_digit_pos(j as int)] == s@[from + p]);
        }
        let d: u8 = match hex_val(b) {
            Some(d) => d,
            None => {
                return None;
            },
        };
        proof {
            let pre = Seq::new(j as nat, |q: int| hex_digit_val(t[uuid_digit_pos(q)]));
            let cur = Seq::new((j + 1) as nat, |q: int| hex_digit_val(t[uuid_digit_pos(q)]));
            assert(cur.drop_last() =~= pre);
            assert(cur.last() == d as int);
            assert(pow_int(16, (j + 1) as nat) == 16 * pow_int(16, j as nat));
            lemma_pow16_monotone((j + 1) as nat);
        }
        acc = acc * 16 + (d as u128);
        j = j + 1;
    }
    proof {
        assert(uuid36_wellformed(t));
        assert(acc == uuid36_value(t)) by {
            assert(Seq::new(32nat, |q: int| hex_digit_val(t[uuid_digit_pos(q)])) =~= Seq::new(
                32nat,
                |q: int| hex_digit_val(t[uuid_digit_pos(q)]),
            ));
        }
    }
    Some(acc)
}

pub proof fn lemma_pow16_monotone(n: nat)
    requires
        n <= 32,
    ensures
        pow_int(16, n) <= pow_int(16, 32nat),
    decreases 32nat - n,
{
    if n < 32 {
        lemma_pow16_monotone(n + 1);
        lemma_pow_int_positive(16, n);
        assert(pow_int(16, n + 1) == 16 * pow_int(16, n));
    }
}

/// Round trip: the hyphenated form of `v` parses back to `v`.
pub proof fn lemma_parse_uuid36_roundtrip(s: Seq<u8>, from: int, v: int)
    requires
        0 <= v <= u128::MAX,
        0 <= from,
        from + 36 <= s.len(),
        s.subrange(from, from + 36) == uuid36_of(v),
    ensures
        parse_uuid36_spec(s, from) == Some(v),
{
    let t = s.subrange(from, from + 36);
    lemma_uuid36_shape(v);
    lemma_hex_digits_le_vals(v, 32nat);
    let le = hex_digits_le(v, 32nat);
    assert forall|j: int| 0 <= j < 32 implies is_hex_digit(t[#[trigger] uuid_digit_pos(j)])
        && hex_digit_val(t[uuid_digit_pos(j)]) == le.reverse()[j] by {
        assert(t[uuid_digit_pos(j)] == uuid_hex_chars(v)[j]);
        assert(uuid_hex_chars(v)[j] == hex_digit_char(le.reverse()[j]));
        assert(0 <= le.reverse()[j] < 16) by {
            assert(le.reverse()[j] == le[31 - j]);
        }
        lemma_hex_digit_roundtrip(le.reverse()[j]);
    }
    assert(uuid36_wellformed(t));
    lemma_pow16_32();
    lemma_hex_le_reverse_value(v, 32nat);
    assert(Seq::new(32nat, |j: int| hex_digit_val(t[uuid_digit_pos(j)])) =~= le.reverse());
    assert(uuid36_value(t) == v);
}

// ---------------------------------------------------------------------------
// the claims record
// ---------------------------------------------------------------------------

/// The bytes of `{"sub":"`.
pub open spec fn lit_sub() -> Seq<u8> {
    seq![123u8, 34u8, 115u8, 117u8, 98u8, 34u8, 58u8, 34u8]
}

/// The bytes of `","exp":`.
pub open spec fn lit_exp() -> Seq<u8> {
    seq![34u8, 44u8, 34u8, 101u8, 120u8, 112u8, 34u8, 58u8]
}

/// The bytes of `,"iat":`.
pub open spec fn lit_iat() -> Seq<u8> {
    seq![44u8, 34u8, 105u8, 97u8, 116u8, 34u8, 58u8]
}

/// The serialized claims record of a token.
pub open spec fn claims_bytes_of(t: TokenModel) -> Seq<u8> {
    lit_sub() + uuid36_of(t.sub) + lit_exp() + dec_i64_of(t.exp) + lit_iat() + dec_i64_of(t.iat)
        + seq![125u8]
}

/// Serializes the claims record of a token.
pub fn claims_bytes(sub: u128, exp: i64, iat: i64) -> (r: Vec<u8>)
    ensures
        r@ == claims_bytes_of(TokenModel { sub: sub as int, exp: exp as int, iat: iat as int }),
{
    let mut out: Vec<u8> = Vec::new();
    out.push(123);
    out.push(34);
    out.push(115);
    out.push(117);
    out.push(98);
    out.push(34);
    out.push(58);
    out.push(34);
    proof {
        assert(out@ =~= lit_sub());
    }
    push_uuid36(&mut out, sub);
    out.push(34);
    out.push(44);
    out.push(34);
    out.push(101);
    out.push(120);
    out.push(112);
    out.push(34);
    out.push(58);
    proof {
        assert(out@ =~= lit_sub() + uuid36_of(sub as int) + lit_exp());
    }
    push_dec_i64(&mut out, exp);
    out.push(44);
    out.push(34);
    out.push(105);
    out.push(97);
    out.push(116);
    out.push(34);
    out.push(58);
    proof {
        assert(out@ =~= lit_sub() + uuid36_of(sub as int) + lit_exp() + dec_i64_of(exp as int)
            + lit_iat());
    }
    push_dec_i64(&mut out, iat);
    out.push(125);
    proof {
        assert(out@ =~= claims_bytes_of(
            TokenModel { sub: sub as int, exp: exp as int, iat: iat as int },
        ));
    }
    out
}

/// Whether `lit` occurs in `b` at position `at`.
pub open spec fn lit_at(b: Seq<u8>, at: int, lit: Seq<u8>) -> bool {
    &&& 0 <= at
    &&& at + lit.len() <= b.len()
    &&& b.subrange(at, at + lit.len()) == lit
}

/// The strict parse of a claims record: the exact literal skeleton around an
/// id, then two decimal numbers, then the end of the input.
pub open spec fn parse_claims_spec(b: Seq<u8>) -> Option<TokenModel> {
    if !lit_at(b, 0, lit_sub()) {
        None
    } else {
        match parse_uuid36_spec(b, 8) {
            None => None,
            Some(sub) => if !lit_at(b, 44, lit_exp()) {
                None
            } else {
                match parse_dec_i64_spec(b, 52) {
                    None => None,
                    Some((exp, p3)) => if !lit_at(b, p3, lit_iat()) {
                        None
                    } else {
                        match parse_dec_i64_spec(b, p3 + 7) {
                            None => None,
                            Some((iat, p4)) => if p4 + 1 == b.len() && b[p4] == 125u8 {
                                Some(TokenModel { sub, exp, iat })
                            } else {
                                None
                            },
                        }
                    },
                }
            },
        }
    }
}

/// Whether `lit` occurs in `b` at position `at`, by comparison.
pub(crate) fn lit_at_exec(b: &Vec<u8>, at: usize, lit: &Vec<u8>) -> (r: bool)
    requires
        at <= b@.len(),
    ensures
        r == lit_at(b@, at as int, lit@),
{
    if b.len() - at < lit.len() {
        return false;
    }
    let mut j: usize = 0;
    while j < lit.len()
        invariant
            j <= lit@.len(),
            at + lit@.len() <= b@.len() <= usize::MAX,
            forall|q: int| 0 <= q < j ==> b@[at + q] == lit@[q],
        decreases lit@.len() - j,
    {
        if b[at + j] != lit[j] {
            proof {
                assert(b@.subrange(at as int, at + lit@.len())[j as int] == b@[at + j]);
            }
            return false;
        }
        j = j + 1;
    }
    proof {
        assert(b@.subrange(at as int, at + lit@.len()) =~= lit@);
    }
    true
}

fn lit_sub_vec() -> (r: Vec<u8>)
    ensures
        r@ == lit_sub(),
{
    let mut v: Vec<u8> = Vec::new();
    v.push(123);
    v.push(34);
    v.push(115);
    v.push(117);
    v.push(98);
    v.push(34);
    v.push(58);
    v.push(34);
    proof {
        assert(v@ =~= lit_sub());
    }
    v
}

fn lit_exp_vec() -> (r: Vec<u8>)
    ensures
        r@ == lit_exp(),
{
    let mut v: Vec<u8> = Vec::new();
    v.push(34);
    v.push(44);
    v.push(34);
    v.push(101);
    v.push(120);
    v.push(112);
    v.push(34);
    v.push(58);
    proof {
        assert(v@ =~= lit_exp());
    }
    v
}

fn lit_iat_vec() -> (r: Vec<u8>)
    ensures
        r@ == lit_iat(),
{
    let mut v: Vec<u8> = Vec::new();
    v.push(44);
    v.push(34);
    v.push(105);
    v.push(97);
    v.push(116);
    v.push(34);
    v.push(58);
    proof {
        assert(v@ =~= lit_iat());
    }
    v
}

/// Parses a serialized claims record.
pub fn parse_claims(b: &Vec<u8>) -> (r: Option<(u128, i64, i64)>)
    ensures
        match r {
            Some((sub, exp, iat)) => parse_claims_spec(b@) == Some(
                TokenModel { sub: sub as int, exp: exp as int, iat: iat as int },
            ),
            None => parse_claims_spec(b@) is None,
        },
{
    let ls = lit_sub_vec();
    if !lit_at_exec(b, 0, &ls) {
        return None;
    }
    let sub: u128 = match parse_uuid36(b, 8) {
        Some(v) => v,
        None => {
            return None;
        },
    };
    if b.len() < 44 {
        proof {
            assert(!lit_at(b@, 44, lit_exp()));
        }
        return None;
    }
    let le = lit_exp_vec();
    if !lit_at_exec(b, 44, &le) {
        return None;
    }
    let (exp, p3): (i64, usize) = match parse_dec_i64(b, 52) {
        Some(p) => p,
        None => {
            return None;
        },
    };
    let li = lit_iat_vec();
    if !lit_at_exec(b, p3, &li) {
        return None;
    }
    let (iat, p4): (i64, usize) = match parse_dec_i64(b, p3 + 7) {
        Some(p) => p,
        None => {
            return None;
        },
    };
    if p4 < b.len() && b[p4] == 125 && p4 + 1 == b.len() {
        Some((sub, exp, iat))
    } else {
        None
    }
}

/// Round trip: a serialized claims record parses back to the same token.
#[verifier::rlimit(100)]
pub proof fn lemma_claims_roundtrip(t: TokenModel)
    requires
        valid_token_model(t),
    ensures
        parse_claims_spec(claims_bytes_of(t)) == Some(t),
{
    let b = claims_bytes_of(t);
    let u = uuid36_of(t.sub);
    let de = dec_i64_of(t.exp);
    let di = dec_i64_of(t.iat);
    lemma_uuid36_shape(t.sub);
    assert(u.len() == 36);
    assert(b.len() == 8 + 36 + 8 + de.len() + 7 + di.len() + 1);
    // the literal skeleton
    assert(b.subrange(0, 8) =~= lit_sub());
    assert(b.subrange(8, 44) =~= u);
    assert(b.subrange(44, 52) =~= lit_exp());
    let p3 = 52 + de.len() as int;
    assert(b.subrange(52, p3) =~= de);
    assert(b.subrange(p3, p3 + 7) =~= lit_iat());
    let p4 = p3 + 7 + di.len() as int;
    assert(b.subrange(p3 + 7, p4) =~= di);
    assert(b[p4] == 125u8);
    assert(p4 + 1 == b.len());
    // the id
    lemma_parse_uuid36_roundtrip(b, 8, t.sub);
    // the expiry
    assert(b.subrange(52, b.len() as int) =~= de + b.subrange(p3, b.len() as int));
    assert(b.subrange(p3, b.len() as int)[0] == b[p3]);
    assert(b[p3] == 44u8) by {
        assert(b.subrange(p3, p3 + 7)[0] == b[p3]);
        assert(lit_iat()[0] == 44u8);
    }
    lemma_parse_dec_i64_roundtrip(
        b,
        52,
        t.exp,
        b.subrange(p3, b.len() as int),
    );
    // the issue time
    assert(b.subrange(p3 + 7, b.len() as int) =~= di + b.subrange(p4, b.len() as int));
    assert(b.subrange(p4, b.len() as int)[0] == b[p4]);
    lemma_parse_dec_i64_roundtrip(
        b,
        p3 + 7,
        t.iat,
        b.subrange(p4, b.len() as int),
    );
}

} // verus!
