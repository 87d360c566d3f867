//! URL-safe base64 without padding, over byte sequences: the alphabet the
//! signed token's header, payload and signature are written in.
use vstd::prelude::*;
use vstd::arithmetic::div_mod::lemma_fundamental_div_mod_converse;

verus! {

/// Alphabet byte of a six-bit value.
pub open spec fn b64_char_of(v: int) -> u8 {
    if v < 26 {
        (65 + v) as u8
    } else if v < 52 {
        (97 + v - 26) as u8
    } else if v < 62 {
        (48 + v - 52) as u8
    } else if v == 62 {
        45u8
    } else {
        95u8
    }
}

/// Six-bit value of an alphabet byte, or -1 outside the alphabet.
pub open spec fn b64_val_of(b: u8) -> int {
    if 65 <= b <= 90 {
        b - 65
    } else if 97 <= b <= 122 {
        b - 97 + 26
    } else if 48 <= b <= 57 {
        b - 48 + 52
    } else if b == 45 {
        62
    } else if b == 95 {
        63
    } else {
        -1
    }
}

pub open spec fn is_b64_byte(b: u8) -> bool {
    b64_val_of(b) >= 0
}

pub proof fn lemma_b64_char_roundtrip(v: int)
    requires
        0 <= v < 64,
    ensures
        b64_val_of(b64_char_of(v)) == v,
        is_b64_byte(b64_char_of(v)),
        b64_char_of(v) != 46,
        b64_char_of(v) < 128,
{
}

// ---------------------------------------------------------------------------
// encoding
// ---------------------------------------------------------------------------

/// The two alphabet bytes carrying one trailing input byte.
pub open spec fn b64_group1(b0: u8) -> Seq<u8> {
    seq![
        b64_char_of(b0 as int / 4),
        b64_char_of((b0 as int % 4) * 16),
    ]
}

/// The three alphabet bytes carrying two trailing input bytes.
pub open spec fn b64_group2(b0: u8, b1: u8) -> Seq<u8> {
    seq![
        b64_char_of(b0 as int / 4),
        b64_char_of((b0 as int % 4) * 16 + b1 as int / 16),
        b64_char_of((b1 as int % 16) * 4),
    ]
}

/// The four alphabet bytes carrying three input bytes.
pub open spec fn b64_group3(b0: u8, b1: u8, b2: u8) -> Seq<u8> {
    seq![
        b64_char_of(b0 as int / 4),
        b64_char_of((b0 as int % 4) * 16 + b1 as int / 16),
        b64_char_of((b1 as int % 16) * 4 + b2 as int / 64),
        b64_char_of(b2 as int % 64),
    ]
}

/// Unpadded URL-safe base64 of a byte sequence.
pub open spec fn b64_encode_spec(s: Seq<u8>) -> Seq<u8>
    decreases s.len(),
{
    if s.len() == 0 {
        Seq::empty()
    } else if s.len() == 1 {
        b64_group1(s[0])
    } else if s.len() == 2 {
        b64_group2(s[0], s[1])
    } else {
        b64_group3(s[0], s[1], s[2]) + b64_encode_spec(s.skip(3))
    }
}

/// Every byte of an encoding lies in the alphabet, so in particular is
/// printable ASCII and never a dot.
pub proof fn lemma_b64_encode_bytes(s: Seq<u8>)
    ensures
        forall|i: int|
            0 <= i < b64_encode_spec(s).len() ==> is_b64_byte(#[trigger] b64_encode_spec(s)[i])
                && b64_encode_spec(s)[i] != 46 && b64_encode_spec(s)[i] < 128,
    decreases s.len(),
{
    let e = b64_encode_spec(s);
    if s.len() == 0 {
    } else if s.len() == 1 {
        assert forall|i: int| 0 <= i < e.len() implies is_b64_byte(#[trigger] e[i]) && e[i] != 46
            && e[i] < 128 by {
            lemma_b64_char_roundtrip(s[0] as int / 4);
            lemma_b64_char_roundtrip((s[0] as int % 4) * 16);
        }
    } else if s.len() == 2 {
        assert forall|i: int| 0 <= i < e.len() implies is_b64_byte(#[trigger] e[i]) && e[i] != 46
            && e[i] < 128 by {
            lemma_b64_char_roundtrip(s[0] as int / 4);
            lemma_b64_char_roundtrip((s[0] as int % 4) * 16 + s[1] as int / 16);
            lemma_b64_char_roundtrip((s[1] as int % 16) * 4);
        }
    } else {
        lemma_b64_encode_bytes(s.skip(3));
        let g = b64_group3(s[0], s[1], s[2]);
        let rest = b64_encode_spec(s.skip(3));
        assert forall|i: int| 0 <= i < e.len() implies is_b64_byte(#[trigger] e[i]) && e[i] != 46
            && e[i] < 128 by {
            if i < 4 {
                lemma_b64_char_roundtrip(s[0] as int / 4);
                lemma_b64_char_roundtrip((s[0] as int % 4) * 16 + s[1] as int / 16);
                lemma_b64_char_roundtrip((s[1] as int % 16) * 4 + s[2] as int / 64);
                lemma_b64_char_roundtrip(s[2] as int % 64);
                assert(e[i] == g[i]);
            } else {
                assert(e[i] == rest[i - 4]);
            }
        }
    }
}

/// Exec form of `b64_char_of`.
fn b64_char(v: u8) -> (c: u8)
    requires
        v < 64,
    ensures
        c == b64_char_of(v as int),
{
    if v < 26 {
        65 + v
    } else if v < 52 {
        97 + (v - 26)
    } else if v < 62 {
        48 + (v - 52)
    } else if v == 62 {
        45
    } else {
        95
    }
}

/// Encodes a byte vector as unpadded URL-safe base64 bytes.
pub fn b64_encode(s: &Vec<u8>) -> (r: Vec<u8>)
    ensures
        r@ == b64_encode_spec(s@),
{
    let mut out: Vec<u8> = Vec::new();
    let mut i: usize = 0;
    proof {
        assert(s@.skip(0) =~= s@);
        assert(b64_encode_spec(s@) =~= Seq::<u8>::empty() + b64_encode_spec(s@));
    }
    while s.len() - i >= 3
        invariant
            i <= s@.len(),
            b64_encode_spec(s@) == out@ + b64_encode_spec(s@.skip(i as int)),
        decreases s@.len() - i,
    {
        let b0 = s[i];
        let b1 = s[i + 1];
        let b2 = s[i + 2];
        out.push(b64_char(b0 / 4));
        out.push(b64_char((b0 % 4) * 16 + b1 / 16));
        out.push(b64_char((b1 % 16) * 4 + b2 / 64));
        out.push(b64_char(b2 % 64));
        proof {
            let suf = s@.skip(i as int);
            assert(suf.len() >= 3);
            assert(suf[0] == b0 && suf[1] == b1 && suf[2] == b2);
            assert(suf.skip(3) =~= s@.skip(i + 3));
            assert(b64_encode_spec(suf) == b64_group3(b0, b1, b2) + b64_encode_spec(
                s@.skip(i + 3)));
            assert(b64_encode_spec(s@) =~= out@ + b64_encode_spec(s@.skip(i + 3)));
        }
        i = i + 3;
    }
    if i < s.len() {
        let b0 = s[i];
        if i + 1 < s.len() {
            let b1 = s[i + 1];
            out.push(b64_char(b0 / 4));
            out.push(b64_char((b0 % 4) * 16 + b1 / 16));
            out.push(b64_char((b1 % 16) * 4));
            proof {
                let suf = s@.skip(i as int);
                assert(suf.len() == 2);
                assert(suf[0] == b0 && suf[1] == b1);
                assert(b64_encode_spec(suf) == b64_group2(b0, b1));
                assert(b64_encode_spec(s@) =~= out@);
            }
        } else {
            out.push(b64_char(b0 / 4));
            out.push(b64_char((b0 % 4) * 16));
            proof {
                let suf = s@.skip(i as int);
                assert(suf.len() == 1);
                assert(suf[0] == b0);
                assert(b64_encode_spec(suf) == b64_group1(b0));
                assert(b64_encode_spec(s@) =~= out@);
            }
        }
    } else {
        proof {
            assert(s@.skip(i as int).len() == 0);
            assert(b64_encode_spec(s@) =~= out@);
        }
    }
    out
}

// ---------------------------------------------------------------------------
// decoding
// ---------------------------------------------------------------------------

/// Strict inverse of `b64_encode_spec`: rejects bytes outside the alphabet,
/// a trailing group of one byte, and non-zero unused trailing bits.
pub open spec fn b64_decode_spec(s: Seq<u8>) -> Option<Seq<u8>>
    decreases s.len(),
{
    if s.len() == 0 {
        Some(Seq::empty())
    } else if s.len() == 1 {
        None
    } else if s.len() == 2 {
        if is_b64_byte(s[0]) && is_b64_byte(s[1]) && b64_val_of(s[1]) % 16 == 0 {
            Some(seq![(b64_val_of(s[0]) * 4 + b64_val_of(s[1]) / 16) as u8])
        } else {
            None
        }
    } else if s.len() == 3 {
        if is_b64_byte(s[0]) && is_b64_byte(s[1]) && is_b64_byte(s[2]) && b64_val_of(s[2]) % 4
            == 0 {
            Some(
                seq![
                    (b64_val_of(s[0]) * 4 + b64_val_of(s[1]) / 16) as u8,
                    ((b64_val_of(s[1]) % 16) * 16 + b64_val_of(s[2]) / 4) as u8,
                ],
            )
        } else {
            None
        }
    } else {
        if is_b64_byte(s[0]) && is_b64_byte(s[1]) && is_b64_byte(s[2]) && is_b64_byte(s[3]) {
            match b64_decode_spec(s.skip(4)) {
                Some(rest) => Some(
                    seq![
                        (b64_val_of(s[0]) * 4 + b64_val_of(s[1]) / 16) as u8,
                        ((b64_val_of(s[1]) % 16) * 16 + b64_val_of(s[2]) / 4) as u8,
                        ((b64_val_of(s[2]) % 4) * 64 + b64_val_of(s[3])) as u8,
                    ] + rest,
                ),
                None => None,
            }
        } else {
            None
        }
    }
}

/// Decoding inverts encoding.
pub proof fn lemma_b64_roundtrip(s: Seq<u8>)
    ensures
        b64_decode_spec(b64_encode_spec(s)) == Some(s),
    decreases s.len(),
{
    let e = b64_encode_spec(s);
    if s.len() == 0 {
        assert(b64_decode_spec(e) == Some(Seq::<u8>::empty()));
        assert(Seq::<u8>::empty() =~= s);
    } else if s.len() == 1 {
        let b0 = s[0];
        let v0 = b0 as int / 4;
        let v1 = (b0 as int % 4) * 16;
        lemma_b64_char_roundtrip(v0);
        lemma_b64_char_roundtrip(v1);
        lemma_fundamental_div_mod_converse(v1, 16, b0 as int % 4, 0);
        assert(b64_val_of(e[1]) % 16 == 0);
        assert(b64_val_of(e[0]) * 4 + b64_val_of(e[1]) / 16 == (b0 as int / 4) * 4 + b0 as int
            % 4);
        assert(b64_decode_spec(e).unwrap() =~= s);
    } else if s.len() == 2 {
        let b0 = s[0];
        let b1 = s[1];
        let v0 = b0 as int / 4;
        let v1 = (b0 as int % 4) * 16 + b1 as int / 16;
        let v2 = (b1 as int % 16) * 4;
        lemma_b64_char_roundtrip(v0);
        lemma_b64_char_roundtrip(v1);
        lemma_b64_char_roundtrip(v2);
        lemma_fundamental_div_mod_converse(v1, 16, b0 as int % 4, b1 as int / 16);
        lemma_fundamental_div_mod_converse(v2, 4, b1 as int % 16, 0);
        assert(b64_val_of(e[2]) % 4 == 0);
        assert(b64_val_of(e[0]) * 4 + b64_val_of(e[1]) / 16 == b0 as int);
        assert((b64_val_of(e[1]) % 16) * 16 + b64_val_of(e[2]) / 4 == b1 as int);
        assert(b64_decode_spec(e).unwrap() =~= s);
    } else {
        let b0 = s[0];
        let b1 = s[1];
        let b2 = s[2];
        let v0 = b0 as int / 4;
        let v1 = (b0 as int % 4) * 16 + b1 as int / 16;
        let v2 = (b1 as int % 16) * 4 + b2 as int / 64;
        let v3 = b2 as int % 64;
        lemma_b64_char_roundtrip(v0);
        lemma_b64_char_roundtrip(v1);
        lemma_b64_char_roundtrip(v2);
        lemma_b64_char_roundtrip(v3);
        lemma_b64_roundtrip(s.skip(3));
        let g = b64_group3(b0, b1, b2);
        let rest = b64_encode_spec(s.skip(3));
        assert(e == g + rest);
        assert(e.len() >= 4);
        assert(e[0] == g[0] && e[1] == g[1] && e[2] == g[2] && e[3] == g[3]);
        assert(e.skip(4) =~= rest);
        lemma_fundamental_div_mod_converse(v1, 16, b0 as int % 4, b1 as int / 16);
        lemma_fundamental_div_mod_converse(v2, 4, b1 as int % 16, b2 as int / 64);
        assert(b64_val_of(e[0]) * 4 + b64_val_of(e[1]) / 16 == b0 as int);
        assert((b64_val_of(e[1]) % 16) * 16 + b64_val_of(e[2]) / 4 == b1 as int);
        assert((b64_val_of(e[2]) % 4) * 64 + b64_val_of(e[3]) == b2 as int);
        assert(b64_decode_spec(e).unwrap() =~= s);
    }
}

/// Exec form of `b64_val_of`: `None` outside the alphabet.
fn b64_val(b: u8) -> (r: Option<u8>)
    ensures
        match r {
            Some(v) => v < 64 && b64_val_of(b) == v as int,
            None => b64_val_of(b) == -1,
        },
{
    if 65 <= b && b <= 90 {
        Some(b - 65)
    } else if 97 <= b && b <= 122 {
        Some(b - 97 + 26)
    } else if 48 <= b && b <= 57 {
        Some(b - 48 + 52)
    } else if b == 45 {
        Some(62)
    } else if b == 95 {
        Some(63)
    } else {
        None
    }
}

/// Decodes unpadded URL-safe base64 bytes; `None` on any malformed input.
#[verifier::rlimit(100)]
pub fn b64_decode(s: &Vec<u8>) -> (r: Option<Vec<u8>>)
    ensures
        match r {
            Some(v) => b64_decode_spec(s@) == Some(v@),
            None => b64_decode_spec(s@) is None,
        },
{
    let mut out: Vec<u8> = Vec::new();
    let mut i: usize = 0;
    proof {
        assert(s@.skip(0) =~= s@);
        if b64_decode_spec(s@) is Some {
            assert(Seq::<u8>::empty() + b64_decode_spec(s@).unwrap()
                =~= b64_decode_spec(s@).unwrap());
        }
    }
    while s.len() - i >= 4
        invariant
            i <= s@.len(),
            b64_decode_spec(s@) == (match b64_decode_spec(s@.skip(i as int)) {
                Some(rest) => Some(out@ + rest),
                None => None,
            }),
        decreases s@.len() - i,
    {
        let ghost suf = s@.skip(i as int);
        proof {
            assert(suf[0] == s@[i as int] && suf[1] == s@[i + 1] && suf[2] == s@[i + 2]
                && suf[3] == s@[i + 3]);
        }
        let v0 = match b64_val(s[i]) {
            Some(v) => v,
            None => {
                return None;
            },
        };
        let v1 = match b64_val(s[i + 1]) {
            Some(v) => v,
            None => {
                return None;
            },
        };
        let v2 = match b64_val(s[i + 2]) {
            Some(v) => v,
            None => {
                return None;
            },
        };
        let v3 = match b64_val(s[i + 3]) {
            Some(v) => v,
            None => {
                return None;
            },
        };
        let ghost out0 = out@;
        out.push(v0 * 4 + v1 / 16);
        out.push((v1 % 16) * 16 + v2 / 4);
        out.push((v2 % 4) * 64 + v3);
        proof {
            assert(suf.skip(4) =~= s@.skip(i + 4));
            let group = seq![
                (b64_val_of(suf[0]) * 4 + b64_val_of(suf[1]) / 16) as u8,
                ((b64_val_of(suf[1]) % 16) * 16 + b64_val_of(suf[2]) / 4) as u8,
                ((b64_val_of(suf[2]) % 4) * 64 + b64_val_of(suf[3])) as u8,
            ];
            assert(out@ =~= out0 + group);
            if b64_decode_spec(s@.skip(i + 4)) is Some {
                let r2 = b64_decode_spec(s@.skip(i + 4)).unwrap();
                assert(b64_decode_spec(suf) == Some(group + r2));
                assert(out0 + (group + r2) =~= out@ + r2);
            } else {
                assert(b64_decode_spec(suf) is None);
            }
        }
        i = i + 4;
    }
    let rem = s.len() - i;
    let ghost suf = s@.skip(i as int);
    if rem == 0 {
        proof {
            assert(b64_decode_spec(suf) == Some(Seq::<u8>::empty()));
            assert(out@ + Seq::<u8>::empty() =~= out@);
        }
        Some(out)
    } else if rem == 1 {
        proof {
            assert(suf.len() == 1);
        }
        None
    } else if rem == 2 {
        proof {
            assert(suf[0] == s@[i as int] && suf[1] == s@[i + 1]);
        }
        let v0 = match b64_val(s[i]) {
            Some(v) => v,
            None => {
                return None;
            },
        };
        let v1 = match b64_val(s[i + 1]) {
            Some(v) => v,
            None => {
                return None;
            },
        };
        if v1 % 16 != 0 {
            return None;
        }
        let ghost out0 = out@;
        out.push(v0 * 4 + v1 / 16);
        proof {
            let single = seq![(b64_val_of(suf[0]) * 4 + b64_val_of(suf[1]) / 16) as u8];
            assert(b64_decode_spec(suf) == Some(single));
            assert(out@ =~= out0 + single);
        }
        Some(out)
    } else {
        proof {
            assert(suf.len() == 3);
            assert(suf[0] == s@[i as int] && suf[1] == s@[i + 1] && suf[2] == s@[i + 2]);
        }
        let v0 = match b64_val(s[i]) {
            Some(v) => v,
            None => {
                return None;
            },
        };
        let v1 = match b64_val(s[i + 1]) {
            Some(v) => v,
            None => {
                return None;
            },
        };
        let v2 = match b64_val(s[i + 2]) {
            Some(v) => v,
            None => {
                return None;
            },
        };
        if v2 % 4 != 0 {
            return None;
        }
        let ghost out0 = out@;
        out.push(v0 * 4 + v1 / 16);
        out.push((v1 % 16) * 16 + v2 / 4);
        proof {
            let pair = seq![
                (b64_val_of(suf[0]) * 4 + b64_val_of(suf[1]) / 16) as u8,
                ((b64_val_of(suf[1]) % 16) * 16 + b64_val_of(suf[2]) / 4) as u8,
            ];
            assert(b64_decode_spec(suf) == Some(pair));
            assert(out@ =~= out0 + pair);
        }
        Some(out)
    }
}

} // verus!
