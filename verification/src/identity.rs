//! The identity codec: session tokens as signed, self-contained assertions
//! of subject, issue time and expiry, serialized in the compact three-part
//! signed-token format and parsed back with signature verification.
use crate::b64::{
    b64_decode, b64_decode_spec, b64_encode, b64_encode_spec, is_b64_byte, lemma_b64_encode_bytes,
    lemma_b64_roundtrip,
};
use crate::claims::{
    claims_bytes, claims_bytes_of, lit_at_exec, parse_claims, parse_claims_spec,
    push_range, valid_token_model, TokenModel,
};
use crate::customer::Customer;
use crate::errors::IdentityError;
use crate::jwt::{b64url_chars, hs256_sign, hs256_verify, sig_check, sign_of};
use crate::text::{
    all_ascii_bytes, ascii_bytes_of, ascii_chars_of, ascii_string_from_bytes,
    lemma_ascii_bytes_chars, lemma_ascii_chars_roundtrip, str_ascii_bytes,
};
use crate::uid::Uuid;
use vstd::prelude::*;
use vstd::string::StringExecFns;

verus! {

/// The signing secret. Fixed for this system; every token is signed and
/// verified against it.
pub open spec fn secret_chars() -> Seq<char> {
    "secret"@
}

/// The serialized protected header `{"typ":"JWT","alg":"HS256"}`.
pub open spec fn header_json_bytes() -> Seq<u8> {
    seq![
        123u8, 34u8, 116u8, 121u8, 112u8, 34u8, 58u8, 34u8, 74u8, 87u8, 84u8, 34u8, 44u8, 34u8,
        97u8, 108u8, 103u8, 34u8, 58u8, 34u8, 72u8, 83u8, 50u8, 53u8, 54u8, 34u8, 125u8,
    ]
}

/// The encoded header: the first part of every token.
pub open spec fn header_b64_bytes() -> Seq<u8> {
    b64_encode_spec(header_json_bytes())
}

fn header_json_vec() -> (r: Vec<u8>)
    ensures
        r@ == header_json_bytes(),
{
    let mut v: Vec<u8> = Vec::new();
    v.push(123);
    v.push(34);
    v.push(116);
    v.push(121);
    v.push(112);
    v.push(34);
    v.push(58);
    v.push(34);
    v.push(74);
    v.push(87);
    v.push(84);
    v.push(34);
    v.push(44);
    v.push(34);
    v.push(97);
    v.push(108);
    v.push(103);
    v.push(34);
    v.push(58);
    v.push(34);
    v.push(72);
    v.push(83);
    v.push(50);
    v.push(53);
    v.push(54);
    v.push(34);
    v.push(125);
    proof {
        assert(v@ =~= header_json_bytes());
    }
    v
}

fn header_b64_vec() -> (r: Vec<u8>)
    ensures
        r@ == header_b64_bytes(),
{
    let h = header_json_vec();
    b64_encode(&h)
}

/// The bytes signed over: encoded header, a dot, encoded claims.
pub open spec fn msg_bytes_of(t: TokenModel) -> Seq<u8> {
    header_b64_bytes() + seq![46u8] + b64_encode_spec(claims_bytes_of(t))
}

/// The signing input as a character string.
pub open spec fn signing_input_of(t: TokenModel) -> Seq<char> {
    ascii_chars_of(msg_bytes_of(t))
}

/// The full serialized token: signing input, a dot, signature.
pub open spec fn token_chars_of(t: TokenModel) -> Seq<char> {
    signing_input_of(t) + seq!['.'] + sign_of(secret_chars(), signing_input_of(t))
}

// ---------------------------------------------------------------------------
// parsing
// ---------------------------------------------------------------------------

/// Index of the first occurrence of `b` at or after `from`, or the length.
pub open spec fn find_byte(s: Seq<u8>, b: u8, from: int) -> int
    decreases s.len() - from,
{
    if from < 0 || from >= s.len() {
        s.len() as int
    } else if s[from] == b {
        from
    } else {
        find_byte(s, b, from + 1)
    }
}

pub proof fn lemma_find_byte_props(s: Seq<u8>, b: u8, from: int)
    requires
        0 <= from <= s.len(),
    ensures
        from <= find_byte(s, b, from) <= s.len(),
        forall|i: int| from <= i < find_byte(s, b, from) ==> s[i] != b,
        find_byte(s, b, from) < s.len() ==> s[find_byte(s, b, from)] == b,
    decreases s.len() - from,
{
    if from < s.len() && s[from] != b {
        lemma_find_byte_props(s, b, from + 1);
    }
}

pub proof fn lemma_find_byte_exact(s: Seq<u8>, b: u8, from: int, stop: int)
    requires
        0 <= from <= stop <= s.len(),
        forall|i: int| from <= i < stop ==> s[i] != b,
        stop < s.len() ==> s[stop] == b,
    ensures
        find_byte(s, b, from) == stop,
    decreases stop - from,
{
    if from < stop {
        lemma_find_byte_exact(s, b, from + 1, stop);
    }
}

fn find_dot(s: &Vec<u8>, from: usize) -> (r: usize)
    requires
        from <= s@.len(),
    ensures
        r == find_byte(s@, 46u8, from as int),
        from <= r <= s@.len(),
{
    let ghost fbv = find_byte(s@, 46u8, from as int);
    proof {
        lemma_find_byte_props(s@, 46u8, from as int);
    }
    let mut pos: usize = from;
    while pos < s.len() && s[pos] != 46
        invariant
            from <= pos <= s@.len(),
            pos <= fbv,
            fbv == find_byte(s@, 46u8, from as int),
            from <= fbv <= s@.len(),
            forall|i: int| from <= i < fbv ==> s@[i] != 46u8,
            fbv < s@.len() ==> s@[fbv] == 46u8,
        decreases s@.len() - pos,
    {
        proof {
            assert(pos < fbv) by {
                if pos == fbv {
                    assert(s@[fbv] == 46u8);
                }
            }
        }
        pos = pos + 1;
    }
    proof {
        assert(pos == fbv) by {
            if pos < fbv {
                assert(s@[pos as int] != 46u8);
            }
        }
    }
    pos
}

/// The strict parse of a serialized token over its bytes: exactly three
/// parts split by dots, the canonical header, a signature that checks out,
/// and a well-formed claims record.
pub open spec fn parse_token_bytes(bs: Seq<u8>) -> Option<TokenModel> {
    let d1 = find_byte(bs, 46u8, 0);
    let d2 = find_byte(bs, 46u8, d1 + 1);
    if d2 >= bs.len() {
        None
    } else if find_byte(bs, 46u8, d2 + 1) != bs.len() {
        None
    } else if bs.subrange(0, d1) != header_b64_bytes() {
        None
    } else if !sig_check(
        secret_chars(),
        ascii_chars_of(bs.take(d2)),
        ascii_chars_of(bs.skip(d2 + 1)),
    ) {
        None
    } else {
        match b64_decode_spec(bs.subrange(d1 + 1, d2)) {
            None => None,
            Some(payload) => parse_claims_spec(payload),
        }
    }
}

/// The strict parse of a serialized token: ASCII only, then byte-level.
pub open spec fn parse_token_spec(s: Seq<char>) -> Option<TokenModel> {
    if !vstd::utf8::is_ascii_chars(s) {
        None
    } else {
        parse_token_bytes(ascii_bytes_of(s))
    }
}

// ---------------------------------------------------------------------------
// the identity entity
// ---------------------------------------------------------------------------

/// The claims a session token asserts: subject, expiry, issue time.
#[derive(Clone, Copy, Debug, PartialEq)]
pub struct CustomerJsonWebToken {
    pub sub: Uuid,
    pub exp: i64,
    pub iat: i64,
}

impl View for CustomerJsonWebToken {
    type V = TokenModel;

    open spec fn view(&self) -> TokenModel {
        TokenModel { sub: self.sub.value as int, exp: self.exp as int, iat: self.iat as int }
    }
}

/// A customer's session identity: the claims of its bearer token.
#[derive(Clone, Copy, Debug, PartialEq)]
pub struct Identity {
    pub token: CustomerJsonWebToken,
}

impl View for Identity {
    type V = TokenModel;

    open spec fn view(&self) -> TokenModel {
        self.token@
    }
}

impl Identity {
    /// Issues an identity for a customer: expiry is issue time plus the
    /// lifetime, both in seconds.
    pub fn new(customer: &Customer, issueat: i64, duration: i64) -> (r: Identity)
        requires
            i64::MIN <= issueat + duration <= i64::MAX,
        ensures
            r@.sub == customer@.id,
            r@.iat == issueat,
            r@.exp == issueat + duration,
    {
        let token = CustomerJsonWebToken {
            sub: customer.get_id(),
            exp: issueat + duration,
            iat: issueat,
        };
        Identity { token }
    }

    pub fn get_id(&self) -> (r: Uuid)
        ensures
            r.value == self@.sub,
    {
        self.token.sub
    }

    pub fn get_expireat(&self) -> (r: i64)
        ensures
            r == self@.exp,
    {
        self.token.exp
    }

    /// Serializes and signs this identity's token. Fails only when the
    /// signing call fails.
    pub fn to_string(&self) -> (r: Result<String, IdentityError>)
        ensures
            match r {
                Ok(s) => {
                    &&& s@ == token_chars_of(self@)
                    &&& sig_check(
                        secret_chars(),
                        signing_input_of(self@),
                        sign_of(secret_chars(), signing_input_of(self@)),
                    )
                    &&& b64url_chars(sign_of(secret_chars(), signing_input_of(self@)))
                },
                Err(e) => e == IdentityError::EncodingError,
            },
    {
        let payload = claims_bytes(self.token.sub.value, self.token.exp, self.token.iat);
        let p64 = b64_encode(&payload);
        let mut msg_bytes = header_b64_vec();
        msg_bytes.push(46);
        push_range(&mut msg_bytes, &p64, 0, p64.len());
        proof {
            assert(p64@.subrange(0, p64@.len() as int) =~= p64@);
            assert(msg_bytes@ =~= msg_bytes_of(self@));
            lemma_b64_encode_bytes(header_json_bytes());
            lemma_b64_encode_bytes(payload@);
            assert(all_ascii_bytes(msg_bytes@));
        }
        let ghost mb = msg_bytes@;
        let msg = ascii_string_from_bytes(msg_bytes);
        let sig = match hs256_sign("secret", msg.as_str()) {
            Ok(s) => s,
            Err(_) => {
                return Err(IdentityError::EncodingError);
            },
        };
        let mut tok = msg;
        tok.append(".");
        tok.append(sig.as_str());
        proof {
            reveal_strlit(".");
            assert("."@ =~= seq!['.']);
            assert(ascii_chars_of(mb) == signing_input_of(self@));
            assert(tok@ =~= token_chars_of(self@));
        }
        Ok(tok)
    }

    /// Parses and verifies a serialized token. Fails with
    /// `InvalidTokenError` on any malformed input or failed signature check.
    #[verifier::rlimit(100)]
    pub fn from_string(value: &str) -> (r: Result<Identity, IdentityError>)
        ensures
            match r {
                Ok(id) => parse_token_spec(value@) == Some(id@),
                Err(e) => {
                    &&& parse_token_spec(value@) is None
                    &&& e == IdentityError::InvalidTokenError
                },
            },
    {
        if !value.is_ascii() {
            return Err(IdentityError::InvalidTokenError);
        }
        let bs = str_ascii_bytes(value);
        let ghost s = value@;
        proof {
            assert(parse_token_spec(s) == parse_token_bytes(bs@));
        }
        let n = bs.len();
        let d1 = find_dot(&bs, 0);
        if d1 >= n {
            proof {
                assert(find_byte(bs@, 46u8, d1 + 1) == n);
            }
            return Err(IdentityError::InvalidTokenError);
        }
        let d2 = find_dot(&bs, d1 + 1);
        if d2 >= n {
            return Err(IdentityError::InvalidTokenError);
        }
        let d3 = find_dot(&bs, d2 + 1);
        if d3 != n {
            return Err(IdentityError::InvalidTokenError);
        }
        let hv = header_b64_vec();
        if d1 != hv.len() {
            proof {
                assert(bs@.subrange(0, d1 as int).len() == d1 as int);
                assert(bs@.subrange(0, d1 as int) != header_b64_bytes());
            }
            return Err(IdentityError::InvalidTokenError);
        }
        if !lit_at_exec(&bs, 0, &hv) {
            proof {
                assert(bs@.subrange(0, d1 as int) != header_b64_bytes());
            }
            return Err(IdentityError::InvalidTokenError);
        }
        proof {
            assert(bs@.subrange(0, d1 as int) =~= header_b64_bytes());
        }
        let mut msgv: Vec<u8> = Vec::new();
        push_range(&mut msgv, &bs, 0, d2);
        let mut sigv: Vec<u8> = Vec::new();
        push_range(&mut sigv, &bs, d2 + 1, n);
        proof {
            assert(msgv@ =~= bs@.take(d2 as int));
            assert(sigv@ =~= bs@.skip(d2 + 1));
        }
        let msg = ascii_string_from_bytes(msgv);
        let sig = ascii_string_from_bytes(sigv);
        if !hs256_verify("secret", msg.as_str(), sig.as_str()) {
            return Err(IdentityError::InvalidTokenError);
        }
        let mut pv: Vec<u8> = Vec::new();
        push_range(&mut pv, &bs, d1 + 1, d2);
        let payload = match b64_decode(&pv) {
            Some(p) => p,
            None => {
                return Err(IdentityError::InvalidTokenError);
            },
        };
        match parse_claims(&payload) {
            Some((sub, exp, iat)) => Ok(
                Identity {
                    token: CustomerJsonWebToken { sub: Uuid::from_u128(sub), exp, iat },
                },
            ),
            None => Err(IdentityError::InvalidTokenError),
        }
    }
}

// ---------------------------------------------------------------------------
// round trip
// ---------------------------------------------------------------------------

/// Round trip: a token serialized by `to_string` parses back to the same
/// claims, given what `to_string` itself establishes about its signature.
#[verifier::rlimit(100)]
pub proof fn lemma_token_roundtrip(t: TokenModel)
    requires
        valid_token_model(t),
    ensures
        ({
            let msg = signing_input_of(t);
            let sig = sign_of(secret_chars(), msg);
            (sig_check(secret_chars(), msg, sig) && b64url_chars(sig)) ==> parse_token_spec(
                token_chars_of(t),
            ) == Some(t)
        }),
{
    let msg = signing_input_of(t);
    let sig = sign_of(secret_chars(), msg);
    if sig_check(secret_chars(), msg, sig) && b64url_chars(sig) {
        let mb = msg_bytes_of(t);
        let p64 = b64_encode_spec(claims_bytes_of(t));
        let hb = header_b64_bytes();
        lemma_b64_encode_bytes(header_json_bytes());
        lemma_b64_encode_bytes(claims_bytes_of(t));
        assert(all_ascii_bytes(mb)) by {
            assert forall|i: int| 0 <= i < mb.len() implies #[trigger] mb[i] < 128 by {
                if i < hb.len() {
                    assert(mb[i] == hb[i]);
                } else if i == hb.len() {
                    assert(mb[i] == 46u8);
                } else {
                    assert(mb[i] == p64[i - hb.len() - 1]);
                }
            }
        }
        lemma_ascii_bytes_chars(mb);
        let s = token_chars_of(t);
        let sigbytes = ascii_bytes_of(sig);
        assert(vstd::utf8::is_ascii_chars(sig));
        lemma_ascii_chars_roundtrip(sig);
        assert(vstd::utf8::is_ascii_chars(s)) by {
            assert forall|i: int| 0 <= i < s.len() implies '\0' <= #[trigger] s[i]
                <= '\u{7f}' by {
                if i < msg.len() {
                    assert(s[i] == msg[i]);
                    assert(msg[i] == mb[i] as char);
                } else if i == msg.len() {
                    assert(s[i] == '.');
                } else {
                    assert(s[i] == sig[i - msg.len() - 1]);
                }
            }
        }
        let bs = ascii_bytes_of(s);
        assert(bs =~= mb + seq![46u8] + sigbytes) by {
            assert forall|i: int| 0 <= i < bs.len() implies bs[i] == (mb + seq![46u8]
                + sigbytes)[i] by {
                if i < mb.len() {
                    assert(s[i] == mb[i] as char);
                } else if i == mb.len() {
                    assert(s[i] == '.');
                } else {
                    assert(s[i] == sig[i - mb.len() - 1]);
                    assert(sigbytes[i - mb.len() - 1] == sig[i - mb.len() - 1] as u8);
                }
            }
        }
        // dot positions
        let d1 = hb.len() as int;
        let d2 = d1 + 1 + p64.len() as int;
        assert(bs[d1] == 46u8);
        assert(bs[d2] == 46u8);
        lemma_find_byte_exact(bs, 46u8, 0, d1);
        lemma_find_byte_exact(bs, 46u8, d1 + 1, d2);
        assert forall|i: int| d2 + 1 <= i < bs.len() implies bs[i] != 46u8 by {
            assert(bs[i] == sigbytes[i - d2 - 1]);
            assert(is_b64_byte(sig[i - d2 - 1] as u8));
        }
        lemma_find_byte_exact(bs, 46u8, d2 + 1, bs.len() as int);
        // header
        assert(bs.subrange(0, d1) =~= hb);
        // signature
        assert(bs.take(d2) =~= mb);
        assert(ascii_chars_of(bs.take(d2)) == msg);
        assert(bs.skip(d2 + 1) =~= sigbytes);
        assert(ascii_chars_of(bs.skip(d2 + 1)) == sig);
        // payload
        assert(bs.subrange(d1 + 1, d2) =~= p64);
        lemma_b64_roundtrip(claims_bytes_of(t));
        crate::claims::lemma_claims_roundtrip(t);
        assert(parse_token_bytes(bs) == Some(t));
        assert(ascii_bytes_of(s) == bs);
    }
}

} // verus!
