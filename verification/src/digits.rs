//! Decimal and hexadecimal digit strings over byte sequences, with the
//! round-trip lemmas the identity codec's claims format is proved against.
use vstd::prelude::*;

verus! {

// ---------------------------------------------------------------------------
// powers
// ---------------------------------------------------------------------------

pub open spec fn pow_int(b: int, n: nat) -> int
    decreases n,
{
    if n == 0 {
        1
    } else {
        b * pow_int(b, (n - 1) as nat)
    }
}

pub proof fn lemma_pow_int_positive(b: int, n: nat)
    requires
        b >= 1,
    ensures
        pow_int(b, n) >= 1,
    decreases n,
{
    if n > 0 {
        lemma_pow_int_positive(b, (n - 1) as nat);
        assert(b * pow_int(b, (n - 1) as nat) >= 1) by (nonlinear_arith)
            requires
                b >= 1,
                pow_int(b, (n - 1) as nat) >= 1,
        ;
    }
}

// ---------------------------------------------------------------------------
// decimal digits
// ---------------------------------------------------------------------------

pub open spec fn is_dec_digit(b: u8) -> bool {
    48 <= b <= 57
}

pub open spec fn dec_digit_char(d: int) -> u8 {
    (48 + d) as u8
}

pub open spec fn dec_digit_val(b: u8) -> int {
    b - 48
}

/// Big-endian decimal digit string of `n`, without leading zeros.
pub open spec fn dec_digits_of(n: nat) -> Seq<u8>
    decreases n,
{
    if n < 10 {
        seq![dec_digit_char(n as int)]
    } else {
        dec_digits_of((n / 10) as nat).push(dec_digit_char((n % 10) as int))
    }
}

/// Value of a big-endian decimal digit string.
pub open spec fn dec_value_of(s: Seq<u8>) -> int
    decreases s.len(),
{
    if s.len() == 0 {
        0
    } else {
        dec_value_of(s.drop_last()) * 10 + dec_digit_val(s.last())
    }
}

pub open spec fn all_dec_digits(s: Seq<u8>) -> bool {
    forall|i: int| 0 <= i < s.len() ==> is_dec_digit(#[trigger] s[i])
}

pub proof fn lemma_dec_digits_of_digits(n: nat)
    ensures
        all_dec_digits(dec_digits_of(n)),
        dec_digits_of(n).len() >= 1,
    decreases n,
{
    if n >= 10 {
        lemma_dec_digits_of_digits((n / 10) as nat);
        let pre = dec_digits_of((n / 10) as nat);
        let whole = dec_digits_of(n);
        assert(whole == pre.push(dec_digit_char((n % 10) as int)));
        assert forall|i: int| 0 <= i < whole.len() implies is_dec_digit(#[trigger] whole[i]) by {
            if i < pre.len() {
                assert(whole[i] == pre[i]);
            }
        }
    }
}

pub proof fn lemma_dec_roundtrip(n: nat)
    ensures
        dec_value_of(dec_digits_of(n)) == n,
    decreases n,
{
    if n < 10 {
        let s = dec_digits_of(n);
        assert(s =~= seq![dec_digit_char(n as int)]);
        assert(s.drop_last() =~= Seq::<u8>::empty());
        assert(s.last() == dec_digit_char(n as int));
        assert(dec_value_of(s) == dec_value_of(s.drop_last()) * 10 + dec_digit_val(s.last()));
        assert(dec_value_of(s.drop_last()) == 0);
        assert(dec_digit_val(dec_digit_char(n as int)) == n);
    } else {
        lemma_dec_roundtrip((n / 10) as nat);
        let s = dec_digits_of(n);
        let pre = dec_digits_of((n / 10) as nat);
        assert(s == pre.push(dec_digit_char((n % 10) as int)));
        assert(s.drop_last() =~= pre);
        assert(s.last() == dec_digit_char((n % 10) as int));
        assert(dec_digit_val(dec_digit_char((n % 10) as int)) == n % 10);
        assert(dec_value_of(s) == (n / 10) * 10 + n % 10);
    }
}

pub proof fn lemma_dec_value_bound(s: Seq<u8>)
    requires
        all_dec_digits(s),
    ensures
        0 <= dec_value_of(s) < pow_int(10, s.len() as nat),
    decreases s.len(),
{
    if s.len() > 0 {
        assert(all_dec_digits(s.drop_last()));
        lemma_dec_value_bound(s.drop_last());
        assert(pow_int(10, s.len() as nat) == 10 * pow_int(10, (s.len() - 1) as nat));
    }
}

/// A number below `10^k` has at most `k` decimal digits (for `k >= 1`).
pub proof fn lemma_dec_digits_len(n: nat, k: nat)
    requires
        k >= 1,
        n < pow_int(10, k),
    ensures
        dec_digits_of(n).len() <= k,
    decreases n,
{
    if n >= 10 {
        assert(pow_int(10, k) == 10 * pow_int(10, (k - 1) as nat));
        lemma_pow_int_positive(10, (k - 1) as nat);
        assert(n / 10 < pow_int(10, (k - 1) as nat)) by (nonlinear_arith)
            requires
                n >= 10,
                n < 10 * pow_int(10, (k - 1) as nat),
                pow_int(10, (k - 1) as nat) >= 1,
        ;
        assert(k >= 2) by {
            if k == 1 {
                assert(pow_int(10, 1nat) == 10);
            }
        }
        lemma_dec_digits_len((n / 10) as nat, (k - 1) as nat);
    }
}

/// Little-endian decimal digit string of `n`.
pub open spec fn dec_digits_le(n: nat) -> Seq<u8>
    decreases n,
{
    if n < 10 {
        seq![dec_digit_char(n as int)]
    } else {
        seq![dec_digit_char((n % 10) as int)] + dec_digits_le((n / 10) as nat)
    }
}

pub proof fn lemma_dec_digits_le_reverse(n: nat)
    ensures
        dec_digits_of(n) == dec_digits_le(n).reverse(),
    decreases n,
{
    if n < 10 {
        assert(dec_digits_le(n).reverse() =~= seq![dec_digit_char(n as int)]);
    } else {
        lemma_dec_digits_le_reverse((n / 10) as nat);
        let c = dec_digit_char((n % 10) as int);
        assert(dec_digits_le(n).reverse() =~= dec_digits_le((n / 10) as nat).reverse().push(c));
    }
}

/// Appends the decimal digits of `n` to `out`.
pub fn push_dec_u64(out: &mut Vec<u8>, n: u64)
    ensures
        final(out)@ == old(out)@ + dec_digits_of(n as nat),
{
    let mut rev: Vec<u8> = Vec::new();
    let mut x: u64 = n;
    while x >= 10
        invariant
            dec_digits_le(n as nat) =~= rev@ + dec_digits_le(x as nat),
        decreases x,
    {
        let d: u8 = (x % 10) as u8;
        rev.push(48 + d);
        proof {
            assert(dec_digits_le(x as nat) == seq![dec_digit_char((x as nat % 10) as int)]
                + dec_digits_le((x as nat / 10) as nat));
        }
        x = x / 10;
    }
    rev.push(48 + (x % 10) as u8);
    proof {
        assert(dec_digits_le(x as nat) =~= seq![dec_digit_char(x as int)]);
        assert(rev@ =~= dec_digits_le(n as nat));
        lemma_dec_digits_le_reverse(n as nat);
    }
    let m: usize = rev.len();
    let mut j: usize = 0;
    while j < m
        invariant
            m == rev.len(),
            j <= m,
            rev@ == dec_digits_le(n as nat),
            out@ =~= old(out)@ + dec_digits_le(n as nat).reverse().take(j as int),
        decreases m - j,
    {
        let b: u8 = rev[m - 1 - j];
        out.push(b);
        proof {
            assert(dec_digits_le(n as nat).reverse()[j as int] == rev@[m - 1 - j]);
            assert(dec_digits_le(n as nat).reverse().take(j + 1)
                =~= dec_digits_le(n as nat).reverse().take(j as int).push(rev@[m - 1 - j]));
        }
        j = j + 1;
    }
    proof {
        assert(dec_digits_le(n as nat).reverse().take(m as int)
            =~= dec_digits_le(n as nat).reverse());
        lemma_dec_digits_le_reverse(n as nat);
    }
}

/// Signed decimal digit string: a leading minus sign for negative values.
pub open spec fn dec_i64_of(v: int) -> Seq<u8> {
    if v < 0 {
        seq![45u8] + dec_digits_of((-v) as nat)
    } else {
        dec_digits_of(v as nat)
    }
}

/// Appends the (possibly signed) decimal form of `v` to `out`.
pub fn push_dec_i64(out: &mut Vec<u8>, v: i64)
    ensures
        final(out)@ == old(out)@ + dec_i64_of(v as int),
{
    if v >= 0 {
        push_dec_u64(out, v as u64);
    } else {
        out.push(45);
        let mag: u64 = if v == i64::MIN {
            9223372036854775808u64
        } else {
            (-v) as u64
        };
        assert(mag == -(v as int));
        push_dec_u64(out, mag);
        proof {
            assert(out@ =~= old(out)@ + dec_i64_of(v as int));
        }
    }
}

// ---------------------------------------------------------------------------
// decimal parsing
// ---------------------------------------------------------------------------

/// Index of the first byte at or after `from` that is no decimal digit
/// (the length of the sequence if all remaining bytes are digits).
pub open spec fn digit_run_end(s: Seq<u8>, from: int) -> int
    decreases s.len() - from,
{
    if from < 0 || from >= s.len() {
        s.len() as int
    } else if is_dec_digit(s[from]) {
        digit_run_end(s, from + 1)
    } else {
        from
    }
}

pub proof fn lemma_digit_run_end_range(s: Seq<u8>, from: int)
    requires
        0 <= from <= s.len(),
    ensures
        from <= digit_run_end(s, from) <= s.len(),
        forall|i: int| from <= i < digit_run_end(s, from) ==> is_dec_digit(#[trigger] s[i]),
        digit_run_end(s, from) < s.len() ==> !is_dec_digit(s[digit_run_end(s, from)]),
    decreases s.len() - from,
{
    if from < s.len() && is_dec_digit(s[from]) {
        lemma_digit_run_end_range(s, from + 1);
    }
}

/// Where a run of digits sits between `from` and `stop`, with a non-digit
/// (or the end) at `stop`, the run ends exactly at `stop`.
pub proof fn lemma_digit_run_end_exact(s: Seq<u8>, from: int, stop: int)
    requires
        0 <= from <= stop <= s.len(),
        forall|i: int| from <= i < stop ==> is_dec_digit(#[trigger] s[i]),
        stop < s.len() ==> !is_dec_digit(s[stop]),
    ensures
        digit_run_end(s, from) == stop,
    decreases stop - from,
{
    if from < stop {
        lemma_digit_run_end_exact(s, from + 1, stop);
    }
}

/// Parses an unsigned decimal run at `from`: the digit run up to the first
/// non-digit, rejected when empty, longer than 20 digits, or above `u64::MAX`.
pub open spec fn parse_dec_run_spec(s: Seq<u8>, from: int) -> Option<(int, int)> {
    let end = digit_run_end(s, from);
    if end == from || end - from > 20 {
        None
    } else if dec_value_of(s.subrange(from, end)) > u64::MAX {
        None
    } else {
        Some((dec_value_of(s.subrange(from, end)), end))
    }
}

/// Scans a decimal digit run starting at `from`, returning its value and the
/// position just past it.
pub fn parse_dec_run(s: &Vec<u8>, from: usize) -> (r: Option<(u64, usize)>)
    requires
        from <= s@.len(),
    ensures
        match r {
            Some((v, end)) => {
                &&& parse_dec_run_spec(s@, from as int) == Some((v as int, end as int))
                &&& from < end <= s@.len()
            },
            None => parse_dec_run_spec(s@, from as int) is None,
        },
{
    proof {
        lemma_digit_run_end_range(s@, from as int);
    }
    let ghost g_end = digit_run_end(s@, from as int);
    let mut pos: usize = from;
    let mut acc: u128 = 0;
    while pos < s.len() && 48 <= s[pos] && s[pos] <= 57
        invariant
            from <= pos <= s@.len(),
            pos <= g_end,
            g_end == digit_run_end(s@, from as int),
            from <= g_end <= s@.len(),
            forall|i: int| from <= i < g_end ==> is_dec_digit(#[trigger] s@[i]),
            g_end < s@.len() ==> !is_dec_digit(s@[g_end]),
            pos - from <= 20,
            acc == dec_value_of(s@.subrange(from as int, pos as int)),
            acc < pow_int(10, (pos - from) as nat),
        decreases s@.len() - pos,
    {
        proof {
            lemma_digit_run_end_exact(s@, pos as int, g_end);
            assert(pos < g_end);
        }
        if pos - from == 20 {
            return None;
        }
        let d: u8 = s[pos] - 48;
        proof {
            let pre = s@.subrange(from as int, pos as int);
            let cur = s@.subrange(from as int, pos + 1);
            assert(cur.drop_last() =~= pre);
            assert(cur.last() == s@[pos as int]);
            lemma_dec_value_bound(cur);
            assert(all_dec_digits(cur));
            assert(pow_int(10, (pos + 1 - from) as nat)
                == 10 * pow_int(10, (pos - from) as nat));
            lemma_pow10_values();
            lemma_pow_monotone_21((pos + 1 - from) as nat);
        }
        acc = acc * 10 + (d as u128);
        pos = pos + 1;
    }
    proof {
        lemma_digit_run_end_exact(s@, pos as int, g_end);
        assert(pos == g_end);
    }
    if pos == from {
        return None;
    }
    if acc > u64::MAX as u128 {
        return None;
    }
    Some((acc as u64, pos))
}

/// Concrete values of the powers of ten that bound the parser's accumulator.
pub proof fn lemma_pow10_values()
    ensures
        pow_int(10, 20nat) == 100000000000000000000,
        pow_int(10, 21nat) == 1000000000000000000000,
{
    reveal_with_fuel(pow_int, 25);
}

pub proof fn lemma_pow_monotone_21(n: nat)
    requires
        n <= 21,
    ensures
        pow_int(10, n) <= pow_int(10, 21nat),
    decreases 21nat - n,
{
    if n < 21 {
        lemma_pow_monotone_21(n + 1);
        lemma_pow_int_positive(10, n);
        assert(pow_int(10, n + 1) == 10 * pow_int(10, n));
    }
}

/// Parses a signed decimal number at `from`: an optional minus sign, then a
/// digit run, with the value required to fit in `i64`.
pub open spec fn parse_dec_i64_spec(s: Seq<u8>, from: int) -> Option<(int, int)> {
    if from < s.len() && s[from] == 45 {
        match parse_dec_run_spec(s, from + 1) {
            Some((mag, end)) => if mag <= 9223372036854775808 {
                Some((-mag, end))
            } else {
                None
            },
            None => None,
        }
    } else {
        match parse_dec_run_spec(s, from) {
            Some((v, end)) => if v <= i64::MAX {
                Some((v, end))
            } else {
                None
            },
            None => None,
        }
    }
}

pub fn parse_dec_i64(s: &Vec<u8>, from: usize) -> (r: Option<(i64, usize)>)
    requires
        from <= s@.len(),
    ensures
        match r {
            Some((v, end)) => {
                &&& parse_dec_i64_spec(s@, from as int) == Some((v as int, end as int))
                &&& from < end <= s@.len()
            },
            None => parse_dec_i64_spec(s@, from as int) is None,
        },
{
    if from < s.len() && s[from] == 45 {
        match parse_dec_run(s, from + 1) {
            Some((mag, end)) => {
                if mag <= 9223372036854775808u64 {
                    let v: i64 = if mag == 9223372036854775808u64 {
                        i64::MIN
                    } else {
                        -(mag as i64)
                    };
                    Some((v, end))
                } else {
                    None
                }
            },
            None => None,
        }
    } else {
        match parse_dec_run(s, from) {
            Some((v, end)) => {
                if v <= i64::MAX as u64 {
                    Some((v as i64, end))
                } else {
                    None
                }
            },
            None => None,
        }
    }
}

/// Round trip: the signed decimal form of `v`, followed by anything that does
/// not begin with a digit, parses back to `v`.
pub proof fn lemma_parse_dec_i64_roundtrip(s: Seq<u8>, from: int, v: int, rest: Seq<u8>)
    requires
        i64::MIN <= v <= i64::MAX,
        0 <= from,
        s.subrange(from, s.len() as int) == dec_i64_of(v) + rest,
        from + dec_i64_of(v).len() + rest.len() == s.len(),
        rest.len() > 0 ==> !is_dec_digit(rest[0]),
    ensures
        parse_dec_i64_spec(s, from) == Some((v, from + dec_i64_of(v).len())),
{
    let tail = s.subrange(from, s.len() as int);
    let mag: nat = if v < 0 { (-v) as nat } else { v as nat };
    let ds = dec_digits_of(mag);
    lemma_dec_digits_of_digits(mag);
    lemma_dec_roundtrip(mag);
    let dstart: int = if v < 0 { from + 1 } else { from };
    let dend: int = dstart + ds.len();
    assert forall|i: int| dstart <= i < dend implies is_dec_digit(#[trigger] s[i]) by {
        assert(s[i] == tail[i - from]);
        if v < 0 {
            assert(tail[i - from] == ds[i - from - 1]);
        } else {
            assert(tail[i - from] == ds[i - from]);
        }
    }
    assert(dend < s.len() ==> !is_dec_digit(s[dend])) by {
        if dend < s.len() {
            assert(s[dend] == tail[dend - from]);
            assert(tail[dend - from] == rest[0]);
        }
    }
    if v < 0 {
        assert(s[from] == tail[0]);
        assert(tail[0] == 45u8);
    } else {
        assert(from < s.len());
        assert(s[from] == tail[0]);
        if v == 0 {
            assert(tail[0] == dec_digit_char(0));
        } else {
            assert(tail[0] == ds[0]);
        }
        assert(s[from] != 45u8);
    }
    lemma_digit_run_end_exact(s, dstart, dend);
    assert forall|k: int| 0 <= k < ds.len() implies s.subrange(dstart, dend)[k] == ds[k] by {
        assert(s.subrange(dstart, dend)[k] == s[dstart + k]);
        assert(s[dstart + k] == tail[dstart + k - from]);
        if v < 0 {
            assert(tail[dstart + k - from] == dec_i64_of(v as int)[1 + k]);
            assert(dec_i64_of(v as int)[1 + k] == ds[k]);
        } else {
            assert(tail[dstart + k - from] == dec_i64_of(v as int)[k]);
        }
    }
    assert(s.subrange(dstart, dend) =~= ds);
    assert(mag < pow_int(10, 20nat)) by {
        lemma_pow10_values();
    }
    lemma_dec_digits_len(mag, 20nat);
    assert(dec_value_of(ds) == mag);
}

// ---------------------------------------------------------------------------
// hexadecimal digits (lowercase output, either case accepted on input)
// ---------------------------------------------------------------------------

pub open spec fn hex_digit_char(d: int) -> u8 {
    if d < 10 {
        (48 + d) as u8
    } else {
        (97 + (d - 10)) as u8
    }
}

/// Value of a hexadecimal digit byte, or -1 if the byte is no hex digit.
pub open spec fn hex_digit_val(b: u8) -> int {
    if 48 <= b <= 57 {
        b - 48
    } else if 97 <= b <= 102 {
        b - 97 + 10
    } else if 65 <= b <= 70 {
        b - 65 + 10
    } else {
        -1
    }
}

pub open spec fn is_hex_digit(b: u8) -> bool {
    hex_digit_val(b) != -1
}

pub proof fn lemma_hex_digit_roundtrip(d: int)
    requires
        0 <= d < 16,
    ensures
        hex_digit_val(hex_digit_char(d)) == d,
{
}

/// Little-endian sequence of the `n` low hex digits of `v`.
pub open spec fn hex_digits_le(v: int, n: nat) -> Seq<int>
    decreases n,
{
    if n == 0 {
        Seq::empty()
    } else {
        seq![v % 16] + hex_digits_le(v / 16, (n - 1) as nat)
    }
}

/// Value of a big-endian sequence of hex digit values.
pub open spec fn hex_value_be(ds: Seq<int>) -> int
    decreases ds.len(),
{
    if ds.len() == 0 {
        0
    } else {
        hex_value_be(ds.drop_last()) * 16 + ds.last()
    }
}

pub open spec fn all_hex_vals(ds: Seq<int>) -> bool {
    forall|i: int| 0 <= i < ds.len() ==> 0 <= #[trigger] ds[i] < 16
}

pub proof fn lemma_hex_digits_le_vals(v: int, n: nat)
    requires
        v >= 0,
    ensures
        hex_digits_le(v, n).len() == n,
        all_hex_vals(hex_digits_le(v, n)),
    decreases n,
{
    if n > 0 {
        lemma_hex_digits_le_vals(v / 16, (n - 1) as nat);
        let whole = hex_digits_le(v, n);
        let rest = hex_digits_le(v / 16, (n - 1) as nat);
        assert forall|i: int| 0 <= i < whole.len() implies 0 <= #[trigger] whole[i] < 16 by {
            if i > 0 {
                assert(whole[i] == rest[i - 1]);
            }
        }
    }
}

pub proof fn lemma_hex_value_be_bound(ds: Seq<int>)
    requires
        all_hex_vals(ds),
    ensures
        0 <= hex_value_be(ds) < pow_int(16, ds.len() as nat),
    decreases ds.len(),
{
    if ds.len() > 0 {
        assert(all_hex_vals(ds.drop_last()));
        lemma_hex_value_be_bound(ds.drop_last());
        assert(pow_int(16, ds.len() as nat) == 16 * pow_int(16, (ds.len() - 1) as nat));
    }
}

/// Reading back, big-endian, the reversed little-endian digits of `v`
/// reconstructs `v` modulo `16^n`.
pub proof fn lemma_hex_le_reverse_value(v: int, n: nat)
    requires
        0 <= v < pow_int(16, n),
    ensures
        hex_value_be(hex_digits_le(v, n).reverse()) == v,
    decreases n,
{
    if n == 0 {
        assert(hex_digits_le(v, 0).reverse() =~= Seq::<int>::empty());
    } else {
        let le = hex_digits_le(v, n);
        let rest = hex_digits_le(v / 16, (n - 1) as nat);
        lemma_hex_digits_le_vals(v, n);
        assert(pow_int(16, n) == 16 * pow_int(16, (n - 1) as nat));
        assert(v / 16 < pow_int(16, (n - 1) as nat)) by (nonlinear_arith)
            requires
                v >= 0,
                v < 16 * pow_int(16, (n - 1) as nat),
        ;
        lemma_hex_le_reverse_value(v / 16, (n - 1) as nat);
        assert(le.reverse().drop_last() =~= rest.reverse());
        assert(le.reverse().last() == le[0]);
        assert(le[0] == v % 16);
        assert(hex_value_be(le.reverse()) == (v / 16) * 16 + v % 16);
    }
}

} // verus!
