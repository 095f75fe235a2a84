//! Persistence codec: the byte form in which a dressing's last known state
//! is saved and restored, plus the naming of state files.
//!
//! The payload is a small human-readable key-value text holding exactly the
//! two state fields, for example `position = 25\ntilt = -60\n`.

use vstd::prelude::*;
use vstd::string::StrSliceExecFns;
use vstd::string::StringExecFns;

use crate::state::WindowDressingState;

verus! {

/// Whether `char::is_alphanumeric` holds of `c`; the Unicode tables decide,
/// so the result is named rather than written out.
pub uninterp spec fn alphanumeric(c: char) -> bool;

/// Relies on char::is_alphanumeric: a pure classification of the character
/// by the Unicode tables.
#[verifier::external_body]
fn char_is_alphanumeric(c: char) -> (r: bool)
    ensures
        r == alphanumeric(c),
{
    c.is_alphanumeric()
}

/// Relies on String::push: appends exactly the given character.
#[verifier::external_body]
fn push_char(s: &mut String, c: char)
    ensures
        final(s)@ == old(s)@.push(c),
{
    s.push(c)
}

/// `s` with every character that is not alphanumeric replaced by an
/// underscore.
pub open spec fn sanitized(s: Seq<char>) -> Seq<char> {
    Seq::new(
        s.len(),
        |i: int|
            if alphanumeric(s[i]) {
                s[i]
            } else {
                '_'
            },
    )
}

/// Replace every character of `s` that is not alphanumeric by an
/// underscore, keeping the rest.
pub fn safe_string(s: &str) -> (r: String)
    ensures
        r@ == sanitized(s@),
{
    let n = s.unicode_len();
    let mut out = String::new();
    let mut i: usize = 0;
    proof {
        assert(out@ =~= sanitized(s@).subrange(0, 0));
    }
    while i < n
        invariant
            i <= n,
            n == s@.len(),
            out@ == sanitized(s@).subrange(0, i as int),
        decreases n - i,
    {
        let c = s.get_char(i);
        let kept = if char_is_alphanumeric(c) {
            c
        } else {
            '_'
        };
        push_char(&mut out, kept);
        proof {
            assert(out@ =~= sanitized(s@).subrange(0, i as int + 1));
        }
        i = i + 1;
    }
    proof {
        assert(sanitized(s@).subrange(0, n as int) =~= sanitized(s@));
    }
    out
}

/// The path of the state file a dressing persists under: its name, made
/// safe for a file system, inside the data directory with the payload's
/// extension.
pub fn name_to_state_config(name: &str) -> (r: String)
    ensures
        r@ == "data/"@ + sanitized(name@) + ".toml"@,
{
    let mut out = String::from_str("data/");
    let safe = safe_string(name);
    out.append(safe.as_str());
    out.append(".toml");
    out
}

/// The persisted payload could not be decoded as a dressing state.
#[derive(Clone, Copy, Debug, PartialEq, Eq, Structural)]
pub struct DecodeError;

/// The decimal digits of `n` (most significant first), as ASCII bytes.
pub open spec fn dec_digits(n: int) -> Seq<u8>
    recommends
        n >= 0,
    decreases n,
{
    if n < 10 {
        seq![(48 + n) as u8]
    } else {
        dec_digits(n / 10).push((48 + n % 10) as u8)
    }
}

/// The decimal digits of `t` with a leading minus sign when negative.
pub open spec fn signed_dec_digits(t: int) -> Seq<u8> {
    if t < 0 {
        seq![45u8] + dec_digits(-t)
    } else {
        dec_digits(t)
    }
}

/// The bytes of `position = `.
pub open spec fn key_position() -> Seq<u8> {
    seq![112u8, 111u8, 115u8, 105u8, 116u8, 105u8, 111u8, 110u8, 32u8, 61u8, 32u8]
}

/// The bytes of `tilt = `.
pub open spec fn key_tilt() -> Seq<u8> {
    seq![116u8, 105u8, 108u8, 116u8, 32u8, 61u8, 32u8]
}

/// The canonical encoding of a dressing state.
pub open spec fn encode_state(st: WindowDressingState) -> Seq<u8> {
    key_position() + dec_digits(st.position as int) + seq![10u8] + key_tilt() + signed_dec_digits(
        st.tilt as int,
    ) + seq![10u8]
}

/// Whether `b` is an ASCII decimal digit.
pub open spec fn is_digit(b: u8) -> bool {
    48 <= b <= 57
}

/// The first index at or after `i` that does not hold a decimal digit.
pub open spec fn digits_end(s: Seq<u8>, i: int) -> int
    recommends
        0 <= i <= s.len(),
    decreases s.len() - i,
{
    if i < 0 || i >= s.len() || !is_digit(s[i]) {
        i
    } else {
        digits_end(s, i + 1)
    }
}

/// The numeric value of a run of decimal digits.
pub open spec fn digits_val(s: Seq<u8>) -> int
    decreases s.len(),
{
    if s.len() == 0 {
        0
    } else {
        digits_val(s.drop_last()) * 10 + (s.last() - 48)
    }
}

/// What a persisted payload decodes to, if anything: the canonical
/// `position = <n>` line followed by the `tilt = <n>` line, each value in
/// canonical decimal (no leading zeros, no negative zero) and in the range
/// the state is meaningful over.
pub open spec fn parse_state(s: Seq<u8>) -> Option<WindowDressingState> {
    if s.len() < 11 || s.subrange(0, 11) != key_position() {
        None
    } else {
        let j = digits_end(s, 11);
        let pos_digits = s.subrange(11, j);
        if j == 11 || (s[11] == 48 && j > 12) {
            None
        } else if digits_val(pos_digits) > 100 {
            None
        } else if j >= s.len() || s[j] != 10 {
            None
        } else if s.len() < j + 8 || s.subrange(j + 1, j + 8) != key_tilt() {
            None
        } else {
            let neg = j + 8 < s.len() && s[j + 8] == 45;
            let m = if neg {
                j + 9
            } else {
                j + 8
            };
            let e = digits_end(s, m);
            let mag_digits = s.subrange(m, e);
            if e == m || (s[m] == 48 && (neg || e > m + 1)) {
                None
            } else {
                let tv = if neg {
                    -digits_val(mag_digits)
                } else {
                    digits_val(mag_digits)
                };
                if tv < -90 || tv > 90 {
                    None
                } else if e + 1 != s.len() || s[e] != 10 {
                    None
                } else {
                    Some(
                        WindowDressingState {
                            position: digits_val(pos_digits) as u8,
                            tilt: tv as i8,
                        },
                    )
                }
            }
        }
    }
}

/// A run of digits is never negative.
proof fn lemma_digits_val_nonneg(s: Seq<u8>)
    requires
        forall|i: int| 0 <= i < s.len() ==> is_digit(#[trigger] s[i]),
    ensures
        digits_val(s) >= 0,
    decreases s.len(),
{
    if s.len() > 0 {
        assert(forall|i: int|
            0 <= i < s.drop_last().len() ==> is_digit(#[trigger] s.drop_last()[i]));
        lemma_digits_val_nonneg(s.drop_last());
    }
}

/// A digit run without a leading zero is at least as large as its length
/// demands.
proof fn lemma_digit_run_magnitude(s: Seq<u8>)
    requires
        s.len() >= 1,
        forall|i: int| 0 <= i < s.len() ==> is_digit(#[trigger] s[i]),
        s[0] != 48,
    ensures
        digits_val(s) >= 1,
        s.len() >= 2 ==> digits_val(s) >= 10,
        s.len() >= 3 ==> digits_val(s) >= 100,
        s.len() >= 4 ==> digits_val(s) >= 1000,
    decreases s.len(),
{
    if s.len() == 1 {
        assert(digits_val(s.drop_last()) == 0);
        assert(digits_val(s) == s[0] - 48);
    } else {
        assert(forall|i: int|
            0 <= i < s.drop_last().len() ==> is_digit(#[trigger] s.drop_last()[i]));
        lemma_digit_run_magnitude(s.drop_last());
    }
}

/// Match the fixed 11-byte `position = ` prefix.
fn match_key_position(data: &[u8]) -> (b: bool)
    ensures
        b == (data@.len() >= 11 && data@.subrange(0, 11) == key_position()),
{
    proof {
        assert(key_position()[0] == 112 && key_position()[1] == 111 && key_position()[2] == 115
            && key_position()[3] == 105 && key_position()[4] == 116 && key_position()[5] == 105
            && key_position()[6] == 111 && key_position()[7] == 110 && key_position()[8] == 32
            && key_position()[9] == 61 && key_position()[10] == 32);
    }
    if data.len() < 11 {
        return false;
    }
    let b = data[0] == 112 && data[1] == 111 && data[2] == 115 && data[3] == 105 && data[4] == 116
        && data[5] == 105 && data[6] == 111 && data[7] == 110 && data[8] == 32 && data[9] == 61
        && data[10] == 32;
    proof {
        if b {
            assert(data@.subrange(0, 11) =~= key_position());
        } else {
            assert(data@.subrange(0, 11) != key_position()) by {
                if data@.subrange(0, 11) == key_position() {
                    assert(forall|i: int|
                        0 <= i < 11 ==> data@[i] == #[trigger] data@.subrange(0, 11)[i]);
                }
            }
        }
    }
    b
}

/// Match the fixed 7-byte `tilt = ` key at offset `at`.
fn match_key_tilt(data: &[u8], at: usize) -> (b: bool)
    requires
        at + 7 <= data@.len(),
    ensures
        b == (data@.subrange(at as int, at + 7) == key_tilt()),
{
    proof {
        assert(key_tilt()[0] == 116 && key_tilt()[1] == 105 && key_tilt()[2] == 108 && key_tilt()[3]
            == 116 && key_tilt()[4] == 32 && key_tilt()[5] == 61 && key_tilt()[6] == 32);
    }
    let b = data[at] == 116 && data[at + 1] == 105 && data[at + 2] == 108 && data[at + 3] == 116
        && data[at + 4] == 32 && data[at + 5] == 61 && data[at + 6] == 32;
    proof {
        if b {
            assert(data@.subrange(at as int, at + 7) =~= key_tilt());
        } else {
            assert(data@.subrange(at as int, at + 7) != key_tilt()) by {
                if data@.subrange(at as int, at + 7) == key_tilt() {
                    assert(forall|i: int|
                        0 <= i < 7 ==> data@[at + i] == #[trigger] data@.subrange(
                            at as int,
                            at + 7,
                        )[i]);
                }
            }
        }
    }
    b
}

/// Scan forward from `start` over decimal digits.
fn scan_digits(data: &[u8], start: usize) -> (j: usize)
    requires
        start <= data@.len(),
    ensures
        start <= j <= data@.len(),
        j == digits_end(data@, start as int),
        forall|i: int| start <= i < j ==> is_digit(#[trigger] data@[i]),
    decreases data@.len() - start,
{
    let mut j = start;
    while j < data.len() && 48 <= data[j] && data[j] <= 57
        invariant
            start <= j <= data@.len(),
            digits_end(data@, start as int) == digits_end(data@, j as int),
            forall|i: int| start <= i < j ==> is_digit(#[trigger] data@[i]),
        decreases data@.len() - j,
    {
        j = j + 1;
    }
    j
}

/// The value of a run of at most three digits.
fn digits_value(data: &[u8], start: usize, end: usize) -> (v: u16)
    requires
        start <= end <= data@.len(),
        end - start <= 3,
        forall|i: int| start <= i < end ==> is_digit(#[trigger] data@[i]),
    ensures
        v == digits_val(data@.subrange(start as int, end as int)),
{
    let mut v: u16 = 0;
    let mut i = start;
    proof {
        assert(data@.subrange(start as int, start as int) =~= Seq::<u8>::empty());
    }
    while i < end
        invariant
            start <= i <= end <= data@.len(),
            end - start <= 3,
            forall|k: int| start <= k < end ==> is_digit(#[trigger] data@[k]),
            v == digits_val(data@.subrange(start as int, i as int)),
            v <= 999,
        decreases end - i,
    {
        proof {
            lemma_digits_val_nonneg(data@.subrange(start as int, i as int));
            assert(data@.subrange(start as int, i as int + 1).drop_last() =~= data@.subrange(
                start as int,
                i as int,
            ));
            lemma_digits_val_bounded(data@.subrange(start as int, i as int));
        }
        let d = data[i];
        v = v * 10 + (d - 48) as u16;
        i = i + 1;
    }
    proof {
        assert(data@.subrange(start as int, end as int) == data@.subrange(start as int, i as int));
    }
    v
}

/// A digit run's value is bounded by its length.
proof fn lemma_digits_val_bounded(s: Seq<u8>)
    requires
        forall|i: int| 0 <= i < s.len() ==> is_digit(#[trigger] s[i]),
    ensures
        s.len() == 0 ==> digits_val(s) == 0,
        s.len() <= 1 ==> digits_val(s) <= 9,
        s.len() <= 2 ==> digits_val(s) <= 99,
        s.len() <= 3 ==> digits_val(s) <= 999,
    decreases s.len(),
{
    if s.len() > 0 {
        assert(forall|i: int|
            0 <= i < s.drop_last().len() ==> is_digit(#[trigger] s.drop_last()[i]));
        lemma_digits_val_bounded(s.drop_last());
    }
}

/// Decode a persisted payload, accepting exactly the canonical form the
/// encoder produces.
pub fn decode(data: &[u8]) -> (r: Option<WindowDressingState>)
    ensures
        r == parse_state(data@),
{
    if !match_key_position(data) {
        return None;
    }
    let j = scan_digits(data, 11);
    if j == 11 {
        return None;
    }
    if data[11] == 48 && j > 12 {
        return None;
    }
    if j - 11 > 3 {
        proof {
            lemma_digit_run_magnitude(data@.subrange(11, j as int));
        }
        return None;
    }
    let pv = digits_value(data, 11, j);
    if pv > 100 {
        return None;
    }
    if j == data.len() || data[j] != 10 {
        return None;
    }
    if data.len() - (j + 1) < 7 {
        return None;
    }
    if !match_key_tilt(data, j + 1) {
        return None;
    }
    let m0 = j + 8;
    let neg = m0 < data.len() && data[m0] == 45;
    let m = if neg {
        m0 + 1
    } else {
        m0
    };
    let e = scan_digits(data, m);
    if e == m {
        return None;
    }
    if data[m] == 48 && (neg || e > m + 1) {
        return None;
    }
    if e - m > 2 {
        proof {
            lemma_digit_run_magnitude(data@.subrange(m as int, e as int));
            lemma_digits_val_nonneg(data@.subrange(m as int, e as int));
        }
        return None;
    }
    let mag = digits_value(data, m, e);
    proof {
        lemma_digits_val_nonneg(data@.subrange(m as int, e as int));
    }
    if mag > 90 {
        return None;
    }
    if e == data.len() || data[e] != 10 {
        return None;
    }
    if e + 1 != data.len() {
        return None;
    }
    let tilt: i8 = if neg {
        -((mag as u8) as i8)
    } else {
        (mag as u8) as i8
    };
    Some(WindowDressingState { position: pv as u8, tilt })
}

/// The canonical decimal rendering of `n` is a nonempty digit run without a
/// leading zero (but for `0` itself) whose value reads back as `n`.
proof fn lemma_dec_digits_props(n: int)
    requires
        n >= 0,
    ensures
        dec_digits(n).len() >= 1,
        forall|i: int| 0 <= i < dec_digits(n).len() ==> is_digit(#[trigger] dec_digits(n)[i]),
        digits_val(dec_digits(n)) == n,
        n > 0 ==> dec_digits(n)[0] != 48,
        n == 0 ==> dec_digits(n) == seq![48u8],
        n < 10 ==> dec_digits(n).len() == 1,
        n < 100 ==> dec_digits(n).len() <= 2,
        n < 1000 ==> dec_digits(n).len() <= 3,
    decreases n,
{
    if n < 10 {
        assert(dec_digits(n) == seq![(48 + n) as u8]);
        assert(digits_val(dec_digits(n).drop_last()) == 0);
    } else {
        assert(n / 10 < n && n / 10 >= 1) by (nonlinear_arith)
            requires
                n >= 10,
        ;
        lemma_dec_digits_props(n / 10);
        let prefix = dec_digits(n / 10);
        let d = (48 + n % 10) as u8;
        assert(dec_digits(n) == prefix.push(d));
        assert(dec_digits(n).drop_last() =~= prefix);
        assert(n / 10 * 10 + n % 10 == n) by {
            vstd::arithmetic::div_mod::lemma_fundamental_div_mod(n, 10);
        }
        assert(digits_val(dec_digits(n)) == n);
        assert(forall|i: int|
            0 <= i < dec_digits(n).len() ==> is_digit(#[trigger] dec_digits(n)[i])) by {
            assert(forall|i: int| 0 <= i < prefix.len() ==> dec_digits(n)[i] == #[trigger] prefix[i]);
        }
        assert(n < 100 ==> n / 10 < 10) by (nonlinear_arith);
        assert(n < 1000 ==> n / 10 < 100) by (nonlinear_arith);
    }
}

/// Over a region of digits closed off by a non-digit (or the payload's
/// end), the digit scan stops exactly at the region's bound.
proof fn lemma_digits_end_of_run(s: Seq<u8>, i: int, j: int)
    requires
        0 <= i <= j <= s.len(),
        forall|m: int| i <= m < j ==> is_digit(#[trigger] s[m]),
        j == s.len() || !is_digit(s[j]),
    ensures
        digits_end(s, i) == j,
    decreases j - i,
{
    if i < j {
        lemma_digits_end_of_run(s, i + 1, j);
    }
}

/// Round-trip law: decoding a state's canonical encoding yields that state
/// back, for every state in the meaningful ranges.
pub proof fn lemma_parse_of_encode(st: WindowDressingState)
    requires
        st.wf(),
    ensures
        parse_state(encode_state(st)) == Some(st),
{
    let s = encode_state(st);
    let d1 = dec_digits(st.position as int);
    let sd = signed_dec_digits(st.tilt as int);
    lemma_dec_digits_props(st.position as int);
    let l1 = d1.len() as int;
    assert(s.len() == 11 + l1 + 1 + 7 + sd.len() + 1);
    assert(s.subrange(0, 11) =~= key_position());
    assert(forall|m: int| 11 <= m < 11 + l1 ==> is_digit(#[trigger] s[m])) by {
        assert(forall|m: int| 11 <= m < 11 + l1 ==> #[trigger] s[m] == d1[m - 11]);
    }
    assert(s[11 + l1] == 10);
    lemma_digits_end_of_run(s, 11, 11 + l1);
    let j = digits_end(s, 11);
    assert(j == 11 + l1);
    assert(s.subrange(11, j) =~= d1);
    assert(s[11] == d1[0]);
    assert(!(s[11] == 48 && j > 12));
    assert(digits_val(s.subrange(11, j)) == st.position);
    assert(s.subrange(j + 1, j + 8) =~= key_tilt());
    if st.tilt < 0 {
        let mag = -(st.tilt as int);
        let d2 = dec_digits(mag);
        lemma_dec_digits_props(mag);
        let l2 = d2.len() as int;
        assert(sd == seq![45u8] + d2);
        assert(s[j + 8] == 45);
        let m = j + 9;
        assert(forall|q: int| m <= q < m + l2 ==> is_digit(#[trigger] s[q])) by {
            assert(forall|q: int| m <= q < m + l2 ==> #[trigger] s[q] == d2[q - m]);
        }
        assert(s[m + l2] == 10);
        lemma_digits_end_of_run(s, m, m + l2);
        let e = digits_end(s, m);
        assert(e == m + l2);
        assert(s.subrange(m, e) =~= d2);
        assert(s[m] == d2[0]);
        assert(s[m] != 48);
        assert(digits_val(s.subrange(m, e)) == mag);
        assert(e + 1 == s.len());
        assert(parse_state(s) == Some(st));
    } else {
        let d2 = dec_digits(st.tilt as int);
        lemma_dec_digits_props(st.tilt as int);
        let l2 = d2.len() as int;
        assert(sd == d2);
        assert(s[j + 8] == d2[0]);
        assert(is_digit(s[j + 8]));
        assert(s[j + 8] != 45);
        let m = j + 8;
        assert(forall|q: int| m <= q < m + l2 ==> is_digit(#[trigger] s[q])) by {
            assert(forall|q: int| m <= q < m + l2 ==> #[trigger] s[q] == d2[q - m]);
        }
        assert(s[m + l2] == 10);
        lemma_digits_end_of_run(s, m, m + l2);
        let e = digits_end(s, m);
        assert(e == m + l2);
        assert(s.subrange(m, e) =~= d2);
        assert(!(s[m] == 48 && (false || e > m + 1)));
        assert(digits_val(s.subrange(m, e)) == st.tilt);
        assert(e + 1 == s.len());
        assert(parse_state(s) == Some(st));
    }
}

/// The digit scan stays within the payload and sees only digits.
proof fn lemma_digits_end_region(s: Seq<u8>, i: int)
    requires
        0 <= i <= s.len(),
    ensures
        i <= digits_end(s, i) <= s.len(),
        forall|m: int| i <= m < digits_end(s, i) ==> is_digit(#[trigger] s[m]),
    decreases s.len() - i,
{
    if i < s.len() && is_digit(s[i]) {
        lemma_digits_end_region(s, i + 1);
    }
}

/// A canonical digit run is the decimal rendering of its own value.
proof fn lemma_canonical_digits(ds: Seq<u8>)
    requires
        ds.len() >= 1,
        forall|i: int| 0 <= i < ds.len() ==> is_digit(#[trigger] ds[i]),
        ds[0] != 48 || ds.len() == 1,
    ensures
        dec_digits(digits_val(ds)) == ds,
        digits_val(ds) >= 0,
    decreases ds.len(),
{
    if ds.len() == 1 {
        assert(digits_val(ds.drop_last()) == 0);
        assert(dec_digits(digits_val(ds)) =~= ds);
    } else {
        let prefix = ds.drop_last();
        assert(forall|i: int| 0 <= i < prefix.len() ==> is_digit(#[trigger] prefix[i]));
        assert(prefix[0] == ds[0]);
        lemma_digit_run_magnitude(prefix);
        lemma_canonical_digits(prefix);
        let v = digits_val(ds);
        let pv = digits_val(prefix);
        let d = ds.last() - 48;
        assert(v == pv * 10 + d);
        assert(v / 10 == pv && v % 10 == d) by {
            vstd::arithmetic::div_mod::lemma_fundamental_div_mod_converse(v, 10, pv, d);
        }
        assert(dec_digits(v) == dec_digits(pv).push((48 + d) as u8));
        assert(dec_digits(v) =~= ds);
    }
}

/// Canonicity law: only a state's canonical encoding decodes, and it
/// decodes to a state in the meaningful ranges, so re-encoding what was
/// decoded gives the very same bytes back.
pub proof fn lemma_encode_of_parse(s: Seq<u8>, st: WindowDressingState)
    requires
        parse_state(s) == Some(st),
    ensures
        st.wf(),
        encode_state(st) == s,
{
    let j = digits_end(s, 11);
    let pos_digits = s.subrange(11, j);
    lemma_digits_end_region(s, 11);
    assert(forall|i: int| 0 <= i < pos_digits.len() ==> is_digit(#[trigger] pos_digits[i]));
    lemma_canonical_digits(pos_digits);
    let pv = digits_val(pos_digits);
    assert(st.position == pv);
    assert(dec_digits(st.position as int) == pos_digits);
    let neg = j + 8 < s.len() && s[j + 8] == 45;
    let m = if neg {
        j + 9
    } else {
        j + 8
    };
    let e = digits_end(s, m);
    let mag_digits = s.subrange(m, e);
    lemma_digits_end_region(s, m);
    assert(forall|i: int| 0 <= i < mag_digits.len() ==> is_digit(#[trigger] mag_digits[i]));
    lemma_canonical_digits(mag_digits);
    let mag = digits_val(mag_digits);
    let tv = if neg {
        -mag
    } else {
        mag
    };
    assert(st.tilt == tv);
    if neg {
        lemma_digit_run_magnitude(mag_digits);
        assert(mag >= 1);
        assert(st.tilt as int == tv && tv < 0);
        assert(-(st.tilt as int) == mag);
        assert(signed_dec_digits(st.tilt as int) == seq![45u8] + mag_digits);
    } else {
        assert(signed_dec_digits(st.tilt as int) == mag_digits);
    }
    assert(st.wf());
    let enc = encode_state(st);
    assert(enc.len() == 11 + pos_digits.len() + 1 + 7 + (if neg {
        1int
    } else {
        0
    }) + mag_digits.len() + 1);
    assert(s.len() == e + 1);
    assert(enc.len() == s.len());
    assert(forall|i: int| 0 <= i < 11 ==> #[trigger] enc[i] == s[i]) by {
        assert(forall|i: int| 0 <= i < 11 ==> #[trigger] s.subrange(0, 11)[i] == s[i]);
        assert(s.subrange(0, 11) == key_position());
    }
    assert(forall|i: int| 11 <= i < j ==> #[trigger] enc[i] == s[i]) by {
        assert(forall|i: int| 11 <= i < j ==> #[trigger] pos_digits[i - 11] == s[i]);
    }
    assert(enc[j] == 10 && s[j] == 10);
    assert(forall|i: int| j + 1 <= i < j + 8 ==> #[trigger] enc[i] == s[i]) by {
        assert(forall|i: int| j + 1 <= i < j + 8 ==> #[trigger] s.subrange(j + 1, j + 8)[i - (j + 1)]
            == s[i]);
        assert(s.subrange(j + 1, j + 8) == key_tilt());
    }
    if neg {
        assert(enc[j + 8] == 45 && s[j + 8] == 45);
    }
    assert(forall|i: int| m <= i < e ==> #[trigger] enc[i] == s[i]) by {
        assert(forall|i: int| m <= i < e ==> #[trigger] mag_digits[i - m] == s[i]);
    }
    assert(enc[e] == 10 && s[e] == 10);
    assert(enc =~= s);
}

/// Append the decimal digits of `n` to `out`.
fn push_decimal_u8(out: &mut Vec<u8>, n: u8)
    ensures
        final(out)@ == old(out)@ + dec_digits(n as int),
    decreases n,
{
    if n >= 10 {
        proof {
            assert(n as int / 10 < n as int) by (nonlinear_arith)
                requires
                    n >= 10,
            ;
        }
        push_decimal_u8(out, n / 10);
    }
    out.push(48 + n % 10);
    proof {
        assert(out@ =~= old(out)@ + dec_digits(n as int));
    }
}

/// Encode a dressing state into its canonical byte form.
pub fn encode(st: WindowDressingState) -> (out: Vec<u8>)
    ensures
        out@ == encode_state(st),
{
    let mut out: Vec<u8> = Vec::new();
    out.push(112);
    out.push(111);
    out.push(115);
    out.push(105);
    out.push(116);
    out.push(105);
    out.push(111);
    out.push(110);
    out.push(32);
    out.push(61);
    out.push(32);
    proof {
        assert(out@ =~= key_position());
    }
    push_decimal_u8(&mut out, st.position);
    out.push(10);
    out.push(116);
    out.push(105);
    out.push(108);
    out.push(116);
    out.push(32);
    out.push(61);
    out.push(32);
    let ghost mid = out@;
    proof {
        assert(mid =~= key_position() + dec_digits(st.position as int) + seq![10u8] + key_tilt());
    }
    if st.tilt < 0 {
        out.push(45);
        let mag: u8 = (-(st.tilt as i16)) as u8;
        push_decimal_u8(&mut out, mag);
        proof {
            assert(signed_dec_digits(st.tilt as int) =~= seq![45u8] + dec_digits(mag as int));
        }
    } else {
        push_decimal_u8(&mut out, st.tilt as u8);
    }
    out.push(10);
    proof {
        assert(out@ =~= encode_state(st));
    }
    out
}

} // verus!
