//! The token endpoint's response format: a JSON object with the required
//! fields `access_token` (string) and `expires_in` (integer), the optional
//! fields `refresh_token` (string) and `refresh_expires_in` (integer), and
//! any number of unknown fields, which are ignored. String escapes and
//! nested unknown values follow the JSON grammar; nesting deeper than the
//! input length (which no input can reach) and numbers outside the `i64`
//! range are rejected, as is anything after the top-level object.

use vstd::prelude::*;

use crate::exchange::Error;
use crate::TokenResponse;
use crate::urlencode::push_utf8_bytes;
use crate::urlencode::utf8_bytes_of_scalar;

verus! {

pub open spec fn is_ws(b: u8) -> bool {
    b == 32 || b == 9 || b == 10 || b == 13
}

pub open spec fn is_digit(b: u8) -> bool {
    48 <= b <= 57
}

pub open spec fn is_hex(b: u8) -> bool {
    is_digit(b) || (65 <= b <= 70) || (97 <= b <= 102)
}

/// Numeric value of one hex digit.
pub open spec fn hex_val(b: u8) -> u32
    recommends
        is_hex(b),
{
    if is_digit(b) {
        (b - 48) as u32
    } else if 65 <= b <= 70 {
        (b - 55) as u32
    } else {
        (b - 87) as u32
    }
}

/// First position at or after `i` holding no JSON whitespace.
pub open spec fn spec_skip_ws(s: Seq<u8>, i: int) -> int
    decreases s.len() - i,
{
    if 0 <= i < s.len() && is_ws(s[i]) {
        spec_skip_ws(s, i + 1)
    } else {
        i
    }
}

pub open spec fn spec_hex4_valid(s: Seq<u8>, i: int) -> bool {
    i + 4 <= s.len() && is_hex(s[i]) && is_hex(s[i + 1]) && is_hex(s[i + 2]) && is_hex(s[i + 3])
}

pub open spec fn spec_hex4_val(s: Seq<u8>, i: int) -> u32
    recommends
        spec_hex4_valid(s, i),
{
    (hex_val(s[i]) * 0x1000 + hex_val(s[i + 1]) * 0x100 + hex_val(s[i + 2]) * 0x10 + hex_val(
        s[i + 3],
    )) as u32
}

/// The content and end of a JSON string whose opening quote stands just
/// before `i`: collected UTF-8 bytes (escapes re-encoded) and the position
/// after the closing quote. `None` on an unterminated string, a control
/// character, a bad escape or a lone surrogate.
pub open spec fn spec_str_body(s: Seq<u8>, i: int, acc: Seq<u8>) -> Option<(Seq<u8>, int)>
    decreases s.len() - i,
{
    if !(0 <= i < s.len()) {
        None
    } else if s[i] == 34 {
        Some((acc, i + 1))
    } else if s[i] == 92 {
        if !(i + 1 < s.len()) {
            None
        } else {
            let e = s[i + 1];
            if e == 34 || e == 92 || e == 47 {
                spec_str_body(s, i + 2, acc.push(e))
            } else if e == 98 {
                spec_str_body(s, i + 2, acc.push(8))
            } else if e == 102 {
                spec_str_body(s, i + 2, acc.push(12))
            } else if e == 110 {
                spec_str_body(s, i + 2, acc.push(10))
            } else if e == 114 {
                spec_str_body(s, i + 2, acc.push(13))
            } else if e == 116 {
                spec_str_body(s, i + 2, acc.push(9))
            } else if e == 117 {
                if !spec_hex4_valid(s, i + 2) {
                    None
                } else {
                    let c1 = spec_hex4_val(s, i + 2);
                    if 0xD800 <= c1 < 0xDC00 {
                        if i + 8 < s.len() && s[i + 6] == 92 && s[i + 7] == 117 && spec_hex4_valid(
                            s,
                            i + 8,
                        ) {
                            let c2 = spec_hex4_val(s, i + 8);
                            if 0xDC00 <= c2 < 0xE000 {
                                spec_str_body(
                                    s,
                                    i + 12,
                                    acc + utf8_bytes_of_scalar(
                                        ((0x10000 + (c1 - 0xD800) * 0x400 + (c2 - 0xDC00)) as u32),
                                    ),
                                )
                            } else {
                                None
                            }
                        } else {
                            None
                        }
                    } else if 0xDC00 <= c1 < 0xE000 {
                        None
                    } else {
                        spec_str_body(s, i + 6, acc + utf8_bytes_of_scalar(c1))
                    }
                }
            } else {
                None
            }
        }
    } else if s[i] < 32 {
        None
    } else {
        spec_str_body(s, i + 1, acc.push(s[i]))
    }
}

/// First position at or after `i` holding no decimal digit.
pub open spec fn spec_digits_end(s: Seq<u8>, i: int) -> int
    decreases s.len() - i,
{
    if 0 <= i < s.len() && is_digit(s[i]) {
        spec_digits_end(s, i + 1)
    } else {
        i
    }
}

/// Value of the decimal digits from `i` (inclusive) to `j` (exclusive).
pub open spec fn spec_digits_value(s: Seq<u8>, i: int, j: int) -> int
    decreases j - i,
{
    if j <= i {
        0
    } else {
        spec_digits_value(s, i, j - 1) * 10 + (s[j - 1] - 48)
    }
}

/// A JSON integer at `i`: its value and end position. `None` when no
/// integer starts here, on a leading zero, when a fraction or exponent
/// follows, or when the value falls outside `i64`.
pub open spec fn spec_parse_int(s: Seq<u8>, i: int) -> Option<(int, int)> {
    let neg = 0 <= i < s.len() && s[i] == 45;
    let d0 = if neg {
        i + 1
    } else {
        i
    };
    if !(0 <= d0 < s.len() && is_digit(s[d0])) {
        None
    } else if s[d0] == 48 && d0 + 1 < s.len() && is_digit(s[d0 + 1]) {
        None
    } else {
        let end = spec_digits_end(s, d0);
        let m = spec_digits_value(s, d0, end);
        let v: int = if neg {
            -m
        } else {
            m
        };
        if end < s.len() && (s[end] == 46 || s[end] == 101 || s[end] == 69) {
            None
        } else if v < i64::MIN || v > i64::MAX {
            None
        } else {
            Some((v, end))
        }
    }
}

/// End of a JSON number at `i`, fraction and exponent allowed.
pub open spec fn spec_skip_number(s: Seq<u8>, i: int) -> Option<int> {
    let neg = 0 <= i < s.len() && s[i] == 45;
    let d0 = if neg {
        i + 1
    } else {
        i
    };
    if !(0 <= d0 < s.len() && is_digit(s[d0])) {
        None
    } else if s[d0] == 48 && d0 + 1 < s.len() && is_digit(s[d0 + 1]) {
        None
    } else {
        let end = spec_digits_end(s, d0);
        let end2: int = if end < s.len() && s[end] == 46 {
            if end + 1 < s.len() && is_digit(s[end + 1]) {
                spec_digits_end(s, end + 1)
            } else {
                -1
            }
        } else {
            end
        };
        if end2 < 0 {
            None
        } else {
            let end3: int = if end2 < s.len() && (s[end2] == 101 || s[end2] == 69) {
                let p = if end2 + 1 < s.len() && (s[end2 + 1] == 43 || s[end2 + 1] == 45) {
                    end2 + 2
                } else {
                    end2 + 1
                };
                if p < s.len() && is_digit(s[p]) {
                    spec_digits_end(s, p)
                } else {
                    -1
                }
            } else {
                end2
            };
            if end3 < 0 {
                None
            } else {
                Some(end3)
            }
        }
    }
}

pub open spec fn is_true_at(s: Seq<u8>, i: int) -> bool {
    i + 4 <= s.len() && s[i] == 116 && s[i + 1] == 114 && s[i + 2] == 117 && s[i + 3] == 101
}

pub open spec fn is_false_at(s: Seq<u8>, i: int) -> bool {
    i + 5 <= s.len() && s[i] == 102 && s[i + 1] == 97 && s[i + 2] == 108 && s[i + 3] == 115 && s[i
        + 4] == 101
}

pub open spec fn is_null_at(s: Seq<u8>, i: int) -> bool {
    i + 4 <= s.len() && s[i] == 110 && s[i + 1] == 117 && s[i + 2] == 108 && s[i + 3] == 108
}

/// End of any JSON value at `i`, ignoring its content. The fuel bounds the
/// work; the callers hand in more than any input can use up.
pub open spec fn spec_skip_value(s: Seq<u8>, i: int, fuel: nat) -> Option<int>
    decreases fuel,
{
    if fuel == 0 {
        None
    } else if !(0 <= i < s.len()) {
        None
    } else if s[i] == 34 {
        match spec_str_body(s, i + 1, Seq::empty()) {
            None => None,
            Some((b, p)) => Some(p),
        }
    } else if s[i] == 123 {
        spec_skip_object(s, i + 1, (fuel - 1) as nat)
    } else if s[i] == 91 {
        spec_skip_array(s, i + 1, (fuel - 1) as nat)
    } else if is_true_at(s, i) {
        Some(i + 4)
    } else if is_false_at(s, i) {
        Some(i + 5)
    } else if is_null_at(s, i) {
        Some(i + 4)
    } else if s[i] == 45 || is_digit(s[i]) {
        spec_skip_number(s, i)
    } else {
        None
    }
}

/// End of an object body whose `{` stands just before `i`.
pub open spec fn spec_skip_object(s: Seq<u8>, i: int, fuel: nat) -> Option<int>
    decreases fuel,
{
    if fuel == 0 {
        None
    } else {
        let j = spec_skip_ws(s, i);
        if j < s.len() && s[j] == 125 {
            Some(j + 1)
        } else {
            spec_skip_members(s, j, (fuel - 1) as nat)
        }
    }
}

/// End of an object's members starting at the (whitespace-skipped) key
/// position `i`, up to and including the closing `}`.
pub open spec fn spec_skip_members(s: Seq<u8>, i: int, fuel: nat) -> Option<int>
    decreases fuel,
{
    if fuel == 0 {
        None
    } else if !(0 <= i < s.len() && s[i] == 34) {
        None
    } else {
        match spec_str_body(s, i + 1, Seq::empty()) {
            None => None,
            Some((key, p)) => {
                let j = spec_skip_ws(s, p);
                if !(j < s.len() && s[j] == 58) {
                    None
                } else {
                    match spec_skip_value(s, spec_skip_ws(s, j + 1), (fuel - 1) as nat) {
                        None => None,
                        Some(p2) => {
                            let m = spec_skip_ws(s, p2);
                            if m < s.len() && s[m] == 44 {
                                spec_skip_members(s, spec_skip_ws(s, m + 1), (fuel - 1) as nat)
                            } else if m < s.len() && s[m] == 125 {
                                Some(m + 1)
                            } else {
                                None
                            }
                        },
                    }
                }
            },
        }
    }
}

/// End of an array body whose `[` stands just before `i`.
pub open spec fn spec_skip_array(s: Seq<u8>, i: int, fuel: nat) -> Option<int>
    decreases fuel,
{
    if fuel == 0 {
        None
    } else {
        let j = spec_skip_ws(s, i);
        if j < s.len() && s[j] == 93 {
            Some(j + 1)
        } else {
            spec_skip_items(s, j, (fuel - 1) as nat)
        }
    }
}

/// End of an array's items starting at the (whitespace-skipped) value
/// position `i`, up to and including the closing `]`.
pub open spec fn spec_skip_items(s: Seq<u8>, i: int, fuel: nat) -> Option<int>
    decreases fuel,
{
    if fuel == 0 {
        None
    } else {
        match spec_skip_value(s, i, (fuel - 1) as nat) {
            None => None,
            Some(p) => {
                let m = spec_skip_ws(s, p);
                if m < s.len() && s[m] == 44 {
                    spec_skip_items(s, spec_skip_ws(s, m + 1), (fuel - 1) as nat)
                } else if m < s.len() && s[m] == 93 {
                    Some(m + 1)
                } else {
                    None
                }
            },
        }
    }
}

/// Byte-for-byte match of a decoded key against an ASCII field name.
pub open spec fn key_is(k: Seq<u8>, name: Seq<char>) -> bool {
    k.len() == name.len() && (forall|j: int| 0 <= j < k.len() ==> k[j] as u32 == name[j] as u32)
}

/// A string-typed field value at `i`: the collected bytes (or `None` for
/// `null`) and the end position; `None` for any other value.
pub open spec fn spec_str_field(s: Seq<u8>, i: int) -> Option<(Option<Seq<u8>>, int)> {
    if 0 <= i < s.len() && s[i] == 34 {
        match spec_str_body(s, i + 1, Seq::empty()) {
            None => None,
            Some((b, p)) => Some((Some(b), p)),
        }
    } else if is_null_at(s, i) {
        Some((None, i + 4))
    } else {
        None
    }
}

/// An integer-typed field value at `i`: the value (or `None` for `null`)
/// and the end position; `None` for any other value.
pub open spec fn spec_int_field(s: Seq<u8>, i: int) -> Option<(Option<int>, int)> {
    if is_null_at(s, i) {
        Some((None, i + 4))
    } else {
        match spec_parse_int(s, i) {
            None => None,
            Some((v, p)) => Some((Some(v), p)),
        }
    }
}

/// The members of the top-level object from key position `i` on, threading
/// the four recognized fields through; a later duplicate overwrites an
/// earlier one. Yields the final field values and the position after `}`.
pub open spec fn spec_members(
    s: Seq<u8>,
    i: int,
    fuel: nat,
    a: Option<Seq<u8>>,
    e: Option<int>,
    rt: Option<Seq<u8>>,
    re: Option<int>,
) -> Option<(Option<Seq<u8>>, Option<int>, Option<Seq<u8>>, Option<int>, int)>
    decreases fuel,
{
    if fuel == 0 {
        None
    } else if !(0 <= i < s.len() && s[i] == 34) {
        None
    } else {
        match spec_str_body(s, i + 1, Seq::empty()) {
            None => None,
            Some((key, p)) => {
                let j = spec_skip_ws(s, p);
                if !(j < s.len() && s[j] == 58) {
                    None
                } else {
                    let k = spec_skip_ws(s, j + 1);
                    let step: Option<
                        (Option<Seq<u8>>, Option<int>, Option<Seq<u8>>, Option<int>, int),
                    > = if key_is(key, "access_token"@) {
                        match spec_str_field(s, k) {
                            None => None,
                            Some((v, p2)) => Some((v, e, rt, re, p2)),
                        }
                    } else if key_is(key, "expires_in"@) {
                        match spec_int_field(s, k) {
                            None => None,
                            Some((v, p2)) => Some((a, v, rt, re, p2)),
                        }
                    } else if key_is(key, "refresh_token"@) {
                        match spec_str_field(s, k) {
                            None => None,
                            Some((v, p2)) => Some((a, e, v, re, p2)),
                        }
                    } else if key_is(key, "refresh_expires_in"@) {
                        match spec_int_field(s, k) {
                            None => None,
                            Some((v, p2)) => Some((a, e, rt, v, p2)),
                        }
                    } else {
                        match spec_skip_value(s, k, (fuel - 1) as nat) {
                            None => None,
                            Some(p2) => Some((a, e, rt, re, p2)),
                        }
                    };
                    match step {
                        None => None,
                        Some((a2, e2, rt2, re2, p2)) => {
                            let m = spec_skip_ws(s, p2);
                            if m < s.len() && s[m] == 44 {
                                spec_members(
                                    s,
                                    spec_skip_ws(s, m + 1),
                                    (fuel - 1) as nat,
                                    a2,
                                    e2,
                                    rt2,
                                    re2,
                                )
                            } else if m < s.len() && s[m] == 125 {
                                Some((a2, e2, rt2, re2, m + 1))
                            } else {
                                None
                            }
                        },
                    }
                }
            },
        }
    }
}

/// The whole response body as raw field data: the `access_token` bytes,
/// the `expires_in` value, and the two optional fields. `None` whenever
/// the body is not a single JSON object with both required fields, typed
/// as documented.
pub open spec fn spec_token_json(s: Seq<u8>) -> Option<
    (Seq<u8>, int, Option<Seq<u8>>, Option<int>),
> {
    let i = spec_skip_ws(s, 0);
    if !(i < s.len() && s[i] == 123) {
        None
    } else {
        let j = spec_skip_ws(s, i + 1);
        match spec_members(s, j, (s.len() + 2) as nat, None, None, None, None) {
            None => None,
            Some((a, e, rt, re, p)) => {
                if spec_skip_ws(s, p) == s.len() {
                    match (a, e) {
                        (Some(ab), Some(ev)) => Some((ab, ev, rt, re)),
                        _ => None,
                    }
                } else {
                    None
                }
            },
        }
    }
}

/// How a parsed `TokenResponse` relates to the field data of its body.
pub open spec fn response_matches_fields(
    t: TokenResponse,
    f: (Seq<char>, int, Option<Seq<char>>, Option<int>),
) -> bool {
    &&& t.access_token@ == f.0
    &&& t.expires_in as int == f.1
    &&& (t.refresh_token is Some <==> f.2 is Some)
    &&& (t.refresh_token matches Some(x) ==> f.2 matches Some(y) && x@ == y)
    &&& (t.refresh_expires_in is Some <==> f.3 is Some)
    &&& (t.refresh_expires_in matches Some(a) ==> f.3 matches Some(b) && a as int == b)
}

/// The parsed response: field strings as character sequences. `None` when
/// the body is rejected or a string field's bytes are not valid UTF-8.
pub open spec fn spec_parse_token_response(s: Seq<u8>) -> Option<
    (Seq<char>, int, Option<Seq<char>>, Option<int>),
> {
    match spec_token_json(s) {
        None => None,
        Some((a, e, rt, re)) => {
            if !vstd::utf8::valid_utf8(a) {
                None
            } else if rt matches Some(b) && !vstd::utf8::valid_utf8(b) {
                None
            } else {
                Some(
                    (
                        vstd::utf8::decode_utf8(a),
                        e,
                        match rt {
                            None => None,
                            Some(b) => Some(vstd::utf8::decode_utf8(b)),
                        },
                        re,
                    ),
                )
            }
        },
    }
}

/// Relies on `String::from_utf8`: it returns the string of the characters
/// the bytes encode exactly when they are valid UTF-8, and an error
/// otherwise.
#[verifier::external_body]
pub(crate) fn utf8_to_string(v: Vec<u8>) -> (r: Option<String>)
    ensures
        r is Some <==> vstd::utf8::valid_utf8(v@),
        r matches Some(s) ==> s@ == vstd::utf8::decode_utf8(v@),
{
    String::from_utf8(v).ok()
}

/// First position at or after `i` holding no JSON whitespace.
fn ws_end(s: &Vec<u8>, i: usize) -> (r: usize)
    requires
        i <= s@.len(),
    ensures
        i <= r <= s@.len(),
        r as int == spec_skip_ws(s@, i as int),
{
    let mut cur = i;
    while cur < s.len() && (s[cur] == 32 || s[cur] == 9 || s[cur] == 10 || s[cur] == 13)
        invariant
            i <= cur <= s@.len(),
            spec_skip_ws(s@, i as int) == spec_skip_ws(s@, cur as int),
        decreases s@.len() - cur,
    {
        cur += 1;
    }
    cur
}

/// First position at or after `i` holding no decimal digit.
fn digits_end(s: &Vec<u8>, i: usize) -> (r: usize)
    requires
        i <= s@.len(),
    ensures
        i <= r <= s@.len(),
        r as int == spec_digits_end(s@, i as int),
{
    let mut cur = i;
    while cur < s.len() && 48 <= s[cur] && s[cur] <= 57
        invariant
            i <= cur <= s@.len(),
            spec_digits_end(s@, i as int) == spec_digits_end(s@, cur as int),
        decreases s@.len() - cur,
    {
        cur += 1;
    }
    cur
}

/// Four hex digits at `p`, as a value below `0x10000`.
fn hex4(s: &Vec<u8>, p: usize) -> (r: Option<u32>)
    requires
        p + 4 <= s@.len(),
    ensures
        r is Some <==> spec_hex4_valid(s@, p as int),
        r matches Some(v) ==> v == spec_hex4_val(s@, p as int) && v < 0x10000,
{
    let n = s.len();
    assert(p + 4 <= n);
    let b0 = s[p];
    let b1 = s[p + 1];
    let b2 = s[p + 2];
    let b3 = s[p + 3];
    let h0 = hex_digit_val(b0);
    let h1 = hex_digit_val(b1);
    let h2 = hex_digit_val(b2);
    let h3 = hex_digit_val(b3);
    match (h0, h1, h2, h3) {
        (Some(a), Some(b), Some(c), Some(d)) => Some(a * 0x1000 + b * 0x100 + c * 0x10 + d),
        _ => None,
    }
}

/// Value of one hex digit, if it is one.
fn hex_digit_val(b: u8) -> (r: Option<u32>)
    ensures
        r is Some <==> is_hex(b),
        r matches Some(v) ==> v == hex_val(b) && v < 16,
{
    if 48 <= b && b <= 57 {
        Some((b - 48) as u32)
    } else if 65 <= b && b <= 70 {
        Some((b - 55) as u32)
    } else if 97 <= b && b <= 102 {
        Some((b - 87) as u32)
    } else {
        None
    }
}

/// Content and end of a JSON string whose opening quote stands just before
/// `i`.
fn parse_str_body(s: &Vec<u8>, i: usize) -> (r: Option<(Vec<u8>, usize)>)
    requires
        i <= s@.len(),
    ensures
        r is None ==> spec_str_body(s@, i as int, Seq::empty()) is None,
        r matches Some((v, p)) ==> spec_str_body(s@, i as int, Seq::empty()) == Some(
            (v@, p as int),
        ) && p <= s@.len(),
{
    let mut acc: Vec<u8> = Vec::new();
    let mut cur = i;
    loop
        invariant
            i <= cur <= s@.len(),
            spec_str_body(s@, i as int, Seq::empty()) == spec_str_body(s@, cur as int, acc@),
        decreases s@.len() - cur,
    {
        if cur >= s.len() {
            return None;
        }
        let b = s[cur];
        if b == 34 {
            return Some((acc, cur + 1));
        }
        if b == 92 {
            if s.len() - cur < 2 {
                return None;
            }
            let e = s[cur + 1];
            if e == 34 || e == 92 || e == 47 {
                acc.push(e);
                cur += 2;
            } else if e == 98 {
                acc.push(8);
                cur += 2;
            } else if e == 102 {
                acc.push(12);
                cur += 2;
            } else if e == 110 {
                acc.push(10);
                cur += 2;
            } else if e == 114 {
                acc.push(13);
                cur += 2;
            } else if e == 116 {
                acc.push(9);
                cur += 2;
            } else if e == 117 {
                if s.len() - cur < 6 {
                    proof {
                        assert(!spec_hex4_valid(s@, cur as int + 2));
                    }
                    return None;
                }
                match hex4(s, cur + 2) {
                    None => {
                        return None;
                    },
                    Some(c1) => {
                        if 0xD800 <= c1 && c1 < 0xDC00 {
                            if s.len() - cur < 12 || s[cur + 6] != 92 || s[cur + 7] != 117 {
                                proof {
                                    assert(spec_str_body(s@, i as int, Seq::empty()) is None);
                                }
                                return None;
                            }
                            match hex4(s, cur + 8) {
                                None => {
                                    return None;
                                },
                                Some(c2) => {
                                    if 0xDC00 <= c2 && c2 < 0xE000 {
                                        let scalar: u32 = 0x10000 + (c1 - 0xD800) * 0x400 + (c2
                                            - 0xDC00);
                                        push_utf8_bytes(&mut acc, scalar);
                                        cur += 12;
                                    } else {
                                        return None;
                                    }
                                },
                            }
                        } else if 0xDC00 <= c1 && c1 < 0xE000 {
                            return None;
                        } else {
                            push_utf8_bytes(&mut acc, c1);
                            cur += 6;
                        }
                    },
                }
            } else {
                return None;
            }
        } else if b < 32 {
            return None;
        } else {
            acc.push(b);
            cur += 1;
        }
    }
}

/// Bound past which one more digit puts any integer outside `i64`.
pub const INT_GUARD: u64 = 1_000_000_000_000_000_000;

pub proof fn lemma_digits_value_nonneg(s: Seq<u8>, i: int, j: int)
    requires
        forall|k: int| i <= k < j ==> is_digit(#[trigger] s[k]),
    ensures
        spec_digits_value(s, i, j) >= 0,
    decreases j - i,
{
    if j > i {
        lemma_digits_value_nonneg(s, i, j - 1);
    }
}

/// More digits only grow the value: tenfold at least, per extra digit.
pub proof fn lemma_digits_value_grows(s: Seq<u8>, i: int, k: int, j: int)
    requires
        i <= k < j,
        forall|m: int| i <= m < j ==> is_digit(#[trigger] s[m]),
    ensures
        spec_digits_value(s, i, j) >= 10 * spec_digits_value(s, i, k),
    decreases j - k,
{
    lemma_digits_value_nonneg(s, i, j - 1);
    if j == k + 1 {
    } else {
        lemma_digits_value_grows(s, i, k, j - 1);
    }
}

/// All positions before the digit end hold digits.
pub proof fn lemma_digits_end_digits(s: Seq<u8>, i: int)
    requires
        0 <= i <= s.len(),
    ensures
        i <= spec_digits_end(s, i) <= s.len(),
        forall|k: int| i <= k < spec_digits_end(s, i) ==> is_digit(#[trigger] s[k]),
    decreases s.len() - i,
{
    if i < s.len() && is_digit(s[i]) {
        lemma_digits_end_digits(s, i + 1);
    }
}

/// A JSON integer at `i`: value and end position.
#[verifier::loop_isolation(false)]
fn parse_int_at(s: &Vec<u8>, i: usize) -> (r: Option<(i64, usize)>)
    requires
        i <= s@.len(),
    ensures
        r is None ==> spec_parse_int(s@, i as int) is None,
        r matches Some((v, p)) ==> spec_parse_int(s@, i as int) == Some((v as int, p as int)) && p
            <= s@.len(),
{
    let neg = i < s.len() && s[i] == 45;
    let d0 = if neg {
        i + 1
    } else {
        i
    };
    if !(d0 < s.len() && 48 <= s[d0] && s[d0] <= 57) {
        return None;
    }
    if s[d0] == 48 && d0 + 1 < s.len() && 48 <= s[d0 + 1] && s[d0 + 1] <= 57 {
        return None;
    }
    proof {
        lemma_digits_end_digits(s@, d0 as int);
    }
    let ghost end = spec_digits_end(s@, d0 as int);
    let mut acc: u64 = 0;
    let mut cur = d0;
    while cur < s.len() && 48 <= s[cur] && s[cur] <= 57
        invariant
            d0 <= cur <= s@.len(),
            cur <= end,
            end == spec_digits_end(s@, d0 as int),
            end <= s@.len(),
            spec_digits_end(s@, d0 as int) == spec_digits_end(s@, cur as int),
            forall|k: int| d0 <= k < end ==> is_digit(#[trigger] s@[k]),
            acc as int == spec_digits_value(s@, d0 as int, cur as int),
            acc < 10 * INT_GUARD,
        decreases s@.len() - cur,
    {
        if acc >= INT_GUARD {
            proof {
                lemma_digits_end_digits(s@, cur as int + 1);
                assert(spec_digits_end(s@, cur as int) == spec_digits_end(s@, cur as int + 1));
                assert(cur < end);
                lemma_digits_value_grows(s@, d0 as int, cur as int, end);
                assert(spec_digits_value(s@, d0 as int, end) >= 10 * INT_GUARD);
                assert(spec_digits_value(s@, d0 as int, end) > i64::MAX);
                assert(-spec_digits_value(s@, d0 as int, end) < i64::MIN);
                assert(spec_parse_int(s@, i as int) is None);
            }
            return None;
        }
        let d = s[cur] - 48;
        acc = acc * 10 + (d as u64);
        proof {
            lemma_digits_end_digits(s@, cur as int + 1);
            assert(spec_digits_end(s@, cur as int) == spec_digits_end(s@, cur as int + 1));
            assert(spec_digits_end(s@, cur as int + 1) >= cur as int + 1);
        }
        cur += 1;
    }
    proof {
        assert(cur as int == end);
    }
    if cur < s.len() && (s[cur] == 46 || s[cur] == 101 || s[cur] == 69) {
        return None;
    }
    if neg {
        if acc > 9_223_372_036_854_775_808u64 {
            return None;
        }
        if acc == 9_223_372_036_854_775_808u64 {
            return Some((i64::MIN, cur));
        }
        return Some((-(acc as i64), cur));
    }
    if acc > i64::MAX as u64 {
        return None;
    }
    Some((acc as i64, cur))
}

/// End of a JSON number at `i`, fraction and exponent allowed.
fn skip_number_at(s: &Vec<u8>, i: usize) -> (r: Option<usize>)
    requires
        i <= s@.len(),
    ensures
        r is None ==> spec_skip_number(s@, i as int) is None,
        r matches Some(p) ==> spec_skip_number(s@, i as int) == Some(p as int) && p <= s@.len(),
{
    let neg = i < s.len() && s[i] == 45;
    let d0 = if neg {
        i + 1
    } else {
        i
    };
    if !(d0 < s.len() && 48 <= s[d0] && s[d0] <= 57) {
        return None;
    }
    if s[d0] == 48 && d0 + 1 < s.len() && 48 <= s[d0 + 1] && s[d0 + 1] <= 57 {
        return None;
    }
    let end = digits_end(s, d0);
    let end2 = if end < s.len() && s[end] == 46 {
        if end + 1 < s.len() && 48 <= s[end + 1] && s[end + 1] <= 57 {
            digits_end(s, end + 1)
        } else {
            return None;
        }
    } else {
        end
    };
    let end3 = if end2 < s.len() && (s[end2] == 101 || s[end2] == 69) {
        let p = if end2 + 1 < s.len() && (s[end2 + 1] == 43 || s[end2 + 1] == 45) {
            end2 + 2
        } else {
            end2 + 1
        };
        if p < s.len() && 48 <= s[p] && s[p] <= 57 {
            digits_end(s, p)
        } else {
            return None;
        }
    } else {
        end2
    };
    Some(end3)
}

/// End of any JSON value at `i`.
fn skip_value_at(s: &Vec<u8>, i: usize, fuel: u128) -> (r: Option<usize>)
    requires
        i <= s@.len(),
    ensures
        r is None ==> spec_skip_value(s@, i as int, fuel as nat) is None,
        r matches Some(p) ==> spec_skip_value(s@, i as int, fuel as nat) == Some(p as int) && p
            <= s@.len(),
    decreases fuel,
{
    if fuel == 0 {
        return None;
    }
    if i >= s.len() {
        return None;
    }
    let b = s[i];
    if b == 34 {
        match parse_str_body(s, i + 1) {
            None => None,
            Some((_, p)) => Some(p),
        }
    } else if b == 123 {
        skip_object_at(s, i + 1, fuel - 1)
    } else if b == 91 {
        skip_array_at(s, i + 1, fuel - 1)
    } else if b == 116 {
        if s.len() - i >= 4 && s[i + 1] == 114 && s[i + 2] == 117 && s[i + 3] == 101 {
            Some(i + 4)
        } else {
            None
        }
    } else if b == 102 {
        if s.len() - i >= 5 && s[i + 1] == 97 && s[i + 2] == 108 && s[i + 3] == 115 && s[i + 4]
            == 101 {
            Some(i + 5)
        } else {
            None
        }
    } else if b == 110 {
        if s.len() - i >= 4 && s[i + 1] == 117 && s[i + 2] == 108 && s[i + 3] == 108 {
            Some(i + 4)
        } else {
            None
        }
    } else if b == 45 || (48 <= b && b <= 57) {
        skip_number_at(s, i)
    } else {
        None
    }
}

/// End of an object body whose `{` stands just before `i`.
fn skip_object_at(s: &Vec<u8>, i: usize, fuel: u128) -> (r: Option<usize>)
    requires
        i <= s@.len(),
    ensures
        r is None ==> spec_skip_object(s@, i as int, fuel as nat) is None,
        r matches Some(p) ==> spec_skip_object(s@, i as int, fuel as nat) == Some(p as int) && p
            <= s@.len(),
    decreases fuel,
{
    if fuel == 0 {
        return None;
    }
    let j = ws_end(s, i);
    if j < s.len() && s[j] == 125 {
        Some(j + 1)
    } else {
        skip_members_at(s, j, fuel - 1)
    }
}

/// End of an object's members, from a key position on.
fn skip_members_at(s: &Vec<u8>, i: usize, fuel: u128) -> (r: Option<usize>)
    requires
        i <= s@.len(),
    ensures
        r is None ==> spec_skip_members(s@, i as int, fuel as nat) is None,
        r matches Some(p) ==> spec_skip_members(s@, i as int, fuel as nat) == Some(p as int) && p
            <= s@.len(),
    decreases fuel,
{
    if fuel == 0 {
        return None;
    }
    if !(i < s.len() && s[i] == 34) {
        return None;
    }
    match parse_str_body(s, i + 1) {
        None => None,
        Some((_, p)) => {
            let j = ws_end(s, p);
            if !(j < s.len() && s[j] == 58) {
                return None;
            }
            match skip_value_at(s, ws_end(s, j + 1), fuel - 1) {
                None => None,
                Some(p2) => {
                    let m = ws_end(s, p2);
                    if m < s.len() && s[m] == 44 {
                        skip_members_at(s, ws_end(s, m + 1), fuel - 1)
                    } else if m < s.len() && s[m] == 125 {
                        Some(m + 1)
                    } else {
                        None
                    }
                },
            }
        },
    }
}

/// End of an array body whose `[` stands just before `i`.
fn skip_array_at(s: &Vec<u8>, i: usize, fuel: u128) -> (r: Option<usize>)
    requires
        i <= s@.len(),
    ensures
        r is None ==> spec_skip_array(s@, i as int, fuel as nat) is None,
        r matches Some(p) ==> spec_skip_array(s@, i as int, fuel as nat) == Some(p as int) && p
            <= s@.len(),
    decreases fuel,
{
    if fuel == 0 {
        return None;
    }
    let j = ws_end(s, i);
    if j < s.len() && s[j] == 93 {
        Some(j + 1)
    } else {
        skip_items_at(s, j, fuel - 1)
    }
}

/// End of an array's items, from a value position on.
fn skip_items_at(s: &Vec<u8>, i: usize, fuel: u128) -> (r: Option<usize>)
    requires
        i <= s@.len(),
    ensures
        r is None ==> spec_skip_items(s@, i as int, fuel as nat) is None,
        r matches Some(p) ==> spec_skip_items(s@, i as int, fuel as nat) == Some(p as int) && p
            <= s@.len(),
    decreases fuel,
{
    if fuel == 0 {
        return None;
    }
    match skip_value_at(s, i, fuel - 1) {
        None => None,
        Some(p) => {
            let m = ws_end(s, p);
            if m < s.len() && s[m] == 44 {
                skip_items_at(s, ws_end(s, m + 1), fuel - 1)
            } else if m < s.len() && s[m] == 93 {
                Some(m + 1)
            } else {
                None
            }
        },
    }
}

/// Whether decoded key bytes spell an ASCII field name.
fn bytes_eq_str(k: &Vec<u8>, name: &str) -> (r: bool)
    ensures
        r == key_is(k@, name@),
{
    let n = name.unicode_len();
    if k.len() != n {
        return false;
    }
    let mut j: usize = 0;
    while j < n
        invariant
            j <= n,
            n == name@.len(),
            n == k@.len(),
            forall|m: int| 0 <= m < j ==> k@[m] as u32 == name@[m] as u32,
        decreases n - j,
    {
        let c = name.get_char(j);
        if (k[j] as u32) != (c as u32) {
            return false;
        }
        j += 1;
    }
    true
}

/// A string-typed field value at `i`.
fn str_field_at(s: &Vec<u8>, i: usize) -> (r: Option<(Option<Vec<u8>>, usize)>)
    requires
        i <= s@.len(),
    ensures
        r is None ==> spec_str_field(s@, i as int) is None,
        r matches Some((v, p)) ==> spec_str_field(s@, i as int) == Some(
            (
                match v {
                    Option::None => Option::<Seq<u8>>::None,
                    Option::Some(b) => Option::Some(b@),
                },
                p as int,
            ),
        ) && p <= s@.len(),
{
    if i < s.len() && s[i] == 34 {
        match parse_str_body(s, i + 1) {
            None => None,
            Some((b, p)) => Some((Some(b), p)),
        }
    } else if i < s.len() && s[i] == 110 && s.len() - i >= 4 && s[i + 1] == 117 && s[i + 2] == 108
        && s[i + 3] == 108 {
        Some((None, i + 4))
    } else {
        None
    }
}

/// An integer-typed field value at `i`.
fn int_field_at(s: &Vec<u8>, i: usize) -> (r: Option<(Option<i64>, usize)>)
    requires
        i <= s@.len(),
    ensures
        r is None ==> spec_int_field(s@, i as int) is None,
        r matches Some((v, p)) ==> spec_int_field(s@, i as int) == Some(
            (
                match v {
                    Option::None => Option::<int>::None,
                    Option::Some(x) => Option::Some(x as int),
                },
                p as int,
            ),
        ) && p <= s@.len(),
{
    if i < s.len() && s[i] == 110 && s.len() - i >= 4 && s[i + 1] == 117 && s[i + 2] == 108 && s[i
        + 3] == 108 {
        Some((None, i + 4))
    } else {
        match parse_int_at(s, i) {
            None => None,
            Some((v, p)) => Some((Some(v), p)),
        }
    }
}

/// The four recognized fields, as collected while walking the top-level
/// object.
pub struct FieldsAcc {
    pub access: Option<Vec<u8>>,
    pub expires: Option<i64>,
    pub refresh: Option<Vec<u8>>,
    pub refresh_expires: Option<i64>,
}

pub open spec fn va(f: FieldsAcc) -> Option<Seq<u8>> {
    match f.access {
        Option::None => None,
        Option::Some(v) => Some(v@),
    }
}

pub open spec fn ve(f: FieldsAcc) -> Option<int> {
    match f.expires {
        Option::None => None,
        Option::Some(v) => Some(v as int),
    }
}

pub open spec fn vr(f: FieldsAcc) -> Option<Seq<u8>> {
    match f.refresh {
        Option::None => None,
        Option::Some(v) => Some(v@),
    }
}

pub open spec fn vre(f: FieldsAcc) -> Option<int> {
    match f.refresh_expires {
        Option::None => None,
        Option::Some(v) => Some(v as int),
    }
}

/// The members of the top-level object, from a key position on.
fn parse_members(s: &Vec<u8>, i: usize, fuel: u128, acc: FieldsAcc) -> (r: Option<
    (FieldsAcc, usize),
>)
    requires
        i <= s@.len(),
    ensures
        r is None ==> spec_members(s@, i as int, fuel as nat, va(acc), ve(acc), vr(acc), vre(acc))
            is None,
        r matches Some((f2, p)) ==> spec_members(
            s@,
            i as int,
            fuel as nat,
            va(acc),
            ve(acc),
            vr(acc),
            vre(acc),
        ) == Some((va(f2), ve(f2), vr(f2), vre(f2), p as int)) && p <= s@.len(),
    decreases fuel,
{
    if fuel == 0 {
        return None;
    }
    if !(i < s.len() && s[i] == 34) {
        return None;
    }
    match parse_str_body(s, i + 1) {
        None => None,
        Some((key, p)) => {
            let j = ws_end(s, p);
            if !(j < s.len() && s[j] == 58) {
                return None;
            }
            let k = ws_end(s, j + 1);
            let mut st = acc;
            let p2: usize;
            if bytes_eq_str(&key, "access_token") {
                match str_field_at(s, k) {
                    None => {
                        return None;
                    },
                    Some((v, q)) => {
                        st.access = v;
                        p2 = q;
                    },
                }
            } else if bytes_eq_str(&key, "expires_in") {
                match int_field_at(s, k) {
                    None => {
                        return None;
                    },
                    Some((v, q)) => {
                        st.expires = v;
                        p2 = q;
                    },
                }
            } else if bytes_eq_str(&key, "refresh_token") {
                match str_field_at(s, k) {
                    None => {
                        return None;
                    },
                    Some((v, q)) => {
                        st.refresh = v;
                        p2 = q;
                    },
                }
            } else if bytes_eq_str(&key, "refresh_expires_in") {
                match int_field_at(s, k) {
                    None => {
                        return None;
                    },
                    Some((v, q)) => {
                        st.refresh_expires = v;
                        p2 = q;
                    },
                }
            } else {
                match skip_value_at(s, k, fuel - 1) {
                    None => {
                        return None;
                    },
                    Some(q) => {
                        p2 = q;
                    },
                }
            }
            let m = ws_end(s, p2);
            if m < s.len() && s[m] == 44 {
                parse_members(s, ws_end(s, m + 1), fuel - 1, st)
            } else if m < s.len() && s[m] == 125 {
                Some((st, m + 1))
            } else {
                None
            }
        },
    }
}

/// Parse a token-endpoint response body. `Ok` exactly when the body is a
/// single JSON object carrying a string `access_token` and an `i64`
/// `expires_in` (with the optional string `refresh_token` and `i64`
/// `refresh_expires_in` taken along, `null` counting as absent, unknown
/// fields skipped); `Err(ParseError)` otherwise.
pub fn parse_token_response(body: &Vec<u8>) -> (r: Result<TokenResponse, Error>)
    ensures
        r is Ok <==> spec_parse_token_response(body@) is Some,
        r matches Ok(t) ==> spec_parse_token_response(body@) matches Some(f)
            && response_matches_fields(t, f),
        r is Err ==> r == Result::<TokenResponse, Error>::Err(Error::ParseError),
{
    let i = ws_end(body, 0);
    if !(i < body.len() && body[i] == 123) {
        return Err(Error::ParseError);
    }
    let j = ws_end(body, i + 1);
    let fuel: u128 = body.len() as u128 + 2;
    let st0 = FieldsAcc { access: None, expires: None, refresh: None, refresh_expires: None };
    match parse_members(body, j, fuel, st0) {
        None => Err(Error::ParseError),
        Some((st, p)) => {
            if ws_end(body, p) != body.len() {
                return Err(Error::ParseError);
            }
            match (st.access, st.expires) {
                (Some(ab), Some(ev)) => {
                    match utf8_to_string(ab) {
                        None => Err(Error::ParseError),
                        Some(tok) => {
                            match st.refresh {
                                None => Ok(
                                    TokenResponse {
                                        access_token: tok,
                                        expires_in: ev,
                                        refresh_token: None,
                                        refresh_expires_in: st.refresh_expires,
                                    },
                                ),
                                Some(rb) => {
                                    match utf8_to_string(rb) {
                                        None => Err(Error::ParseError),
                                        Some(rs) => Ok(
                                            TokenResponse {
                                                access_token: tok,
                                                expires_in: ev,
                                                refresh_token: Some(rs),
                                                refresh_expires_in: st.refresh_expires,
                                            },
                                        ),
                                    }
                                },
                            }
                        },
                    }
                },
                _ => Err(Error::ParseError),
            }
        },
    }
}

} // verus!
