//! The `application/x-www-form-urlencoded` wire form of a grant request:
//! `grant_type` first, then the variant's fields in declaration order, each
//! pair as `name=value` joined by `&`, with absent optional fields omitted.
//! Unreserved ASCII passes through, a space becomes `+`, and every other
//! character is percent-encoded byte by byte in its UTF-8 form.

use vstd::prelude::*;

use crate::request::TokenRequest;

verus! {

/// Code points serialized as themselves: ASCII alphanumerics and `*`, `-`,
/// `.`, `_`.
pub open spec fn is_form_unreserved(u: u32) -> bool {
    (48 <= u <= 57) || (65 <= u <= 90) || (97 <= u <= 122) || u == 42 || u == 45 || u == 46 || u
        == 95
}

/// Upper-case hex digit of a value below 16, as an ASCII byte.
pub open spec fn hex_digit(n: u8) -> u8
    recommends
        n < 16,
{
    if n < 10 {
        (48 + n) as u8
    } else {
        (55 + n) as u8
    }
}

/// The UTF-8 encoding of a Unicode scalar value.
pub open spec fn utf8_bytes_of_scalar(u: u32) -> Seq<u8> {
    if u < 0x80 {
        seq![u as u8]
    } else if u < 0x800 {
        seq![(0xC0 + u / 0x40) as u8, (0x80 + u % 0x40) as u8]
    } else if u < 0x10000 {
        seq![(0xE0 + u / 0x1000) as u8, (0x80 + (u / 0x40) % 0x40) as u8, (0x80 + u % 0x40) as u8]
    } else {
        seq![
            (0xF0 + u / 0x40000) as u8,
            (0x80 + (u / 0x1000) % 0x40) as u8,
            (0x80 + (u / 0x40) % 0x40) as u8,
            (0x80 + u % 0x40) as u8,
        ]
    }
}

/// The UTF-8 encoding of a whole character sequence.
pub open spec fn utf8_seq(s: Seq<char>) -> Seq<u8>
    decreases s.len(),
{
    if s.len() == 0 {
        Seq::empty()
    } else {
        utf8_bytes_of_scalar(s[0] as u32) + utf8_seq(s.skip(1))
    }
}

/// `%XX` escape of one byte.
pub open spec fn percent_byte(b: u8) -> Seq<u8> {
    seq![37u8, hex_digit(b / 16), hex_digit(b % 16)]
}

/// `%XX` escapes of a byte sequence.
pub open spec fn percent_bytes(bs: Seq<u8>) -> Seq<u8>
    decreases bs.len(),
{
    if bs.len() == 0 {
        Seq::empty()
    } else {
        percent_byte(bs[0]) + percent_bytes(bs.skip(1))
    }
}

/// The form encoding of one character.
pub open spec fn encoded_char(c: char) -> Seq<u8> {
    if c as u32 == 32 {
        seq![43u8]
    } else if is_form_unreserved(c as u32) {
        seq![(c as u32) as u8]
    } else {
        percent_bytes(utf8_bytes_of_scalar(c as u32))
    }
}

/// The form encoding of a character sequence.
pub open spec fn encoded_seq(s: Seq<char>) -> Seq<u8>
    decreases s.len(),
{
    if s.len() == 0 {
        Seq::empty()
    } else {
        encoded_char(s[0]) + encoded_seq(s.skip(1))
    }
}

/// The `name=value` pairs of a request, in their serialized order.
pub open spec fn spec_form_fields(r: TokenRequest) -> Seq<(Seq<char>, Seq<char>)> {
    match r {
        TokenRequest::ClientCredentials { client_id, client_secret } => seq![
            ("grant_type"@, "client_credentials"@),
            ("client_id"@, client_id@),
            ("client_secret"@, client_secret@),
        ],
        TokenRequest::Password { username, password, client_id } => {
            let base = seq![
                ("grant_type"@, "password"@),
                ("username"@, username@),
                ("password"@, password@),
            ];
            match client_id {
                Option::None => base,
                Option::Some(id) => base.push(("client_id"@, id@)),
            }
        },
        TokenRequest::RefreshToken { refresh_token, client_id } => {
            let base = seq![("grant_type"@, "refresh_token"@), ("refresh_token"@, refresh_token@)];
            match client_id {
                Option::None => base,
                Option::Some(id) => base.push(("client_id"@, id@)),
            }
        },
    }
}

/// One serialized pair: encoded name, `=`, encoded value.
pub open spec fn pair_bytes(p: (Seq<char>, Seq<char>)) -> Seq<u8> {
    encoded_seq(p.0) + seq![61u8] + encoded_seq(p.1)
}

/// Serialized pairs joined by `&`.
pub open spec fn body_bytes_of_fields(fs: Seq<(Seq<char>, Seq<char>)>) -> Seq<u8>
    decreases fs.len(),
{
    if fs.len() == 0 {
        Seq::empty()
    } else if fs.len() == 1 {
        pair_bytes(fs[0])
    } else {
        pair_bytes(fs[0]) + seq![38u8] + body_bytes_of_fields(fs.skip(1))
    }
}

/// The serialized body of a request, as bytes.
pub open spec fn spec_form_body(r: TokenRequest) -> Seq<u8> {
    body_bytes_of_fields(spec_form_fields(r))
}

/// The serialized body of a request, as the characters of the returned
/// string (the body is ASCII, so byte and character agree).
pub open spec fn spec_form_body_chars(r: TokenRequest) -> Seq<char> {
    spec_form_body(r).map_values(|b: u8| b as char)
}

pub proof fn lemma_encoded_seq_append(a: Seq<char>, b: Seq<char>)
    ensures
        encoded_seq(a + b) == encoded_seq(a) + encoded_seq(b),
    decreases a.len(),
{
    if a.len() == 0 {
        assert(a + b =~= b);
        assert(encoded_seq(a) + encoded_seq(b) =~= encoded_seq(b));
    } else {
        assert((a + b).skip(1) =~= a.skip(1) + b);
        assert((a + b)[0] == a[0]);
        lemma_encoded_seq_append(a.skip(1), b);
        assert(encoded_seq(a + b) =~= encoded_seq(a) + encoded_seq(b));
    }
}

pub proof fn lemma_encoded_seq_singleton(c: char)
    ensures
        encoded_seq(seq![c]) == encoded_char(c),
{
    assert(seq![c].skip(1) =~= Seq::<char>::empty());
    assert(seq![c][0] == c);
    assert(encoded_seq(Seq::<char>::empty()) == Seq::<u8>::empty());
    assert(encoded_seq(seq![c]) == encoded_char(c) + encoded_seq(seq![c].skip(1)));
    assert(encoded_char(c) + Seq::<u8>::empty() =~= encoded_char(c));
}

/// Every byte of a percent-escaped sequence is ASCII and is neither `&`
/// nor `=`.
pub proof fn lemma_percent_bytes_ascii(bs: Seq<u8>)
    ensures
        forall|k: int|
            0 <= k < percent_bytes(bs).len() ==> (#[trigger] percent_bytes(bs)[k]) < 0x80
                && percent_bytes(bs)[k] != 38 && percent_bytes(bs)[k] != 61,
    decreases bs.len(),
{
    if bs.len() == 0 {
    } else {
        lemma_percent_bytes_ascii(bs.skip(1));
        assert(percent_bytes(bs) =~= percent_byte(bs[0]) + percent_bytes(bs.skip(1)));
    }
}

/// Every byte the form encoding produces for field content is ASCII and is
/// neither the pair separator `&` nor the name separator `=`.
pub proof fn lemma_encoded_seq_ascii(s: Seq<char>)
    ensures
        forall|k: int|
            0 <= k < encoded_seq(s).len() ==> (#[trigger] encoded_seq(s)[k]) < 0x80 && encoded_seq(
                s,
            )[k] != 38 && encoded_seq(s)[k] != 61,
    decreases s.len(),
{
    if s.len() == 0 {
    } else {
        lemma_encoded_seq_ascii(s.skip(1));
        lemma_percent_bytes_ascii(utf8_bytes_of_scalar(s[0] as u32));
        assert(encoded_seq(s) =~= encoded_char(s[0]) + encoded_seq(s.skip(1)));
    }
}

/// Bytes in the ASCII range are valid UTF-8 and decode to the characters
/// of exactly those code points.
pub proof fn lemma_ascii_decodes_to_itself(bytes: Seq<u8>)
    requires
        forall|i: int| 0 <= i < bytes.len() ==> bytes[i] < 0x80,
    ensures
        vstd::utf8::valid_utf8(bytes),
        vstd::utf8::decode_utf8(bytes) == bytes.map_values(|b: u8| b as char),
    decreases bytes.len(),
{
    if bytes.len() == 0 {
        assert(vstd::utf8::decode_utf8(bytes) =~= bytes.map_values(|b: u8| b as char));
    } else {
        let b = bytes[0];
        assert(b & 0x7f == b) by (bit_vector)
            requires
                b < 0x80,
        ;
        assert(vstd::utf8::valid_first_scalar(bytes));
        assert(vstd::utf8::decode_first_scalar(bytes) == b as u32);
        assert(vstd::utf8::pop_first_scalar(bytes) =~= bytes.skip(1));
        assert(forall|i: int| 0 <= i < bytes.skip(1).len() ==> #[trigger] bytes.skip(1)[i] < 0x80);
        lemma_ascii_decodes_to_itself(bytes.skip(1));
        assert(vstd::utf8::decode_utf8(bytes) == seq![(b as u32) as char] + bytes.skip(
            1,
        ).map_values(|x: u8| x as char));
        assert(vstd::utf8::decode_utf8(bytes) =~= bytes.map_values(|x: u8| x as char));
    }
}

/// Append the UTF-8 encoding of one Unicode scalar value.
pub fn push_utf8_bytes(out: &mut Vec<u8>, u: u32)
    ensures
        final(out)@ == old(out)@ + utf8_bytes_of_scalar(u),
{
    if u < 0x80 {
        out.push(u as u8);
    } else if u < 0x800 {
        out.push((0xC0 + u / 0x40) as u8);
        out.push((0x80 + u % 0x40) as u8);
    } else if u < 0x10000 {
        out.push((0xE0 + u / 0x1000) as u8);
        out.push((0x80 + (u / 0x40) % 0x40) as u8);
        out.push((0x80 + u % 0x40) as u8);
    } else {
        out.push((0xF0 + u / 0x40000) as u8);
        out.push((0x80 + (u / 0x1000) % 0x40) as u8);
        out.push((0x80 + (u / 0x40) % 0x40) as u8);
        out.push((0x80 + u % 0x40) as u8);
    }
    assert(out@ =~= old(out)@ + utf8_bytes_of_scalar(u));
}

/// Append the form encoding of one character.
fn push_encoded_char(out: &mut Vec<u8>, c: char)
    ensures
        final(out)@ == old(out)@ + encoded_char(c),
{
    let u = c as u32;
    if u == 32 {
        out.push(43);
        assert(out@ =~= old(out)@ + encoded_char(c));
    } else if (48 <= u && u <= 57) || (65 <= u && u <= 90) || (97 <= u && u <= 122) || u == 42 || u
        == 45 || u == 46 || u == 95 {
        out.push(u as u8);
        assert(out@ =~= old(out)@ + encoded_char(c));
    } else {
        let mut tmp: Vec<u8> = Vec::new();
        push_utf8_bytes(&mut tmp, u);
        assert(tmp@ =~= utf8_bytes_of_scalar(u));
        let ghost done: Seq<u8> = tmp@;
        let mut j: usize = 0;
        while j < tmp.len()
            invariant
                tmp@ == done,
                j <= tmp@.len(),
                out@ == old(out)@ + percent_bytes(tmp@.take(j as int)),
            decreases tmp@.len() - j,
        {
            let b = tmp[j];
            out.push(37);
            let hi = b / 16;
            let lo = b % 16;
            out.push(if hi < 10 { 48 + hi } else { 55 + hi });
            out.push(if lo < 10 { 48 + lo } else { 55 + lo });
            proof {
                lemma_percent_bytes_take_step(tmp@, j as int);
            }
            j += 1;
        }
        proof {
            assert(tmp@.take(tmp@.len() as int) =~= tmp@);
            assert(encoded_char(c) == percent_bytes(utf8_bytes_of_scalar(u)));
        }
    }
}

pub proof fn lemma_percent_bytes_take_step(bs: Seq<u8>, j: int)
    requires
        0 <= j < bs.len(),
    ensures
        percent_bytes(bs.take(j + 1)) == percent_bytes(bs.take(j)) + percent_byte(bs[j]),
    decreases j,
{
    if j == 0 {
        assert(bs.take(1)[0] == bs[0]);
        assert(bs.take(1).skip(1) =~= Seq::<u8>::empty());
        assert(bs.take(0) =~= Seq::<u8>::empty());
        assert(percent_bytes(bs.take(1)) =~= percent_bytes(bs.take(0)) + percent_byte(bs[0]));
    } else {
        lemma_percent_bytes_take_step(bs.skip(1), j - 1);
        assert(bs.take(j + 1).skip(1) =~= bs.skip(1).take(j));
        assert(bs.take(j).skip(1) =~= bs.skip(1).take(j - 1));
        assert(bs.take(j + 1)[0] == bs[0]);
        assert(bs.take(j)[0] == bs[0]);
        assert(bs.skip(1)[j - 1] == bs[j]);
        assert(percent_bytes(bs.take(j + 1)) =~= percent_bytes(bs.take(j)) + percent_byte(bs[j]));
    }
}

/// Append the form encoding of a whole string.
fn push_encoded(out: &mut Vec<u8>, s: &str)
    ensures
        final(out)@ == old(out)@ + encoded_seq(s@),
{
    let n = s.unicode_len();
    let mut i: usize = 0;
    while i < n
        invariant
            n == s@.len(),
            i <= n,
            out@ == old(out)@ + encoded_seq(s@.take(i as int)),
        decreases n - i,
    {
        let c = s.get_char(i);
        proof {
            assert(s@.take(i as int + 1) =~= s@.take(i as int) + seq![s@[i as int]]);
            lemma_encoded_seq_append(s@.take(i as int), seq![s@[i as int]]);
            lemma_encoded_seq_singleton(s@[i as int]);
        }
        push_encoded_char(out, c);
        i += 1;
    }
    proof {
        assert(s@.take(n as int) =~= s@);
    }
}

/// Append one serialized `name=value` pair.
fn push_pair(out: &mut Vec<u8>, k: &str, v: &str)
    ensures
        final(out)@ == old(out)@ + pair_bytes((k@, v@)),
{
    push_encoded(out, k);
    out.push(61);
    push_encoded(out, v);
    assert(out@ =~= old(out)@ + pair_bytes((k@, v@)));
}

/// Append a `&` followed by one serialized `name=value` pair.
fn push_amp_pair(out: &mut Vec<u8>, k: &str, v: &str)
    ensures
        final(out)@ == old(out)@ + seq![38u8] + pair_bytes((k@, v@)),
{
    out.push(38);
    push_pair(out, k, v);
    assert(out@ =~= old(out)@ + seq![38u8] + pair_bytes((k@, v@)));
}

/// Serialized body of a `ClientCredentials` request.
#[verifier::rlimit(60)]
fn cc_bytes(client_id: &String, client_secret: &String) -> (out: Vec<u8>)
    ensures
        out@ == body_bytes_of_fields(
            seq![
                ("grant_type"@, "client_credentials"@),
                ("client_id"@, client_id@),
                ("client_secret"@, client_secret@),
            ],
        ),
{
    let mut out: Vec<u8> = Vec::new();
    push_pair(&mut out, "grant_type", "client_credentials");
    push_amp_pair(&mut out, "client_id", client_id.as_str());
    push_amp_pair(&mut out, "client_secret", client_secret.as_str());
    proof {
        let fs = seq![
            ("grant_type"@, "client_credentials"@),
            ("client_id"@, client_id@),
            ("client_secret"@, client_secret@),
        ];
        lemma_body_three(fs);
        assert(out@ =~= body_bytes_of_fields(fs));
    }
    out
}

/// Serialized body of a `Password` request.
#[verifier::rlimit(60)]
fn pw_bytes(username: &String, password: &String, client_id: &Option<String>) -> (out: Vec<u8>)
    ensures
        client_id is None ==> out@ == body_bytes_of_fields(
            seq![("grant_type"@, "password"@), ("username"@, username@), ("password"@, password@)],
        ),
        client_id matches Some(id) ==> out@ == body_bytes_of_fields(
            seq![
                ("grant_type"@, "password"@),
                ("username"@, username@),
                ("password"@, password@),
            ].push(("client_id"@, id@)),
        ),
{
    let mut out: Vec<u8> = Vec::new();
    push_pair(&mut out, "grant_type", "password");
    push_amp_pair(&mut out, "username", username.as_str());
    push_amp_pair(&mut out, "password", password.as_str());
    let ghost base = seq![
        ("grant_type"@, "password"@),
        ("username"@, username@),
        ("password"@, password@),
    ];
    match client_id {
        None => {
            proof {
                lemma_body_three(base);
                assert(out@ =~= body_bytes_of_fields(base));
            }
        },
        Some(id) => {
            push_amp_pair(&mut out, "client_id", id.as_str());
            proof {
                lemma_body_four(base.push(("client_id"@, id@)));
                assert(out@ =~= body_bytes_of_fields(base.push(("client_id"@, id@))));
            }
        },
    }
    out
}

/// Serialized body of a `RefreshToken` request.
#[verifier::rlimit(60)]
fn rt_bytes(refresh_token: &String, client_id: &Option<String>) -> (out: Vec<u8>)
    ensures
        client_id is None ==> out@ == body_bytes_of_fields(
            seq![("grant_type"@, "refresh_token"@), ("refresh_token"@, refresh_token@)],
        ),
        client_id matches Some(id) ==> out@ == body_bytes_of_fields(
            seq![("grant_type"@, "refresh_token"@), ("refresh_token"@, refresh_token@)].push(
                ("client_id"@, id@),
            ),
        ),
{
    let mut out: Vec<u8> = Vec::new();
    push_pair(&mut out, "grant_type", "refresh_token");
    push_amp_pair(&mut out, "refresh_token", refresh_token.as_str());
    let ghost base = seq![("grant_type"@, "refresh_token"@), ("refresh_token"@, refresh_token@)];
    match client_id {
        None => {
            proof {
                lemma_body_two(base);
                assert(out@ =~= body_bytes_of_fields(base));
            }
        },
        Some(id) => {
            push_amp_pair(&mut out, "client_id", id.as_str());
            proof {
                lemma_body_three(base.push(("client_id"@, id@)));
                assert(out@ =~= body_bytes_of_fields(base.push(("client_id"@, id@))));
            }
        },
    }
    out
}

impl TokenRequest {
    /// Serialize the request to its `application/x-www-form-urlencoded`
    /// body.
    pub fn serialize(&self) -> (r: String)
        ensures
            r@ == spec_form_body_chars(*self),
    {
        let out: Vec<u8> = match self {
            TokenRequest::ClientCredentials { client_id, client_secret } => {
                let v = cc_bytes(client_id, client_secret);
                proof {
                    assert(v@ =~= spec_form_body(*self));
                }
                v
            },
            TokenRequest::Password { username, password, client_id } => {
                let v = pw_bytes(username, password, client_id);
                proof {
                    assert(v@ =~= spec_form_body(*self));
                }
                v
            },
            TokenRequest::RefreshToken { refresh_token, client_id } => {
                let v = rt_bytes(refresh_token, client_id);
                proof {
                    assert(v@ =~= spec_form_body(*self));
                }
                v
            },
        };
        proof {
            lemma_form_body_ascii(*self);
            lemma_ascii_decodes_to_itself(out@);
        }
        match crate::json::utf8_to_string(out) {
            Some(r) => r,
            None => {
                proof {
                    assert(false);
                }
                String::new()
            },
        }
    }
}

pub proof fn lemma_body_two(fs: Seq<(Seq<char>, Seq<char>)>)
    requires
        fs.len() == 2,
    ensures
        body_bytes_of_fields(fs) == pair_bytes(fs[0]) + seq![38u8] + pair_bytes(fs[1]),
{
    assert(fs.skip(1).len() == 1);
    assert(fs.skip(1)[0] == fs[1]);
    assert(body_bytes_of_fields(fs.skip(1)) == pair_bytes(fs.skip(1)[0]));
    assert(body_bytes_of_fields(fs) == pair_bytes(fs[0]) + seq![38u8] + body_bytes_of_fields(
        fs.skip(1),
    ));
}

pub proof fn lemma_body_three(fs: Seq<(Seq<char>, Seq<char>)>)
    requires
        fs.len() == 3,
    ensures
        body_bytes_of_fields(fs) == pair_bytes(fs[0]) + seq![38u8] + (pair_bytes(fs[1])
            + seq![38u8] + pair_bytes(fs[2])),
{
    lemma_body_two(fs.skip(1));
    assert(fs.skip(1)[0] == fs[1]);
    assert(fs.skip(1)[1] == fs[2]);
}

pub proof fn lemma_body_four(fs: Seq<(Seq<char>, Seq<char>)>)
    requires
        fs.len() == 4,
    ensures
        body_bytes_of_fields(fs) == pair_bytes(fs[0]) + seq![38u8] + (pair_bytes(fs[1])
            + seq![38u8] + (pair_bytes(fs[2]) + seq![38u8] + pair_bytes(fs[3]))),
{
    lemma_body_three(fs.skip(1));
    assert(fs.skip(1)[0] == fs[1]);
    assert(fs.skip(1)[1] == fs[2]);
    assert(fs.skip(1)[2] == fs[3]);
}

/// The whole serialized body is ASCII.
pub proof fn lemma_form_body_ascii(r: TokenRequest)
    ensures
        forall|k: int|
            0 <= k < spec_form_body(r).len() ==> (#[trigger] spec_form_body(r)[k]) < 0x80,
{
    lemma_body_fields_ascii(spec_form_fields(r));
}

pub proof fn lemma_pair_bytes_ascii(p: (Seq<char>, Seq<char>))
    ensures
        forall|k: int| 0 <= k < pair_bytes(p).len() ==> (#[trigger] pair_bytes(p)[k]) < 0x80,
{
    lemma_encoded_seq_ascii(p.0);
    lemma_encoded_seq_ascii(p.1);
}

pub proof fn lemma_body_fields_ascii(fs: Seq<(Seq<char>, Seq<char>)>)
    ensures
        forall|k: int|
            0 <= k < body_bytes_of_fields(fs).len() ==> (#[trigger] body_bytes_of_fields(fs)[k])
                < 0x80,
    decreases fs.len(),
{
    if fs.len() == 0 {
    } else if fs.len() == 1 {
        lemma_pair_bytes_ascii(fs[0]);
    } else {
        lemma_pair_bytes_ascii(fs[0]);
        lemma_body_fields_ascii(fs.skip(1));
        assert(body_bytes_of_fields(fs) == pair_bytes(fs[0]) + seq![38u8] + body_bytes_of_fields(
            fs.skip(1),
        ));
        assert forall|k: int| 0 <= k < body_bytes_of_fields(fs).len() implies (
        #[trigger] body_bytes_of_fields(fs)[k]) < 0x80 by {
            let p = pair_bytes(fs[0]);
            let rest = body_bytes_of_fields(fs.skip(1));
            if k < p.len() {
                assert(body_bytes_of_fields(fs)[k] == p[k]);
            } else if k == p.len() {
                assert(body_bytes_of_fields(fs)[k] == 38);
            } else {
                assert(body_bytes_of_fields(fs)[k] == rest[k - p.len() - 1]);
            }
        }
    }
}

// ------------------------------------------------------------------
// A standard form decoder, in specification form, and the round-trip
// law: decoding a serialized request yields exactly the documented
// field set, every value unescaped back to its UTF-8 bytes.
// ------------------------------------------------------------------
/// No byte of `x` is `b`.
pub open spec fn no_byte(x: Seq<u8>, b: u8) -> bool {
    forall|k: int| 0 <= k < x.len() ==> x[k] != b
}

/// Length of the prefix of `s` before the first `b` (all of `s` if none).
pub open spec fn find_sep(s: Seq<u8>, b: u8) -> nat
    decreases s.len(),
{
    if s.len() == 0 {
        0
    } else if s[0] == b {
        0
    } else {
        1 + find_sep(s.skip(1), b)
    }
}

/// The `&`-separated components of a form body.
pub open spec fn split_amp(s: Seq<u8>) -> Seq<Seq<u8>>
    decreases s.len(),
{
    let n = find_sep(s, 38);
    if n >= s.len() {
        seq![s]
    } else {
        seq![s.take(n as int)] + split_amp(s.skip(n as int + 1))
    }
}

/// A component split at its first `=`: name and raw value.
pub open spec fn split_eq(c: Seq<u8>) -> (Seq<u8>, Seq<u8>) {
    let n = find_sep(c, 61);
    if n >= c.len() {
        (c, Seq::empty())
    } else {
        (c.take(n as int), c.skip(n as int + 1))
    }
}

pub open spec fn opt_cons(b: u8, r: Option<Seq<u8>>) -> Option<Seq<u8>> {
    match r {
        Option::None => None,
        Option::Some(t) => Some(seq![b] + t),
    }
}

/// Percent-decoding: `+` back to space, `%XX` back to its byte, all else
/// through unchanged; `None` on a dangling or malformed escape.
pub open spec fn percent_decode(s: Seq<u8>) -> Option<Seq<u8>>
    decreases s.len(),
{
    if s.len() == 0 {
        Some(Seq::empty())
    } else if s[0] == 43 {
        opt_cons(32, percent_decode(s.skip(1)))
    } else if s[0] == 37 {
        if s.len() >= 3 && crate::json::is_hex(s[1]) && crate::json::is_hex(s[2]) {
            opt_cons(
                ((crate::json::hex_val(s[1]) * 16 + crate::json::hex_val(s[2])) as u8),
                percent_decode(s.skip(3)),
            )
        } else {
            None
        }
    } else {
        opt_cons(s[0], percent_decode(s.skip(1)))
    }
}

/// One decoded `name=value` pair.
pub open spec fn decode_pair(c: Seq<u8>) -> Option<(Seq<u8>, Seq<u8>)> {
    match (percent_decode(split_eq(c).0), percent_decode(split_eq(c).1)) {
        (Option::Some(dk), Option::Some(dv)) => Some((dk, dv)),
        _ => None,
    }
}

pub open spec fn decode_pairs(cs: Seq<Seq<u8>>) -> Option<Seq<(Seq<u8>, Seq<u8>)>>
    decreases cs.len(),
{
    if cs.len() == 0 {
        Some(Seq::empty())
    } else {
        match (decode_pair(cs[0]), decode_pairs(cs.skip(1))) {
            (Option::Some(p), Option::Some(r)) => Some(seq![p] + r),
            _ => None,
        }
    }
}

/// A standard form decoder: split on `&`, split each component at its
/// first `=`, percent-decode both halves.
pub open spec fn form_decode(s: Seq<u8>) -> Option<Seq<(Seq<u8>, Seq<u8>)>> {
    decode_pairs(split_amp(s))
}

pub proof fn lemma_find_sep_absent(x: Seq<u8>, b: u8)
    requires
        no_byte(x, b),
    ensures
        find_sep(x, b) == x.len(),
    decreases x.len(),
{
    if x.len() > 0 {
        assert(x[0] != b);
        assert(no_byte(x.skip(1), b)) by {
            assert forall|k: int| 0 <= k < x.skip(1).len() implies x.skip(1)[k] != b by {
                assert(x.skip(1)[k] == x[k + 1]);
            }
        }
        lemma_find_sep_absent(x.skip(1), b);
    }
}

pub proof fn lemma_find_sep_concat(x: Seq<u8>, y: Seq<u8>, b: u8)
    requires
        no_byte(x, b),
    ensures
        find_sep(x + seq![b] + y, b) == x.len(),
    decreases x.len(),
{
    let s = x + seq![b] + y;
    if x.len() == 0 {
        assert(s[0] == b);
    } else {
        assert(s[0] == x[0]);
        assert(x[0] != b);
        assert(no_byte(x.skip(1), b)) by {
            assert forall|k: int| 0 <= k < x.skip(1).len() implies x.skip(1)[k] != b by {
                assert(x.skip(1)[k] == x[k + 1]);
            }
        }
        lemma_find_sep_concat(x.skip(1), y, b);
        assert(s.skip(1) =~= x.skip(1) + seq![b] + y);
    }
}

/// Encoded field content never holds a literal separator.
pub proof fn lemma_encoded_no_sep(s: Seq<char>)
    ensures
        no_byte(encoded_seq(s), 38),
        no_byte(encoded_seq(s), 61),
{
    lemma_encoded_seq_ascii(s);
}

/// A serialized pair never holds a literal `&`.
pub proof fn lemma_pair_no_amp(p: (Seq<char>, Seq<char>))
    ensures
        no_byte(pair_bytes(p), 38),
{
    lemma_encoded_no_sep(p.0);
    lemma_encoded_no_sep(p.1);
    assert forall|k: int| 0 <= k < pair_bytes(p).len() implies pair_bytes(p)[k] != 38 by {
        let a = encoded_seq(p.0);
        let v = encoded_seq(p.1);
        if k < a.len() {
            assert(pair_bytes(p)[k] == a[k]);
        } else if k == a.len() {
            assert(pair_bytes(p)[k] == 61);
        } else {
            assert(pair_bytes(p)[k] == v[k - a.len() - 1]);
        }
    }
}

/// Splitting the joined body on `&` gives back the serialized pairs.
pub proof fn lemma_split_amp_fields(fs: Seq<(Seq<char>, Seq<char>)>)
    requires
        fs.len() >= 1,
    ensures
        split_amp(body_bytes_of_fields(fs)) == fs.map_values(
            |p: (Seq<char>, Seq<char>)| pair_bytes(p),
        ),
    decreases fs.len(),
{
    let body = body_bytes_of_fields(fs);
    let m = fs.map_values(|p: (Seq<char>, Seq<char>)| pair_bytes(p));
    if fs.len() == 1 {
        lemma_pair_no_amp(fs[0]);
        lemma_find_sep_absent(body, 38);
        assert(split_amp(body) =~= seq![body]);
        assert(m =~= seq![pair_bytes(fs[0])]);
    } else {
        let p0 = pair_bytes(fs[0]);
        let rest = body_bytes_of_fields(fs.skip(1));
        assert(body == p0 + seq![38u8] + rest);
        lemma_pair_no_amp(fs[0]);
        lemma_find_sep_concat(p0, rest, 38);
        let n = find_sep(body, 38);
        assert(n == p0.len());
        assert(n < body.len());
        assert(body.take(n as int) =~= p0);
        assert(body.skip(n as int + 1) =~= rest);
        lemma_split_amp_fields(fs.skip(1));
        assert(split_amp(body) == seq![p0] + fs.skip(1).map_values(
            |p: (Seq<char>, Seq<char>)| pair_bytes(p),
        ));
        assert(split_amp(body) =~= m);
    }
}

/// Hex encoding of a nibble decodes to the same nibble.
pub proof fn lemma_hex_digit_round(n: u8)
    requires
        n < 16,
    ensures
        crate::json::is_hex(hex_digit(n)),
        crate::json::hex_val(hex_digit(n)) == n as u32,
{
}

/// Percent escapes decode back to their bytes, whatever follows.
pub proof fn lemma_decode_percent_prefix(bs: Seq<u8>, t: Seq<u8>)
    ensures
        percent_decode(percent_bytes(bs) + t) == match percent_decode(t) {
            Option::Some(d) => Some(bs + d),
            Option::None => Option::<Seq<u8>>::None,
        },
    decreases bs.len(),
{
    if bs.len() == 0 {
        assert(percent_bytes(bs) + t =~= t);
        if percent_decode(t) is Some {
            assert(bs + percent_decode(t).unwrap() =~= percent_decode(t).unwrap());
        }
    } else {
        let b = bs[0];
        let s = percent_bytes(bs) + t;
        lemma_hex_digit_round(b / 16);
        lemma_hex_digit_round(b % 16);
        assert(percent_bytes(bs) == percent_byte(b) + percent_bytes(bs.skip(1)));
        assert(s[0] == 37);
        assert(s[1] == hex_digit(b / 16));
        assert(s[2] == hex_digit(b % 16));
        assert(s.len() >= 3);
        assert((crate::json::hex_val(s[1]) * 16 + crate::json::hex_val(s[2])) as u8 == b);
        assert(s.skip(3) =~= percent_bytes(bs.skip(1)) + t);
        lemma_decode_percent_prefix(bs.skip(1), t);
        match percent_decode(t) {
            Option::Some(d) => {
                assert(percent_decode(s) == opt_cons(b, Some(bs.skip(1) + d)));
                assert(seq![b] + (bs.skip(1) + d) =~= bs + d);
            },
            Option::None => {},
        }
    }
}

/// One encoded character decodes back to its UTF-8 bytes, whatever
/// follows.
pub proof fn lemma_decode_char_prefix(c: char, t: Seq<u8>)
    ensures
        percent_decode(encoded_char(c) + t) == match percent_decode(t) {
            Option::Some(d) => Some(utf8_bytes_of_scalar(c as u32) + d),
            Option::None => Option::<Seq<u8>>::None,
        },
{
    let u = c as u32;
    let s = encoded_char(c) + t;
    if u == 32 {
        assert(s[0] == 43);
        assert(s.skip(1) =~= t);
        match percent_decode(t) {
            Option::Some(d) => {
                assert(seq![32u8] + d =~= utf8_bytes_of_scalar(u) + d);
            },
            Option::None => {},
        }
    } else if is_form_unreserved(u) {
        assert(s[0] == u as u8);
        assert(s[0] != 43 && s[0] != 37);
        assert(s.skip(1) =~= t);
        match percent_decode(t) {
            Option::Some(d) => {
                assert(seq![u as u8] + d =~= utf8_bytes_of_scalar(u) + d);
            },
            Option::None => {},
        }
    } else {
        assert(encoded_char(c) == percent_bytes(utf8_bytes_of_scalar(u)));
        lemma_decode_percent_prefix(utf8_bytes_of_scalar(u), t);
    }
}

/// Encoded field content decodes back to the field's UTF-8 bytes.
pub proof fn lemma_percent_decode_encoded(s: Seq<char>)
    ensures
        percent_decode(encoded_seq(s)) == Some(utf8_seq(s)),
    decreases s.len(),
{
    if s.len() == 0 {
        assert(percent_decode(encoded_seq(s)) == Some(Seq::<u8>::empty()));
    } else {
        lemma_percent_decode_encoded(s.skip(1));
        lemma_decode_char_prefix(s[0], encoded_seq(s.skip(1)));
        assert(encoded_seq(s) == encoded_char(s[0]) + encoded_seq(s.skip(1)));
        assert(utf8_bytes_of_scalar(s[0] as u32) + utf8_seq(s.skip(1)) =~= utf8_seq(s));
    }
}

/// One serialized pair decodes to its name and its value's UTF-8 bytes.
pub proof fn lemma_decode_pair(p: (Seq<char>, Seq<char>))
    ensures
        decode_pair(pair_bytes(p)) == Some((utf8_seq(p.0), utf8_seq(p.1))),
{
    let ek = encoded_seq(p.0);
    let ev = encoded_seq(p.1);
    let c = pair_bytes(p);
    lemma_encoded_no_sep(p.0);
    lemma_find_sep_concat(ek, ev, 61);
    assert(c == ek + seq![61u8] + ev);
    let n = find_sep(c, 61);
    assert(n == ek.len());
    assert(n < c.len());
    assert(c.take(n as int) =~= ek);
    assert(c.skip(n as int + 1) =~= ev);
    lemma_percent_decode_encoded(p.0);
    lemma_percent_decode_encoded(p.1);
}

/// The round-trip law: a standard form decoder applied to the serialized
/// body of any request gives back exactly its documented fields, in
/// order, with each name and each value unescaped to its UTF-8 bytes.
pub proof fn lemma_form_round_trip(r: TokenRequest)
    ensures
        form_decode(spec_form_body(r)) == Some(
            spec_form_fields(r).map_values(
                |p: (Seq<char>, Seq<char>)| (utf8_seq(p.0), utf8_seq(p.1)),
            ),
        ),
{
    let fs = spec_form_fields(r);
    assert(fs.len() >= 2);
    lemma_split_amp_fields(fs);
    lemma_decode_pairs_mapped(fs);
}

pub proof fn lemma_decode_pairs_mapped(fs: Seq<(Seq<char>, Seq<char>)>)
    ensures
        decode_pairs(fs.map_values(|p: (Seq<char>, Seq<char>)| pair_bytes(p))) == Some(
            fs.map_values(|p: (Seq<char>, Seq<char>)| (utf8_seq(p.0), utf8_seq(p.1))),
        ),
    decreases fs.len(),
{
    let cs = fs.map_values(|p: (Seq<char>, Seq<char>)| pair_bytes(p));
    let ds = fs.map_values(|p: (Seq<char>, Seq<char>)| (utf8_seq(p.0), utf8_seq(p.1)));
    if fs.len() == 0 {
        assert(cs =~= Seq::<Seq<u8>>::empty());
        assert(ds =~= Seq::<(Seq<u8>, Seq<u8>)>::empty());
    } else {
        lemma_decode_pair(fs[0]);
        lemma_decode_pairs_mapped(fs.skip(1));
        assert(cs[0] == pair_bytes(fs[0]));
        assert(cs.skip(1) =~= fs.skip(1).map_values(|p: (Seq<char>, Seq<char>)| pair_bytes(p)));
        assert(decode_pairs(cs) == Some(
            seq![(utf8_seq(fs[0].0), utf8_seq(fs[0].1))] + fs.skip(1).map_values(
                |p: (Seq<char>, Seq<char>)| (utf8_seq(p.0), utf8_seq(p.1)),
            ),
        ));
        assert(seq![(utf8_seq(fs[0].0), utf8_seq(fs[0].1))] + fs.skip(1).map_values(
            |p: (Seq<char>, Seq<char>)| (utf8_seq(p.0), utf8_seq(p.1)),
        ) =~= ds);
    }
}

} // verus!
