use vstd::prelude::*;

verus! {

/// The character of the standard base64 alphabet that stands for the sextet `v`.
pub open spec fn sextet_char(v: int) -> char {
    if v < 26 {
        (65 + v) as u8 as char
    } else if v < 52 {
        (97 + (v - 26)) as u8 as char
    } else if v < 62 {
        (48 + (v - 52)) as u8 as char
    } else if v == 62 {
        '+'
    } else {
        '/'
    }
}

/// Standard base64 (RFC 4648, alphabet `A-Za-z0-9+/`, `=` padding) of `b`.
pub open spec fn b64_encode(b: Seq<u8>) -> Seq<char>
    decreases b.len(),
{
    if b.len() == 0 {
        Seq::empty()
    } else if b.len() == 1 {
        seq![sextet_char((b[0] as int) / 4), sextet_char(((b[0] as int) % 4) * 16), '=', '=']
    } else if b.len() == 2 {
        seq![
            sextet_char((b[0] as int) / 4),
            sextet_char(((b[0] as int) % 4) * 16 + (b[1] as int) / 16),
            sextet_char(((b[1] as int) % 16) * 4),
            '=',
        ]
    } else {
        seq![
            sextet_char((b[0] as int) / 4),
            sextet_char(((b[0] as int) % 4) * 16 + (b[1] as int) / 16),
            sextet_char(((b[1] as int) % 16) * 4 + (b[2] as int) / 64),
            sextet_char((b[2] as int) % 64),
        ] + b64_encode(b.subrange(3, b.len() as int))
    }
}

/// Relies on base64's `Engine::encode` with the `STANDARD` engine: the padded
/// standard-alphabet encoding of the input.
#[verifier::external_body]
fn encode_standard(data: &[u8]) -> (r: String)
    ensures
        r@ == b64_encode(data@),
{
    base64::Engine::encode(&base64::engine::general_purpose::STANDARD, data)
}

/// Encodes `data` as padded standard base64.
pub fn base64_encode_optimized(data: &[u8]) -> (r: String)
    ensures
        r@ == b64_encode(data@),
{
    encode_standard(data)
}

/// The sextet that the standard base64 alphabet writes as `c`.
pub open spec fn sextet_of(c: char) -> int {
    if 'A' <= c && c <= 'Z' {
        c as int - 65
    } else if 'a' <= c && c <= 'z' {
        c as int - 71
    } else if '0' <= c && c <= '9' {
        c as int + 4
    } else if c == '+' {
        62
    } else {
        63
    }
}

/// Standard padded base64 decoding, read four characters at a time.
pub open spec fn b64_decode(s: Seq<char>) -> Seq<u8>
    decreases s.len(),
{
    if s.len() < 4 {
        Seq::empty()
    } else {
        let a = sextet_of(s[0]);
        let b = sextet_of(s[1]);
        let c = sextet_of(s[2]);
        let d = sextet_of(s[3]);
        let x0 = (a * 4 + b / 16) as u8;
        let x1 = ((b % 16) * 16 + c / 4) as u8;
        let x2 = ((c % 4) * 64 + d) as u8;
        if s[2] == '=' {
            seq![x0]
        } else if s[3] == '=' {
            seq![x0, x1]
        } else {
            seq![x0, x1, x2] + b64_decode(s.subrange(4, s.len() as int))
        }
    }
}

proof fn lemma_sextet(v: int)
    requires
        0 <= v < 64,
    ensures
        sextet_of(sextet_char(v)) == v,
        sextet_char(v) != '=',
{
}

proof fn lemma_bytes_to_sextets(b0: int, b1: int, b2: int)
    requires
        0 <= b0 < 256,
        0 <= b1 < 256,
        0 <= b2 < 256,
    ensures
        0 <= b0 / 4 < 64,
        0 <= (b0 % 4) * 16 + b1 / 16 < 64,
        0 <= (b1 % 16) * 4 + b2 / 64 < 64,
        0 <= b2 % 64 < 64,
        (b0 / 4) * 4 + ((b0 % 4) * 16 + b1 / 16) / 16 == b0,
        (((b0 % 4) * 16 + b1 / 16) % 16) * 16 + ((b1 % 16) * 4 + b2 / 64) / 4 == b1,
        (((b1 % 16) * 4 + b2 / 64) % 4) * 64 + b2 % 64 == b2,
        ((b0 % 4) * 16) / 16 == b0 % 4,
        ((b1 % 16) * 4) / 4 == b1 % 16,
        0 <= (b0 % 4) * 16 < 64,
        0 <= (b1 % 16) * 4 < 64,
{
    broadcast use vstd::arithmetic::div_mod::lemma_fundamental_div_mod;
    vstd::arithmetic::div_mod::lemma_fundamental_div_mod(b0, 4);
    vstd::arithmetic::div_mod::lemma_fundamental_div_mod(b1, 16);
    vstd::arithmetic::div_mod::lemma_fundamental_div_mod(b2, 64);
    let s1 = (b0 % 4) * 16 + b1 / 16;
    let s2 = (b1 % 16) * 4 + b2 / 64;
    vstd::arithmetic::div_mod::lemma_fundamental_div_mod_converse_div(s1, 16, b0 % 4, b1 / 16);
    vstd::arithmetic::div_mod::lemma_fundamental_div_mod_converse_mod(s1, 16, b0 % 4, b1 / 16);
    vstd::arithmetic::div_mod::lemma_fundamental_div_mod_converse_div(s2, 4, b1 % 16, b2 / 64);
    vstd::arithmetic::div_mod::lemma_fundamental_div_mod_converse_mod(s2, 4, b1 % 16, b2 / 64);
    vstd::arithmetic::div_mod::lemma_fundamental_div_mod_converse_div((b0 % 4) * 16, 16, b0 % 4, 0);
    vstd::arithmetic::div_mod::lemma_fundamental_div_mod_converse_div((b1 % 16) * 4, 4, b1 % 16, 0);
}

/// Decoding the standard base64 of any byte sequence gives the sequence back;
/// the encoding has four characters for every three bytes, rounded up.
pub proof fn lemma_round_trip(b: Seq<u8>)
    ensures
        b64_decode(b64_encode(b)) == b,
        b64_encode(b).len() == 4 * ((b.len() + 2) / 3),
    decreases b.len(),
{
    if b.len() > 0 {
        let b0 = b[0] as int;
        let b1 = if b.len() > 1 { b[1] as int } else { 0 };
        let b2 = if b.len() > 2 { b[2] as int } else { 0 };
        lemma_bytes_to_sextets(b0, b1, b2);
        lemma_sextet(b0 / 4);
        lemma_sextet((b0 % 4) * 16 + b1 / 16);
        lemma_sextet((b1 % 16) * 4 + b2 / 64);
        lemma_sextet(b2 % 64);
        lemma_sextet((b0 % 4) * 16);
        lemma_sextet((b1 % 16) * 4);
        if b.len() >= 3 {
            let rest = b.subrange(3, b.len() as int);
            lemma_round_trip(rest);
            let e = b64_encode(b);
            assert(e.subrange(4, e.len() as int) =~= b64_encode(rest));
            assert(b64_decode(e) =~= b);
        } else if b.len() == 2 {
            assert(b64_decode(b64_encode(b)) =~= b);
        } else {
            assert(b64_decode(b64_encode(b)) =~= b);
        }
    } else {
        assert(b64_decode(b64_encode(b)) =~= b);
    }
}

} // verus!
