//! Byte encodings, digests and random bytes.

use base64::Engine;
use hmac::{Hmac, KeyInit, Mac};
use rand::RngExt;
use sha2::{Digest, Sha256};
use vstd::prelude::*;

use crate::text;

verus! {

/// The hexadecimal digit of value `d`, in lower case.
pub open spec fn hex_digit(d: nat) -> char {
    if d < 10 {
        (48 + d) as char
    } else {
        (87 + d) as char
    }
}

/// Two hexadecimal digits for each of the first `n` bytes.
pub open spec fn hex_of(bytes: Seq<u8>, n: int) -> Seq<char>
    decreases n,
{
    if n <= 0 {
        Seq::empty()
    } else {
        hex_of(bytes, n - 1).push(hex_digit((bytes[n - 1] / 16) as nat)).push(
            hex_digit((bytes[n - 1] % 16) as nat),
        )
    }
}

fn hex_char(d: u8) -> (r: char)
    requires
        d < 16,
    ensures
        r == hex_digit(d as nat),
{
    if d < 10 {
        (48 + d) as char
    } else {
        (87 + d) as char
    }
}

/// The bytes in hexadecimal, two lower case digits each.
pub fn encode(bytes: &[u8]) -> (r: String)
    ensures
        r@ == hex_of(bytes@, bytes@.len() as int),
{
    let mut out = String::new();
    let mut i: usize = 0;
    while i < bytes.len()
        invariant
            i <= bytes@.len(),
            out@ == hex_of(bytes@, i as int),
        decreases bytes@.len() - i,
    {
        let b: u8 = bytes[i];
        out.push(hex_char(b / 16));
        out.push(hex_char(b % 16));
        i += 1;
    }
    out
}

/// The lowest `width` hexadecimal digits of `n`.
pub open spec fn hex_number(n: nat, width: nat) -> Seq<char>
    decreases width,
{
    if width == 0 {
        Seq::empty()
    } else {
        hex_number(n / 16, (width - 1) as nat).push(hex_digit(n % 16))
    }
}

/// The lowest `width` hexadecimal digits of `n`.
pub fn hex_number_of(n: u64, width: u8) -> (r: String)
    ensures
        r@ == hex_number(n as nat, width as nat),
    decreases width,
{
    if width == 0 {
        String::new()
    } else {
        let mut s = hex_number_of(n / 16, width - 1);
        s.push(hex_char((n % 16) as u8));
        s
    }
}

/// The hexadecimal text of bytes has two characters for each.
pub proof fn law_hex_length(bytes: Seq<u8>, n: int)
    requires
        0 <= n,
    ensures
        hex_of(bytes, n).len() == 2 * n,
    decreases n,
{
    if n > 0 {
        law_hex_length(bytes, n - 1);
    }
}

/// A hexadecimal digit, in lower case.
pub open spec fn is_hex_digit(c: char) -> bool {
    '0' <= c <= '9' || 'a' <= c <= 'f'
}

/// A text of hexadecimal digits.
pub open spec fn is_hex(s: Seq<char>) -> bool {
    forall|i: int| 0 <= i < s.len() ==> is_hex_digit(#[trigger] s[i])
}

/// The hexadecimal text of bytes holds nothing but hexadecimal digits.
pub proof fn law_hex_is_hex(bytes: Seq<u8>, n: int)
    requires
        0 <= n <= bytes.len(),
    ensures
        is_hex(hex_of(bytes, n)),
    decreases n,
{
    if n > 0 {
        law_hex_is_hex(bytes, n - 1);
        let high = hex_digit((bytes[n - 1] / 16) as nat);
        let low = hex_digit((bytes[n - 1] % 16) as nat);
        assert(is_hex_digit(high) && is_hex_digit(low));
    }
}

/// Different bytes have different hexadecimal texts.
pub proof fn law_hex_is_injective(a: Seq<u8>, b: Seq<u8>)
    requires
        hex_of(a, a.len() as int) == hex_of(b, b.len() as int),
    ensures
        a == b,
{
    law_hex_length(a, a.len() as int);
    law_hex_length(b, b.len() as int);
    lemma_hex_prefix(a, b, a.len() as int);
    assert(a.take(a.len() as int) =~= a);
    assert(b.take(b.len() as int) =~= b);
}

proof fn lemma_hex_prefix(a: Seq<u8>, b: Seq<u8>, n: int)
    requires
        0 <= n <= a.len(),
        n <= b.len(),
        hex_of(a, n) == hex_of(b, n),
    ensures
        a.take(n) == b.take(n),
    decreases n,
{
    if n > 0 {
        law_hex_length(a, n - 1);
        law_hex_length(b, n - 1);
        let x = hex_of(a, n);
        let y = hex_of(b, n);
        let p = hex_of(a, n - 1);
        let q = hex_of(b, n - 1);
        assert(x[2 * n - 2] == hex_digit((a[n - 1] / 16) as nat));
        assert(y[2 * n - 2] == hex_digit((b[n - 1] / 16) as nat));
        assert(x[2 * n - 1] == hex_digit((a[n - 1] % 16) as nat));
        assert(y[2 * n - 1] == hex_digit((b[n - 1] % 16) as nat));
        assert(a[n - 1] == b[n - 1]);
        assert(p =~= q) by {
            assert forall|i: int| 0 <= i < 2 * n - 2 implies p[i] == q[i] by {
                assert(x[i] == p[i]);
                assert(y[i] == q[i]);
            }
        }
        lemma_hex_prefix(a, b, n - 1);
        assert(a.take(n) =~= a.take(n - 1).push(a[n - 1]));
        assert(b.take(n) =~= b.take(n - 1).push(b[n - 1]));
    } else {
        assert(a.take(0) =~= b.take(0));
    }
}

/// The byte at position `k`, zero past the end.
pub open spec fn byte_or_zero(data: Seq<u8>, k: int) -> int {
    if k < data.len() {
        data[k] as int
    } else {
        0
    }
}

/// The `i`-th group of six bits.
pub open spec fn sextet(data: Seq<u8>, i: int) -> int {
    let k = (i / 4) * 3;
    if i % 4 == 0 {
        byte_or_zero(data, k) / 4
    } else if i % 4 == 1 {
        (byte_or_zero(data, k) % 4) * 16 + byte_or_zero(data, k + 1) / 16
    } else if i % 4 == 2 {
        (byte_or_zero(data, k + 1) % 16) * 4 + byte_or_zero(data, k + 2) / 64
    } else {
        byte_or_zero(data, k + 2) % 64
    }
}

/// The base64 symbol of value `v`, with the symbols of the values 62 and 63.
pub open spec fn symbol(v: int, c62: char, c63: char) -> char {
    if v < 26 {
        (65 + v) as char
    } else if v < 52 {
        (71 + v) as char
    } else if v < 62 {
        (v - 4) as char
    } else if v == 62 {
        c62
    } else {
        c63
    }
}

/// How many symbols the bytes fill.
pub open spec fn symbol_count(data: Seq<u8>) -> nat {
    (data.len() * 4 + 2) / 3
}

/// Base64 for URLs, without padding.
pub open spec fn base64url(data: Seq<u8>) -> Seq<char> {
    Seq::new(symbol_count(data), |i: int| symbol(sextet(data, i), '-', '_'))
}

/// Base64 with padding to groups of four.
pub open spec fn base64_padded(data: Seq<u8>) -> Seq<char> {
    Seq::new(
        (data.len() + 2) / 3 * 4,
        |i: int|
            if i < symbol_count(data) {
                symbol(sextet(data, i), '+', '/')
            } else {
                '='
            },
    )
}

/// `encode` of `base64`'s `URL_SAFE_NO_PAD` engine: the URL alphabet, no
/// padding.
#[verifier::external_body]
pub(crate) fn base64url_encode(data: &[u8]) -> (r: String)
    ensures
        r@ == base64url(data@),
{
    base64::engine::general_purpose::URL_SAFE_NO_PAD.encode(data)
}

/// `decode` of `base64`'s `URL_SAFE_NO_PAD` engine: it reads exactly the texts
/// that the encoder writes, and each back to the one byte sequence that it was
/// written from.
#[verifier::external_body]
pub(crate) fn base64url_decode(s: &str) -> (r: Option<Vec<u8>>)
    ensures
        r matches Some(d) ==> base64url(d@) == s@,
        forall|d: Seq<u8>| #[trigger] base64url(d) == s@ ==> r is Some && r->0@ == d,
{
    base64::engine::general_purpose::URL_SAFE_NO_PAD.decode(s).ok()
}

/// `encode` of `base64`'s `STANDARD` engine: the standard alphabet, padded.
#[verifier::external_body]
pub(crate) fn base64_encode(data: &[u8]) -> (r: String)
    ensures
        r@ == base64_padded(data@),
{
    base64::engine::general_purpose::STANDARD.encode(data)
}

/// The SHA-256 digest of some bytes.
pub uninterp spec fn sha256(data: Seq<u8>) -> Seq<u8>;

/// `sha2`'s `Sha256` over all the bytes at once: 32 bytes, a function of the
/// input.
#[verifier::external_body]
pub(crate) fn sha256_of(data: &[u8]) -> (r: Vec<u8>)
    ensures
        r@ == sha256(data@),
        r@.len() == 32,
{
    Sha256::digest(data).to_vec()
}

/// The HMAC with SHA-256 of some bytes under a key.
pub uninterp spec fn hmac_sha256(key: Seq<u8>, data: Seq<u8>) -> Seq<u8>;

/// `hmac`'s `Hmac<Sha256>` over all the bytes at once: 32 bytes, a function of
/// key and input. Keys of every length are accepted.
#[verifier::external_body]
pub(crate) fn hmac_of(key: &[u8], data: &[u8]) -> (r: Option<Vec<u8>>)
    ensures
        r is Some,
        r->0@ == hmac_sha256(key@, data@),
        r->0@.len() == 32,
{
    let mut mac = Hmac::<Sha256>::new_from_slice(key).ok()?;
    mac.update(data);
    Some(mac.finalize().into_bytes().to_vec())
}

/// `rand`'s thread generator fills a buffer of `n` bytes. Which bytes come is
/// left to chance.
#[verifier::external_body]
pub(crate) fn random_bytes(n: usize) -> (r: Vec<u8>)
    requires
        n <= isize::MAX,
    ensures
        r@.len() == n,
{
    let mut bytes = vec![0u8; n];
    rand::rng().fill(&mut bytes[..]);
    bytes
}

/// Whether `c` is a symbol of base64.
pub open spec fn is_symbol(c: char) -> bool {
    let n = c as int;
    65 <= n <= 90 || 97 <= n <= 122 || 48 <= n <= 57 || c == '+' || c == '/'
}

/// The first `len` symbols of the base64 text of some bytes.
pub fn padding_from(bytes: &[u8], len: usize) -> (r: String)
    requires
        len <= symbol_count(bytes@),
    ensures
        r@ == base64_padded(bytes@).take(len as int),
{
    let s = base64_encode(bytes);
    let v = text::chars_of(s.as_str());
    assert(symbol_count(bytes@) <= (bytes@.len() + 2) / 3 * 4) by {
        let n = bytes@.len() as int;
        assert((n * 4 + 2) / 3 <= (n + 2) / 3 * 4);
    }
    text::text_of(&v, 0, len)
}

/// A text of `len` random base64 symbols.
pub fn random_padding(len: usize) -> (r: String)
    requires
        len * 3 <= usize::MAX,
    ensures
        r@.len() == len,
        forall|i: int| 0 <= i < len ==> is_symbol(#[trigger] r@[i]),
{
    if len == 0 {
        return String::new();
    }
    let bits: usize = len * 3;
    let byte_len: usize = if bits % 4 == 0 {
        bits / 4
    } else {
        bits / 4 + 1
    };
    let bytes = random_bytes(byte_len);
    proof {
        let n = byte_len as int;
        assert((n * 4 + 2) / 3 >= len);
        lemma_symbols(bytes@, len as int);
    }
    padding_from(bytes.as_slice(), len)
}

proof fn lemma_symbols(data: Seq<u8>, len: int)
    requires
        0 <= len <= symbol_count(data),
        symbol_count(data) <= (data.len() + 2) / 3 * 4,
    ensures
        forall|i: int| 0 <= i < len ==> is_symbol(#[trigger] base64_padded(data).take(len)[i]),
{
    assert forall|i: int| 0 <= i < len implies is_symbol(
        #[trigger] base64_padded(data).take(len)[i],
    ) by {
        assert(base64_padded(data)[i] == symbol(sextet(data, i), '+', '/'));
        assert(0 <= sextet(data, i) < 64);
    }
}

/// The value of a hexadecimal digit.
pub open spec fn hex_value(c: char) -> int {
    if c as int >= 97 {
        c as int - 87
    } else {
        c as int - 48
    }
}

/// Each byte is told by its two digits, the higher one first, whatever else is
/// written; and each digit tells its value.
pub proof fn law_hex_tells_each_byte(bytes: Seq<u8>, n: int, i: int)
    requires
        0 <= i < n <= bytes.len(),
    ensures
        hex_of(bytes, n).len() == 2 * n,
        16 * hex_value(hex_of(bytes, n)[2 * i]) + hex_value(hex_of(bytes, n)[2 * i + 1])
            == bytes[i],
    decreases n,
{
    law_hex_length(bytes, n - 1);
    if i < n - 1 {
        law_hex_tells_each_byte(bytes, n - 1, i);
        assert(hex_of(bytes, n)[2 * i] == hex_of(bytes, n - 1)[2 * i]);
        assert(hex_of(bytes, n)[2 * i + 1] == hex_of(bytes, n - 1)[2 * i + 1]);
    } else {
        assert(hex_of(bytes, n)[2 * i] == hex_digit((bytes[i] / 16) as nat));
        assert(hex_of(bytes, n)[2 * i + 1] == hex_digit((bytes[i] % 16) as nat));
    }
}

/// The number that hexadecimal digits stand for.
pub open spec fn hex_read(s: Seq<char>) -> int
    decreases s.len(),
{
    if s.len() == 0 {
        0
    } else {
        16 * hex_read(s.drop_last()) + hex_value(s.last())
    }
}

/// Sixteen to a power.
pub open spec fn sixteen_to(width: nat) -> nat
    decreases width,
{
    if width == 0 {
        1
    } else {
        16 * sixteen_to((width - 1) as nat)
    }
}

/// A number written with so many hexadecimal digits is read back, where it fits.
pub proof fn law_hex_number_reads_back(n: nat, width: nat)
    requires
        n < sixteen_to(width),
    ensures
        hex_number(n, width).len() == width,
        hex_read(hex_number(n, width)) == n,
        is_hex(hex_number(n, width)),
    decreases width,
{
    if width > 0 {
        let w = (width - 1) as nat;
        law_hex_number_reads_back(n / 16, w);
        let s = hex_number(n, width);
        assert(s.drop_last() =~= hex_number(n / 16, w));
        assert(s.last() == hex_digit(n % 16));
    }
}

/// Four groups of six bits hold three bytes, bit by bit.
pub proof fn law_groups_hold_the_bytes(data: Seq<u8>, k: int)
    requires
        0 <= k,
        3 * k + 2 < data.len(),
    ensures
        sextet(data, 4 * k) * 262144 + sextet(data, 4 * k + 1) * 4096 + sextet(data, 4 * k + 2) * 64
            + sextet(data, 4 * k + 3) == data[3 * k] * 65536 + data[3 * k + 1] * 256 + data[3 * k
            + 2],
        0 <= sextet(data, 4 * k) < 64 && 0 <= sextet(data, 4 * k + 1) < 64 && 0 <= sextet(
            data,
            4 * k + 2,
        ) < 64 && 0 <= sextet(data, 4 * k + 3) < 64,
{
    assert((4 * k) / 4 == k && (4 * k) % 4 == 0);
    assert((4 * k + 1) / 4 == k && (4 * k + 1) % 4 == 1);
    assert((4 * k + 2) / 4 == k && (4 * k + 2) % 4 == 2);
    assert((4 * k + 3) / 4 == k && (4 * k + 3) % 4 == 3);
}

/// Different values have different symbols in either alphabet, and all are symbols
/// of base64.
pub proof fn law_symbols_differ(v: int, w: int)
    requires
        0 <= v < 64,
        0 <= w < 64,
        v != w,
    ensures
        symbol(v, '+', '/') != symbol(w, '+', '/'),
        symbol(v, '-', '_') != symbol(w, '-', '_'),
        is_symbol(symbol(v, '+', '/')),
{
}

/// The text with padding is made of groups of four, and its symbols stand where
/// those of the text without padding do.
pub proof fn law_padding_fills_the_last_group(data: Seq<u8>, i: int)
    requires
        0 <= i < base64_padded(data).len(),
    ensures
        base64_padded(data).len() % 4 == 0,
        base64url(data).len() <= base64_padded(data).len() < base64url(data).len() + 3,
        base64_padded(data)[i] == '=' <==> i >= base64url(data).len(),
        i < base64url(data).len() && base64url(data)[i] != '-' && base64url(data)[i] != '_'
            ==> base64_padded(data)[i] == base64url(data)[i],
{
    let n = data.len() as int;
    assert((n * 4 + 2) / 3 <= (n + 2) / 3 * 4 < (n * 4 + 2) / 3 + 3);
    assert(0 <= sextet(data, i) < 64);
}

} // verus!
