//! Durable symbol identity: the SHA-256 of `language NUL path NUL qualname`,
//! written as lower-case hexadecimal.

use vstd::prelude::*;
use vstd::utf8::encode_utf8;
use sha2::Digest;

use crate::protocol::{SymbolId, SymbolIdView};

verus! {

/// The SHA-256 digest of a byte string.
pub uninterp spec fn sha256_of(data: Seq<u8>) -> Seq<u8>;

/// Calls `sha2::Sha256::digest` (one `update` of `data`, then `finalize`).
/// Trusted: the digest bytes equal `sha256_of(data)` (a function of the input
/// alone), and the output is the 32 bytes of `Output<Sha256>`.
#[verifier::external_body]
fn sha256_digest(data: &[u8]) -> (out: Vec<u8>)
    ensures
        out@ == sha256_of(data@),
        out@.len() == 32,
{
    sha2::Sha256::digest(data).to_vec()
}

/// Lower-case hexadecimal digit for a nibble value `0..16`.
pub open spec fn hex_digit(n: int) -> char {
    if n < 10 {
        (48 + n) as char
    } else {
        (87 + n) as char
    }
}

/// Lower-case hexadecimal text of a byte string: two digits per byte, high nibble first.
pub open spec fn hex_lower(data: Seq<u8>) -> Seq<char>
    decreases data.len(),
{
    if data.len() == 0 {
        Seq::empty()
    } else {
        seq![hex_digit(data[0] as int / 16), hex_digit(data[0] as int % 16)] + hex_lower(data.drop_first())
    }
}

/// A lower-case hexadecimal digit: `0`-`9` or `a`-`f`.
pub open spec fn is_lower_hex(c: char) -> bool {
    (48 <= c as int && c as int <= 57) || (97 <= c as int && c as int <= 102)
}

/// The hexadecimal text of `n` bytes has `2 * n` characters, each a lower-case
/// hexadecimal digit.
pub proof fn lemma_hex_lower_form(data: Seq<u8>)
    ensures
        hex_lower(data).len() == 2 * data.len(),
        forall|i: int| 0 <= i < hex_lower(data).len() ==> is_lower_hex(#[trigger] hex_lower(data)[i]),
    decreases data.len(),
{
    if data.len() > 0 {
        lemma_hex_lower_form(data.drop_first());
        let hi = data[0] as int / 16;
        let lo = data[0] as int % 16;
        assert(is_lower_hex(hex_digit(hi)));
        assert(is_lower_hex(hex_digit(lo)));
        let out = hex_lower(data);
        let rest = hex_lower(data.drop_first());
        assert forall|i: int| 0 <= i < out.len() implies is_lower_hex(#[trigger] out[i]) by {
            if i >= 2 {
                assert(out[i] == rest[i - 2]);
            }
        }
    }
}

/// Calls `hex::encode`. Trusted: the text is `hex_lower(data)`; the crate maps each
/// byte to `HEX_CHARS_LOWER[byte >> 4]` then `HEX_CHARS_LOWER[byte & 0x0f]`,
/// with the table `"0123456789abcdef"`.
#[verifier::external_body]
fn hex_encode(data: &[u8]) -> (s: String)
    ensures
        s@ == hex_lower(data@),
{
    hex::encode(data)
}

/// The bytes that identify a symbol: UTF-8 of the language, a NUL byte,
/// UTF-8 of the path, a NUL byte, UTF-8 of the qualified name.
pub open spec fn symbol_key_bytes(v: SymbolIdView) -> Seq<u8> {
    encode_utf8(v.language) + seq![0u8] + encode_utf8(v.path) + seq![0u8] + encode_utf8(
        v.qualname,
    )
}

/// The durable id of a symbol.
pub open spec fn symbol_key(v: SymbolIdView) -> Seq<char> {
    hex_lower(sha256_of(symbol_key_bytes(v)))
}

fn push_all(out: &mut Vec<u8>, bytes: &[u8])
    ensures
        final(out)@ == old(out)@ + bytes@,
{
    let n = bytes.len();
    let mut i: usize = 0;
    while i < n
        invariant
            n == bytes@.len(),
            i <= n,
            out@ == old(out)@ + bytes@.take(i as int),
        decreases n - i,
    {
        out.push(bytes[i]);
        i = i + 1;
        assert(bytes@.take(i as int) == bytes@.take(i - 1).push(bytes@[i - 1]));
    }
    assert(bytes@.take(n as int) == bytes@);
}

/// Computes the durable id of `symbol`.
pub fn symbol_id_text(symbol: &SymbolId) -> (id: String)
    ensures
        id@ == symbol_key(symbol@),
        id@.len() == 64,
        forall|i: int| 0 <= i < 64 ==> is_lower_hex(#[trigger] id@[i]),
{
    let mut buf: Vec<u8> = Vec::new();
    push_all(&mut buf, symbol.language.as_str().as_bytes());
    buf.push(0u8);
    push_all(&mut buf, symbol.path.as_str().as_bytes());
    buf.push(0u8);
    push_all(&mut buf, symbol.qualname.as_str().as_bytes());
    assert(buf@ == symbol_key_bytes(symbol@));
    let digest = sha256_digest(buf.as_slice());
    proof {
        lemma_hex_lower_form(digest@);
    }
    hex_encode(digest.as_slice())
}

} // verus!
