//! SHA-256 cache keys: the digest itself comes from the `sha2` crate; the
//! hex spelling and the field encodings that feed it are this crate's own.
use sha2::{Digest, Sha256};
use vstd::prelude::*;

use crate::text::{chars_of, decimal, decimal_chars, string_of, views};

verus! {

/// The SHA-256 digest of `data`, as `sha2::Sha256` computes it.
pub uninterp spec fn sha256_of(data: Seq<u8>) -> Seq<u8>;

/// `sha2::Sha256::digest` over `data`. Trusted: the result is the SHA-256
/// digest named by `sha256_of`, and it is 32 bytes long (the output size
/// that `sha2` declares for SHA-256).
#[verifier::external_body]
fn sha256_digest(data: &[u8]) -> (r: Vec<u8>)
    ensures
        r@ == sha256_of(data@),
        r@.len() == 32,
{
    Sha256::digest(data).to_vec()
}

/// The lowercase hexadecimal digit for `n < 16`.
pub open spec fn hex_digit(n: int) -> char {
    if n < 10 {
        (n + 48) as char
    } else {
        (n - 10 + 97) as char
    }
}

/// `bytes` written as lowercase hex, two digits per byte, as the format
/// `{:02x}` writes each byte.
pub open spec fn hex(bytes: Seq<u8>) -> Seq<char>
    decreases bytes.len(),
{
    if bytes.len() == 0 {
        Seq::empty()
    } else {
        hex(bytes.drop_last()) + seq![
            hex_digit(bytes.last() as int / 16),
            hex_digit(bytes.last() as int % 16),
        ]
    }
}

fn hex_char(n: u8) -> (c: char)
    requires
        n < 16,
    ensures
        c == hex_digit(n as int),
{
    if n < 10 {
        (n + 48) as char
    } else {
        (n - 10 + 97) as char
    }
}

/// The lowercase hex spelling of `bytes`.
pub fn hex_chars(bytes: &[u8]) -> (r: Vec<char>)
    ensures
        r@ == hex(bytes@),
{
    let mut r: Vec<char> = Vec::new();
    let mut i: usize = 0;
    while i < bytes.len()
        invariant
            i <= bytes@.len(),
            r@ == hex(bytes@.take(i as int)),
        decreases bytes@.len() - i,
    {
        let b = bytes[i];
        assert(bytes@.take(i + 1).drop_last() =~= bytes@.take(i as int));
        r.push(hex_char(b / 16));
        r.push(hex_char(b % 16));
        i += 1;
    }
    assert(bytes@.take(bytes@.len() as int) =~= bytes@);
    r
}

/// The hex SHA-256 digest of the UTF-8 text `value`.
pub open spec fn sha256_hex_of(value: Seq<char>) -> Seq<char> {
    hex(sha256_of(vstd::utf8::encode_utf8(value)))
}

/// The lowercase hex SHA-256 digest of the UTF-8 bytes of `value`.
pub fn sha256_hex(value: &str) -> (r: String)
    ensures
        r@ == sha256_hex_of(value@),
        r@.len() == 64,
{
    let digest = sha256_digest(value.as_bytes());
    let h = hex_chars(digest.as_slice());
    proof {
        lemma_hex_len(digest@);
    }
    string_of(h.as_slice())
}

/// The lowercase hex SHA-256 digest of raw `bytes`.
pub fn sha256_bytes(bytes: &[u8]) -> (r: String)
    ensures
        r@ == hex(sha256_of(bytes@)),
        r@.len() == 64,
{
    let digest = sha256_digest(bytes);
    let h = hex_chars(digest.as_slice());
    proof {
        lemma_hex_len(digest@);
    }
    string_of(h.as_slice())
}

/// Two hex digits per byte.
pub proof fn lemma_hex_len(bytes: Seq<u8>)
    ensures
        hex(bytes).len() == 2 * bytes.len(),
    decreases bytes.len(),
{
    if bytes.len() > 0 {
        lemma_hex_len(bytes.drop_last());
    }
}

/// Each field written as its UTF-8 byte length, a colon, the field and a
/// newline: `{len}:{field}\n`, one after the other.
pub open spec fn length_prefixed(fields: Seq<Seq<char>>) -> Seq<char>
    decreases fields.len(),
{
    if fields.len() == 0 {
        Seq::empty()
    } else {
        let f = fields.last();
        length_prefixed(fields.drop_last()) + decimal(vstd::utf8::encode_utf8(f).len()) + seq![':']
            + f + seq!['\n']
    }
}

/// Each field followed by a newline: `{field}\n`, one after the other.
pub open spec fn newline_terminated(fields: Seq<Seq<char>>) -> Seq<char>
    decreases fields.len(),
{
    if fields.len() == 0 {
        Seq::empty()
    } else {
        newline_terminated(fields.drop_last()) + fields.last() + seq!['\n']
    }
}


/// The text that the length-prefixed digest of `fields` hashes.
pub fn length_prefixed_text(fields: &[String]) -> (r: String)
    ensures
        r@ == length_prefixed(views(fields@)),
{
    let mut out: Vec<char> = Vec::new();
    let mut i: usize = 0;
    while i < fields.len()
        invariant
            i <= fields@.len(),
            out@ == length_prefixed(views(fields@.take(i as int))),
        decreases fields@.len() - i,
    {
        let field = &fields[i];
        let n = field.as_str().as_bytes().len();
        let digits = decimal_chars(n);
        let chars = chars_of(field.as_str());
        let mut k: usize = 0;
        while k < digits.len()
            invariant
                k <= digits@.len(),
                out@ == length_prefixed(views(fields@.take(i as int))) + digits@.take(k as int),
            decreases digits@.len() - k,
        {
            out.push(digits[k]);
            assert(digits@.take(k + 1) =~= digits@.take(k as int).push(digits@[k as int]));
            k += 1;
        }
        assert(digits@.take(digits@.len() as int) =~= digits@);
        out.push(':');
        let ghost before = out@;
        let mut k: usize = 0;
        while k < chars.len()
            invariant
                k <= chars@.len(),
                out@ == before + chars@.take(k as int),
            decreases chars@.len() - k,
        {
            out.push(chars[k]);
            assert(chars@.take(k + 1) =~= chars@.take(k as int).push(chars@[k as int]));
            k += 1;
        }
        assert(chars@.take(chars@.len() as int) =~= chars@);
        out.push('\n');
        proof {
            let t = views(fields@.take(i + 1));
            assert(t.drop_last() =~= views(fields@.take(i as int)));
            assert(t.last() == fields@[i as int]@);
            assert(out@ =~= length_prefixed(t));
        }
        i += 1;
    }
    assert(fields@.take(fields@.len() as int) =~= fields@);
    string_of(out.as_slice())
}

/// The hex SHA-256 digest of `fields`, each written as `{len}:{field}\n`:
/// the encoding never lets two different lists of fields hash the same text.
pub fn sha256_length_prefixed(fields: &[String]) -> (r: String)
    ensures
        r@ == sha256_hex_of(length_prefixed(views(fields@))),
        r@.len() == 64,
{
    let text = length_prefixed_text(fields);
    sha256_hex(text.as_str())
}

/// The text that the newline-joined digest of `fields` hashes.
pub fn newline_terminated_text(fields: &[String]) -> (r: String)
    ensures
        r@ == newline_terminated(views(fields@)),
{
    let mut out: Vec<char> = Vec::new();
    let mut i: usize = 0;
    while i < fields.len()
        invariant
            i <= fields@.len(),
            out@ == newline_terminated(views(fields@.take(i as int))),
        decreases fields@.len() - i,
    {
        let chars = chars_of(fields[i].as_str());
        let ghost before = out@;
        let mut k: usize = 0;
        while k < chars.len()
            invariant
                k <= chars@.len(),
                out@ == before + chars@.take(k as int),
            decreases chars@.len() - k,
        {
            out.push(chars[k]);
            assert(chars@.take(k + 1) =~= chars@.take(k as int).push(chars@[k as int]));
            k += 1;
        }
        assert(chars@.take(chars@.len() as int) =~= chars@);
        out.push('\n');
        proof {
            let t = views(fields@.take(i + 1));
            assert(t.drop_last() =~= views(fields@.take(i as int)));
            assert(out@ =~= newline_terminated(t));
        }
        i += 1;
    }
    assert(fields@.take(fields@.len() as int) =~= fields@);
    string_of(out.as_slice())
}

} // verus!
