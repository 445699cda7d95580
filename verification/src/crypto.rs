//! MD5 tokens and the decryption of JMComic API payloads
//! (Base64, then AES-256 in ECB mode with a key derived from the request
//! time, then PKCS#7 unpadding and UTF-8 decoding).
use vstd::prelude::*;
use vstd::utf8::{decode_utf8, encode_scalar, encode_utf8, valid_utf8};

use aes::cipher::generic_array::GenericArray;
use aes::cipher::{BlockDecrypt, KeyInit};
use aes::Aes256;
use base64::engine::general_purpose;
use base64::Engine;

use crate::text::{append_chars, chars_to_string, decimal, str_chars, u64_decimal};

verus! {

// ---------------------------------------------------------------------------
// Outside computations
// ---------------------------------------------------------------------------

/// The MD5 digest of `data`, as computed by the `md5` crate.
pub uninterp spec fn spec_md5(data: Seq<u8>) -> Seq<u8>;

/// `md5::compute`: the 16 bytes of the MD5 digest of `data`. The contract
/// claims that the result is a function of `data` (named [`spec_md5`]) and
/// that it has 16 bytes (the crate's `Digest` is a `[u8; 16]`).
#[verifier::external_body]
fn md5_digest(data: &[u8]) -> (res: Vec<u8>)
    ensures
        res@ == spec_md5(data@),
        res@.len() == 16,
{
    md5::compute(data).0.to_vec()
}

/// What the standard Base64 engine of the `base64` crate decodes from
/// `input` (`None` where it reports an error).
pub uninterp spec fn spec_base64_decode(input: Seq<u8>) -> Option<Seq<u8>>;

/// `base64::engine::general_purpose::STANDARD.decode`: the contract claims
/// that success and the decoded bytes are a function of the input (named
/// [`spec_base64_decode`]); the error text is the crate's message.
#[verifier::external_body]
fn base64_decode(input: &[u8]) -> (res: Result<Vec<u8>, String>)
    ensures
        match res {
            Ok(v) => spec_base64_decode(input@) == Some(v@),
            Err(_) => spec_base64_decode(input@) is None,
        },
{
    general_purpose::STANDARD.decode(input).map_err(|e| e.to_string())
}

/// AES-256 decryption of one 16-byte block under a 32-byte key.
pub uninterp spec fn spec_aes256_decrypt_block(key: Seq<u8>, block: Seq<u8>) -> Seq<u8>;

/// `aes::Aes256::new(key).decrypt_block(block)`: the contract claims that the
/// result is a function of key and block (named
/// [`spec_aes256_decrypt_block`]) and is again 16 bytes long. The key and
/// block lengths are required because `GenericArray::from_slice` and
/// `clone_from_slice` panic on any other length.
#[verifier::external_body]
fn aes256_decrypt_block(key: &[u8], block: &[u8]) -> (res: Vec<u8>)
    requires
        key@.len() == 32,
        block@.len() == 16,
    ensures
        res@ == spec_aes256_decrypt_block(key@, block@),
        res@.len() == 16,
{
    let cipher = Aes256::new(GenericArray::from_slice(key));
    let mut buf = GenericArray::clone_from_slice(block);
    cipher.decrypt_block(&mut buf);
    buf.to_vec()
}

/// std's `String::from_utf8`: succeeds exactly on valid UTF-8, and the string
/// holds the decoded characters.
#[verifier::external_body]
fn string_from_utf8(bytes: Vec<u8>) -> (res: Option<String>)
    ensures
        res is Some <==> valid_utf8(bytes@),
        res matches Some(s) ==> s@ == decode_utf8(bytes@),
{
    String::from_utf8(bytes).ok()
}

// ---------------------------------------------------------------------------
// Hex digests
// ---------------------------------------------------------------------------

/// The lower-case hexadecimal digit for `n < 16`.
pub open spec fn hex_digit(n: nat) -> char {
    if n < 10 {
        ((48 + n) as u32) as char
    } else {
        ((97 + n - 10) as u32) as char
    }
}

/// Lower-case hexadecimal rendering of bytes, two digits per byte.
pub open spec fn lower_hex(bytes: Seq<u8>) -> Seq<char> {
    Seq::new(
        2 * bytes.len(),
        |i: int|
            if i % 2 == 0 {
                hex_digit((bytes[i / 2] / 16) as nat)
            } else {
                hex_digit((bytes[i / 2] % 16) as nat)
            },
    )
}

/// The hexadecimal MD5 digest of the UTF-8 bytes of `s`.
pub open spec fn spec_md5_hex(s: Seq<char>) -> Seq<char> {
    lower_hex(spec_md5(encode_utf8(s)))
}

/// The lower-case hexadecimal digit for `n < 16`.
fn hex_digit_char(n: u8) -> (c: char)
    requires
        n < 16,
    ensures
        c == hex_digit(n as nat),
        (c as u32) < 128,
{
    if n < 10 {
        (48u8 + n) as char
    } else {
        (87u8 + n) as char
    }
}

/// Lower-case hexadecimal rendering of bytes.
pub fn to_lower_hex(bytes: &[u8]) -> (res: Vec<char>)
    ensures
        res@ == lower_hex(bytes@),
{
    let mut res: Vec<char> = Vec::new();
    let mut i: usize = 0;
    while i < bytes.len()
        invariant
            i <= bytes@.len(),
            res@.len() == 2 * i,
            forall|k: int| 0 <= k < 2 * i ==> #[trigger] res@[k] == lower_hex(bytes@)[k],
        decreases bytes.len() - i,
    {
        let b = bytes[i];
        res.push(hex_digit_char(b / 16));
        res.push(hex_digit_char(b % 16));
        i += 1;
        proof {
            assert forall|k: int| 0 <= k < 2 * i implies #[trigger] res@[k] == lower_hex(
                bytes@,
            )[k] by {
                if k == 2 * i - 2 {
                    assert(k / 2 == i - 1);
                    assert(k % 2 == 0);
                } else if k == 2 * i - 1 {
                    assert(k / 2 == i - 1);
                    assert(k % 2 == 1);
                }
            }
        }
    }
    assert(res@ =~= lower_hex(bytes@));
    res
}

/// The UTF-8 bytes of a character slice.
pub fn utf8_bytes(s: &[char]) -> (res: Vec<u8>)
    ensures
        res@ == encode_utf8(s@),
{
    let owned = chars_to_string(s);
    let b = owned.as_str().as_bytes();
    let mut res: Vec<u8> = Vec::new();
    let mut i: usize = 0;
    while i < b.len()
        invariant
            i <= b@.len(),
            res@ == b@.subrange(0, i as int),
        decreases b.len() - i,
    {
        res.push(b[i]);
        i += 1;
        proof {
            assert(res@ =~= b@.subrange(0, i as int));
        }
    }
    proof {
        assert(b@.subrange(0, b@.len() as int) =~= b@);
    }
    res
}

/// The hexadecimal MD5 digest (32 lower-case hex digits) of the UTF-8 bytes
/// of `s`.
pub fn md5_hex(s: &[char]) -> (res: Vec<char>)
    ensures
        res@ == spec_md5_hex(s@),
        res@.len() == 32,
        forall|i: int| 0 <= i < res@.len() ==> (#[trigger] res@[i] as u32) < 128,
{
    let bytes = utf8_bytes(s);
    let digest = md5_digest(&bytes);
    let hex = to_lower_hex(&digest);
    proof {
        assert forall|i: int| 0 <= i < hex@.len() implies (#[trigger] hex@[i] as u32) < 128 by {
            let n: nat = if i % 2 == 0 {
                (digest@[i / 2] / 16) as nat
            } else {
                (digest@[i / 2] % 16) as nat
            };
            assert(hex@[i] == hex_digit(n));
        }
    }
    hex
}

/// The hexadecimal MD5 digest of the UTF-8 bytes of a string.
pub fn md5_hex_str(s: &str) -> (res: String)
    ensures
        res@ == spec_md5_hex(s@),
{
    chars_to_string(&md5_hex(&str_chars(s)))
}

/// Lemma: text made of ASCII characters has one byte per character.
pub proof fn lemma_ascii_byte_len(s: Seq<char>)
    requires
        forall|i: int| 0 <= i < s.len() ==> (#[trigger] s[i] as u32) < 128,
    ensures
        encode_utf8(s).len() == s.len(),
    decreases s.len(),
{
    if s.len() > 0 {
        assert((s[0] as u32) < 128);
        assert(encode_scalar(s[0] as u32).len() == 1);
        assert forall|i: int| 0 <= i < s.drop_first().len() implies (
        #[trigger] s.drop_first()[i] as u32) < 128 by {
            assert(s.drop_first()[i] == s[i + 1]);
        }
        lemma_ascii_byte_len(s.drop_first());
    }
}

// ---------------------------------------------------------------------------
// Decryption of API payloads
// ---------------------------------------------------------------------------

/// The secret that, appended to the request time, derives the payload key.
pub open spec fn data_secret() -> Seq<char> {
    "185Hcomic3PAPP7R"@
}

/// The AES key for a response to a request made at time `ts`: the ASCII bytes
/// of the hex MD5 digest of the decimal time followed by the data secret.
pub open spec fn spec_data_key(ts: u64) -> Seq<u8> {
    encode_utf8(spec_md5_hex(decimal(ts as nat) + data_secret()))
}

/// The AES key for a response to a request made at time `ts`.
pub fn data_key(ts: u64) -> (key: Vec<u8>)
    ensures
        key@ == spec_data_key(ts),
        key@ == encode_utf8(spec_md5_hex(decimal(ts as nat) + "185Hcomic3PAPP7R"@)),
        key@.len() == 32,
{
    let mut text = u64_decimal(ts);
    append_chars(&mut text, &str_chars("185Hcomic3PAPP7R"));
    let hex = md5_hex(&text);
    proof {
        lemma_ascii_byte_len(hex@);
    }
    utf8_bytes(&hex)
}

/// Block-wise AES-256 (ECB) decryption of `data`, 16 bytes at a time.
pub open spec fn decrypt_blocks(key: Seq<u8>, data: Seq<u8>) -> Seq<u8>
    decreases data.len(),
{
    if data.len() < 16 {
        Seq::empty()
    } else {
        spec_aes256_decrypt_block(key, data.subrange(0, 16)) + decrypt_blocks(
            key,
            data.subrange(16, data.len() as int),
        )
    }
}

/// `data` without its PKCS#7 padding: the last byte `p` must be between 1 and
/// 16, at most the length, and the last `p` bytes must all equal `p`.
pub open spec fn spec_pkcs7_unpad(data: Seq<u8>) -> Option<Seq<u8>> {
    if data.len() == 0 {
        None
    } else {
        let p = data.last() as int;
        if p == 0 || p > 16 || p > data.len() || !(forall|i: int|
            data.len() - p <= i < data.len() ==> #[trigger] data[i] as int == p) {
            None
        } else {
            Some(data.subrange(0, data.len() - p))
        }
    }
}

/// Removes PKCS#7 padding; `None` when the padding is invalid.
pub fn pkcs7_unpad(data: &[u8]) -> (res: Option<Vec<u8>>)
    ensures
        match res {
            Some(v) => spec_pkcs7_unpad(data@) == Some(v@),
            None => spec_pkcs7_unpad(data@) is None,
        },
{
    let n = data.len();
    if n == 0 {
        return None;
    }
    let p = data[n - 1] as usize;
    if p == 0 || p > 16 || p > n {
        return None;
    }
    let mut i = n - p;
    while i < n
        invariant
            n == data@.len(),
            p == data@.last() as int,
            1 <= p <= n,
            n - p <= i <= n,
            forall|k: int| n - p <= k < i ==> #[trigger] data@[k] as int == p,
        decreases n - i,
    {
        if data[i] as usize != p {
            return None;
        }
        i += 1;
    }
    let mut out: Vec<u8> = Vec::new();
    let mut j: usize = 0;
    while j < n - p
        invariant
            n == data@.len(),
            1 <= p <= n,
            j <= n - p,
            out@ == data@.subrange(0, j as int),
        decreases n - p - j,
    {
        out.push(data[j]);
        j += 1;
        proof {
            assert(out@ =~= data@.subrange(0, j as int));
        }
    }
    Some(out)
}

/// Where decrypting a payload failed.
#[derive(Debug, Clone, Copy, PartialEq, Eq, Structural)]
pub enum DecryptStage {
    /// The payload is not valid Base64.
    Base64,
    /// The ciphertext is empty or not a whole number of AES blocks.
    BlockLength,
    /// The plaintext's PKCS#7 padding is invalid.
    Padding,
    /// The unpadded plaintext is not UTF-8.
    Utf8,
}

/// A failed decryption: the stage, and the Base64 crate's message where
/// that stage failed.
#[derive(Debug)]
pub struct DecryptError {
    pub stage: DecryptStage,
    pub detail: String,
}

/// The plaintext of already Base64-decoded ciphertext under `key`, or the
/// stage that fails.
pub open spec fn spec_decrypt_ciphertext(key: Seq<u8>, encrypted: Seq<u8>) -> Result<
    Seq<char>,
    DecryptStage,
> {
    if encrypted.len() == 0 || encrypted.len() % 16 != 0 {
        Err(DecryptStage::BlockLength)
    } else {
        match spec_pkcs7_unpad(decrypt_blocks(key, encrypted)) {
            None => Err(DecryptStage::Padding),
            Some(plain) => if valid_utf8(plain) {
                Ok(decode_utf8(plain))
            } else {
                Err(DecryptStage::Utf8)
            },
        }
    }
}

/// The plaintext of a response payload sent for a request made at time `ts`.
pub open spec fn spec_decrypt_data(ts: u64, data: Seq<char>) -> Result<Seq<char>, DecryptStage> {
    match spec_base64_decode(encode_utf8(data)) {
        None => Err(DecryptStage::Base64),
        Some(encrypted) => spec_decrypt_ciphertext(spec_data_key(ts), encrypted),
    }
}

/// Decrypts each 16-byte block of `data` (whose length is a multiple of 16).
fn decrypt_all_blocks(key: &[u8], data: &[u8]) -> (res: Vec<u8>)
    requires
        key@.len() == 32,
        data@.len() % 16 == 0,
    ensures
        res@ == decrypt_blocks(key@, data@),
        res@.len() == data@.len(),
{
    let mut out: Vec<u8> = Vec::new();
    let mut pos: usize = 0;
    proof {
        assert(data@.subrange(0, data@.len() as int) =~= data@);
        assert(out@ + data@ =~= data@);
    }
    while pos < data.len()
        invariant
            key@.len() == 32,
            data@.len() % 16 == 0,
            pos % 16 == 0,
            pos <= data@.len(),
            out@.len() == pos,
            out@ + decrypt_blocks(key@, data@.subrange(pos as int, data@.len() as int))
                == decrypt_blocks(key@, data@),
        decreases data.len() - pos,
    {
        assert(pos + 16 <= data@.len()) by (nonlinear_arith)
            requires
                pos % 16 == 0,
                data@.len() % 16 == 0,
                pos < data@.len(),
        {
        }
        let mut block: Vec<u8> = Vec::new();
        let mut k: usize = 0;
        while k < 16
            invariant
                pos + 16 <= data@.len(),
                data@.len() == data.len(),
                k <= 16,
                block@ == data@.subrange(pos as int, pos + k),
            decreases 16 - k,
        {
            block.push(data[pos + k]);
            k += 1;
            proof {
                assert(block@ =~= data@.subrange(pos as int, pos + k));
            }
        }
        let plain = aes256_decrypt_block(key, &block);
        let ghost rest = data@.subrange(pos as int, data@.len() as int);
        proof {
            assert(rest.subrange(0, 16) =~= block@);
            assert(rest.subrange(16, rest.len() as int) =~= data@.subrange(
                pos + 16,
                data@.len() as int,
            ));
        }
        let ghost before = out@;
        let mut t: usize = 0;
        while t < 16
            invariant
                plain@.len() == 16,
                t <= 16,
                out@ == before + plain@.subrange(0, t as int),
            decreases 16 - t,
        {
            out.push(plain[t]);
            t += 1;
            proof {
                assert(out@ =~= before + plain@.subrange(0, t as int));
            }
        }
        proof {
            assert(plain@.subrange(0, 16) =~= plain@);
            assert(before + plain@ + decrypt_blocks(key@, data@.subrange(pos + 16, data@.len() as int))
                =~= before + (plain@ + decrypt_blocks(key@, data@.subrange(pos + 16, data@.len() as int))));
        }
        pos += 16;
    }
    proof {
        assert(decrypt_blocks(key@, data@.subrange(pos as int, data@.len() as int)) =~= Seq::<
            u8,
        >::empty());
        assert(out@ + Seq::<u8>::empty() =~= out@);
    }
    out
}

/// Decrypts Base64-decoded ciphertext under `key`: AES-256 block by block,
/// then PKCS#7 unpadding, then UTF-8 decoding.
pub fn decrypt_ciphertext(key: &[u8], encrypted: &[u8]) -> (res: Result<String, DecryptStage>)
    requires
        key@.len() == 32,
    ensures
        match res {
            Ok(s) => spec_decrypt_ciphertext(key@, encrypted@) == Ok::<Seq<char>, DecryptStage>(
                s@,
            ),
            Err(e) => spec_decrypt_ciphertext(key@, encrypted@) == Err::<Seq<char>, DecryptStage>(
                e,
            ),
        },
        res matches Ok(s) ==> 1 <= encrypted@.len() - encode_utf8(s@).len() <= 16,
{
    if encrypted.len() == 0 || encrypted.len() % 16 != 0 {
        return Err(DecryptStage::BlockLength);
    }
    let with_padding = decrypt_all_blocks(key, encrypted);
    let plain = match pkcs7_unpad(&with_padding) {
        Some(p) => p,
        None => return Err(DecryptStage::Padding),
    };
    let ghost plain_view = plain@;
    match string_from_utf8(plain) {
        Some(s) => {
            proof {
                vstd::utf8::decode_utf8_encode_utf8(plain_view);
            }
            Ok(s)
        },
        None => {
            assert(!valid_utf8(plain_view));
            Err(DecryptStage::Utf8)
        },
    }
}

/// Decrypts the `data` field of a JMComic API response to a request made at
/// time `ts`.
pub fn decrypt_data(ts: u64, data: &str) -> (res: Result<String, DecryptError>)
    ensures
        match res {
            Ok(s) => spec_decrypt_data(ts, data@) == Ok::<Seq<char>, DecryptStage>(s@),
            Err(e) => spec_decrypt_data(ts, data@) == Err::<Seq<char>, DecryptStage>(e.stage),
        },
        res matches Ok(s) ==> (spec_base64_decode(encode_utf8(data@)) matches Some(decoded) && 1
            <= decoded.len() - encode_utf8(s@).len() <= 16),
{
    let encrypted = match base64_decode(data.as_bytes()) {
        Ok(v) => v,
        Err(detail) => return Err(DecryptError { stage: DecryptStage::Base64, detail }),
    };
    let key = data_key(ts);
    match decrypt_ciphertext(&key, &encrypted) {
        Ok(s) => Ok(s),
        Err(stage) => Err(DecryptError { stage, detail: String::new() }),
    }
}

/// Law: unpadding undoes PKCS#7 padding — plaintext followed by `p` bytes of
/// value `p` (for `1 <= p <= 16`) unpads to the plaintext.
pub proof fn lemma_pkcs7_unpad_undoes_padding(plain: Seq<u8>, p: u8)
    requires
        1 <= p <= 16,
    ensures
        spec_pkcs7_unpad(plain + Seq::new(p as nat, |i: int| p)) == Some(plain),
{
    let padded = plain + Seq::new(p as nat, |i: int| p);
    assert(padded.last() == p);
    assert forall|i: int| padded.len() - p <= i < padded.len() implies #[trigger] padded[i] as int
        == p as int by {
        assert(padded[i] == Seq::new(p as nat, |j: int| p)[i - plain.len()]);
    }
    assert(padded.subrange(0, padded.len() - p) =~= plain);
}

/// Law: ciphertext whose blocks decrypt to the UTF-8 encoding of a text
/// followed by PKCS#7 padding decrypts to exactly that text.
pub proof fn lemma_padded_text_decrypts(key: Seq<u8>, encrypted: Seq<u8>, text: Seq<char>, p: u8)
    requires
        encrypted.len() > 0,
        encrypted.len() % 16 == 0,
        1 <= p <= 16,
        decrypt_blocks(key, encrypted) == encode_utf8(text) + Seq::new(p as nat, |i: int| p),
    ensures
        spec_decrypt_ciphertext(key, encrypted) == Ok::<Seq<char>, DecryptStage>(text),
{
    lemma_pkcs7_unpad_undoes_padding(encode_utf8(text), p);
    vstd::utf8::encode_utf8_valid_utf8(text);
    vstd::utf8::encode_utf8_decode_utf8(text);
}

} // verus!
