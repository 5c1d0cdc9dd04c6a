//! The payload envelope of the NTES mobile API: `"<MD5_HEX>#<HEX>"`, where
//! the first part is the uppercase hex MD5 of the payload followed by a
//! shared key, and the second the uppercase hex of the base64 text of the
//! payload encrypted with AES-128-CBC under a fixed key and IV. The hashing,
//! the cipher and base64 are the outside crates'; the framing, padding and
//! checks are this module's.
use vstd::prelude::*;
use vstd::utf8::{decode_utf8, encode_utf8, valid_utf8};
use vstd::string::StringSliceAdditionalSpecFns;
use aes::cipher::{BlockDecryptMut, BlockEncryptMut, KeyIvInit};
use base64::Engine;
use md5::Digest;
use crate::error::AppError;
use crate::text::{
    chars_of, chars_range, find_char, first_index_of, is_ws, lossy_of, push_str, string_of, trim, trim_seq,
    utf8_lossy,
};

verus! {

/// AES key of the envelope.
pub const KEY_TEXT: &'static str = "8EA4DB2CC1EB3DC5";

/// AES initialisation vector of the envelope.
pub const IV_TEXT: &'static str = "7DC5EB3BB4DB6EA8";

/// Key appended to the payload before hashing.
pub const SCKEY: &'static str = "645fbc1e56e23365f2f3c204ae0899f6";

/// Cipher block size in bytes.
pub const BLOCK: usize = 16;

/// The MD5 digest of `data`.
pub uninterp spec fn md5_of(data: Seq<u8>) -> Seq<u8>;

/// The standard-alphabet, padded base64 text of `data`.
pub uninterp spec fn base64_encode_of(data: Seq<u8>) -> Seq<char>;

/// The bytes standard base64 text decodes to, `None` where it is no valid
/// padded standard base64.
pub uninterp spec fn base64_decode_of(text: Seq<u8>) -> Option<Seq<u8>>;

/// AES-128-CBC encryption of whole blocks under `key` and `iv`.
pub uninterp spec fn cbc_encrypt_of(key: Seq<u8>, iv: Seq<u8>, data: Seq<u8>) -> Seq<u8>;

/// AES-128-CBC decryption of whole blocks under `key` and `iv`.
pub uninterp spec fn cbc_decrypt_of(key: Seq<u8>, iv: Seq<u8>, data: Seq<u8>) -> Seq<u8>;

/// A character of the standard base64 alphabet, or its `=` padding.
pub open spec fn base64_char(c: char) -> bool {
    ('A' <= c && c <= 'Z') || ('a' <= c && c <= 'z') || ('0' <= c && c <= '9') || c == '+' || c == '/' || c
        == '='
}

/// Value of an ASCII hex digit of either case.
pub open spec fn hex_value(b: u8) -> Option<u8> {
    if 48 <= b && b <= 57 {
        Some((b - 48) as u8)
    } else if 65 <= b && b <= 70 {
        Some((b - 55) as u8)
    } else if 97 <= b && b <= 102 {
        Some((b - 87) as u8)
    } else {
        None
    }
}

/// Upper-case hex digit for `d` (0 to 15).
pub open spec fn hex_digit_upper(d: int) -> char {
    if d < 10 { ((d + 48) as u8) as char } else { ((d + 55) as u8) as char }
}

/// `hex::encode_upper`: two upper-case hex digits per byte, high nibble
/// first.
pub open spec fn hex_upper_of(data: Seq<u8>) -> Seq<char>
    decreases data.len(),
{
    if data.len() == 0 {
        Seq::empty()
    } else {
        hex_upper_of(data.drop_last()) + seq![hex_digit_upper(data.last() as int / 16), hex_digit_upper(data.last() as int % 16)]
    }
}

/// `hex::decode`: pairs of hex digits of either case, high nibble first;
/// `None` for an odd length or any other byte.
pub open spec fn hex_decode_of(text: Seq<u8>) -> Option<Seq<u8>>
    decreases text.len(),
{
    if text.len() % 2 != 0 {
        None
    } else if text.len() == 0 {
        Some(Seq::empty())
    } else {
        let n = text.len() as int;
        match (hex_decode_of(text.subrange(0, n - 2)), hex_value(text[n - 2]), hex_value(text[n - 1])) {
            (Some(prefix), Some(h), Some(l)) => Some(prefix.push((h * 16 + l) as u8)),
            _ => None,
        }
    }
}

/// PKCS#7 unpadding of a decrypted message: its last byte `n` must be 1 to
/// 16 and its last `n` bytes all `n`; they are dropped.
pub open spec fn pkcs7_unpad(d: Seq<u8>) -> Option<Seq<u8>> {
    if d.len() == 0 {
        None
    } else {
        let n = d.last() as int;
        if n == 0 || n > 16 || n > d.len() {
            None
        } else if exists|i: int| d.len() - n <= i < d.len() && #[trigger] d[i] != n {
            None
        } else {
            Some(d.take(d.len() - n))
        }
    }
}

/// `Md5::new()`, `update(data)`, `finalize()`: the 16-byte digest.
#[verifier::external_body]
fn md5_digest(data: &[u8]) -> (r: Vec<u8>)
    ensures
        r@ == md5_of(data@),
        r@.len() == 16,
{
    let mut h = md5::Md5::new();
    h.update(data);
    h.finalize().to_vec()
}

/// `hex::encode_upper`.
#[verifier::external_body]
fn hex_encode_upper(data: &[u8]) -> (r: String)
    ensures
        r@ == hex_upper_of(data@),
{
    hex::encode_upper(data)
}

/// `hex::decode`; the error becomes `None`.
#[verifier::external_body]
fn hex_decode(text: &str) -> (r: Option<Vec<u8>>)
    ensures
        match r {
            Some(v) => hex_decode_of(encode_utf8(text@)) == Some(v@),
            None => hex_decode_of(encode_utf8(text@)) is None,
        },
{
    hex::decode(text).ok()
}

/// `STANDARD.encode(data)` of base64: the text is made of the standard
/// alphabet and `=`, and `STANDARD.decode` gives `data` back from it.
#[verifier::external_body]
fn base64_encode(data: &[u8]) -> (r: String)
    ensures
        r@ == base64_encode_of(data@),
        forall|i: int| 0 <= i < r@.len() ==> base64_char(#[trigger] r@[i]),
        base64_decode_of(encode_utf8(r@)) == Some(data@),
{
    base64::engine::general_purpose::STANDARD.encode(data)
}

/// `STANDARD.decode(text)` of base64; the error becomes `None`.
#[verifier::external_body]
fn base64_decode(text: &str) -> (r: Option<Vec<u8>>)
    ensures
        match r {
            Some(v) => base64_decode_of(encode_utf8(text@)) == Some(v@),
            None => base64_decode_of(encode_utf8(text@)) is None,
        },
{
    base64::engine::general_purpose::STANDARD.decode(text).ok()
}

/// `cbc::Encryptor<Aes128>` over whole blocks with `NoPadding`: the
/// ciphertext has the message's length, and CBC decryption under the same
/// key and IV gives the message back.
#[verifier::external_body]
fn cbc_encrypt(key: &[u8], iv: &[u8], data: &[u8]) -> (r: Vec<u8>)
    requires
        key@.len() == 16,
        iv@.len() == 16,
        data@.len() % 16 == 0,
    ensures
        r@ == cbc_encrypt_of(key@, iv@, data@),
        r@.len() == data@.len(),
        cbc_decrypt_of(key@, iv@, r@) == data@,
{
    let mut buf = data.to_vec();
    let n = buf.len();
    match cbc::Encryptor::<aes::Aes128>::new_from_slices(key, iv) {
        Ok(c) => c.encrypt_padded_mut::<aes::cipher::block_padding::NoPadding>(&mut buf, n).map(|x| x.to_vec()).unwrap_or_default(),
        Err(_) => Vec::new(),
    }
}

/// `cbc::Decryptor<Aes128>::decrypt_padded_mut::<Pkcs7>`: nothing for an
/// empty ciphertext or one of partial blocks, else the decryption with its
/// PKCS#7 padding checked and removed.
#[verifier::external_body]
fn cbc_decrypt_pkcs7(key: &[u8], iv: &[u8], data: &[u8]) -> (r: Option<Vec<u8>>)
    requires
        key@.len() == 16,
        iv@.len() == 16,
    ensures
        match r {
            Some(v) => data@.len() > 0 && data@.len() % 16 == 0 && pkcs7_unpad(cbc_decrypt_of(key@, iv@, data@)) == Some(
                v@,
            ),
            None => data@.len() == 0 || data@.len() % 16 != 0 || pkcs7_unpad(cbc_decrypt_of(key@, iv@, data@)) is None,
        },
{
    let mut buf = data.to_vec();
    match cbc::Decryptor::<aes::Aes128>::new_from_slices(key, iv) {
        Ok(c) => c.decrypt_padded_mut::<aes::cipher::block_padding::Pkcs7>(&mut buf).ok().map(|x| x.to_vec()),
        Err(_) => None,
    }
}

/// `String::from_utf8`: the text where the bytes are valid UTF-8.
#[verifier::external_body]
fn utf8_string(b: Vec<u8>) -> (r: Option<String>)
    ensures
        r is Some <==> valid_utf8(b@),
        r matches Some(s) ==> s@ == decode_utf8(b@),
{
    String::from_utf8(b).ok()
}

/// The bytes of `s` followed by the bytes of `t`.
fn concat_bytes(s: &str, t: &str) -> (r: Vec<u8>)
    ensures
        r@ == encode_utf8(s@) + encode_utf8(t@),
{
    let a = s.as_bytes();
    let b = t.as_bytes();
    let mut out: Vec<u8> = Vec::new();
    let mut i: usize = 0;
    while i < a.len()
        invariant
            0 <= i <= a@.len(),
            out@ == a@.take(i as int),
        decreases a@.len() - i,
    {
        out.push(a[i]);
        i = i + 1;
        proof {
            assert(a@.take(i as int) =~= a@.take(i - 1).push(a@[i - 1]));
        }
    }
    let mut j: usize = 0;
    while j < b.len()
        invariant
            0 <= j <= b@.len(),
            out@ == a@ + b@.take(j as int),
        decreases b@.len() - j,
    {
        out.push(b[j]);
        j = j + 1;
        proof {
            assert(b@.take(j as int) =~= b@.take(j - 1).push(b@[j - 1]));
        }
    }
    proof {
        assert(a@.take(a@.len() as int) =~= a@);
        assert(b@.take(b@.len() as int) =~= b@);
    }
    out
}

/// `MD5(payload + SCKEY)` as upper-case hex.
pub open spec fn hash_of(payload: Seq<char>) -> Seq<char> {
    hex_upper_of(md5_of(encode_utf8(payload) + encode_utf8(SCKEY@)))
}

/// The padding the NTES server expects: PKCS#7-style bytes up to a block
/// boundary (a whole block of 16 where the data is already aligned), then a
/// further block of 16s.
pub open spec fn padded(data: Seq<u8>) -> Seq<u8> {
    let p = 16 - data.len() % 16;
    data + Seq::new(p as nat, |i: int| p as u8) + Seq::new(16, |i: int| 16u8)
}

/// The encrypted part of the envelope.
pub open spec fn encrypted_of(payload: Seq<char>) -> Seq<char> {
    hex_upper_of(encode_utf8(base64_encode_of(cbc_encrypt_of(encode_utf8(KEY_TEXT@), encode_utf8(IV_TEXT@), padded(encode_utf8(payload))))))
}

/// The whole envelope of a payload.
pub open spec fn envelope_of(payload: Seq<char>) -> Seq<char> {
    hash_of(payload) + seq!['#'] + encrypted_of(payload)
}

/// The text after the first `#`, or all of it where there is none.
pub open spec fn after_hash(s: Seq<char>) -> Seq<char> {
    match first_index_of(s, '#') {
        Some(i) => s.subrange(i + 1, s.len() as int),
        None => s,
    }
}

/// The text of decrypted bytes: their UTF-8 text where valid, else the
/// lossy reading with replacement characters.
pub open spec fn text_of(b: Seq<u8>) -> Seq<char> {
    if valid_utf8(b) { decode_utf8(b) } else { lossy_of(b) }
}

/// What decrypting a bare ciphertext `s` gives: the payload, or the reason
/// it was rejected. After the AES unpadding, the manual padding (its length
/// is the last byte) is dropped as well.
pub open spec fn decrypt_bare_of(s: Seq<char>) -> Result<Seq<char>, Seq<char>> {
    if encode_utf8(s).len() % 2 != 0 {
        Err("NTES: odd-length hex ciphertext"@)
    } else {
        match hex_decode_of(encode_utf8(s)) {
            None => Err("NTES: invalid hex ciphertext"@),
            Some(b) => if !valid_utf8(b) {
                Err("NTES: ciphertext is not valid utf8"@)
            } else {
                match base64_decode_of(encode_utf8(trim_seq(decode_utf8(b)))) {
                    None => Err("NTES: invalid base64 ciphertext"@),
                    Some(ct) => if ct.len() == 0 || ct.len() % 16 != 0 {
                        Err("NTES: ciphertext length not a multiple of 16"@)
                    } else {
                        match pkcs7_unpad(cbc_decrypt_of(encode_utf8(KEY_TEXT@), encode_utf8(IV_TEXT@), ct)) {
                            None => Err("NTES: AES decrypt failed (bad padding)"@),
                            Some(dec) => {
                                let p: int = if dec.len() > 0 { dec.last() as int } else { 0 };
                                let len: int = if dec.len() >= p { dec.len() - p } else { 0 };
                                Ok(text_of(dec.take(len)))
                            },
                        }
                    },
                }
            },
        }
    }
}

/// What decrypting a response value (`"<HASH>#<ENC>"` or bare `"<ENC>"`)
/// gives.
pub open spec fn decrypt_of(enc: Seq<char>) -> Result<Seq<char>, Seq<char>> {
    decrypt_bare_of(after_hash(enc))
}

/// Hex digits are ASCII, two per byte.
proof fn lemma_hex_upper_ascii(x: Seq<u8>)
    ensures
        hex_upper_of(x).len() == 2 * x.len(),
        vstd::utf8::is_ascii_chars(hex_upper_of(x)),
        forall|i: int| 0 <= i < hex_upper_of(x).len() ==> #[trigger] hex_upper_of(x)[i] != '#',
    decreases x.len(),
{
    if x.len() > 0 {
        lemma_hex_upper_ascii(x.drop_last());
        let h = hex_upper_of(x);
        let h0 = hex_upper_of(x.drop_last());
        assert forall|i: int| 0 <= i < h.len() implies '\0' <= #[trigger] h[i] <= '\u{7f}' && h[i] != '#' by {
            if i < h0.len() {
                assert(h[i] == h0[i]);
            }
        }
    }
}

/// Upper-case hex text read back as bytes.
pub open spec fn hex_bytes(x: Seq<u8>) -> Seq<u8> {
    hex_upper_of(x).map_values(|c: char| c as u8)
}

/// A hex digit reads back as its value.
proof fn lemma_hex_digit_value(d: int)
    requires
        0 <= d < 16,
    ensures
        hex_value(hex_digit_upper(d) as u8) == Some(d as u8),
{
}

/// Hex decoding undoes hex encoding.
proof fn lemma_hex_roundtrip(x: Seq<u8>)
    ensures
        hex_decode_of(hex_bytes(x)) == Some(x),
    decreases x.len(),
{
    lemma_hex_upper_ascii(x);
    if x.len() > 0 {
        let y = x.drop_last();
        lemma_hex_roundtrip(y);
        lemma_hex_upper_ascii(y);
        let b = hex_bytes(x);
        let n = b.len() as int;
        assert(b.subrange(0, n - 2) =~= hex_bytes(y));
        let last = x.last();
        lemma_hex_digit_value(last as int / 16);
        lemma_hex_digit_value(last as int % 16);
        assert(b[n - 2] == hex_digit_upper(last as int / 16) as u8);
        assert(b[n - 1] == hex_digit_upper(last as int % 16) as u8);
        assert(((last as int / 16) * 16 + last as int % 16) as u8 == last);
        assert(y.push(last) =~= x);
    } else {
        assert(hex_bytes(x) =~= Seq::<u8>::empty());
    }
}

/// The bytes of upper-case hex text are its characters.
proof fn lemma_hex_encode_utf8(x: Seq<u8>)
    ensures
        encode_utf8(hex_upper_of(x)) == hex_bytes(x),
        encode_utf8(hex_upper_of(x)).len() == 2 * x.len(),
{
    lemma_hex_upper_ascii(x);
    vstd::utf8::is_ascii_chars_encode_utf8(hex_upper_of(x));
    assert(encode_utf8(hex_upper_of(x)) =~= hex_bytes(x));
}

/// Text without whitespace at either end is its own trim.
proof fn lemma_trim_noop(s: Seq<char>)
    requires
        forall|i: int| 0 <= i < s.len() ==> base64_char(#[trigger] s[i]),
    ensures
        trim_seq(s) == s,
{
    if s.len() > 0 {
        assert(base64_char(s[0]));
        assert(base64_char(s[s.len() - 1]));
    }
}

/// The padded payload ends in a block of 16s, so PKCS#7 unpadding takes
/// exactly that block off.
proof fn lemma_unpad_padded(data: Seq<u8>)
    ensures
        pkcs7_unpad(padded(data)) == Some(padded(data).take(padded(data).len() - 16)),
        padded(data).take(padded(data).len() - 16) == data + Seq::new(
            (16 - data.len() % 16) as nat,
            |i: int| (16 - data.len() % 16) as u8,
        ),
{
    let d = padded(data);
    let p = 16 - data.len() % 16;
    assert(d.len() == data.len() + p + 16);
    assert(d.last() == 16u8);
    assert forall|i: int| d.len() - 16 <= i < d.len() implies #[trigger] d[i] == 16 by {}
    assert(d.take(d.len() - 16) =~= data + Seq::new(p as nat, |i: int| p as u8));
}

/// Append `n` copies of `b`.
fn push_repeat(out: &mut Vec<u8>, b: u8, n: usize)
    ensures
        final(out)@ == old(out)@ + Seq::new(n as nat, |i: int| b),
{
    let ghost start = out@;
    let mut k: usize = 0;
    while k < n
        invariant
            0 <= k <= n,
            out@ =~= start + Seq::new(k as nat, |i: int| b),
        decreases n - k,
    {
        out.push(b);
        k = k + 1;
    }
}

/// Marker type of the envelope operations.
pub struct NtesCrypto;

impl NtesCrypto {
    /// `MD5(payload + SCKEY)` as upper-case hex.
    pub fn hash(payload: &str) -> (r: String)
        ensures
            r@ == hash_of(payload@),
    {
        let data = concat_bytes(payload, SCKEY);
        let digest = md5_digest(data.as_slice());
        hex_encode_upper(digest.as_slice())
    }

    /// The payload padded the way the server expects.
    pub fn pad(data: &[u8]) -> (r: Vec<u8>)
        ensures
            r@ == padded(data@),
    {
        let p = BLOCK - data.len() % BLOCK;
        let mut out: Vec<u8> = Vec::new();
        let mut i: usize = 0;
        while i < data.len()
            invariant
                0 <= i <= data@.len(),
                out@ == data@.take(i as int),
            decreases data@.len() - i,
        {
            out.push(data[i]);
            i = i + 1;
            proof {
                assert(data@.take(i as int) =~= data@.take(i - 1).push(data@[i - 1]));
            }
        }
        proof {
            assert(data@.take(data@.len() as int) =~= data@);
        }
        push_repeat(&mut out, p as u8, p);
        push_repeat(&mut out, 16, BLOCK);
        proof {
            assert(out@ =~= padded(data@));
        }
        out
    }

    /// AES-128-CBC encrypt the padded payload, then take the upper-case hex
    /// of its base64 text.
    pub fn encrypt(payload: &str) -> (r: String)
        ensures
            r@ == encrypted_of(payload@),
            decrypt_bare_of(r@) == Ok::<Seq<char>, Seq<char>>(payload@),
    {
        let data = payload.as_bytes();
        let buf = Self::pad(data);
        proof {
            assert(buf@.len() % 16 == 0) by (nonlinear_arith)
                requires
                    buf@.len() == data@.len() + (16 - data@.len() % 16) + 16;
        }
        let key = KEY_TEXT.as_bytes();
        let iv = IV_TEXT.as_bytes();
        proof {
            reveal_strlit("8EA4DB2CC1EB3DC5");
            reveal_strlit("7DC5EB3BB4DB6EA8");
            vstd::utf8::is_ascii_chars_encode_utf8(KEY_TEXT@);
            vstd::utf8::is_ascii_chars_encode_utf8(IV_TEXT@);
        }
        let ct = cbc_encrypt(key, iv, buf.as_slice());
        let b64 = base64_encode(ct.as_slice());
        let r = hex_encode_upper(b64.as_str().as_bytes());
        proof {
            let x = encode_utf8(b64@);
            lemma_hex_encode_utf8(x);
            lemma_hex_roundtrip(x);
            assert(encode_utf8(r@).len() % 2 == 0) by (nonlinear_arith)
                requires
                    encode_utf8(r@).len() == 2 * x.len();
            vstd::utf8::encode_utf8_valid_utf8(b64@);
            vstd::utf8::encode_utf8_decode_utf8(b64@);
            lemma_trim_noop(b64@);
            lemma_unpad_padded(data@);
            let p = 16 - data@.len() % 16;
            let dec = data@ + Seq::new(p as nat, |i: int| p as u8);
            assert(dec.last() == p as u8);
            assert(dec.take(data@.len() as int) =~= data@);
            vstd::utf8::encode_utf8_valid_utf8(payload@);
            vstd::utf8::encode_utf8_decode_utf8(payload@);
        }
        r
    }

    /// The `"<HASH>#<ENC>"` request value for a plain payload.
    pub fn build(payload: &str) -> (r: String)
        ensures
            r@ == envelope_of(payload@),
            decrypt_of(r@) == Ok::<Seq<char>, Seq<char>>(payload@),
    {
        let h = Self::hash(payload);
        let e = Self::encrypt(payload);
        let mut out: Vec<char> = Vec::new();
        push_str(&mut out, h.as_str());
        out.push('#');
        push_str(&mut out, e.as_str());
        proof {
            let hv = md5_of(encode_utf8(payload@) + encode_utf8(SCKEY@));
            lemma_hex_upper_ascii(hv);
            let full = h@ + seq!['#'] + e@;
            assert(out@ =~= full);
            crate::text::lemma_first_index_of(full, '#');
            assert(full[h@.len() as int] == '#');
            assert forall|j: int| 0 <= j < h@.len() implies full[j] != '#' by {
                assert(full[j] == h@[j]);
            }
            assert(first_index_of(full, '#') == Some(h@.len() as int));
            assert(full.subrange(h@.len() as int + 1, full.len() as int) =~= e@);
        }
        string_of(out.as_slice())
    }
}

/// The bytes `lo..hi` of `v`.
fn bytes_range(v: &[u8], lo: usize, hi: usize) -> (r: Vec<u8>)
    requires
        lo <= hi <= v@.len(),
    ensures
        r@ == v@.subrange(lo as int, hi as int),
{
    let mut out: Vec<u8> = Vec::new();
    let mut i: usize = lo;
    while i < hi
        invariant
            lo <= i <= hi,
            hi <= v@.len(),
            out@ =~= v@.subrange(lo as int, i as int),
        decreases hi - i,
    {
        out.push(v[i]);
        i = i + 1;
    }
    out
}

/// The text of decrypted bytes.
fn text_from(b: &[u8]) -> (r: String)
    ensures
        r@ == text_of(b@),
{
    utf8_lossy(b)
}

impl NtesCrypto {
    /// Decrypt a response value (`"<HASH>#<ENC>"` or bare `"<ENC>"`).
    pub fn decrypt(enc: &str) -> (r: Result<String, AppError>)
        ensures
            match r {
                Ok(s) => decrypt_of(enc@) == Ok::<Seq<char>, Seq<char>>(s@),
                Err(e) => e matches AppError::Internal(m) && decrypt_of(enc@) == Err::<Seq<char>, Seq<char>>(m@),
            },
    {
        let v = chars_of(enc);
        let vl = v.len();
        let sv = match find_char(v.as_slice(), '#') {
            Some(i) => {
                assert(i < vl);
                chars_range(v.as_slice(), i + 1, vl)
            },
            None => v,
        };
        let s = string_of(sv.as_slice());
        assert(s@ == after_hash(enc@));
        let sl = s.as_str().as_bytes().len();
        if sl % 2 != 0 {
            return Err(AppError::internal("NTES: odd-length hex ciphertext"));
        }
        let b64bytes = match hex_decode(s.as_str()) {
            Some(b) => b,
            None => return Err(AppError::internal("NTES: invalid hex ciphertext")),
        };
        let ghost bb = b64bytes@;
        let b64 = match utf8_string(b64bytes) {
            Some(t) => t,
            None => return Err(AppError::internal("NTES: ciphertext is not valid utf8")),
        };
        let ct = match base64_decode(trim(b64.as_str())) {
            Some(c) => c,
            None => return Err(AppError::internal("NTES: invalid base64 ciphertext")),
        };
        if ct.len() == 0 || ct.len() % BLOCK != 0 {
            return Err(AppError::internal("NTES: ciphertext length not a multiple of 16"));
        }
        let key = KEY_TEXT.as_bytes();
        let iv = IV_TEXT.as_bytes();
        proof {
            reveal_strlit("8EA4DB2CC1EB3DC5");
            reveal_strlit("7DC5EB3BB4DB6EA8");
            vstd::utf8::is_ascii_chars_encode_utf8(KEY_TEXT@);
            vstd::utf8::is_ascii_chars_encode_utf8(IV_TEXT@);
        }
        let dec = match cbc_decrypt_pkcs7(key, iv, ct.as_slice()) {
            Some(d) => d,
            None => return Err(AppError::internal("NTES: AES decrypt failed (bad padding)")),
        };
        let pad_len: usize = if dec.len() > 0 { dec[dec.len() - 1] as usize } else { 0 };
        let len: usize = if dec.len() >= pad_len { dec.len() - pad_len } else { 0 };
        let part = bytes_range(dec.as_slice(), 0, len);
        proof {
            assert(part@ =~= dec@.take(len as int));
        }
        Ok(text_from(part.as_slice()))
    }
}

impl NtesCrypto {
    /// Decrypt a response value and read the plaintext as JSON.
    pub fn decode_json(enc: &str) -> (r: Result<crate::json::Json, AppError>)
        ensures
            match decrypt_of(enc@) {
                Ok(plain) => match crate::json::json_parse_of(plain) {
                    Some(j) => r == Ok::<crate::json::Json, AppError>(j),
                    None => r matches Err(AppError::Internal(m)) && m@ == "NTES: decrypted payload is not JSON"@,
                },
                Err(m) => r matches Err(AppError::Internal(e)) && e@ == m,
            },
    {
        let plain = match Self::decrypt(enc) {
            Ok(p) => p,
            Err(e) => return Err(e),
        };
        match crate::json::read_json(plain.as_str()) {
            Some(j) => Ok(j),
            None => Err(AppError::internal("NTES: decrypted payload is not JSON")),
        }
    }
}

} // verus!
