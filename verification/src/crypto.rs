//! The three ways in which the body of a packet is protected on the wire.
//!
//! `Unencrypted` leaves the bytes as they are. `BCEncrypt` is a keyless
//! scrambling with a fixed eight-byte pad. `Aes` is AES-128 in 128-bit
//! cipher feedback mode with a fixed initialisation vector; its key is
//! derived from the password and a nonce that the camera sends.
//!
//! The feedback mode is defined and proved here. The block cipher and the
//! digest are computed by the `aes` and `md5` crates: this module names their
//! results and states nothing else of them.

use aes::cipher::BlockEncrypt;
use aes::cipher::KeyInit;
use vstd::prelude::*;

verus! {

/// The cipher that is active on a connection.
#[derive(Debug, Clone, Copy, PartialEq, Eq)]
pub enum EncryptionProtocol {
    /// Bodies are sent as they are.
    Unencrypted,
    /// Bodies are scrambled with the fixed pad.
    BCEncrypt,
    /// Bodies are encrypted with AES-128 under the key held here.
    Aes([u8; 16]),
}

/// The mathematical value of an `EncryptionProtocol`.
pub enum ProtocolView {
    Unencrypted,
    BCEncrypt,
    Aes(Seq<u8>),
}

impl View for EncryptionProtocol {
    type V = ProtocolView;

    open spec fn view(&self) -> ProtocolView {
        match *self {
            EncryptionProtocol::Unencrypted => ProtocolView::Unencrypted,
            EncryptionProtocol::BCEncrypt => ProtocolView::BCEncrypt,
            EncryptionProtocol::Aes(key) => ProtocolView::Aes(key@),
        }
    }
}

/// The pad of the keyless cipher.
pub open spec fn light_pad() -> Seq<u8> {
    seq![0x1Fu8, 0x2Du8, 0x3Cu8, 0x4Bu8, 0x5Au8, 0x69u8, 0x78u8, 0xFFu8]
}

/// The keyless cipher: byte `i` is combined with the pad byte at
/// `(offset + i) mod 8` and with the low byte of `offset`.
pub open spec fn light_transform(offset: u32, data: Seq<u8>) -> Seq<u8> {
    Seq::new(
        data.len(),
        |i: int| data[i] ^ light_pad()[(offset + i) % 8] ^ ((offset % 256) as u8),
    )
}

/// The initialisation vector of the keyed cipher: the characters
/// `0123456789abcdef`.
pub open spec fn aes_iv() -> Seq<u8> {
    seq![
        48u8, 49u8, 50u8, 51u8, 52u8, 53u8, 54u8, 55u8,
        56u8, 57u8, 97u8, 98u8, 99u8, 100u8, 101u8, 102u8,
    ]
}

/// The AES-128 encryption of one sixteen-byte block under a sixteen-byte
/// key, as the `aes` crate computes it.
pub uninterp spec fn aes128_block(key: Seq<u8>, block: Seq<u8>) -> Seq<u8>;

/// The MD5 digest of a message, as the `md5` crate computes it.
pub uninterp spec fn md5_digest(message: Seq<u8>) -> Seq<u8>;

/// Bytewise exclusive or of `data` with the start of `pad`.
pub open spec fn xor_bytes(data: Seq<u8>, pad: Seq<u8>) -> Seq<u8> {
    Seq::new(data.len(), |i: int| data[i] ^ pad[i])
}

/// The length of the next segment of `data`: a whole block, or what is left.
pub open spec fn segment_len(data: Seq<u8>) -> int {
    if data.len() < 16 {
        data.len() as int
    } else {
        16
    }
}

/// Cipher feedback encryption. Each segment of the text is combined with the
/// encryption of the previous segment of the ciphertext, the first with that
/// of `iv`.
pub open spec fn cfb_encrypt(key: Seq<u8>, iv: Seq<u8>, data: Seq<u8>) -> Seq<u8>
    decreases data.len(),
{
    if data.len() == 0 {
        Seq::empty()
    } else {
        let n = segment_len(data);
        let c = xor_bytes(data.take(n), aes128_block(key, iv));
        c + cfb_encrypt(key, c, data.skip(n))
    }
}

/// Cipher feedback decryption: the inverse of `cfb_encrypt`.
pub open spec fn cfb_decrypt(key: Seq<u8>, iv: Seq<u8>, data: Seq<u8>) -> Seq<u8>
    decreases data.len(),
{
    if data.len() == 0 {
        Seq::empty()
    } else {
        let n = segment_len(data);
        let c = data.take(n);
        xor_bytes(c, aes128_block(key, iv)) + cfb_decrypt(key, c, data.skip(n))
    }
}

/// What `protocol` makes of a plain body. `offset` is the channel of the
/// packet; only the keyless cipher uses it.
pub open spec fn encrypt_spec(protocol: ProtocolView, offset: u32, data: Seq<u8>) -> Seq<u8> {
    match protocol {
        ProtocolView::Unencrypted => data,
        ProtocolView::BCEncrypt => light_transform(offset, data),
        ProtocolView::Aes(key) => cfb_encrypt(key, aes_iv(), data),
    }
}

/// What `protocol` makes of a protected body.
pub open spec fn decrypt_spec(protocol: ProtocolView, offset: u32, data: Seq<u8>) -> Seq<u8> {
    match protocol {
        ProtocolView::Unencrypted => data,
        ProtocolView::BCEncrypt => light_transform(offset, data),
        ProtocolView::Aes(key) => cfb_decrypt(key, aes_iv(), data),
    }
}

/// Combining twice with the same pad gives the data back.
pub proof fn lemma_xor_twice(data: Seq<u8>, pad: Seq<u8>)
    ensures
        xor_bytes(xor_bytes(data, pad), pad) == data,
{
    assert forall|i: int| 0 <= i < data.len() implies (data[i] ^ pad[i]) ^ pad[i] == data[i] by {
        let a = data[i];
        let b = pad[i];
        assert((a ^ b) ^ b == a) by (bit_vector);
    }
}

/// The keyless cipher is its own inverse.
pub proof fn lemma_light_twice(offset: u32, data: Seq<u8>)
    ensures
        light_transform(offset, light_transform(offset, data)) == data,
{
    let once = light_transform(offset, data);
    assert forall|i: int| 0 <= i < data.len() implies light_transform(offset, once)[i]
        == data[i] by {
        let a = data[i];
        let p = light_pad()[(offset + i) % 8];
        let m = (offset % 256) as u8;
        assert(((a ^ p ^ m) ^ p) ^ m == a) by (bit_vector);
    }
}

/// Cipher feedback encryption keeps the length.
pub proof fn lemma_cfb_encrypt_len(key: Seq<u8>, iv: Seq<u8>, data: Seq<u8>)
    ensures
        cfb_encrypt(key, iv, data).len() == data.len(),
    decreases data.len(),
{
    if data.len() > 0 {
        let n = segment_len(data);
        let c = xor_bytes(data.take(n), aes128_block(key, iv));
        lemma_cfb_encrypt_len(key, c, data.skip(n));
    }
}

/// Cipher feedback decryption keeps the length.
pub proof fn lemma_cfb_decrypt_len(key: Seq<u8>, iv: Seq<u8>, data: Seq<u8>)
    ensures
        cfb_decrypt(key, iv, data).len() == data.len(),
    decreases data.len(),
{
    if data.len() > 0 {
        let n = segment_len(data);
        lemma_cfb_decrypt_len(key, data.take(n), data.skip(n));
    }
}

/// Cipher feedback decryption undoes encryption under the same key and
/// vector, whatever the block cipher computes.
pub proof fn lemma_cfb_roundtrip(key: Seq<u8>, iv: Seq<u8>, data: Seq<u8>)
    ensures
        cfb_decrypt(key, iv, cfb_encrypt(key, iv, data)) == data,
    decreases data.len(),
{
    if data.len() > 0 {
        let n = segment_len(data);
        let pad = aes128_block(key, iv);
        let c = xor_bytes(data.take(n), pad);
        let tail = cfb_encrypt(key, c, data.skip(n));
        let whole = c + tail;
        lemma_cfb_encrypt_len(key, c, data.skip(n));
        lemma_cfb_roundtrip(key, c, data.skip(n));
        lemma_xor_twice(data.take(n), pad);
        assert(whole.take(n) =~= c);
        assert(whole.skip(n) =~= tail);
    }
}

/// Cipher feedback encryption undoes decryption under the same key and
/// vector.
pub proof fn lemma_cfb_roundtrip_back(key: Seq<u8>, iv: Seq<u8>, data: Seq<u8>)
    ensures
        cfb_encrypt(key, iv, cfb_decrypt(key, iv, data)) == data,
    decreases data.len(),
{
    if data.len() > 0 {
        let n = segment_len(data);
        let pad = aes128_block(key, iv);
        let c = data.take(n);
        let p = xor_bytes(c, pad);
        let tail = cfb_decrypt(key, c, data.skip(n));
        let whole = p + tail;
        lemma_cfb_decrypt_len(key, c, data.skip(n));
        lemma_cfb_roundtrip_back(key, c, data.skip(n));
        lemma_xor_twice(c, pad);
        assert(whole.take(n) =~= p);
        assert(whole.skip(n) =~= tail);
    }
}

/// Every protocol keeps the length of a body, in both directions.
pub proof fn lemma_cipher_len(protocol: ProtocolView, offset: u32, data: Seq<u8>)
    ensures
        encrypt_spec(protocol, offset, data).len() == data.len(),
        decrypt_spec(protocol, offset, data).len() == data.len(),
{
    match protocol {
        ProtocolView::Aes(key) => {
            lemma_cfb_encrypt_len(key, aes_iv(), data);
            lemma_cfb_decrypt_len(key, aes_iv(), data);
        },
        _ => {},
    }
}

/// Under every protocol, decrypting what was encrypted gives the body back,
/// and encrypting what was decrypted gives the protected body back.
pub proof fn lemma_cipher_roundtrip(protocol: ProtocolView, offset: u32, data: Seq<u8>)
    ensures
        decrypt_spec(protocol, offset, encrypt_spec(protocol, offset, data)) == data,
        encrypt_spec(protocol, offset, decrypt_spec(protocol, offset, data)) == data,
{
    match protocol {
        ProtocolView::Unencrypted => {},
        ProtocolView::BCEncrypt => {
            lemma_light_twice(offset, data);
        },
        ProtocolView::Aes(key) => {
            lemma_cfb_roundtrip(key, aes_iv(), data);
            lemma_cfb_roundtrip_back(key, aes_iv(), data);
        },
    }
}

/// Encrypts one block with `aes::Aes128`. The contract gives the result its
/// name and claims nothing more of it: the cipher is a function of key and
/// block alone.
#[verifier::external_body]
fn aes128_encrypt_block(key: &[u8; 16], block: &[u8; 16]) -> (out: [u8; 16])
    ensures
        out@ == aes128_block(key@, block@),
{
    let cipher = aes::Aes128::new(aes::cipher::generic_array::GenericArray::from_slice(key));
    let mut b = aes::cipher::generic_array::GenericArray::clone_from_slice(block);
    cipher.encrypt_block(&mut b);
    b.into()
}

/// Computes a digest with `md5::compute`. The contract gives the sixteen
/// bytes their name and claims nothing more of them: the digest is a
/// function of the message alone.
#[verifier::external_body]
fn md5_of(message: &[u8]) -> (digest: [u8; 16])
    ensures
        digest@ == md5_digest(message@),
{
    md5::compute(message).0
}

/// Applies the keyless cipher.
pub fn light_crypt(offset: u32, data: &[u8]) -> (out: Vec<u8>)
    ensures
        out@ == light_transform(offset, data@),
{
    let pad: [u8; 8] = [0x1F, 0x2D, 0x3C, 0x4B, 0x5A, 0x69, 0x78, 0xFF];
    let mask: u8 = (offset % 256) as u8;
    let start: usize = (offset % 8) as usize;
    let len = data.len();
    let mut out: Vec<u8> = Vec::new();
    let mut i: usize = 0;
    while i < len
        invariant
            i <= len,
            len == data@.len(),
            pad@ == light_pad(),
            mask == (offset % 256) as u8,
            start == offset % 8,
            out@ == light_transform(offset, data@).take(i as int),
        decreases len - i,
    {
        let k: usize = (start + i % 8) % 8;
        out.push(data[i] ^ pad[k] ^ mask);
        i += 1;
    }
    out
}

/// Encrypts `data` with AES-128 in cipher feedback mode.
pub fn aes_encrypt(key: &[u8; 16], data: &[u8]) -> (out: Vec<u8>)
    ensures
        out@ == cfb_encrypt(key@, aes_iv(), data@),
{
    let mut iv: [u8; 16] = [48, 49, 50, 51, 52, 53, 54, 55, 56, 57, 97, 98, 99, 100, 101, 102];
    let len = data.len();
    let mut out: Vec<u8> = Vec::new();
    let mut pos: usize = 0;
    assert(data@.skip(0) =~= data@);
    while pos < len
        invariant
            pos <= len,
            len == data@.len(),
            out@ + cfb_encrypt(key@, iv@, data@.skip(pos as int)) == cfb_encrypt(
                key@,
                aes_iv(),
                data@,
            ),
        decreases len - pos,
    {
        let pad = aes128_encrypt_block(key, &iv);
        let n: usize = if len - pos < 16 {
            len - pos
        } else {
            16
        };
        let ghost rest = data@.skip(pos as int);
        let ghost before = out@;
        let ghost c = xor_bytes(rest.take(n as int), pad@);
        let mut j: usize = 0;
        while j < n
            invariant
                j <= n <= 16,
                pos + n <= len,
                len == data@.len(),
                rest == data@.skip(pos as int),
                c == xor_bytes(rest.take(n as int), pad@),
                out@ == before + c.take(j as int),
                forall|t: int| 0 <= t < j ==> iv@[t] == c[t],
            decreases n - j,
        {
            let b: u8 = data[pos + j] ^ pad[j];
            out.push(b);
            iv[j] = b;
            j += 1;
        }
        proof {
            assert(rest.skip(n as int) =~= data@.skip(pos + n));
            if n == 16 {
                assert(iv@ =~= c);
            }
            assert(before + (c + cfb_encrypt(key@, c, rest.skip(n as int))) =~= (before + c)
                + cfb_encrypt(key@, c, rest.skip(n as int)));
        }
        pos += n;
    }
    out
}

/// Decrypts `data` with AES-128 in cipher feedback mode.
pub fn aes_decrypt(key: &[u8; 16], data: &[u8]) -> (out: Vec<u8>)
    ensures
        out@ == cfb_decrypt(key@, aes_iv(), data@),
{
    let mut iv: [u8; 16] = [48, 49, 50, 51, 52, 53, 54, 55, 56, 57, 97, 98, 99, 100, 101, 102];
    let len = data.len();
    let mut out: Vec<u8> = Vec::new();
    let mut pos: usize = 0;
    assert(data@.skip(0) =~= data@);
    while pos < len
        invariant
            pos <= len,
            len == data@.len(),
            out@ + cfb_decrypt(key@, iv@, data@.skip(pos as int)) == cfb_decrypt(
                key@,
                aes_iv(),
                data@,
            ),
        decreases len - pos,
    {
        let pad = aes128_encrypt_block(key, &iv);
        let n: usize = if len - pos < 16 {
            len - pos
        } else {
            16
        };
        let ghost rest = data@.skip(pos as int);
        let ghost before = out@;
        let ghost c = rest.take(n as int);
        let ghost p = xor_bytes(c, pad@);
        let mut j: usize = 0;
        while j < n
            invariant
                j <= n <= 16,
                pos + n <= len,
                len == data@.len(),
                rest == data@.skip(pos as int),
                c == rest.take(n as int),
                p == xor_bytes(c, pad@),
                out@ == before + p.take(j as int),
                forall|t: int| 0 <= t < j ==> iv@[t] == c[t],
            decreases n - j,
        {
            let b: u8 = data[pos + j];
            out.push(b ^ pad[j]);
            iv[j] = b;
            j += 1;
        }
        proof {
            assert(rest.skip(n as int) =~= data@.skip(pos + n));
            if n == 16 {
                assert(iv@ =~= c);
            }
            assert(before + (p + cfb_decrypt(key@, c, rest.skip(n as int))) =~= (before + p)
                + cfb_decrypt(key@, c, rest.skip(n as int)));
        }
        pos += n;
    }
    out
}

impl EncryptionProtocol {
    /// Protects a plain body for the wire.
    pub fn encrypt(&self, offset: u32, data: &[u8]) -> (out: Vec<u8>)
        ensures
            out@ == encrypt_spec(self@, offset, data@),
    {
        match self {
            EncryptionProtocol::Unencrypted => copy_bytes(data),
            EncryptionProtocol::BCEncrypt => light_crypt(offset, data),
            EncryptionProtocol::Aes(key) => aes_encrypt(key, data),
        }
    }

    /// Recovers the plain body from the wire.
    pub fn decrypt(&self, offset: u32, data: &[u8]) -> (out: Vec<u8>)
        ensures
            out@ == decrypt_spec(self@, offset, data@),
    {
        match self {
            EncryptionProtocol::Unencrypted => copy_bytes(data),
            EncryptionProtocol::BCEncrypt => light_crypt(offset, data),
            EncryptionProtocol::Aes(key) => aes_decrypt(key, data),
        }
    }
}

/// A copy of `data`.
pub fn copy_bytes(data: &[u8]) -> (out: Vec<u8>)
    ensures
        out@ == data@,
{
    let mut out: Vec<u8> = Vec::new();
    out.extend_from_slice(data);
    out
}

/// The upper-case hexadecimal digit for a value below sixteen.
pub open spec fn hex_digit(n: int) -> u8 {
    if n < 10 {
        (48 + n) as u8
    } else {
        (55 + n) as u8
    }
}

/// The phrase that is digested into a key: the nonce, a hyphen, the
/// password.
pub open spec fn key_phrase(password: Seq<u8>, nonce: Seq<u8>) -> Seq<u8> {
    nonce + seq![45u8] + password
}

/// The AES key for a password and a nonce: the first sixteen characters of
/// the upper-case hexadecimal form of the MD5 digest of the key phrase.
pub open spec fn derive_key(password: Seq<u8>, nonce: Seq<u8>) -> Seq<u8> {
    let digest = md5_digest(key_phrase(password, nonce));
    Seq::new(
        16,
        |i: int|
            if i % 2 == 0 {
                hex_digit(digest[i / 2] as int / 16)
            } else {
                hex_digit(digest[i / 2] as int % 16)
            },
    )
}

/// Derives the AES key for a password and a nonce.
pub fn derive_aes_key(password: &[u8], nonce: &[u8]) -> (key: [u8; 16])
    ensures
        key@ == derive_key(password@, nonce@),
{
    let mut phrase: Vec<u8> = Vec::new();
    phrase.extend_from_slice(nonce);
    phrase.push(45);
    phrase.extend_from_slice(password);
    assert(phrase@ =~= key_phrase(password@, nonce@));
    let digest = md5_of(phrase.as_slice());
    let mut key: [u8; 16] = [0; 16];
    let mut i: usize = 0;
    while i < 8
        invariant
            i <= 8,
            digest@ == md5_digest(key_phrase(password@, nonce@)),
            forall|t: int| 0 <= t < 2 * i ==> key@[t] == derive_key(password@, nonce@)[t],
        decreases 8 - i,
    {
        let d: u8 = digest[i];
        let hi: u8 = d / 16;
        let lo: u8 = d % 16;
        key[2 * i] = if hi < 10 {
            48 + hi
        } else {
            55 + hi
        };
        key[2 * i + 1] = if lo < 10 {
            48 + lo
        } else {
            55 + lo
        };
        i += 1;
    }
    key
}

} // verus!
