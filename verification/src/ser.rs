//! Writing a packet to the wire.

use crate::crypto::{lemma_cipher_len, EncryptionProtocol, ProtocolView};
use crate::error::Error;
use crate::model::{body_len, has_payload_offset, header_bytes, wire, wire_body, wire_extension};
use crate::model::{zeros, Bc, BcBody, BcMeta, BcPayloads, LegacyMsg};
use crate::model::{BcBodyView, BcPayloadsView, BcView};
use crate::model::{CLASS_MODERN_OFFSET, CLASS_MODERN_ZERO, LEGACY_LOGIN_PADDING, MAGIC_HEADER};
use crate::num::{put_le16, put_le32};
use crate::text::put_bytes;
use crate::xml::{extension_text, xml_text};
use vstd::prelude::*;

verus! {

/// Whether headers of this class carry a payload offset.
pub fn class_has_payload_offset(class: u16) -> (b: bool)
    ensures
        b == has_payload_offset(class),
{
    class == CLASS_MODERN_OFFSET || class == CLASS_MODERN_ZERO
}

/// Appends `n` zero bytes.
pub fn put_zeros(out: &mut Vec<u8>, n: usize)
    ensures
        final(out)@ == old(out)@ + zeros(n as nat),
{
    let mut i: usize = 0;
    while i < n
        invariant
            i <= n,
            out@ == old(out)@ + zeros(i as nat),
        decreases n - i,
    {
        out.push(0);
        i += 1;
    }
}

/// Appends the header of a packet.
pub fn put_header(out: &mut Vec<u8>, meta: &BcMeta, body_len: u32, payload_offset: u32)
    ensures
        final(out)@ == old(out)@ + header_bytes(*meta, body_len, payload_offset),
{
    put_le32(out, MAGIC_HEADER);
    put_le32(out, meta.msg_id);
    put_le32(out, body_len);
    out.push(meta.channel_id);
    out.push(meta.stream_type);
    put_le16(out, meta.msg_num);
    put_le16(out, meta.response_code);
    put_le16(out, meta.class);
    if class_has_payload_offset(meta.class) {
        put_le32(out, payload_offset);
    }
}

/// The body of a packet has the same length under every cipher, and its
/// extension block is no longer than the body.
pub proof fn lemma_body_len(protocol: ProtocolView, p: BcView)
    ensures
        wire_body(protocol, p).len() == body_len(p),
        wire_extension(protocol, p).len() <= body_len(p),
{
    match p.body {
        BcBodyView::LegacyMsg(_) => {},
        BcBodyView::ModernMsg(m) => {
            let offset = p.meta.channel_id as u32;
            match m.extension {
                Some(e) => {
                    lemma_cipher_len(protocol, offset, extension_text(e));
                    lemma_cipher_len(ProtocolView::Unencrypted, offset, extension_text(e));
                },
                None => {},
            }
            match m.payload {
                Some(BcPayloadsView::BcXml(x)) => {
                    lemma_cipher_len(protocol, offset, xml_text(x));
                    lemma_cipher_len(ProtocolView::Unencrypted, offset, xml_text(x));
                },
                _ => {},
            }
        },
    }
}

impl Bc {
    /// Appends the packet to `buf` as it goes over the wire under
    /// `protocol`, and returns the longer buffer.
    ///
    /// The cipher is the caller's choice, not the connection's: the encoder
    /// passes a weaker one for the login. Fails with `Oversize`, and only
    /// then, if the body is longer than the length field of the header can
    /// say.
    pub fn serialize(&self, buf: Vec<u8>, protocol: &EncryptionProtocol) -> (r: Result<
        Vec<u8>,
        Error,
    >)
        ensures
            match r {
                Ok(out) => body_len(self@) <= u32::MAX && out@ == buf@ + wire(protocol@, self@),
                Err(e) => e == Error::Oversize && body_len(self@) > u32::MAX,
            },
    {
        let offset: u32 = self.meta.channel_id as u32;
        let mut body: Vec<u8> = Vec::new();
        let mut ext_len: usize = 0;
        proof {
            lemma_body_len(protocol@, self@);
        }
        match &self.body {
            BcBody::LegacyMsg(legacy) => {
                match legacy {
                    LegacyMsg::LoginMsg { username, password } => {
                        put_bytes(&mut body, username.as_slice());
                        put_bytes(&mut body, password.as_slice());
                        put_zeros(&mut body, LEGACY_LOGIN_PADDING);
                    },
                    LegacyMsg::UnknownMsg => {},
                }
            },
            BcBody::ModernMsg(modern) => {
                match &modern.extension {
                    Some(e) => {
                        let text = e.serialize();
                        let protected = protocol.encrypt(offset, text.as_slice());
                        put_bytes(&mut body, protected.as_slice());
                        ext_len = protected.len();
                    },
                    None => {},
                }
                match &modern.payload {
                    Some(BcPayloads::BcXml(x)) => {
                        let text = x.serialize();
                        let protected = protocol.encrypt(offset, text.as_slice());
                        put_bytes(&mut body, protected.as_slice());
                    },
                    Some(BcPayloads::Binary(b)) => {
                        let held = body.len();
                        if held > 0xffff_ffff || b.len() > 0xffff_ffff - held {
                            return Err(Error::Oversize);
                        }
                        put_bytes(&mut body, b.as_slice());
                    },
                    None => {},
                }
            },
        }
        if body.len() > 0xffff_ffff {
            return Err(Error::Oversize);
        }
        let mut out = buf;
        put_header(&mut out, &self.meta, body.len() as u32, ext_len as u32);
        put_bytes(&mut out, body.as_slice());
        Ok(out)
    }
}

} // verus!
