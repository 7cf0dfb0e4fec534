//! Reading a packet from a buffer that may not yet hold all of it.

use crate::context::BcContext;
use crate::crypto::{copy_bytes, EncryptionProtocol};
use crate::error::Error;
use crate::model::{deserialize_spec, parse_header, parse_legacy, parse_modern};
use crate::model::{Bc, BcBody, BcMeta, BcPayloads, LegacyMsg, ModernMsg};
use crate::model::{CLASS_LEGACY, CLASS_MODERN, LEGACY_NAME_LEN, MAGIC_HEADER, MSG_ID_LOGIN};
use crate::num::{get_le16, get_le32};
use crate::ser::class_has_payload_offset;
use crate::xml::{BcXml, Extension};
use vstd::prelude::*;
use vstd::slice::slice_subrange;

verus! {

/// What a header says: the message fields, the length of the body and the
/// length of the extension block.
pub struct BcHeader {
    pub meta: BcMeta,
    pub body_len: u32,
    pub ext_len: u32,
}

/// Reads the header at the start of `buf`.
pub fn read_header(buf: &[u8]) -> (r: Result<BcHeader, Error>)
    ensures
        match parse_header(buf@) {
            Ok((meta, body_len, ext_len)) => r is Ok && r.unwrap().meta == meta
                && r.unwrap().body_len == body_len && r.unwrap().ext_len == ext_len,
            Err(e) => r == Err::<BcHeader, Error>(e),
        },
{
    let len = buf.len();
    if len >= 4 && get_le32(buf, 0) != MAGIC_HEADER {
        return Err(Error::Malformed);
    }
    if len < 20 {
        return Err(Error::Incomplete);
    }
    let meta = BcMeta {
        msg_id: get_le32(buf, 4),
        channel_id: buf[12],
        stream_type: buf[13],
        msg_num: get_le16(buf, 14),
        response_code: get_le16(buf, 16),
        class: get_le16(buf, 18),
    };
    let body_len = get_le32(buf, 8);
    if !(meta.class == CLASS_LEGACY || meta.class == CLASS_MODERN || class_has_payload_offset(
        meta.class,
    )) {
        return Err(Error::Malformed);
    }
    if !class_has_payload_offset(meta.class) {
        return Ok(BcHeader { meta, body_len, ext_len: 0 });
    }
    if len < 24 {
        return Err(Error::Incomplete);
    }
    let ext_len = get_le32(buf, 20);
    if ext_len > body_len {
        return Err(Error::Malformed);
    }
    Ok(BcHeader { meta, body_len, ext_len })
}

/// Reads a legacy body.
pub fn read_legacy(msg_id: u32, body: &[u8]) -> (r: Option<LegacyMsg>)
    ensures
        match parse_legacy(msg_id, body@) {
            Some(l) => r is Some && r.unwrap()@ == l,
            None => r is None,
        },
{
    if msg_id == MSG_ID_LOGIN {
        if body.len() >= 2 * LEGACY_NAME_LEN {
            let username = copy_bytes(slice_subrange(body, 0, LEGACY_NAME_LEN));
            let password = copy_bytes(slice_subrange(body, LEGACY_NAME_LEN, 2 * LEGACY_NAME_LEN));
            Some(LegacyMsg::LoginMsg { username, password })
        } else {
            None
        }
    } else {
        Some(LegacyMsg::UnknownMsg)
    }
}

/// Reads a modern body from its two parts: the extension block and the
/// payload, as they stand on the wire. `binary` says whether the message
/// number is in binary mode on the connection.
pub fn read_modern(
    protocol: &EncryptionProtocol,
    binary: bool,
    channel_id: u8,
    ext: &[u8],
    payload: &[u8],
) -> (r: Option<ModernMsg>)
    ensures
        match parse_modern(protocol@, binary, channel_id, ext@, payload@) {
            Some(m) => r is Some && r.unwrap()@ == m,
            None => r is None,
        },
{
    let offset: u32 = channel_id as u32;
    let extension: Option<Extension> = if ext.len() == 0 {
        None
    } else {
        let plain = protocol.decrypt(offset, ext);
        match Extension::try_parse(plain.as_slice()) {
            Some(e) => Some(e),
            None => {
                return None;
            },
        }
    };
    let flagged = match extension {
        Some(e) => match e.binary_data {
            Some(v) => v != 0,
            None => false,
        },
        None => false,
    };
    if payload.len() == 0 {
        Some(ModernMsg { extension, payload: None })
    } else if binary || flagged {
        Some(ModernMsg { extension, payload: Some(BcPayloads::Binary(copy_bytes(payload))) })
    } else {
        let plain = protocol.decrypt(offset, payload);
        match BcXml::try_parse(plain.as_slice()) {
            Some(x) => Some(ModernMsg { extension, payload: Some(BcPayloads::BcXml(x)) }),
            None => None,
        }
    }
}

impl Bc {
    /// Reads the packet at the start of `buf`. Returns the packet and the
    /// number of bytes that it takes.
    ///
    /// The context gives the cipher with which the body is read and says
    /// whether the message number is in binary mode; it is not changed.
    /// `Incomplete` means that the buffer ends before the packet does:
    /// nothing is wrong yet, and the same bytes followed by more may give a
    /// packet. `Malformed` means that no packet begins like this.
    pub fn deserialize(context: &BcContext, buf: &[u8]) -> (r: Result<(Bc, usize), Error>)
        ensures
            match deserialize_spec(context@.protocol, context@.in_binary, buf@) {
                Ok((p, n)) => r is Ok && r.unwrap().0@ == p && r.unwrap().1 == n,
                Err(e) => r == Err::<(Bc, usize), Error>(e),
            },
    {
        let header = match read_header(buf) {
            Ok(h) => h,
            Err(e) => {
                return Err(e);
            },
        };
        let meta = header.meta;
        let start: usize = if class_has_payload_offset(meta.class) {
            24
        } else {
            20
        };
        if ((buf.len() - start) as u64) < header.body_len as u64 {
            return Err(Error::Incomplete);
        }
        let body_len: usize = header.body_len as usize;
        let ext_len: usize = header.ext_len as usize;
        let end: usize = start + body_len;
        let body = slice_subrange(buf, start, end);
        let body = if meta.class == CLASS_LEGACY {
            match read_legacy(meta.msg_id, body) {
                Some(l) => BcBody::LegacyMsg(l),
                None => {
                    return Err(Error::Malformed);
                },
            }
        } else {
            let ext = slice_subrange(body, 0, ext_len);
            let payload = slice_subrange(body, ext_len, body_len);
            let binary = context.is_binary(meta.msg_num);
            match read_modern(context.get_encrypted(), binary, meta.channel_id, ext, payload) {
                Some(m) => BcBody::ModernMsg(m),
                None => {
                    return Err(Error::Malformed);
                },
            }
        };
        Ok((Bc { meta, body }, end))
    }
}

} // verus!
