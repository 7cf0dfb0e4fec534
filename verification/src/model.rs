//! The packet: its header fields, its body, and its form on the wire.
//!
//! A packet is a header of twenty or twenty-four bytes followed by a body.
//! All header fields are little-endian. The class of a packet says how its
//! body is framed: a legacy body, or a modern body made of an optional
//! extension block and an optional payload. Headers of two modern classes
//! carry one more field, the offset at which the payload begins within the
//! body.

use crate::crypto::{decrypt_spec, encrypt_spec, ProtocolView};
use crate::error::Error;
use crate::num::{from_le16, from_le32, le16, le32};
use crate::xml::{extension_text, parse_extension, parse_xml, xml_text, xml_wf};
use crate::xml::{BcXml, BcXmlView, Extension};
use vstd::prelude::*;

verus! {

/// The four bytes with which every packet begins.
pub const MAGIC_HEADER: u32 = 0x0abcdef0;

/// The message type of the login exchange.
pub const MSG_ID_LOGIN: u32 = 1;

/// The class of a packet with a legacy body.
pub const CLASS_LEGACY: u16 = 0x6514;

/// The class of a modern packet whose header has no payload offset.
pub const CLASS_MODERN: u16 = 0x6614;

/// The class of a modern packet whose header has a payload offset.
pub const CLASS_MODERN_OFFSET: u16 = 0x6414;

/// The second class of modern packets whose header has a payload offset.
pub const CLASS_MODERN_ZERO: u16 = 0x0000;

/// The length of each name field of a legacy login.
pub const LEGACY_NAME_LEN: usize = 32;

/// The number of zero bytes that follow the two names of a legacy login.
pub const LEGACY_LOGIN_PADDING: usize = 1772;

/// The header fields that belong to the message rather than to its framing.
#[derive(Debug, Clone, Copy, PartialEq, Eq)]
pub struct BcMeta {
    /// The message type, such as `MSG_ID_LOGIN`.
    pub msg_id: u32,
    /// The camera channel. It also seeds the keyless cipher.
    pub channel_id: u8,
    /// The stream that the message belongs to.
    pub stream_type: u8,
    /// The status of a reply. On a login reply the high byte `0xDD` says
    /// that the low byte selects a cipher.
    pub response_code: u16,
    /// The number of the logical channel that the message travels on.
    pub msg_num: u16,
    /// The framing class. It says which kind of body follows: a legacy
    /// body, which travels in the clear, or a modern body, whose documents
    /// travel under the cipher of the connection; and whether the header
    /// carries a payload offset.
    pub class: u16,
}

/// A legacy body.
#[derive(Debug, Clone, PartialEq, Eq)]
pub enum LegacyMsg {
    /// The login of the legacy protocol: two name fields of thirty-two bytes.
    LoginMsg { username: Vec<u8>, password: Vec<u8> },
    /// Any other legacy message. Its body is not kept.
    UnknownMsg,
}

/// The payload of a modern body.
#[derive(Debug, Clone, PartialEq, Eq)]
pub enum BcPayloads {
    /// A structured document.
    BcXml(BcXml),
    /// Opaque bytes, sent as they are.
    Binary(Vec<u8>),
}

/// A modern body.
#[derive(Debug, Clone, PartialEq, Eq)]
pub struct ModernMsg {
    /// The extension block, if there is one.
    pub extension: Option<Extension>,
    /// The payload, if there is one.
    pub payload: Option<BcPayloads>,
}

/// The body of a packet.
#[derive(Debug, Clone, PartialEq, Eq)]
pub enum BcBody {
    LegacyMsg(LegacyMsg),
    ModernMsg(ModernMsg),
}

/// One protocol message.
#[derive(Debug, Clone, PartialEq, Eq)]
pub struct Bc {
    pub meta: BcMeta,
    pub body: BcBody,
}

/// The mathematical value of a `LegacyMsg`.
pub enum LegacyMsgView {
    LoginMsg { username: Seq<u8>, password: Seq<u8> },
    UnknownMsg,
}

/// The mathematical value of a `BcPayloads`.
pub enum BcPayloadsView {
    BcXml(BcXmlView),
    Binary(Seq<u8>),
}

/// The mathematical value of a `ModernMsg`.
pub struct ModernMsgView {
    pub extension: Option<Extension>,
    pub payload: Option<BcPayloadsView>,
}

/// The mathematical value of a `BcBody`.
pub enum BcBodyView {
    LegacyMsg(LegacyMsgView),
    ModernMsg(ModernMsgView),
}

/// The mathematical value of a `Bc`.
pub struct BcView {
    pub meta: BcMeta,
    pub body: BcBodyView,
}

impl View for LegacyMsg {
    type V = LegacyMsgView;

    open spec fn view(&self) -> LegacyMsgView {
        match *self {
            LegacyMsg::LoginMsg { username, password } => LegacyMsgView::LoginMsg {
                username: username@,
                password: password@,
            },
            LegacyMsg::UnknownMsg => LegacyMsgView::UnknownMsg,
        }
    }
}

impl View for BcPayloads {
    type V = BcPayloadsView;

    open spec fn view(&self) -> BcPayloadsView {
        match *self {
            BcPayloads::BcXml(x) => BcPayloadsView::BcXml(x@),
            BcPayloads::Binary(b) => BcPayloadsView::Binary(b@),
        }
    }
}

impl View for ModernMsg {
    type V = ModernMsgView;

    open spec fn view(&self) -> ModernMsgView {
        ModernMsgView {
            extension: self.extension,
            payload: match self.payload {
                Some(p) => Some(p@),
                None => None,
            },
        }
    }
}

impl View for BcBody {
    type V = BcBodyView;

    open spec fn view(&self) -> BcBodyView {
        match *self {
            BcBody::LegacyMsg(l) => BcBodyView::LegacyMsg(l@),
            BcBody::ModernMsg(m) => BcBodyView::ModernMsg(m@),
        }
    }
}

impl View for Bc {
    type V = BcView;

    open spec fn view(&self) -> BcView {
        BcView { meta: self.meta, body: self.body@ }
    }
}

/// Headers of this class carry a payload offset.
pub open spec fn has_payload_offset(class: u16) -> bool {
    class == CLASS_MODERN_OFFSET || class == CLASS_MODERN_ZERO
}

/// Packets of this class have a modern body.
pub open spec fn is_modern(class: u16) -> bool {
    class == CLASS_MODERN || has_payload_offset(class)
}

/// The class is one that the protocol defines.
pub open spec fn known_class(class: u16) -> bool {
    class == CLASS_LEGACY || is_modern(class)
}

/// The length of the header of a packet of this class.
pub open spec fn header_len(class: u16) -> nat {
    if has_payload_offset(class) {
        24
    } else {
        20
    }
}

/// A run of `n` zero bytes.
pub open spec fn zeros(n: nat) -> Seq<u8> {
    Seq::new(n, |i: int| 0u8)
}

/// The header of a packet whose body has `body_len` bytes, the first
/// `payload_offset` of them the extension block.
pub open spec fn header_bytes(meta: BcMeta, body_len: u32, payload_offset: u32) -> Seq<u8> {
    le32(MAGIC_HEADER) + le32(meta.msg_id) + le32(body_len) + seq![meta.channel_id]
        + seq![meta.stream_type] + le16(meta.msg_num) + le16(meta.response_code) + le16(
        meta.class,
    ) + (if has_payload_offset(meta.class) {
        le32(payload_offset)
    } else {
        Seq::empty()
    })
}

/// The extension block flags the packet as binary.
pub open spec fn extension_binary_on(extension: Option<Extension>) -> bool {
    match extension {
        Some(e) => match e.binary_data {
            Some(v) => v != 0,
            None => false,
        },
        None => false,
    }
}

/// The bytes of a legacy body.
pub open spec fn legacy_bytes(l: LegacyMsgView) -> Seq<u8> {
    match l {
        LegacyMsgView::LoginMsg { username, password } => username + password + zeros(
            LEGACY_LOGIN_PADDING as nat,
        ),
        LegacyMsgView::UnknownMsg => Seq::empty(),
    }
}

/// The bytes of the extension block of a modern body: its text under the
/// cipher, or nothing.
pub open spec fn extension_bytes(
    protocol: ProtocolView,
    channel_id: u8,
    extension: Option<Extension>,
) -> Seq<u8> {
    match extension {
        Some(e) => encrypt_spec(protocol, channel_id as u32, extension_text(e)),
        None => Seq::empty(),
    }
}

/// The bytes of the payload of a modern body: a document under the cipher,
/// binary data as it is, or nothing.
pub open spec fn payload_bytes(
    protocol: ProtocolView,
    channel_id: u8,
    payload: Option<BcPayloadsView>,
) -> Seq<u8> {
    match payload {
        Some(BcPayloadsView::BcXml(x)) => encrypt_spec(protocol, channel_id as u32, xml_text(x)),
        Some(BcPayloadsView::Binary(b)) => b,
        None => Seq::empty(),
    }
}

/// The extension block of a packet on the wire; empty for a legacy packet.
pub open spec fn wire_extension(protocol: ProtocolView, p: BcView) -> Seq<u8> {
    match p.body {
        BcBodyView::LegacyMsg(_) => Seq::empty(),
        BcBodyView::ModernMsg(m) => extension_bytes(protocol, p.meta.channel_id, m.extension),
    }
}

/// The body of a packet on the wire.
pub open spec fn wire_body(protocol: ProtocolView, p: BcView) -> Seq<u8> {
    match p.body {
        BcBodyView::LegacyMsg(l) => legacy_bytes(l),
        BcBodyView::ModernMsg(m) => extension_bytes(protocol, p.meta.channel_id, m.extension)
            + payload_bytes(protocol, p.meta.channel_id, m.payload),
    }
}

/// The length of the body of a packet. It is the same under every cipher.
pub open spec fn body_len(p: BcView) -> nat {
    wire_body(ProtocolView::Unencrypted, p).len()
}

/// The packet on the wire under `protocol`: header, then body. Defined for
/// packets whose body length fits the header field.
pub open spec fn wire(protocol: ProtocolView, p: BcView) -> Seq<u8> {
    header_bytes(
        p.meta,
        wire_body(protocol, p).len() as u32,
        wire_extension(protocol, p).len() as u32,
    ) + wire_body(protocol, p)
}

/// The packets that survive the wire. `binary` says whether the message
/// number of the packet is in binary mode on the connection.
///
/// The class matches the kind of body; a legacy login has the login message
/// type and two names of thirty-two bytes; an extension block stands only
/// where the header can say how long it is; the payload is binary exactly
/// when the connection or the extension block says so, and a binary payload
/// is not empty; the documents can be read back; the body fits the length
/// field.
pub open spec fn packet_wf(p: BcView, binary: bool) -> bool {
    &&& body_len(p) <= u32::MAX
    &&& match p.body {
        BcBodyView::LegacyMsg(l) => {
            &&& p.meta.class == CLASS_LEGACY
            &&& match l {
                LegacyMsgView::LoginMsg { username, password } => {
                    &&& p.meta.msg_id == MSG_ID_LOGIN
                    &&& username.len() == LEGACY_NAME_LEN
                    &&& password.len() == LEGACY_NAME_LEN
                },
                LegacyMsgView::UnknownMsg => p.meta.msg_id != MSG_ID_LOGIN,
            }
        },
        BcBodyView::ModernMsg(m) => {
            &&& is_modern(p.meta.class)
            &&& (m.extension is Some ==> has_payload_offset(p.meta.class))
            &&& match m.payload {
                Some(BcPayloadsView::BcXml(x)) => xml_wf(x) && !(binary || extension_binary_on(
                    m.extension,
                )),
                Some(BcPayloadsView::Binary(b)) => b.len() > 0 && (binary || extension_binary_on(
                    m.extension,
                )),
                None => true,
            }
        },
    }
}

/// What the start of `buf` says as a header: the message fields, the length
/// of the body and the length of the extension block.
///
/// A wrong magic number is seen as soon as four bytes are there. An unknown
/// class, or an extension block longer than the body, is malformed.
pub open spec fn parse_header(buf: Seq<u8>) -> Result<(BcMeta, nat, nat), Error> {
    if buf.len() >= 4 && from_le32(buf) != MAGIC_HEADER {
        Err(Error::Malformed)
    } else if buf.len() < 20 {
        Err(Error::Incomplete)
    } else {
        let meta = BcMeta {
            msg_id: from_le32(buf.skip(4)),
            channel_id: buf[12],
            stream_type: buf[13],
            msg_num: from_le16(buf.skip(14)),
            response_code: from_le16(buf.skip(16)),
            class: from_le16(buf.skip(18)),
        };
        let body_len = from_le32(buf.skip(8)) as nat;
        if !known_class(meta.class) {
            Err(Error::Malformed)
        } else if !has_payload_offset(meta.class) {
            Ok((meta, body_len, 0))
        } else if buf.len() < 24 {
            Err(Error::Incomplete)
        } else {
            let offset = from_le32(buf.skip(20)) as nat;
            if offset > body_len {
                Err(Error::Malformed)
            } else {
                Ok((meta, body_len, offset))
            }
        }
    }
}

/// Reads a legacy body.
pub open spec fn parse_legacy(msg_id: u32, body: Seq<u8>) -> Option<LegacyMsgView> {
    if msg_id == MSG_ID_LOGIN {
        if body.len() >= 2 * LEGACY_NAME_LEN {
            Some(
                LegacyMsgView::LoginMsg {
                    username: body.subrange(0, LEGACY_NAME_LEN as int),
                    password: body.subrange(LEGACY_NAME_LEN as int, 2 * LEGACY_NAME_LEN),
                },
            )
        } else {
            None
        }
    } else {
        Some(LegacyMsgView::UnknownMsg)
    }
}

/// Reads a modern body from its two parts. `binary` says whether the
/// message number is in binary mode on the connection.
pub open spec fn parse_modern(
    protocol: ProtocolView,
    binary: bool,
    channel_id: u8,
    ext: Seq<u8>,
    payload: Seq<u8>,
) -> Option<ModernMsgView> {
    let extension: Option<Option<Extension>> = if ext.len() == 0 {
        Some(None)
    } else {
        match parse_extension(decrypt_spec(protocol, channel_id as u32, ext)) {
            Some(e) => Some(Some(e)),
            None => None,
        }
    };
    match extension {
        None => None,
        Some(extension) => if payload.len() == 0 {
            Some(ModernMsgView { extension, payload: None })
        } else if binary || extension_binary_on(extension) {
            Some(ModernMsgView { extension, payload: Some(BcPayloadsView::Binary(payload)) })
        } else {
            match parse_xml(decrypt_spec(protocol, channel_id as u32, payload)) {
                Some(x) => Some(
                    ModernMsgView { extension, payload: Some(BcPayloadsView::BcXml(x)) },
                ),
                None => None,
            }
        },
    }
}

/// Reads the body of a packet whose header gave `meta` and `ext_len`.
pub open spec fn parse_body(
    protocol: ProtocolView,
    binary: bool,
    meta: BcMeta,
    ext_len: nat,
    body: Seq<u8>,
) -> Option<BcBodyView> {
    if meta.class == CLASS_LEGACY {
        match parse_legacy(meta.msg_id, body) {
            Some(l) => Some(BcBodyView::LegacyMsg(l)),
            None => None,
        }
    } else {
        match parse_modern(
            protocol,
            binary,
            meta.channel_id,
            body.take(ext_len as int),
            body.skip(ext_len as int),
        ) {
            Some(m) => Some(BcBodyView::ModernMsg(m)),
            None => None,
        }
    }
}

/// What the start of `buf` holds: a packet and the number of bytes it
/// takes, `Incomplete` if the buffer ends before the packet does, or
/// `Malformed`.
///
/// `protocol` is the cipher of the connection and `in_binary` the set of
/// its message numbers that are in binary mode.
pub open spec fn deserialize_spec(
    protocol: ProtocolView,
    in_binary: Set<u16>,
    buf: Seq<u8>,
) -> Result<(BcView, nat), Error> {
    match parse_header(buf) {
        Err(e) => Err(e),
        Ok((meta, body_len, ext_len)) => {
            let start = header_len(meta.class);
            if buf.len() < start + body_len {
                Err(Error::Incomplete)
            } else {
                match parse_body(
                    protocol,
                    in_binary.contains(meta.msg_num),
                    meta,
                    ext_len,
                    buf.subrange(start as int, (start + body_len) as int),
                ) {
                    Some(body) => Ok((BcView { meta, body }, start + body_len)),
                    None => Err(Error::Malformed),
                }
            }
        },
    }
}

} // verus!
