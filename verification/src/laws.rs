//! What holds of the codec as a whole: packets survive the wire under every
//! cipher, a packet that has not arrived in full is waited for, and the
//! state of the connection follows the packets as the protocol says.

use crate::codex::{cipher_selection, encoding_protocol, negotiated, toggled, ENCRYPTION_INFO};
use crate::credentials::CredentialsView;
use crate::crypto::{decrypt_spec, encrypt_spec, lemma_cipher_len, lemma_cipher_roundtrip};
use crate::crypto::ProtocolView;
use crate::error::Error;
use crate::model::{body_len, deserialize_spec, extension_binary_on, extension_bytes};
use crate::model::{has_payload_offset, payload_bytes};
use crate::model::{header_bytes, header_len, known_class, packet_wf, parse_body, parse_header};
use crate::model::{parse_modern, wire, wire_body, wire_extension, zeros};
use crate::model::{BcBodyView, BcMeta, BcPayloadsView, BcView, LegacyMsgView};
use crate::model::{LEGACY_LOGIN_PADDING, MAGIC_HEADER, MSG_ID_LOGIN};
use crate::num::{from_le16, from_le32, le16, le32, lemma_le16_canonical, lemma_le32_canonical};
use crate::ser::lemma_body_len;
use crate::xml::{extension_text, lemma_extension_roundtrip, lemma_literals, lemma_xml_roundtrip};
use crate::xml::{lemma_extension_canonical, lemma_xml_canonical, xml_wf};
use crate::xml::{xml_text, Extension};
use vstd::prelude::*;

verus! {

/// The bytes of a header, one by one.
proof fn lemma_header_layout(meta: BcMeta, body_len: u32, offset: u32)
    ensures
        ({
            let h = header_bytes(meta, body_len, offset);
            &&& h.len() == header_len(meta.class)
            &&& h.subrange(0, 4) == le32(MAGIC_HEADER)
            &&& h.subrange(4, 8) == le32(meta.msg_id)
            &&& h.subrange(8, 12) == le32(body_len)
            &&& h[12] == meta.channel_id
            &&& h[13] == meta.stream_type
            &&& h.subrange(14, 16) == le16(meta.msg_num)
            &&& h.subrange(16, 18) == le16(meta.response_code)
            &&& h.subrange(18, 20) == le16(meta.class)
            &&& has_payload_offset(meta.class) ==> h.subrange(20, 24) == le32(offset)
        }),
{
}

/// A number is read back from any buffer that holds its four bytes at
/// `pos`.
proof fn lemma_read_le32(buf: Seq<u8>, pos: int, x: u32)
    requires
        0 <= pos,
        pos + 4 <= buf.len(),
        buf.subrange(pos, pos + 4) == le32(x),
    ensures
        from_le32(buf.skip(pos)) == x,
{
}

/// A number is read back from any buffer that holds its two bytes at `pos`.
proof fn lemma_read_le16(buf: Seq<u8>, pos: int, x: u16)
    requires
        0 <= pos,
        pos + 2 <= buf.len(),
        buf.subrange(pos, pos + 2) == le16(x),
    ensures
        from_le16(buf.skip(pos)) == x,
{
}

/// A buffer that begins like a header, as far as the buffer goes, is read
/// as that header if it holds all of it, and is incomplete if not.
proof fn lemma_header_prefix(meta: BcMeta, body_len: u32, offset: u32, buf: Seq<u8>)
    requires
        known_class(meta.class),
        offset <= body_len,
        !has_payload_offset(meta.class) ==> offset == 0,
        ({
            let h = header_bytes(meta, body_len, offset);
            forall|i: int| 0 <= i < buf.len() && i < h.len() ==> buf[i] == h[i]
        }),
    ensures
        parse_header(buf) == (if buf.len() < header_len(meta.class) {
            Err::<(BcMeta, nat, nat), Error>(Error::Incomplete)
        } else {
            Ok((meta, body_len as nat, offset as nat))
        }),
{
    let h = header_bytes(meta, body_len, offset);
    lemma_header_layout(meta, body_len, offset);
    if buf.len() >= 4 {
        assert(buf.subrange(0, 4) =~= h.subrange(0, 4));
        lemma_read_le32(buf, 0, MAGIC_HEADER);
    }
    if buf.len() >= 20 {
        assert(buf.subrange(4, 8) =~= h.subrange(4, 8));
        assert(buf.subrange(8, 12) =~= h.subrange(8, 12));
        assert(buf.subrange(14, 16) =~= h.subrange(14, 16));
        assert(buf.subrange(16, 18) =~= h.subrange(16, 18));
        assert(buf.subrange(18, 20) =~= h.subrange(18, 20));
        lemma_read_le32(buf, 4, meta.msg_id);
        lemma_read_le32(buf, 8, body_len);
        lemma_read_le16(buf, 14, meta.msg_num);
        lemma_read_le16(buf, 16, meta.response_code);
        lemma_read_le16(buf, 18, meta.class);
        if has_payload_offset(meta.class) && buf.len() >= 24 {
            assert(buf.subrange(20, 24) =~= h.subrange(20, 24));
            lemma_read_le32(buf, 20, offset);
        }
    }
}

/// The documents of a modern body are never empty on the wire, and a body
/// is read back from its two parts.
proof fn lemma_body_roundtrip(protocol: ProtocolView, binary: bool, p: BcView)
    requires
        packet_wf(p, binary),
    ensures
        parse_body(
            protocol,
            binary,
            p.meta,
            wire_extension(protocol, p).len(),
            wire_body(protocol, p),
        ) == Some(p.body),
        !has_payload_offset(p.meta.class) ==> wire_extension(protocol, p).len() == 0,
{
    lemma_literals();
    let offset = p.meta.channel_id as u32;
    match p.body {
        BcBodyView::LegacyMsg(l) => {
            match l {
                LegacyMsgView::LoginMsg { username, password } => {
                    let body = username + password + zeros(LEGACY_LOGIN_PADDING as nat);
                    assert(body.subrange(0, 32) =~= username);
                    assert(body.subrange(32, 64) =~= password);
                },
                LegacyMsgView::UnknownMsg => {},
            }
        },
        BcBodyView::ModernMsg(m) => {
            let ext = wire_extension(protocol, p);
            let body = wire_body(protocol, p);
            let payload = body.skip(ext.len() as int);
            assert(body.take(ext.len() as int) =~= ext);
            match m.extension {
                Some(e) => {
                    lemma_cipher_len(protocol, offset, extension_text(e));
                    lemma_cipher_roundtrip(protocol, offset, extension_text(e));
                    lemma_extension_roundtrip(e);
                },
                None => {},
            }
            match m.payload {
                Some(BcPayloadsView::BcXml(x)) => {
                    lemma_cipher_len(protocol, offset, xml_text(x));
                    lemma_cipher_roundtrip(protocol, offset, xml_text(x));
                    lemma_xml_roundtrip(x);
                    assert(payload =~= encrypt_spec(protocol, offset, xml_text(x)));
                },
                Some(BcPayloadsView::Binary(b)) => {
                    assert(payload =~= b);
                },
                None => {},
            }
        },
    }
}

/// Round trip. A well-formed packet that was written under a cipher is read
/// back as it was under the same cipher, whatever follows it in the buffer,
/// and the bytes it is said to take are those that were written.
///
/// `in_binary` is the set of message numbers in binary mode on the reading
/// side; well-formed means well-formed for that side.
pub proof fn lemma_wire_roundtrip(
    protocol: ProtocolView,
    in_binary: Set<u16>,
    p: BcView,
    rest: Seq<u8>,
)
    requires
        packet_wf(p, in_binary.contains(p.meta.msg_num)),
    ensures
        deserialize_spec(protocol, in_binary, wire(protocol, p) + rest) == Ok::<
            (BcView, nat),
            Error,
        >((p, wire(protocol, p).len())),
{
    let binary = in_binary.contains(p.meta.msg_num);
    let body = wire_body(protocol, p);
    let ext = wire_extension(protocol, p);
    lemma_body_len(protocol, p);
    lemma_body_roundtrip(protocol, binary, p);
    let buf = wire(protocol, p) + rest;
    lemma_header_layout(p.meta, body.len() as u32, ext.len() as u32);
    lemma_header_prefix(p.meta, body.len() as u32, ext.len() as u32, buf);
    let start = header_len(p.meta.class);
    assert(buf.subrange(start as int, (start + body.len()) as int) =~= body);
}

/// Whatever is read as a header is the start of the buffer, byte for byte.
proof fn lemma_header_canonical(buf: Seq<u8>)
    requires
        parse_header(buf) is Ok,
    ensures
        ({
            let (meta, body_len, ext_len) = parse_header(buf).unwrap();
            &&& known_class(meta.class)
            &&& ext_len <= body_len <= u32::MAX
            &&& !has_payload_offset(meta.class) ==> ext_len == 0
            &&& header_len(meta.class) <= buf.len()
            &&& header_bytes(meta, body_len as u32, ext_len as u32) == buf.take(
                header_len(meta.class) as int,
            )
        }),
{
    let (meta, body_len, ext_len) = parse_header(buf).unwrap();
    lemma_le32_canonical(buf);
    lemma_le32_canonical(buf.skip(4));
    lemma_le32_canonical(buf.skip(8));
    lemma_le16_canonical(buf.skip(14));
    lemma_le16_canonical(buf.skip(16));
    lemma_le16_canonical(buf.skip(18));
    if has_payload_offset(meta.class) {
        lemma_le32_canonical(buf.skip(20));
    }
}

/// Whatever is read as a modern body is what the two parts of the body
/// are on the wire, and is well-formed.
proof fn lemma_modern_canonical(
    protocol: ProtocolView,
    binary: bool,
    channel_id: u8,
    ext: Seq<u8>,
    payload: Seq<u8>,
)
    requires
        parse_modern(protocol, binary, channel_id, ext, payload) is Some,
    ensures
        ({
            let m = parse_modern(protocol, binary, channel_id, ext, payload).unwrap();
            &&& extension_bytes(protocol, channel_id, m.extension) == ext
            &&& payload_bytes(protocol, channel_id, m.payload) == payload
            &&& (m.extension is Some <==> ext.len() > 0)
            &&& match m.payload {
                Some(BcPayloadsView::BcXml(x)) => xml_wf(x) && !(binary
                    || extension_binary_on(m.extension)),
                Some(BcPayloadsView::Binary(b)) => b.len() > 0 && (binary || extension_binary_on(
                    m.extension,
                )),
                None => true,
            }
        }),
{
    let offset = channel_id as u32;
    let m = parse_modern(protocol, binary, channel_id, ext, payload).unwrap();
    if ext.len() > 0 {
        let plain = decrypt_spec(protocol, offset, ext);
        lemma_extension_canonical(plain);
        lemma_cipher_roundtrip(protocol, offset, ext);
    }
    if payload.len() > 0 && !(binary || extension_binary_on(m.extension)) {
        let plain = decrypt_spec(protocol, offset, payload);
        lemma_xml_canonical(plain);
        lemma_cipher_roundtrip(protocol, offset, payload);
    }
}

/// Nothing else is read. Whatever is read from a buffer is a well-formed
/// packet that lies within the buffer, and a packet with a modern body is
/// read only from the very bytes that writing it gives: header, extension
/// block and payload have one form each under a cipher, and no other form
/// is accepted.
///
/// A legacy body is not kept in full (the padding of a login and the body
/// of any other legacy message are dropped), so a legacy packet is read
/// from more than one run of bytes.
pub proof fn lemma_read_is_canonical(protocol: ProtocolView, in_binary: Set<u16>, buf: Seq<u8>)
    requires
        deserialize_spec(protocol, in_binary, buf) is Ok,
    ensures
        ({
            let (p, n) = deserialize_spec(protocol, in_binary, buf).unwrap();
            &&& n <= buf.len()
            &&& packet_wf(p, in_binary.contains(p.meta.msg_num))
            &&& p.body is ModernMsg ==> wire(protocol, p) == buf.take(n as int)
        }),
{
    let (p, n) = deserialize_spec(protocol, in_binary, buf).unwrap();
    let (meta, body_len, ext_len) = parse_header(buf).unwrap();
    lemma_header_canonical(buf);
    let start = header_len(meta.class);
    let body = buf.subrange(start as int, (start + body_len) as int);
    let binary = in_binary.contains(meta.msg_num);
    lemma_body_len(protocol, p);
    match p.body {
        BcBodyView::LegacyMsg(_) => {},
        BcBodyView::ModernMsg(_) => {
            let ext = body.take(ext_len as int);
            let payload = body.skip(ext_len as int);
            lemma_modern_canonical(protocol, binary, meta.channel_id, ext, payload);
            assert(wire_body(protocol, p) =~= body);
        },
    }
}

/// Round trip without a cipher.
pub proof fn lemma_roundtrip_unencrypted(in_binary: Set<u16>, p: BcView)
    requires
        packet_wf(p, in_binary.contains(p.meta.msg_num)),
    ensures
        deserialize_spec(
            ProtocolView::Unencrypted,
            in_binary,
            wire(ProtocolView::Unencrypted, p),
        ) == Ok::<(BcView, nat), Error>((p, wire(ProtocolView::Unencrypted, p).len())),
{
    lemma_wire_roundtrip(ProtocolView::Unencrypted, in_binary, p, Seq::empty());
}

/// Round trip under AES, for every key.
pub proof fn lemma_roundtrip_aes(key: Seq<u8>, in_binary: Set<u16>, p: BcView)
    requires
        packet_wf(p, in_binary.contains(p.meta.msg_num)),
    ensures
        deserialize_spec(ProtocolView::Aes(key), in_binary, wire(ProtocolView::Aes(key), p))
            == Ok::<(BcView, nat), Error>((p, wire(ProtocolView::Aes(key), p).len())),
{
    lemma_wire_roundtrip(ProtocolView::Aes(key), in_binary, p, Seq::empty());
}

/// From encoder to decoder. What one side encodes with `active` in force is
/// decoded as the same packet by a side whose cipher is the one that the
/// encoder wrote under: `active` itself, or the keyless cipher for a login
/// written while AES is in force.
pub proof fn lemma_peer_reads_what_is_encoded(
    active: ProtocolView,
    in_binary: Set<u16>,
    p: BcView,
    rest: Seq<u8>,
)
    requires
        packet_wf(p, in_binary.contains(p.meta.msg_num)),
    ensures
        ({
            let written = wire(encoding_protocol(active, p.meta.msg_id), p);
            deserialize_spec(encoding_protocol(active, p.meta.msg_id), in_binary, written + rest)
                == Ok::<(BcView, nat), Error>((p, written.len()))
        }),
{
    lemma_wire_roundtrip(encoding_protocol(active, p.meta.msg_id), in_binary, p, rest);
}

/// Waiting. Every proper prefix of a well-formed packet on the wire is
/// incomplete: it is neither read as a packet nor rejected.
pub proof fn lemma_prefix_incomplete(
    protocol: ProtocolView,
    in_binary: Set<u16>,
    p: BcView,
    k: int,
)
    requires
        packet_wf(p, in_binary.contains(p.meta.msg_num)),
        0 <= k < wire(protocol, p).len(),
    ensures
        deserialize_spec(protocol, in_binary, wire(protocol, p).take(k)) == Err::<
            (BcView, nat),
            Error,
        >(Error::Incomplete),
{
    let binary = in_binary.contains(p.meta.msg_num);
    let body = wire_body(protocol, p);
    let ext = wire_extension(protocol, p);
    lemma_body_len(protocol, p);
    lemma_body_roundtrip(protocol, binary, p);
    lemma_header_layout(p.meta, body.len() as u32, ext.len() as u32);
    lemma_header_prefix(p.meta, body.len() as u32, ext.len() as u32, wire(protocol, p).take(k));
}

/// Negotiation. A login reply whose response code has the high byte `0xDD`
/// and which carries a nonce selects the cipher by the low byte: `0xDD00`
/// none, `0xDD01` the keyless cipher, `0xDD02` AES under the key derived
/// from the credentials and the nonce. Any other low byte is an error that
/// names it.
pub proof fn lemma_login_reply_selects(
    credentials: CredentialsView,
    current: ProtocolView,
    p: BcView,
    nonce: Seq<u8>,
)
    requires
        p.meta.msg_id == MSG_ID_LOGIN,
        p.meta.response_code / 256 == ENCRYPTION_INFO,
        cipher_selection(p) is Some,
        cipher_selection(p).unwrap().1 == nonce,
    ensures
        p.meta.response_code == 0xDD00 ==> negotiated(credentials, current, p) == Ok::<
            ProtocolView,
            Error,
        >(ProtocolView::Unencrypted),
        p.meta.response_code == 0xDD01 ==> negotiated(credentials, current, p) == Ok::<
            ProtocolView,
            Error,
        >(ProtocolView::BCEncrypt),
        p.meta.response_code == 0xDD02 ==> negotiated(credentials, current, p) == Ok::<
            ProtocolView,
            Error,
        >(ProtocolView::Aes(credentials.aes_key(nonce))),
        p.meta.response_code > 0xDD02 ==> negotiated(credentials, current, p) == Err::<
            ProtocolView,
            Error,
        >(Error::UnknownEncryption((p.meta.response_code - 0xDD00) as usize)),
{
}

/// A packet that is no login reply with encryption information leaves the
/// cipher of the connection in force.
pub proof fn lemma_other_packets_keep_cipher(
    credentials: CredentialsView,
    current: ProtocolView,
    p: BcView,
)
    requires
        p.meta.msg_id != MSG_ID_LOGIN || p.meta.response_code / 256 != ENCRYPTION_INFO,
    ensures
        negotiated(credentials, current, p) == Ok::<ProtocolView, Error>(current),
{
}

/// Login downgrade. With AES in force, a login goes over the wire exactly
/// as it would with the keyless cipher in force, and every other packet
/// goes out under AES.
pub proof fn lemma_login_downgrade(key: Seq<u8>, p: BcView)
    ensures
        p.meta.msg_id == MSG_ID_LOGIN ==> wire(
            encoding_protocol(ProtocolView::Aes(key), p.meta.msg_id),
            p,
        ) == wire(encoding_protocol(ProtocolView::BCEncrypt, p.meta.msg_id), p),
        p.meta.msg_id == MSG_ID_LOGIN ==> encoding_protocol(ProtocolView::Aes(key), p.meta.msg_id)
            == ProtocolView::BCEncrypt,
        p.meta.msg_id != MSG_ID_LOGIN ==> encoding_protocol(ProtocolView::Aes(key), p.meta.msg_id)
            == ProtocolView::Aes(key),
{
}

/// The cipher under which a packet is written is never stronger than the
/// one in force: it is the one in force, or the keyless cipher in place of
/// AES.
pub proof fn lemma_encoding_never_upgrades(active: ProtocolView, msg_id: u32)
    ensures
        encoding_protocol(active, msg_id) == active || (active is Aes && encoding_protocol(
            active,
            msg_id,
        ) == ProtocolView::BCEncrypt),
{
}

/// Binary mode. A packet whose extension block has a binary-data flag other
/// than zero puts its message number in binary mode, one with the flag zero
/// takes it out, and no packet changes the mode of another message number.
pub proof fn lemma_binary_toggle(in_binary: Set<u16>, p: BcView, other: u16)
    ensures
        extension_binary_on(flag_block(p)) ==> toggled(in_binary, p).contains(p.meta.msg_num),
        extension_binary_off(flag_block(p)) ==> !toggled(in_binary, p).contains(p.meta.msg_num),
        other != p.meta.msg_num ==> toggled(in_binary, p).contains(other) == in_binary.contains(
            other,
        ),
        !extension_binary_on(flag_block(p)) && !extension_binary_off(flag_block(p)) ==> toggled(
            in_binary,
            p,
        ) == in_binary,
{
}

/// The extension block of a packet, if it has one.
pub open spec fn flag_block(p: BcView) -> Option<Extension> {
    match p.body {
        BcBodyView::ModernMsg(m) => m.extension,
        BcBodyView::LegacyMsg(_) => None,
    }
}

/// The extension block has the binary-data flag, and it is zero.
pub open spec fn extension_binary_off(extension: Option<Extension>) -> bool {
    match extension {
        Some(e) => e.binary_data == Some(0u32),
        None => false,
    }
}

/// On, then off: after a packet with the flag set and a later one with the
/// flag zero on the same message number, that number is out of binary mode,
/// whatever it was before.
pub proof fn lemma_binary_on_then_off(in_binary: Set<u16>, on: BcView, off: BcView)
    requires
        on.meta.msg_num == off.meta.msg_num,
        extension_binary_on(flag_block(on)),
        extension_binary_off(flag_block(off)),
    ensures
        toggled(in_binary, on).contains(on.meta.msg_num),
        !toggled(toggled(in_binary, on), off).contains(on.meta.msg_num),
{
}

} // verus!
