//! The codec of a connection: it turns the incoming byte stream into packets
//! and packets into outgoing bytes, and keeps the context of the connection
//! up to date with what the packets reveal.
//!
//! Two things are revealed by packets that otherwise pass through like any
//! other. A login reply selects the cipher of the connection: the high byte
//! of its response code is `0xDD`, the low byte names the cipher, and the
//! document it carries holds the nonce for the session key. An extension
//! block with a binary-data flag starts or ends binary mode for the message
//! number of its packet. Both are applied after the packet has been read,
//! and only decoding applies them.
//!
//! The buffers are `bytes::BytesMut`. The codec reads and changes them
//! through four small functions whose contracts are stated here and not
//! proved.

use crate::context::{BcContext, BcContextView};
use crate::credentials::{Credentials, CredentialsView};
use crate::crypto::{EncryptionProtocol, ProtocolView};
use crate::error::Error;
use crate::model::{body_len, deserialize_spec, header_len, wire};
use crate::model::{Bc, BcBody, BcPayloads, MSG_ID_LOGIN};
use crate::model::{BcBodyView, BcPayloadsView, BcView};
use crate::ser::lemma_body_len;
use bytes::Buf;
use bytes::BytesMut;
use vstd::prelude::*;

verus! {

/// The high byte of the response code of a login reply that selects a
/// cipher.
pub const ENCRYPTION_INFO: u16 = 0xdd;

/// `bytes::BytesMut`, taken as it is: a buffer whose inside is not visible
/// here. All that is said of it is said of `buffer_bytes`.
#[verifier::external_type_specification]
#[verifier::external_body]
pub struct ExBytesMut(bytes::BytesMut);

/// The bytes that a buffer holds, first to last.
pub uninterp spec fn buffer_bytes(buffer: BytesMut) -> Seq<u8>;

/// The most that a buffer can hold: the largest size of one allocation,
/// `isize::MAX`.
pub open spec fn buffer_limit() -> int {
    usize::MAX as int / 2
}

/// The contents of a buffer as a slice, by `BytesMut::as_ref`: the bytes
/// that the buffer holds, in order.
#[verifier::external_body]
fn buffer_as_slice(buffer: &BytesMut) -> (s: &[u8])
    ensures
        s@ == buffer_bytes(*buffer),
{
    buffer.as_ref()
}

/// `Buf::advance` on a buffer: drops the first `n` bytes and keeps the rest.
/// It panics if the buffer holds fewer than `n` bytes, which the
/// precondition rules out.
#[verifier::external_body]
fn buffer_advance(buffer: &mut BytesMut, n: usize)
    requires
        n <= buffer_bytes(*old(buffer)).len(),
    ensures
        buffer_bytes(*final(buffer)) == buffer_bytes(*old(buffer)).skip(n as int),
{
    buffer.advance(n)
}

/// `BytesMut::reserve`: makes room for `additional` more bytes and leaves
/// the contents as they are. It panics if the new capacity overflows
/// `usize`; the precondition keeps it within what one allocation can have,
/// which is less.
#[verifier::external_body]
fn buffer_reserve(buffer: &mut BytesMut, additional: usize)
    requires
        buffer_bytes(*old(buffer)).len() + additional <= buffer_limit(),
    ensures
        buffer_bytes(*final(buffer)) == buffer_bytes(*old(buffer)),
{
    buffer.reserve(additional)
}

/// `BytesMut::extend_from_slice`: appends `data` behind what the buffer
/// holds. It reserves first, so the same precondition applies.
#[verifier::external_body]
fn buffer_extend(buffer: &mut BytesMut, data: &[u8])
    requires
        buffer_bytes(*old(buffer)).len() + data@.len() <= buffer_limit(),
    ensures
        buffer_bytes(*final(buffer)) == buffer_bytes(*old(buffer)) + data@,
{
    buffer.extend_from_slice(data)
}

/// The cipher under which a packet is written when `active` is in force.
///
/// The login is never written under AES: the peer cannot be taken to read
/// AES before the login is complete, even where the context still holds a
/// key. It goes out under the keyless cipher instead. Every other packet,
/// and the login under any other cipher, is written under `active`.
pub open spec fn encoding_protocol(active: ProtocolView, msg_id: u32) -> ProtocolView {
    match active {
        ProtocolView::Aes(_) => if msg_id == MSG_ID_LOGIN {
            ProtocolView::BCEncrypt
        } else {
            active
        },
        _ => active,
    }
}

/// What a packet says about the cipher of the connection: the selector and
/// the nonce of a login reply that carries encryption information, `None`
/// for any other packet.
pub open spec fn cipher_selection(p: BcView) -> Option<(u16, Seq<u8>)> {
    if p.meta.msg_id == MSG_ID_LOGIN && p.meta.response_code / 256 == ENCRYPTION_INFO {
        match p.body {
            BcBodyView::ModernMsg(m) => match m.payload {
                Some(BcPayloadsView::BcXml(x)) => match x.encryption {
                    Some(e) => Some(((p.meta.response_code % 256) as u16, e.nonce)),
                    None => None,
                },
                _ => None,
            },
            BcBodyView::LegacyMsg(_) => None,
        }
    } else {
        None
    }
}

/// The cipher of the connection after `p` has been read: selector 0 is no
/// cipher, 1 the keyless cipher, 2 AES under the key that the credentials
/// give for the nonce; any other selector is an error. A packet that
/// selects nothing leaves `current` in force.
pub open spec fn negotiated(
    credentials: CredentialsView,
    current: ProtocolView,
    p: BcView,
) -> Result<ProtocolView, Error> {
    match cipher_selection(p) {
        None => Ok(current),
        Some((selector, nonce)) => if selector == 0 {
            Ok(ProtocolView::Unencrypted)
        } else if selector == 1 {
            Ok(ProtocolView::BCEncrypt)
        } else if selector == 2 {
            Ok(ProtocolView::Aes(credentials.aes_key(nonce)))
        } else {
            Err(Error::UnknownEncryption(selector as usize))
        },
    }
}

/// The message numbers in binary mode after `p` has been read: a
/// binary-data flag of zero takes the message number of `p` out, any other
/// value puts it in, and a packet without the flag changes nothing.
pub open spec fn toggled(in_binary: Set<u16>, p: BcView) -> Set<u16> {
    match p.body {
        BcBodyView::ModernMsg(m) => match m.extension {
            Some(e) => match e.binary_data {
                Some(v) => if v == 0 {
                    in_binary.remove(p.meta.msg_num)
                } else {
                    in_binary.insert(p.meta.msg_num)
                },
                None => in_binary,
            },
            None => in_binary,
        },
        BcBodyView::LegacyMsg(_) => in_binary,
    }
}

/// The context after `p` has been read, or the error that `p` causes.
pub open spec fn observed(context: BcContextView, p: BcView) -> Result<BcContextView, Error> {
    match negotiated(context.credentials, context.protocol, p) {
        Err(e) => Err(e),
        Ok(protocol) => Ok(
            BcContextView {
                credentials: context.credentials,
                protocol,
                in_binary: toggled(context.in_binary, p),
            },
        ),
    }
}

/// The cipher under which a packet of type `msg_id` is written when
/// `active` is in force.
pub fn protocol_for_encoding(active: EncryptionProtocol, msg_id: u32) -> (protocol:
    EncryptionProtocol)
    ensures
        protocol@ == encoding_protocol(active@, msg_id),
{
    match active {
        EncryptionProtocol::Aes(_) => {
            if msg_id == MSG_ID_LOGIN {
                EncryptionProtocol::BCEncrypt
            } else {
                active
            }
        },
        _ => active,
    }
}

/// Brings the context up to date with a packet that has been read.
///
/// On an unknown cipher selector the context is left as it was.
pub fn observe(context: &mut BcContext, packet: &Bc) -> (r: Result<(), Error>)
    ensures
        match observed(old(context)@, packet@) {
            Ok(next) => r is Ok && final(context)@ == next,
            Err(e) => r == Err::<(), Error>(e) && final(context)@ == old(context)@,
        },
{
    if packet.meta.msg_id == MSG_ID_LOGIN && packet.meta.response_code / 256 == ENCRYPTION_INFO {
        if let BcBody::ModernMsg(modern) = &packet.body {
            if let Some(BcPayloads::BcXml(xml)) = &modern.payload {
                if let Some(encryption) = &xml.encryption {
                    let selector: u16 = packet.meta.response_code % 256;
                    if selector == 0 {
                        context.set_encrypted(EncryptionProtocol::Unencrypted);
                    } else if selector == 1 {
                        context.set_encrypted(EncryptionProtocol::BCEncrypt);
                    } else if selector == 2 {
                        let key = context.credentials().make_aeskey(encryption.nonce.as_slice());
                        context.set_encrypted(EncryptionProtocol::Aes(key));
                    } else {
                        return Err(Error::UnknownEncryption(selector as usize));
                    }
                }
            }
        }
    }
    if let BcBody::ModernMsg(modern) = &packet.body {
        if let Some(extension) = &modern.extension {
            if let Some(on_off) = extension.binary_data {
                if on_off == 0 {
                    context.binary_off(packet.meta.msg_num);
                } else {
                    context.binary_on(packet.meta.msg_num);
                }
            }
        }
    }
    Ok(())
}

/// The codec of one connection.
pub struct BcCodex {
    context: BcContext,
}

impl View for BcCodex {
    type V = BcContextView;

    /// The context of the connection.
    closed spec fn view(&self) -> BcContextView {
        self.context@
    }
}

impl BcCodex {
    /// The codec of a new connection: the keyless cipher is in force and no
    /// message number is in binary mode.
    pub fn new(credentials: Credentials) -> (codex: BcCodex)
        ensures
            codex@.credentials == credentials@,
            codex@.protocol == ProtocolView::BCEncrypt,
            codex@.in_binary == Set::<u16>::empty(),
    {
        BcCodex { context: BcContext::new(credentials) }
    }

    /// The context of the connection.
    pub fn context(&self) -> (context: &BcContext)
        ensures
            context@ == self@,
    {
        &self.context
    }

    /// Appends `item` to `dst` as it goes over the wire.
    ///
    /// The packet is written under the cipher in force, but for the login,
    /// which is not written under AES (see `encoding_protocol`). The
    /// context is not changed. Fails with `Oversize`, and only then, if the
    /// body is too long for the header or the buffer would grow beyond what
    /// it can hold; the buffer is then left as it was.
    pub fn encode(&mut self, item: Bc, dst: &mut BytesMut) -> (r: Result<(), Error>)
        ensures
            final(self)@ == old(self)@,
            ({
                let protocol = encoding_protocol(old(self)@.protocol, item.meta.msg_id);
                let before = buffer_bytes(*old(dst));
                let fits = body_len(item@) <= u32::MAX && before.len() + header_len(
                    item.meta.class,
                ) + body_len(item@) <= buffer_limit();
                match r {
                    Ok(_) => fits && buffer_bytes(*final(dst)) == before + wire(protocol, item@),
                    Err(e) => !fits && e == Error::Oversize && buffer_bytes(*final(dst)) == before,
                }
            }),
    {
        let protocol = protocol_for_encoding(*self.context.get_encrypted(), item.meta.msg_id);
        let buf: Vec<u8> = Vec::new();
        let buf = match item.serialize(buf, &protocol) {
            Ok(buf) => buf,
            Err(e) => {
                return Err(e);
            },
        };
        proof {
            lemma_body_len(protocol@, item@);
        }
        let held = buffer_as_slice(dst).len();
        let limit: usize = usize::MAX / 2;
        if held > limit || buf.len() > limit - held {
            return Err(Error::Oversize);
        }
        buffer_reserve(dst, buf.len());
        buffer_extend(dst, buf.as_slice());
        Ok(())
    }

    /// Reads the next packet from `src`, if `src` holds all of it.
    ///
    /// If the packet is not yet complete, the result is `Ok(None)` and
    /// nothing changes: the caller keeps the buffer and comes back when more
    /// bytes have arrived. If no packet begins like this, the result is
    /// `Malformed` and nothing changes. Otherwise the bytes of the packet
    /// leave the buffer and the context is brought up to date with it (see
    /// `observed`); a login reply that selects an unknown cipher gives
    /// `UnknownEncryption` and leaves the context as it was.
    pub fn decode(&mut self, src: &mut BytesMut) -> (r: Result<Option<Bc>, Error>)
        ensures
            ({
                let before = buffer_bytes(*old(src));
                match deserialize_spec(old(self)@.protocol, old(self)@.in_binary, before) {
                    Err(Error::Incomplete) => {
                        &&& r is Ok && r.unwrap() is None
                        &&& final(self)@ == old(self)@
                        &&& buffer_bytes(*final(src)) == before
                    },
                    Err(e) => {
                        &&& r == Err::<Option<Bc>, Error>(e)
                        &&& final(self)@ == old(self)@
                        &&& buffer_bytes(*final(src)) == before
                    },
                    Ok((p, n)) => {
                        &&& buffer_bytes(*final(src)) == before.skip(n as int)
                        &&& match observed(old(self)@, p) {
                            Ok(next) => {
                                &&& r is Ok && r.unwrap() is Some && r.unwrap().unwrap()@ == p
                                &&& final(self)@ == next
                            },
                            Err(e) => {
                                &&& r == Err::<Option<Bc>, Error>(e)
                                &&& final(self)@ == old(self)@
                            },
                        }
                    },
                }
            }),
    {
        let parsed = Bc::deserialize(&self.context, buffer_as_slice(src));
        let (bc, n) = match parsed {
            Ok(x) => x,
            Err(Error::Incomplete) => {
                return Ok(None);
            },
            Err(e) => {
                return Err(e);
            },
        };
        buffer_advance(src, n);
        match observe(&mut self.context, &bc) {
            Ok(_) => Ok(Some(bc)),
            Err(e) => Err(e),
        }
    }

    /// Reads the next packet when the stream has ended. Bytes that are left
    /// over and form no complete packet are not an error: the result is
    /// `Ok(None)`, as in `decode`, of which this has the contract.
    pub fn decode_eof(&mut self, buf: &mut BytesMut) -> (r: Result<Option<Bc>, Error>)
        ensures
            ({
                let before = buffer_bytes(*old(buf));
                match deserialize_spec(old(self)@.protocol, old(self)@.in_binary, before) {
                    Err(Error::Incomplete) => {
                        &&& r is Ok && r.unwrap() is None
                        &&& final(self)@ == old(self)@
                        &&& buffer_bytes(*final(buf)) == before
                    },
                    Err(e) => {
                        &&& r == Err::<Option<Bc>, Error>(e)
                        &&& final(self)@ == old(self)@
                        &&& buffer_bytes(*final(buf)) == before
                    },
                    Ok((p, n)) => {
                        &&& buffer_bytes(*final(buf)) == before.skip(n as int)
                        &&& match observed(old(self)@, p) {
                            Ok(next) => {
                                &&& r is Ok && r.unwrap() is Some && r.unwrap().unwrap()@ == p
                                &&& final(self)@ == next
                            },
                            Err(e) => {
                                &&& r == Err::<Option<Bc>, Error>(e)
                                &&& final(self)@ == old(self)@
                            },
                        }
                    },
                }
            }),
    {
        match self.decode(buf) {
            Ok(Some(frame)) => Ok(Some(frame)),
            Ok(None) => Ok(None),
            Err(e) => Err(e),
        }
    }
}

} // verus!
