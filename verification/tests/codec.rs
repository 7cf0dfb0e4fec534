use bc_codec::codex::{observe, protocol_for_encoding, BcCodex};
use bc_codec::context::BcContext;
use bc_codec::credentials::Credentials;
use bc_codec::crypto::EncryptionProtocol;
use bc_codec::error::Error;
use bc_codec::model::{Bc, BcBody, BcMeta, BcPayloads, LegacyMsg, ModernMsg};
use bc_codec::xml::{BcXml, Encryption, Extension};
use bytes::BytesMut;

fn credentials() -> Credentials {
    Credentials::new("admin".to_string(), Some("hunter2".to_string()))
}

fn meta(msg_id: u32, msg_num: u16, response_code: u16, class: u16) -> BcMeta {
    BcMeta { msg_id, channel_id: 0, stream_type: 0, response_code, msg_num, class }
}

fn login_reply(response_code: u16, nonce: &[u8]) -> Bc {
    Bc {
        meta: meta(1, 0, response_code, 0x6614),
        body: BcBody::ModernMsg(ModernMsg {
            extension: None,
            payload: Some(BcPayloads::BcXml(BcXml {
                encryption: Some(Encryption {
                    version: b"1.1".to_vec(),
                    type_: b"md5".to_vec(),
                    nonce: nonce.to_vec(),
                }),
            })),
        }),
    }
}

fn flagged(msg_num: u16, flag: u32) -> Bc {
    Bc {
        meta: meta(3, msg_num, 200, 0x6414),
        body: BcBody::ModernMsg(ModernMsg {
            extension: Some(Extension { binary_data: Some(flag) }),
            payload: None,
        }),
    }
}

fn expected_key(nonce: &str, password: &str) -> [u8; 16] {
    let phrase = format!("{}-{}", nonce, password);
    let hex = format!("{:X}", md5::compute(phrase.as_bytes()));
    let mut key = [0u8; 16];
    key.copy_from_slice(&hex.as_bytes()[0..16]);
    key
}

fn on_the_wire(packet: &Bc, protocol: &EncryptionProtocol) -> Vec<u8> {
    packet.serialize(Vec::new(), protocol).unwrap()
}

#[test]
fn new_codec_starts_with_the_keyless_cipher_and_no_binary_mode() {
    let codex = BcCodex::new(credentials());
    assert_eq!(*codex.context().get_encrypted(), EncryptionProtocol::BCEncrypt);
    assert!(!codex.context().is_binary(0));
    assert!(!codex.context().is_binary(7));
    assert_eq!(codex.context().credentials().username, "admin");
}

#[test]
fn login_reply_selects_aes_and_next_login_goes_out_under_the_keyless_cipher() {
    let mut codex = BcCodex::new(credentials());
    assert_eq!(*codex.context().get_encrypted(), EncryptionProtocol::BCEncrypt);

    let reply = login_reply(0xdd02, b"abc123");
    let wire = on_the_wire(&reply, &EncryptionProtocol::BCEncrypt);
    let mut src = BytesMut::from(&wire[..]);
    let decoded = codex.decode(&mut src).unwrap();
    assert_eq!(decoded, Some(reply));
    assert!(src.is_empty());

    let key = expected_key("abc123", "hunter2");
    assert_eq!(*codex.context().get_encrypted(), EncryptionProtocol::Aes(key));

    let login = login_reply(0, b"abc123");
    let mut dst = BytesMut::new();
    codex.encode(login.clone(), &mut dst).unwrap();
    let light = on_the_wire(&login, &EncryptionProtocol::BCEncrypt);
    let aes = on_the_wire(&login, &EncryptionProtocol::Aes(key));
    assert_eq!(&dst[..], &light[..]);
    assert_ne!(&dst[..], &aes[..]);
    assert_eq!(*codex.context().get_encrypted(), EncryptionProtocol::Aes(key));
}

#[test]
fn login_reply_dd01_selects_the_keyless_cipher() {
    let mut context = BcContext::new(credentials());
    context.set_encrypted(EncryptionProtocol::Unencrypted);
    assert_eq!(observe(&mut context, &login_reply(0xdd01, b"n")), Ok(()));
    assert_eq!(*context.get_encrypted(), EncryptionProtocol::BCEncrypt);
}

#[test]
fn login_reply_dd00_selects_no_cipher() {
    let mut codex = BcCodex::new(credentials());
    let reply = login_reply(0xdd00, b"abc123");
    let mut src = BytesMut::from(&on_the_wire(&reply, &EncryptionProtocol::BCEncrypt)[..]);
    assert_eq!(codex.decode(&mut src).unwrap(), Some(reply));
    assert_eq!(*codex.context().get_encrypted(), EncryptionProtocol::Unencrypted);
}

#[test]
fn login_reply_dd03_is_an_unknown_cipher() {
    let mut codex = BcCodex::new(credentials());
    let reply = login_reply(0xdd03, b"abc123");
    let mut src = BytesMut::from(&on_the_wire(&reply, &EncryptionProtocol::BCEncrypt)[..]);
    assert_eq!(codex.decode(&mut src), Err(Error::UnknownEncryption(3)));
    assert_eq!(*codex.context().get_encrypted(), EncryptionProtocol::BCEncrypt);
    assert!(src.is_empty());
}

#[test]
fn login_reply_with_another_high_byte_changes_nothing() {
    let mut context = BcContext::new(credentials());
    assert_eq!(observe(&mut context, &login_reply(0x00c8, b"abc123")), Ok(()));
    assert_eq!(*context.get_encrypted(), EncryptionProtocol::BCEncrypt);
    assert_eq!(observe(&mut context, &login_reply(0xdc02, b"abc123")), Ok(()));
    assert_eq!(*context.get_encrypted(), EncryptionProtocol::BCEncrypt);
}

#[test]
fn reply_of_another_message_type_changes_nothing() {
    let mut context = BcContext::new(credentials());
    let mut packet = login_reply(0xdd02, b"abc123");
    packet.meta.msg_id = 2;
    assert_eq!(observe(&mut context, &packet), Ok(()));
    assert_eq!(*context.get_encrypted(), EncryptionProtocol::BCEncrypt);
    packet.meta.response_code = 0xdd07;
    assert_eq!(observe(&mut context, &packet), Ok(()));
}

#[test]
fn login_reply_without_nonce_changes_nothing() {
    let mut context = BcContext::new(credentials());
    let packet = Bc {
        meta: meta(1, 0, 0xdd02, 0x6614),
        body: BcBody::ModernMsg(ModernMsg {
            extension: None,
            payload: Some(BcPayloads::BcXml(BcXml { encryption: None })),
        }),
    };
    assert_eq!(observe(&mut context, &packet), Ok(()));
    assert_eq!(*context.get_encrypted(), EncryptionProtocol::BCEncrypt);
    let legacy = Bc {
        meta: meta(1, 0, 0xdd05, 0x6514),
        body: BcBody::LegacyMsg(LegacyMsg::LoginMsg {
            username: vec![b'a'; 32],
            password: vec![b'b'; 32],
        }),
    };
    assert_eq!(observe(&mut context, &legacy), Ok(()));
    assert_eq!(*context.get_encrypted(), EncryptionProtocol::BCEncrypt);
}

#[test]
fn key_is_derived_without_a_password() {
    let mut context = BcContext::new(Credentials::new("admin".to_string(), None));
    assert_eq!(observe(&mut context, &login_reply(0xdd02, b"xyz")), Ok(()));
    assert_eq!(*context.get_encrypted(), EncryptionProtocol::Aes(expected_key("xyz", "")));
}

#[test]
fn every_proper_prefix_is_waited_for() {
    let reply = login_reply(0xdd02, b"abc123");
    let wire = on_the_wire(&reply, &EncryptionProtocol::BCEncrypt);
    for k in 0..wire.len() {
        let mut codex = BcCodex::new(credentials());
        let mut src = BytesMut::from(&wire[..k]);
        assert_eq!(codex.decode(&mut src), Ok(None));
        assert_eq!(&src[..], &wire[..k]);
        assert_eq!(*codex.context().get_encrypted(), EncryptionProtocol::BCEncrypt);
        src.extend_from_slice(&wire[k..]);
        assert_eq!(codex.decode(&mut src), Ok(Some(reply.clone())));
        assert!(src.is_empty());
    }
}

#[test]
fn one_byte_short_is_incomplete_and_the_last_byte_completes_it() {
    let packet = flagged(7, 1);
    let wire = on_the_wire(&packet, &EncryptionProtocol::BCEncrypt);
    let n = wire.len();
    let mut codex = BcCodex::new(credentials());
    let mut src = BytesMut::from(&wire[..n - 1]);
    assert_eq!(codex.decode(&mut src), Ok(None));
    assert_eq!(src.len(), n - 1);
    assert!(!codex.context().is_binary(7));
    src.extend_from_slice(&wire[n - 1..]);
    assert_eq!(codex.decode(&mut src), Ok(Some(packet)));
    assert_eq!(src.len(), 0);
    assert!(codex.context().is_binary(7));
}

#[test]
fn binary_flag_turns_binary_mode_on_and_off() {
    let mut codex = BcCodex::new(credentials());
    assert!(!codex.context().is_binary(7));

    let on = flagged(7, 1);
    let mut src = BytesMut::from(&on_the_wire(&on, &EncryptionProtocol::BCEncrypt)[..]);
    assert_eq!(codex.decode(&mut src), Ok(Some(on)));
    assert!(codex.context().is_binary(7));
    assert!(!codex.context().is_binary(6));
    assert!(!codex.context().is_binary(8));

    let off = flagged(7, 0);
    src.extend_from_slice(&on_the_wire(&off, &EncryptionProtocol::BCEncrypt));
    assert_eq!(codex.decode(&mut src), Ok(Some(off)));
    assert!(!codex.context().is_binary(7));
    assert!(!codex.context().is_binary(6));
}

#[test]
fn any_flag_other_than_zero_turns_binary_mode_on() {
    let mut context = BcContext::new(credentials());
    assert_eq!(observe(&mut context, &flagged(9, 2)), Ok(()));
    assert!(context.is_binary(9));
    assert_eq!(observe(&mut context, &flagged(10, 4_294_967_295)), Ok(()));
    assert!(context.is_binary(10));
    assert_eq!(observe(&mut context, &flagged(9, 0)), Ok(()));
    assert!(!context.is_binary(9));
    assert!(context.is_binary(10));
}

#[test]
fn packet_without_flag_leaves_binary_mode_alone() {
    let mut context = BcContext::new(credentials());
    context.binary_on(5);
    let plain = Bc {
        meta: meta(3, 5, 200, 0x6414),
        body: BcBody::ModernMsg(ModernMsg {
            extension: Some(Extension { binary_data: None }),
            payload: None,
        }),
    };
    assert_eq!(observe(&mut context, &plain), Ok(()));
    assert!(context.is_binary(5));
    assert_eq!(observe(&mut context, &login_reply(0, b"n")), Ok(()));
    assert!(context.is_binary(5));
}

#[test]
fn context_setters_and_getters() {
    let mut context = BcContext::new(credentials());
    context.binary_on(1);
    context.binary_on(1);
    context.binary_on(65535);
    assert!(context.is_binary(1));
    assert!(context.is_binary(65535));
    assert!(!context.is_binary(2));
    context.binary_off(1);
    context.binary_off(2);
    assert!(!context.is_binary(1));
    assert!(context.is_binary(65535));
    context.set_encrypted(EncryptionProtocol::Aes([7u8; 16]));
    assert_eq!(*context.get_encrypted(), EncryptionProtocol::Aes([7u8; 16]));
    assert!(context.is_binary(65535));
    assert_eq!(context.credentials().password, Some("hunter2".to_string()));
}

#[test]
fn login_is_downgraded_only_from_aes() {
    let key = [9u8; 16];
    assert_eq!(
        protocol_for_encoding(EncryptionProtocol::Aes(key), 1),
        EncryptionProtocol::BCEncrypt
    );
    assert_eq!(
        protocol_for_encoding(EncryptionProtocol::Aes(key), 2),
        EncryptionProtocol::Aes(key)
    );
    assert_eq!(
        protocol_for_encoding(EncryptionProtocol::Unencrypted, 1),
        EncryptionProtocol::Unencrypted
    );
    assert_eq!(
        protocol_for_encoding(EncryptionProtocol::BCEncrypt, 1),
        EncryptionProtocol::BCEncrypt
    );
    assert_eq!(
        protocol_for_encoding(EncryptionProtocol::BCEncrypt, 77),
        EncryptionProtocol::BCEncrypt
    );
}

#[test]
fn packets_travel_under_aes_once_it_is_negotiated() {
    let reply = login_reply(0xdd02, b"abc123");
    let reply_wire = on_the_wire(&reply, &EncryptionProtocol::BCEncrypt);
    let mut sender = BcCodex::new(credentials());
    let mut receiver = BcCodex::new(credentials());
    let mut src = BytesMut::from(&reply_wire[..]);
    sender.decode(&mut src).unwrap();
    let mut src = BytesMut::from(&reply_wire[..]);
    receiver.decode(&mut src).unwrap();

    let key = expected_key("abc123", "hunter2");
    let mut packet = login_reply(200, b"some other nonce");
    packet.meta.msg_id = 26;
    packet.meta.channel_id = 3;
    let mut line = BytesMut::new();
    sender.encode(packet.clone(), &mut line).unwrap();
    assert_eq!(&line[..], &on_the_wire(&packet, &EncryptionProtocol::Aes(key))[..]);
    assert_ne!(&line[..], &on_the_wire(&packet, &EncryptionProtocol::BCEncrypt)[..]);
    assert_eq!(receiver.decode(&mut line), Ok(Some(packet)));
    assert!(line.is_empty());
}

#[test]
fn encode_appends_behind_what_the_buffer_holds() {
    let mut codex = BcCodex::new(credentials());
    let packet = flagged(2, 1);
    let wire = on_the_wire(&packet, &EncryptionProtocol::BCEncrypt);
    let mut dst = BytesMut::from(&[1u8, 2, 3][..]);
    assert_eq!(codex.encode(packet.clone(), &mut dst), Ok(()));
    assert_eq!(&dst[..3], &[1u8, 2, 3][..]);
    assert_eq!(&dst[3..], &wire[..]);
    assert!(dst.capacity() >= 3 + wire.len());
    assert_eq!(codex.encode(packet, &mut dst), Ok(()));
    assert_eq!(dst.len(), 3 + 2 * wire.len());
    assert_eq!(&dst[3 + wire.len()..], &wire[..]);
    assert!(!codex.context().is_binary(2));
}

#[test]
fn decode_takes_one_packet_and_leaves_the_rest() {
    let first = flagged(4, 1);
    let second = login_reply(0xdd01, b"n0nce");
    let mut src = BytesMut::new();
    src.extend_from_slice(&on_the_wire(&first, &EncryptionProtocol::BCEncrypt));
    let rest = on_the_wire(&second, &EncryptionProtocol::BCEncrypt);
    src.extend_from_slice(&rest);
    src.extend_from_slice(&[0xf0, 0xde]);
    let mut codex = BcCodex::new(credentials());
    assert_eq!(codex.decode(&mut src), Ok(Some(first)));
    assert_eq!(src.len(), rest.len() + 2);
    assert_eq!(&src[..rest.len()], &rest[..]);
    assert_eq!(codex.decode(&mut src), Ok(Some(second)));
    assert_eq!(&src[..], &[0xf0, 0xde][..]);
    assert_eq!(codex.decode(&mut src), Ok(None));
    assert_eq!(&src[..], &[0xf0, 0xde][..]);
}

#[test]
fn leftover_bytes_at_end_of_stream_are_not_an_error() {
    let mut codex = BcCodex::new(credentials());
    let mut src = BytesMut::from(&[0xf0u8, 0xde, 0xbc, 0x0a, 1, 0, 0][..]);
    assert_eq!(codex.decode_eof(&mut src), Ok(None));
    assert_eq!(src.len(), 7);
    let mut empty = BytesMut::new();
    assert_eq!(codex.decode_eof(&mut empty), Ok(None));
}

#[test]
fn decode_eof_still_delivers_a_complete_packet() {
    let mut codex = BcCodex::new(credentials());
    let packet = flagged(7, 1);
    let mut src = BytesMut::from(&on_the_wire(&packet, &EncryptionProtocol::BCEncrypt)[..]);
    assert_eq!(codex.decode_eof(&mut src), Ok(Some(packet)));
    assert!(codex.context().is_binary(7));
    assert!(src.is_empty());
}

#[test]
fn wrong_magic_is_malformed_and_nothing_is_consumed() {
    let mut codex = BcCodex::new(credentials());
    let mut src = BytesMut::from(&[0xf1u8, 0xde, 0xbc, 0x0a, 1, 0, 0, 0][..]);
    assert_eq!(codex.decode(&mut src), Err(Error::Malformed));
    assert_eq!(src.len(), 8);
    assert_eq!(codex.decode_eof(&mut src), Err(Error::Malformed));
}

#[test]
fn payload_in_binary_mode_is_passed_through() {
    let mut codex = BcCodex::new(credentials());
    let on = flagged(7, 1);
    let mut src = BytesMut::from(&on_the_wire(&on, &EncryptionProtocol::BCEncrypt)[..]);
    codex.decode(&mut src).unwrap();

    let data = Bc {
        meta: meta(3, 7, 200, 0x6414),
        body: BcBody::ModernMsg(ModernMsg {
            extension: None,
            payload: Some(BcPayloads::Binary(vec![0, 1, 2, 0xff, b'<'])),
        }),
    };
    let wire = on_the_wire(&data, &EncryptionProtocol::BCEncrypt);
    assert_eq!(&wire[24..], &[0, 1, 2, 0xff, b'<'][..]);
    src.extend_from_slice(&wire);
    assert_eq!(codex.decode(&mut src), Ok(Some(data)));
}

#[test]
fn largest_extension_flag_still_fits() {
    let packet = flagged(1, 4_294_967_295);
    let wire = on_the_wire(&packet, &EncryptionProtocol::Unencrypted);
    assert_eq!(wire.len(), 24 + 40 + 26 + 12 + 10 + 14 + 13);
    assert_eq!(&wire[8..12], &[115, 0, 0, 0][..]);
    assert_eq!(&wire[20..24], &[115, 0, 0, 0][..]);
}
