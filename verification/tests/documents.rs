use bc_codec::num::{get_le16, get_le32, parse_decimal, put_decimal, put_le16, put_le32};
use bc_codec::text::{expect, put, put_bytes, take_until};
use bc_codec::xml::{is_literal_at_end, BcXml, Encryption, Extension};

fn encryption(version: &[u8], type_: &[u8], nonce: &[u8]) -> Encryption {
    Encryption { version: version.to_vec(), type_: type_.to_vec(), nonce: nonce.to_vec() }
}

#[test]
fn payload_document_text() {
    let doc = BcXml { encryption: Some(encryption(b"1.1", b"md5", b"abc123")) };
    let text = "<?xml version=\"1.0\" encoding=\"UTF-8\" ?>\n<body>\n<Encryption version=\"1.1\">\n<type>md5</type>\n<nonce>abc123</nonce>\n</Encryption>\n</body>\n";
    assert_eq!(doc.serialize(), text.as_bytes().to_vec());
    assert_eq!(BcXml::try_parse(text.as_bytes()), Some(doc));
}

#[test]
fn empty_payload_document_text() {
    let doc = BcXml { encryption: None };
    let text = "<?xml version=\"1.0\" encoding=\"UTF-8\" ?>\n<body>\n</body>\n";
    assert_eq!(doc.serialize(), text.as_bytes().to_vec());
    assert_eq!(BcXml::try_parse(text.as_bytes()), Some(doc));
}

#[test]
fn extension_block_text() {
    let on = Extension { binary_data: Some(1) };
    let text = "<?xml version=\"1.0\" encoding=\"UTF-8\" ?>\n<Extension version=\"1.1\">\n<binaryData>1</binaryData>\n</Extension>\n";
    assert_eq!(on.serialize(), text.as_bytes().to_vec());
    assert_eq!(Extension::try_parse(text.as_bytes()), Some(on));

    let none = Extension { binary_data: None };
    let text = "<?xml version=\"1.0\" encoding=\"UTF-8\" ?>\n<Extension version=\"1.1\">\n</Extension>\n";
    assert_eq!(none.serialize(), text.as_bytes().to_vec());
    assert_eq!(Extension::try_parse(text.as_bytes()), Some(none));
}

#[test]
fn extension_blocks_are_read_back() {
    for flag in [None, Some(0), Some(1), Some(9), Some(10), Some(4_294_967_295)] {
        let e = Extension { binary_data: flag };
        assert_eq!(Extension::try_parse(&e.serialize()), Some(e));
    }
}

#[test]
fn documents_with_odd_fields_are_read_back() {
    for e in [
        encryption(b"", b"", b""),
        encryption(b"<>", b"\"quoted\"", b"a\"b>c\n"),
        encryption(b"1.1", b"md5", &[0, 1, 2, 255]),
    ] {
        let doc = BcXml { encryption: Some(e) };
        assert_eq!(BcXml::try_parse(&doc.serialize()), Some(doc));
    }
}

#[test]
fn documents_in_another_form_are_rejected() {
    let good = BcXml { encryption: Some(encryption(b"1.1", b"md5", b"abc123")) }.serialize();
    assert_eq!(BcXml::try_parse(&good[..good.len() - 1]), None);
    let mut longer = good.clone();
    longer.push(b'\n');
    assert_eq!(BcXml::try_parse(&longer), None);
    assert_eq!(BcXml::try_parse(&good[1..]), None);
    assert_eq!(BcXml::try_parse(b""), None);
    assert_eq!(BcXml::try_parse(b"<body>\n</body>\n"), None);
    let text = String::from_utf8(good).unwrap();
    assert_eq!(BcXml::try_parse(text.replace("<type>", "<kind>").as_bytes()), None);
    assert_eq!(BcXml::try_parse(text.replace("</nonce>", "").as_bytes()), None);
    assert_eq!(BcXml::try_parse(text.replace("\"1.1\"", "1.1").as_bytes()), None);
    assert_eq!(BcXml::try_parse(text.replace("</body>", "</Body>").as_bytes()), None);
    assert_eq!(
        BcXml::try_parse(text.replace("abc123", "abc<123").as_bytes()),
        None
    );
}

#[test]
fn extension_blocks_in_another_form_are_rejected() {
    let text = String::from_utf8(Extension { binary_data: Some(12) }.serialize()).unwrap();
    assert_eq!(Extension::try_parse(text.replace("12", "").as_bytes()), None);
    assert_eq!(Extension::try_parse(text.replace("12", "012").as_bytes()), None);
    assert_eq!(Extension::try_parse(text.replace("12", "1x").as_bytes()), None);
    assert_eq!(Extension::try_parse(text.replace("12", "-1").as_bytes()), None);
    assert_eq!(Extension::try_parse(text.replace("12", "4294967296").as_bytes()), None);
    assert_eq!(
        Extension::try_parse(text.replace("12", "4294967295").as_bytes()),
        Some(Extension { binary_data: Some(4_294_967_295) })
    );
    assert_eq!(Extension::try_parse(text.replace("</binaryData>", "").as_bytes()), None);
    assert_eq!(Extension::try_parse(text.replace("</Extension>\n", "").as_bytes()), None);
    assert_eq!(Extension::try_parse(&text.as_bytes()[..text.len() - 1]), None);
    assert_eq!(Extension::try_parse(format!("{} ", text).as_bytes()), None);
    assert_eq!(Extension::try_parse(b""), None);
}

#[test]
fn encryption_element_alone() {
    let e = encryption(b"2", b"sha", b"xyz");
    let mut out = b">>".to_vec();
    e.write(&mut out);
    assert_eq!(
        out,
        b">><Encryption version=\"2\">\n<type>sha</type>\n<nonce>xyz</nonce>\n</Encryption>\n"
            .to_vec()
    );
    out.extend_from_slice(b"tail");
    let end = out.len() - 4;
    assert_eq!(Encryption::read(&out, 2), Some((e, end)));
    assert_eq!(Encryption::read(&out, 3), None);
    assert_eq!(Encryption::read(&out, out.len()), None);
}

#[test]
fn literal_at_end() {
    assert!(is_literal_at_end(b"ab</body>\n", 2, "</body>\n"));
    assert!(!is_literal_at_end(b"ab</body>\n ", 2, "</body>\n"));
    assert!(!is_literal_at_end(b"ab</body>", 2, "</body>\n"));
    assert!(!is_literal_at_end(b"ab</body>\n", 1, "</body>\n"));
    assert!(is_literal_at_end(b"ab", 2, ""));
}

#[test]
fn literals_are_written_and_matched() {
    let mut out = vec![b'x'];
    put(&mut out, "<a>");
    put_bytes(&mut out, &[0, 255]);
    put(&mut out, "");
    assert_eq!(out, vec![b'x', b'<', b'a', b'>', 0, 255]);
    assert_eq!(expect(&out, 1, "<a>"), Some(4));
    assert_eq!(expect(&out, 0, "<a>"), None);
    assert_eq!(expect(&out, 4, "<a>"), None);
    assert_eq!(expect(&out, 6, ""), Some(6));
    assert_eq!(expect(&out, 1, "<b>"), None);
}

#[test]
fn field_runs_to_the_next_delimiter() {
    let buf = b"ab<cd<";
    assert_eq!(take_until(buf, 0, b'<'), Some((b"ab".to_vec(), 2)));
    assert_eq!(take_until(buf, 2, b'<'), Some((Vec::new(), 2)));
    assert_eq!(take_until(buf, 3, b'<'), Some((b"cd".to_vec(), 5)));
    assert_eq!(take_until(buf, 6, b'<'), None);
    assert_eq!(take_until(buf, 0, b'>'), None);
}

#[test]
fn decimal_numbers() {
    for (n, text) in [
        (0u32, "0"),
        (7, "7"),
        (10, "10"),
        (99, "99"),
        (100, "100"),
        (1234567890, "1234567890"),
        (4_294_967_295, "4294967295"),
    ] {
        let mut out = Vec::new();
        put_decimal(&mut out, n);
        assert_eq!(out, text.as_bytes().to_vec());
        assert_eq!(parse_decimal(text.as_bytes()), Some(n));
    }
    for text in ["", "00", "01", "+1", "1 ", " 1", "1a", "4294967296", "99999999999999999999999"] {
        assert_eq!(parse_decimal(text.as_bytes()), None);
    }
}

#[test]
fn little_endian_numbers() {
    let mut out = Vec::new();
    put_le16(&mut out, 0x1234);
    put_le32(&mut out, 0x0abcdef0);
    put_le16(&mut out, 0xffff);
    put_le32(&mut out, 0);
    put_le32(&mut out, 0xffff_ffff);
    assert_eq!(
        out,
        vec![0x34, 0x12, 0xf0, 0xde, 0xbc, 0x0a, 0xff, 0xff, 0, 0, 0, 0, 0xff, 0xff, 0xff, 0xff]
    );
    assert_eq!(get_le16(&out, 0), 0x1234);
    assert_eq!(get_le32(&out, 2), 0x0abcdef0);
    assert_eq!(get_le16(&out, 6), 0xffff);
    assert_eq!(get_le32(&out, 8), 0);
    assert_eq!(get_le32(&out, 12), 0xffff_ffff);
    assert_eq!(get_le16(&out, 1), 0xf012);
}
