//! The structured documents that packets carry: the payload document and the
//! extension block.
//!
//! Both are written in one fixed textual form. A document is read only if it
//! has that form; anything else is rejected. Character data is taken as it
//! stands, without entities: a field cannot hold the byte that ends it.

use crate::num::{decimal, decimal_value};
use crate::num::{lemma_decimal_roundtrip, lemma_decimal_unique, parse_decimal, put_decimal};
use crate::text::{after, ascii, free_of, index_of};
use crate::text::{expect, put, put_bytes, take_until};
use crate::text::{lemma_after, lemma_after_sound, lemma_field, lemma_field_sound};
use crate::text::{lemma_index_of, lemma_skip_skip};
use vstd::prelude::*;
use vstd::string::*;

verus! {

pub const XML_PROLOG: &'static str = "<?xml version=\"1.0\" encoding=\"UTF-8\" ?>\n";

pub const BODY_OPEN: &'static str = "<body>\n";

pub const BODY_CLOSE: &'static str = "</body>\n";

pub const ENC_OPEN: &'static str = "<Encryption version=\"";

pub const ENC_TYPE: &'static str = "\">\n<type>";

pub const ENC_NONCE: &'static str = "</type>\n<nonce>";

pub const ENC_CLOSE: &'static str = "</nonce>\n</Encryption>\n";

pub const EXT_OPEN: &'static str = "<Extension version=\"1.1\">\n";

pub const EXT_BIN_OPEN: &'static str = "<binaryData>";

pub const EXT_BIN_CLOSE: &'static str = "</binaryData>\n";

pub const EXT_CLOSE: &'static str = "</Extension>\n";

/// The byte `"`, which ends an attribute value.
pub const QUOTE: u8 = 34;

/// The byte `<`, which ends character data.
pub const LT: u8 = 60;

/// The encryption element of a login exchange.
#[derive(Debug, Clone, PartialEq, Eq)]
pub struct Encryption {
    /// The value of the `version` attribute.
    pub version: Vec<u8>,
    /// The name of the digest that the peer expects.
    pub type_: Vec<u8>,
    /// The nonce from which the session key is derived.
    pub nonce: Vec<u8>,
}

/// The mathematical value of an `Encryption`.
pub struct EncryptionView {
    pub version: Seq<u8>,
    pub type_: Seq<u8>,
    pub nonce: Seq<u8>,
}

impl View for Encryption {
    type V = EncryptionView;

    open spec fn view(&self) -> EncryptionView {
        EncryptionView { version: self.version@, type_: self.type_@, nonce: self.nonce@ }
    }
}

/// The payload document.
#[derive(Debug, Clone, PartialEq, Eq)]
pub struct BcXml {
    /// The encryption element, if the document has one.
    pub encryption: Option<Encryption>,
}

/// The mathematical value of a `BcXml`.
pub struct BcXmlView {
    pub encryption: Option<EncryptionView>,
}

impl View for BcXml {
    type V = BcXmlView;

    open spec fn view(&self) -> BcXmlView {
        BcXmlView {
            encryption: match self.encryption {
                Some(e) => Some(e@),
                None => None,
            },
        }
    }
}

/// The extension block: flags that travel beside the payload.
#[derive(Debug, Clone, Copy, PartialEq, Eq)]
pub struct Extension {
    /// The binary-data flag: zero ends binary mode for the message number
    /// of the packet, any other value starts it.
    pub binary_data: Option<u32>,
}

/// `e` can be written and read back: no field holds the byte that ends it.
pub open spec fn encryption_wf(e: EncryptionView) -> bool {
    &&& free_of(e.version, QUOTE)
    &&& free_of(e.type_, LT)
    &&& free_of(e.nonce, LT)
}

/// `x` can be written and read back.
pub open spec fn xml_wf(x: BcXmlView) -> bool {
    match x.encryption {
        Some(e) => encryption_wf(e),
        None => true,
    }
}

/// The text of an encryption element.
pub open spec fn encryption_text(e: EncryptionView) -> Seq<u8> {
    ascii(ENC_OPEN) + e.version + ascii(ENC_TYPE) + e.type_ + ascii(ENC_NONCE) + e.nonce + ascii(
        ENC_CLOSE,
    )
}

/// The text of a payload document.
pub open spec fn xml_text(x: BcXmlView) -> Seq<u8> {
    ascii(XML_PROLOG) + ascii(BODY_OPEN) + (match x.encryption {
        Some(e) => encryption_text(e),
        None => Seq::empty(),
    }) + ascii(BODY_CLOSE)
}

/// The text of an extension block.
pub open spec fn extension_text(e: Extension) -> Seq<u8> {
    ascii(XML_PROLOG) + ascii(EXT_OPEN) + (match e.binary_data {
        Some(v) => ascii(EXT_BIN_OPEN) + decimal(v as nat) + ascii(EXT_BIN_CLOSE),
        None => Seq::empty(),
    }) + ascii(EXT_CLOSE)
}

/// Reads an encryption element from the start of `s`. Returns the element
/// and what follows it.
pub open spec fn parse_encryption(s: Seq<u8>) -> Option<(EncryptionView, Seq<u8>)> {
    match after(s, ascii(ENC_OPEN)) {
        None => None,
        Some(s1) => {
            let k1 = index_of(s1, QUOTE);
            match after(s1.skip(k1), ascii(ENC_TYPE)) {
                None => None,
                Some(s2) => {
                    let k2 = index_of(s2, LT);
                    match after(s2.skip(k2), ascii(ENC_NONCE)) {
                        None => None,
                        Some(s3) => {
                            let k3 = index_of(s3, LT);
                            match after(s3.skip(k3), ascii(ENC_CLOSE)) {
                                None => None,
                                Some(s4) => Some(
                                    (
                                        EncryptionView {
                                            version: s1.take(k1),
                                            type_: s2.take(k2),
                                            nonce: s3.take(k3),
                                        },
                                        s4,
                                    ),
                                ),
                            }
                        },
                    }
                },
            }
        },
    }
}

/// Reads a payload document. `None` if `s` is not one.
pub open spec fn parse_xml(s: Seq<u8>) -> Option<BcXmlView> {
    match after(s, ascii(XML_PROLOG)) {
        None => None,
        Some(s1) => match after(s1, ascii(BODY_OPEN)) {
            None => None,
            Some(s2) => if s2 == ascii(BODY_CLOSE) {
                Some(BcXmlView { encryption: None })
            } else {
                match parse_encryption(s2) {
                    None => None,
                    Some((e, s3)) => if s3 == ascii(BODY_CLOSE) {
                        Some(BcXmlView { encryption: Some(e) })
                    } else {
                        None
                    },
                }
            },
        },
    }
}

/// Reads an extension block. `None` if `s` is not one.
pub open spec fn parse_extension(s: Seq<u8>) -> Option<Extension> {
    match after(s, ascii(XML_PROLOG)) {
        None => None,
        Some(s1) => match after(s1, ascii(EXT_OPEN)) {
            None => None,
            Some(s2) => if s2 == ascii(EXT_CLOSE) {
                Some(Extension { binary_data: None })
            } else {
                match after(s2, ascii(EXT_BIN_OPEN)) {
                    None => None,
                    Some(s3) => {
                        let k = index_of(s3, LT);
                        match decimal_value(s3.take(k)) {
                            None => None,
                            Some(n) => if n <= u32::MAX && s3.skip(k) == ascii(EXT_BIN_CLOSE)
                                + ascii(EXT_CLOSE) {
                                Some(Extension { binary_data: Some(n as u32) })
                            } else {
                                None
                            },
                        }
                    },
                }
            },
        },
    }
}

/// The literals of the two documents are ASCII, so their bytes are their
/// characters. Their lengths, and the bytes by which one is told from
/// another: each literal that follows a field begins with the byte that ends
/// the field.
pub proof fn lemma_literals()
    ensures
        XML_PROLOG.spec_bytes() == ascii(XML_PROLOG),
        BODY_OPEN.spec_bytes() == ascii(BODY_OPEN),
        BODY_CLOSE.spec_bytes() == ascii(BODY_CLOSE),
        ENC_OPEN.spec_bytes() == ascii(ENC_OPEN),
        ENC_TYPE.spec_bytes() == ascii(ENC_TYPE),
        ENC_NONCE.spec_bytes() == ascii(ENC_NONCE),
        ENC_CLOSE.spec_bytes() == ascii(ENC_CLOSE),
        EXT_OPEN.spec_bytes() == ascii(EXT_OPEN),
        EXT_BIN_OPEN.spec_bytes() == ascii(EXT_BIN_OPEN),
        EXT_BIN_CLOSE.spec_bytes() == ascii(EXT_BIN_CLOSE),
        EXT_CLOSE.spec_bytes() == ascii(EXT_CLOSE),
        ascii(XML_PROLOG).len() == 40,
        ascii(BODY_OPEN).len() == 7,
        ascii(BODY_CLOSE).len() == 8,
        ascii(ENC_OPEN).len() == 21,
        ascii(ENC_TYPE).len() == 9,
        ascii(ENC_NONCE).len() == 15,
        ascii(ENC_CLOSE).len() == 23,
        ascii(EXT_OPEN).len() == 26,
        ascii(EXT_BIN_OPEN).len() == 12,
        ascii(EXT_BIN_CLOSE).len() == 14,
        ascii(EXT_CLOSE).len() == 13,
        ascii(ENC_TYPE)[0] == QUOTE,
        ascii(ENC_NONCE)[0] == LT,
        ascii(ENC_CLOSE)[0] == LT,
        ascii(EXT_BIN_CLOSE)[0] == LT,
        ascii(EXT_BIN_OPEN)[1] == 98,
        ascii(EXT_CLOSE)[1] == 47,
{
    reveal_strlit("<?xml version=\"1.0\" encoding=\"UTF-8\" ?>\n");
    reveal_strlit("<body>\n");
    reveal_strlit("</body>\n");
    reveal_strlit("<Encryption version=\"");
    reveal_strlit("\">\n<type>");
    reveal_strlit("</type>\n<nonce>");
    reveal_strlit("</nonce>\n</Encryption>\n");
    reveal_strlit("<Extension version=\"1.1\">\n");
    reveal_strlit("<binaryData>");
    reveal_strlit("</binaryData>\n");
    reveal_strlit("</Extension>\n");
    is_ascii_spec_bytes(XML_PROLOG);
    is_ascii_spec_bytes(BODY_OPEN);
    is_ascii_spec_bytes(BODY_CLOSE);
    is_ascii_spec_bytes(ENC_OPEN);
    is_ascii_spec_bytes(ENC_TYPE);
    is_ascii_spec_bytes(ENC_NONCE);
    is_ascii_spec_bytes(ENC_CLOSE);
    is_ascii_spec_bytes(EXT_OPEN);
    is_ascii_spec_bytes(EXT_BIN_OPEN);
    is_ascii_spec_bytes(EXT_BIN_CLOSE);
    is_ascii_spec_bytes(EXT_CLOSE);
}

/// An encryption element that was written is read back as it was, and
/// what stood behind it is left over.
pub proof fn lemma_encryption_roundtrip(e: EncryptionView, rest: Seq<u8>)
    requires
        encryption_wf(e),
    ensures
        parse_encryption(encryption_text(e) + rest) == Some((e, rest)),
{
    lemma_literals();
    let t4 = ascii(ENC_CLOSE) + rest;
    let t3 = ascii(ENC_NONCE) + (e.nonce + t4);
    let t2 = ascii(ENC_TYPE) + (e.type_ + t3);
    let s = ascii(ENC_OPEN) + (e.version + t2);
    assert(encryption_text(e) + rest =~= s);
    lemma_after(ascii(ENC_OPEN), e.version + t2);
    lemma_field(e.version, t2, QUOTE);
    lemma_after(ascii(ENC_TYPE), e.type_ + t3);
    lemma_field(e.type_, t3, LT);
    lemma_after(ascii(ENC_NONCE), e.nonce + t4);
    lemma_field(e.nonce, t4, LT);
    lemma_after(ascii(ENC_CLOSE), rest);
}

/// A payload document that was written is read back as it was.
pub proof fn lemma_xml_roundtrip(x: BcXmlView)
    requires
        xml_wf(x),
    ensures
        parse_xml(xml_text(x)) == Some(x),
{
    lemma_literals();
    match x.encryption {
        None => {
            let s2 = ascii(BODY_CLOSE);
            let s1 = ascii(BODY_OPEN) + s2;
            assert(xml_text(x) =~= ascii(XML_PROLOG) + s1);
            lemma_after(ascii(XML_PROLOG), s1);
            lemma_after(ascii(BODY_OPEN), s2);
        },
        Some(e) => {
            let s2 = encryption_text(e) + ascii(BODY_CLOSE);
            let s1 = ascii(BODY_OPEN) + s2;
            assert(xml_text(x) =~= ascii(XML_PROLOG) + s1);
            lemma_after(ascii(XML_PROLOG), s1);
            lemma_after(ascii(BODY_OPEN), s2);
            lemma_encryption_roundtrip(e, ascii(BODY_CLOSE));
        },
    }
}

/// An extension block that was written is read back as it was.
pub proof fn lemma_extension_roundtrip(e: Extension)
    ensures
        parse_extension(extension_text(e)) == Some(e),
{
    lemma_literals();
    match e.binary_data {
        None => {
            let s2 = ascii(EXT_CLOSE);
            let s1 = ascii(EXT_OPEN) + s2;
            assert(extension_text(e) =~= ascii(XML_PROLOG) + s1);
            lemma_after(ascii(XML_PROLOG), s1);
            lemma_after(ascii(EXT_OPEN), s2);
        },
        Some(v) => {
            let tail = ascii(EXT_BIN_CLOSE) + ascii(EXT_CLOSE);
            let digits = decimal(v as nat);
            let s3 = digits + tail;
            let s2 = ascii(EXT_BIN_OPEN) + s3;
            let s1 = ascii(EXT_OPEN) + s2;
            assert(extension_text(e) =~= ascii(XML_PROLOG) + s1);
            lemma_after(ascii(XML_PROLOG), s1);
            lemma_after(ascii(EXT_OPEN), s2);
            lemma_after(ascii(EXT_BIN_OPEN), s3);
            lemma_decimal_roundtrip(v as nat);
            lemma_field(digits, tail, LT);
        },
    }
}

/// Whatever is read as an encryption element is the text of that element,
/// followed by what is left over, and the element can be written again.
pub proof fn lemma_encryption_canonical(s: Seq<u8>)
    requires
        parse_encryption(s) is Some,
    ensures
        encryption_wf(parse_encryption(s).unwrap().0),
        s == encryption_text(parse_encryption(s).unwrap().0) + parse_encryption(s).unwrap().1,
{
    let (e, rest) = parse_encryption(s).unwrap();
    let s1 = after(s, ascii(ENC_OPEN)).unwrap();
    let k1 = index_of(s1, QUOTE);
    let s2 = after(s1.skip(k1), ascii(ENC_TYPE)).unwrap();
    let k2 = index_of(s2, LT);
    let s3 = after(s2.skip(k2), ascii(ENC_NONCE)).unwrap();
    let k3 = index_of(s3, LT);
    lemma_after_sound(s, ascii(ENC_OPEN));
    lemma_field_sound(s1, QUOTE);
    lemma_after_sound(s1.skip(k1), ascii(ENC_TYPE));
    lemma_field_sound(s2, LT);
    lemma_after_sound(s2.skip(k2), ascii(ENC_NONCE));
    lemma_field_sound(s3, LT);
    lemma_after_sound(s3.skip(k3), ascii(ENC_CLOSE));
}

/// Whatever is read as a payload document is the text of that document,
/// and the document can be written again.
pub proof fn lemma_xml_canonical(s: Seq<u8>)
    requires
        parse_xml(s) is Some,
    ensures
        xml_wf(parse_xml(s).unwrap()),
        xml_text(parse_xml(s).unwrap()) == s,
{
    let x = parse_xml(s).unwrap();
    let s1 = after(s, ascii(XML_PROLOG)).unwrap();
    let s2 = after(s1, ascii(BODY_OPEN)).unwrap();
    lemma_after_sound(s, ascii(XML_PROLOG));
    lemma_after_sound(s1, ascii(BODY_OPEN));
    if s2 != ascii(BODY_CLOSE) {
        lemma_encryption_canonical(s2);
    }
}

/// Whatever is read as an extension block is the text of that block.
pub proof fn lemma_extension_canonical(s: Seq<u8>)
    requires
        parse_extension(s) is Some,
    ensures
        extension_text(parse_extension(s).unwrap()) == s,
{
    let e = parse_extension(s).unwrap();
    let s1 = after(s, ascii(XML_PROLOG)).unwrap();
    let s2 = after(s1, ascii(EXT_OPEN)).unwrap();
    lemma_after_sound(s, ascii(XML_PROLOG));
    lemma_after_sound(s1, ascii(EXT_OPEN));
    if s2 != ascii(EXT_CLOSE) {
        let s3 = after(s2, ascii(EXT_BIN_OPEN)).unwrap();
        let k = index_of(s3, LT);
        lemma_after_sound(s2, ascii(EXT_BIN_OPEN));
        lemma_field_sound(s3, LT);
        lemma_decimal_unique(s3.take(k));
    }
}

impl Encryption {
    /// Appends the text of the element.
    pub fn write(&self, out: &mut Vec<u8>)
        ensures
            final(out)@ == old(out)@ + encryption_text(self@),
    {
        proof {
            lemma_literals();
        }
        put(out, ENC_OPEN);
        put_bytes(out, self.version.as_slice());
        put(out, ENC_TYPE);
        put_bytes(out, self.type_.as_slice());
        put(out, ENC_NONCE);
        put_bytes(out, self.nonce.as_slice());
        put(out, ENC_CLOSE);
    }

    /// Reads an element that begins at `pos`. Returns the element and the
    /// position behind it.
    pub fn read(doc: &[u8], pos: usize) -> (r: Option<(Encryption, usize)>)
        requires
            pos <= doc@.len(),
        ensures
            match parse_encryption(doc@.skip(pos as int)) {
                Some((v, rest)) => r is Some && r.unwrap().0@ == v && pos <= r.unwrap().1
                    <= doc@.len() && rest == doc@.skip(r.unwrap().1 as int),
                None => r is None,
            },
    {
        proof {
            lemma_literals();
        }
        let at1 = match expect(doc, pos, ENC_OPEN) {
            Some(p) => p,
            None => {
                return None;
            },
        };
        let ghost s1 = doc@.skip(at1 as int);
        proof {
            lemma_skip_skip(doc@, pos as int, 21);
            lemma_index_of(s1, QUOTE);
        }
        let (version, q1) = match take_until(doc, at1, QUOTE) {
            Some(x) => x,
            None => {
                return None;
            },
        };
        proof {
            lemma_skip_skip(doc@, at1 as int, index_of(s1, QUOTE));
        }
        let at2 = match expect(doc, q1, ENC_TYPE) {
            Some(p) => p,
            None => {
                return None;
            },
        };
        let ghost s2 = doc@.skip(at2 as int);
        proof {
            lemma_skip_skip(doc@, q1 as int, 9);
            lemma_index_of(s2, LT);
        }
        let (type_, q2) = match take_until(doc, at2, LT) {
            Some(x) => x,
            None => {
                return None;
            },
        };
        proof {
            lemma_skip_skip(doc@, at2 as int, index_of(s2, LT));
        }
        let at3 = match expect(doc, q2, ENC_NONCE) {
            Some(p) => p,
            None => {
                return None;
            },
        };
        let ghost s3 = doc@.skip(at3 as int);
        proof {
            lemma_skip_skip(doc@, q2 as int, 15);
            lemma_index_of(s3, LT);
        }
        let (nonce, q3) = match take_until(doc, at3, LT) {
            Some(x) => x,
            None => {
                return None;
            },
        };
        proof {
            lemma_skip_skip(doc@, at3 as int, index_of(s3, LT));
        }
        let at4 = match expect(doc, q3, ENC_CLOSE) {
            Some(p) => p,
            None => {
                return None;
            },
        };
        proof {
            lemma_skip_skip(doc@, q3 as int, 23);
        }
        Some((Encryption { version, type_, nonce }, at4))
    }
}

impl BcXml {
    /// The text of the document.
    pub fn serialize(&self) -> (out: Vec<u8>)
        ensures
            out@ == xml_text(self@),
    {
        proof {
            lemma_literals();
        }
        let mut out: Vec<u8> = Vec::new();
        put(&mut out, XML_PROLOG);
        put(&mut out, BODY_OPEN);
        match &self.encryption {
            Some(e) => {
                e.write(&mut out);
            },
            None => {},
        }
        put(&mut out, BODY_CLOSE);
        out
    }

    /// Reads a document. `None` if `doc` is not one.
    pub fn try_parse(doc: &[u8]) -> (r: Option<BcXml>)
        ensures
            match parse_xml(doc@) {
                Some(v) => r is Some && r.unwrap()@ == v,
                None => r is None,
            },
    {
        proof {
            lemma_literals();
            assert(doc@.skip(0) =~= doc@);
        }
        let at1 = match expect(doc, 0, XML_PROLOG) {
            Some(p) => p,
            None => {
                return None;
            },
        };
        let at2 = match expect(doc, at1, BODY_OPEN) {
            Some(p) => p,
            None => {
                return None;
            },
        };
        let ghost s2 = doc@.skip(at2 as int);
        proof {
            lemma_skip_skip(doc@, at1 as int, 7);
        }
        if is_literal_at_end(doc, at2, BODY_CLOSE) {
            return Some(BcXml { encryption: None });
        }
        let (e, at3) = match Encryption::read(doc, at2) {
            Some(x) => x,
            None => {
                return None;
            },
        };
        if is_literal_at_end(doc, at3, BODY_CLOSE) {
            Some(BcXml { encryption: Some(e) })
        } else {
            None
        }
    }
}

/// Tests whether what stands from `pos` to the end of `doc` is exactly
/// `lit`.
pub fn is_literal_at_end(doc: &[u8], pos: usize, lit: &str) -> (r: bool)
    requires
        pos <= doc@.len(),
    ensures
        r == (doc@.skip(pos as int) == lit.spec_bytes()),
{
    let ghost rest = doc@.skip(pos as int);
    match expect(doc, pos, lit) {
        Some(end) => {
            if end == doc.len() {
                assert(rest.take(rest.len() as int) =~= rest);
                true
            } else {
                false
            }
        },
        None => {
            proof {
                if rest == lit.spec_bytes() {
                    assert(rest.take(rest.len() as int) =~= rest);
                }
            }
            false
        },
    }
}

impl Extension {
    /// The text of the block.
    pub fn serialize(&self) -> (out: Vec<u8>)
        ensures
            out@ == extension_text(*self),
    {
        proof {
            lemma_literals();
        }
        let mut out: Vec<u8> = Vec::new();
        put(&mut out, XML_PROLOG);
        put(&mut out, EXT_OPEN);
        match self.binary_data {
            Some(v) => {
                put(&mut out, EXT_BIN_OPEN);
                put_decimal(&mut out, v);
                put(&mut out, EXT_BIN_CLOSE);
            },
            None => {},
        }
        put(&mut out, EXT_CLOSE);
        out
    }

    /// Reads a block. `None` if `doc` is not one.
    pub fn try_parse(doc: &[u8]) -> (r: Option<Extension>)
        ensures
            r == parse_extension(doc@),
    {
        proof {
            lemma_literals();
            assert(doc@.skip(0) =~= doc@);
        }
        let at1 = match expect(doc, 0, XML_PROLOG) {
            Some(p) => p,
            None => {
                return None;
            },
        };
        let at2 = match expect(doc, at1, EXT_OPEN) {
            Some(p) => p,
            None => {
                return None;
            },
        };
        proof {
            lemma_skip_skip(doc@, at1 as int, 26);
        }
        if is_literal_at_end(doc, at2, EXT_CLOSE) {
            return Some(Extension { binary_data: None });
        }
        let at3 = match expect(doc, at2, EXT_BIN_OPEN) {
            Some(p) => p,
            None => {
                return None;
            },
        };
        let ghost s3 = doc@.skip(at3 as int);
        proof {
            lemma_skip_skip(doc@, at2 as int, 12);
            lemma_index_of(s3, LT);
        }
        let (digits, q3) = match take_until(doc, at3, LT) {
            Some(x) => x,
            None => {
                proof {
                    assert((ascii(EXT_BIN_CLOSE) + ascii(EXT_CLOSE)).len() == 27);
                }
                return None;
            },
        };
        proof {
            lemma_skip_skip(doc@, at3 as int, index_of(s3, LT));
        }
        let value = match parse_decimal(digits.as_slice()) {
            Some(v) => v,
            None => {
                return None;
            },
        };
        let at4 = match expect(doc, q3, EXT_BIN_CLOSE) {
            Some(p) => p,
            None => {
                proof {
                    let tail = ascii(EXT_BIN_CLOSE) + ascii(EXT_CLOSE);
                    if doc@.skip(q3 as int) == tail {
                        assert(tail.take(14) =~= ascii(EXT_BIN_CLOSE));
                    }
                }
                return None;
            },
        };
        proof {
            lemma_skip_skip(doc@, q3 as int, 14);
            let tail = ascii(EXT_BIN_CLOSE) + ascii(EXT_CLOSE);
            let r3 = doc@.skip(q3 as int);
            let r4 = doc@.skip(at4 as int);
            if r4 == ascii(EXT_CLOSE) {
                assert(r3 == tail);
            }
            if r3 == tail {
                assert(tail.skip(14) =~= ascii(EXT_CLOSE));
            }
        }
        if is_literal_at_end(doc, at4, EXT_CLOSE) {
            Some(Extension { binary_data: Some(value) })
        } else {
            None
        }
    }
}

} // verus!
