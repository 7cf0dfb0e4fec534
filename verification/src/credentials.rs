//! The credentials of a connection. They are fixed when the connection is
//! made, and the codec uses them for one thing: to derive the session key.

use crate::crypto::{derive_aes_key, derive_key};
use vstd::prelude::*;
use vstd::utf8::encode_utf8;

verus! {

/// The name and password with which a connection logs in.
#[derive(Debug, Clone, PartialEq, Eq)]
pub struct Credentials {
    pub username: String,
    pub password: Option<String>,
}

/// The mathematical value of a `Credentials`.
pub struct CredentialsView {
    pub username: Seq<char>,
    pub password: Option<Seq<char>>,
}

impl View for Credentials {
    type V = CredentialsView;

    open spec fn view(&self) -> CredentialsView {
        CredentialsView {
            username: self.username@,
            password: match self.password {
                Some(p) => Some(p@),
                None => None,
            },
        }
    }
}

impl CredentialsView {
    /// The password in UTF-8; empty where there is none.
    pub open spec fn password_bytes(self) -> Seq<u8> {
        match self.password {
            Some(p) => encode_utf8(p),
            None => Seq::empty(),
        }
    }

    /// The session key that these credentials give for `nonce`.
    pub open spec fn aes_key(self, nonce: Seq<u8>) -> Seq<u8> {
        derive_key(self.password_bytes(), nonce)
    }
}

impl Credentials {
    /// Credentials from a name and an optional password.
    pub fn new(username: String, password: Option<String>) -> (c: Credentials)
        ensures
            c.username == username,
            c.password == password,
    {
        Credentials { username, password }
    }

    /// Derives the session key for the nonce that the camera sent.
    pub fn make_aeskey(&self, nonce: &[u8]) -> (key: [u8; 16])
        ensures
            key@ == self@.aes_key(nonce@),
    {
        match &self.password {
            Some(p) => derive_aes_key(p.as_str().as_bytes(), nonce),
            None => {
                let empty: Vec<u8> = Vec::new();
                derive_aes_key(empty.as_slice(), nonce)
            },
        }
    }
}

} // verus!
