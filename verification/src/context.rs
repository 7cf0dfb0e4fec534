//! The state of one connection: its credentials, the cipher in force, and
//! the message numbers that are in binary mode.
//!
//! A context starts with the keyless cipher and no message number in binary
//! mode. Only decoding changes it.

use crate::credentials::{Credentials, CredentialsView};
use crate::crypto::{EncryptionProtocol, ProtocolView};
use std::collections::HashSet;
use vstd::prelude::*;
use vstd::std_specs::hash::group_hash_axioms;

verus! {

broadcast use group_hash_axioms;

/// The state of one connection.
pub struct BcContext {
    credentials: Credentials,
    in_bin_mode: HashSet<u16>,
    encryption_protocol: EncryptionProtocol,
}

/// The mathematical value of a `BcContext`.
pub struct BcContextView {
    pub credentials: CredentialsView,
    pub protocol: ProtocolView,
    pub in_binary: Set<u16>,
}

impl View for BcContext {
    type V = BcContextView;

    closed spec fn view(&self) -> BcContextView {
        BcContextView {
            credentials: self.credentials@,
            protocol: self.encryption_protocol@,
            in_binary: self.in_bin_mode@,
        }
    }
}

impl BcContext {
    /// The context of a new connection: the keyless cipher, and no message
    /// number in binary mode.
    pub fn new(credentials: Credentials) -> (context: BcContext)
        ensures
            context@.credentials == credentials@,
            context@.protocol == ProtocolView::BCEncrypt,
            context@.in_binary == Set::<u16>::empty(),
    {
        BcContext {
            credentials,
            in_bin_mode: HashSet::new(),
            encryption_protocol: EncryptionProtocol::BCEncrypt,
        }
    }

    /// The credentials of the connection.
    pub fn credentials(&self) -> (c: &Credentials)
        ensures
            c@ == self@.credentials,
    {
        &self.credentials
    }

    /// The cipher in force.
    pub fn get_encrypted(&self) -> (protocol: &EncryptionProtocol)
        ensures
            protocol@ == self@.protocol,
    {
        &self.encryption_protocol
    }

    /// Puts another cipher in force.
    pub fn set_encrypted(&mut self, protocol: EncryptionProtocol)
        ensures
            final(self)@.protocol == protocol@,
            final(self)@.credentials == old(self)@.credentials,
            final(self)@.in_binary == old(self)@.in_binary,
    {
        self.encryption_protocol = protocol;
    }

    /// Puts `msg_num` in binary mode.
    pub fn binary_on(&mut self, msg_num: u16)
        ensures
            final(self)@.in_binary == old(self)@.in_binary.insert(msg_num),
            final(self)@.protocol == old(self)@.protocol,
            final(self)@.credentials == old(self)@.credentials,
    {
        self.in_bin_mode.insert(msg_num);
    }

    /// Takes `msg_num` out of binary mode.
    pub fn binary_off(&mut self, msg_num: u16)
        ensures
            final(self)@.in_binary == old(self)@.in_binary.remove(msg_num),
            final(self)@.protocol == old(self)@.protocol,
            final(self)@.credentials == old(self)@.credentials,
    {
        self.in_bin_mode.remove(&msg_num);
    }

    /// Whether `msg_num` is in binary mode.
    pub fn is_binary(&self, msg_num: u16) -> (b: bool)
        ensures
            b == self@.in_binary.contains(msg_num),
    {
        self.in_bin_mode.contains(&msg_num)
    }
}

} // verus!
