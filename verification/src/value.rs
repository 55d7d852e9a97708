//! Values that cross the boundary between host and guest.

use bytes::Bytes;
use vstd::prelude::*;

use crate::octets::{octet_clone, octet_slice, octets};

verus! {

/// One value in its CBOR encoding.
#[derive(Debug)]
pub struct Value {
    cbor: Bytes,
}

impl View for Value {
    type V = Seq<u8>;

    /// The encoded bytes.
    closed spec fn view(&self) -> Seq<u8> {
        octets(self.cbor)
    }
}

impl Value {
    /// Wraps bytes that already hold an encoded value.
    pub fn from_cbor(cbor: Bytes) -> (r: Value)
        ensures
            r@ == octets(cbor),
    {
        Value { cbor }
    }

    /// The encoded bytes.
    pub fn as_cbor(&self) -> (r: &[u8])
        ensures
            r@ == self@,
    {
        octet_slice(&self.cbor)
    }

    /// Hands the encoded bytes over.
    pub fn into_cbor(self) -> (r: Bytes)
        ensures
            octets(r) == self@,
    {
        self.cbor
    }
}

impl Clone for Value {
    fn clone(&self) -> (r: Value)
        ensures
            r@ == self@,
    {
        Value { cbor: octet_clone(&self.cbor) }
    }
}

} // verus!
