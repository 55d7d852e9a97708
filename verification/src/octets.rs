//! The byte containers of the `bytes` crate, stated over sequences of bytes.

use bytes::{Bytes as Octets, BytesMut};
use vstd::prelude::*;

verus! {

/// The immutable, cheaply cloned byte string of the `bytes` crate.
#[verifier::external_type_specification]
#[verifier::external_body]
pub struct ExOctets(Octets);

/// The growable byte buffer of the `bytes` crate.
#[verifier::external_type_specification]
#[verifier::external_body]
pub struct ExBytesMut(bytes::BytesMut);

/// The bytes that a `Bytes` holds.
pub uninterp spec fn octets(b: Octets) -> Seq<u8>;

/// The bytes that a `BytesMut` holds.
pub uninterp spec fn buffered(b: BytesMut) -> Seq<u8>;

/// `BytesMut::new` gives an empty buffer.
pub assume_specification[ BytesMut::new ]() -> (r: BytesMut)
    ensures
        buffered(r) == Seq::<u8>::empty(),
;

/// `BytesMut::with_capacity` gives an empty buffer; it panics where the capacity is over
/// `isize::MAX`.
pub assume_specification[ BytesMut::with_capacity ](capacity: usize) -> (r: BytesMut)
    requires
        capacity <= isize::MAX,
    ensures
        buffered(r) == Seq::<u8>::empty(),
;

/// `BytesMut::len` is the number of bytes held.
pub assume_specification[ BytesMut::len ](b: &BytesMut) -> (r: usize)
    ensures
        r == buffered(*b).len(),
;

/// `BytesMut::is_empty` tells whether no byte is held.
pub assume_specification[ BytesMut::is_empty ](b: &BytesMut) -> (r: bool)
    ensures
        r == (buffered(*b).len() == 0),
;

/// `BytesMut::extend_from_slice` appends the slice. Growing doubles the allocation, which panics
/// where it would pass `isize::MAX`.
pub assume_specification[ BytesMut::extend_from_slice ](b: &mut BytesMut, extend: &[u8])
    requires
        buffered(*old(b)).len() + extend@.len() <= isize::MAX / 2,
    ensures
        buffered(*final(b)) == buffered(*old(b)) + extend@,
;

/// `BytesMut::freeze` hands the bytes over unchanged.
pub assume_specification[ BytesMut::freeze ](b: BytesMut) -> (r: Octets)
    ensures
        octets(r) == buffered(b),
;

/// `Bytes::len` is the number of bytes held.
pub assume_specification[ Octets::len ](b: &Octets) -> (r: usize)
    ensures
        r == octets(*b).len(),
;

/// `Bytes::is_empty` tells whether no byte is held.
pub assume_specification[ Octets::is_empty ](b: &Octets) -> (r: bool)
    ensures
        r == (octets(*b).len() == 0),
;

/// `Bytes::as_ref` lends the bytes held.
#[verifier::external_body]
pub(crate) fn octet_slice(b: &Octets) -> (r: &[u8])
    ensures
        r@ == octets(*b),
{
    b.as_ref()
}

/// `Bytes::clone` shares the same bytes.
#[verifier::external_body]
pub(crate) fn octet_clone(b: &Octets) -> (r: Octets)
    ensures
        octets(r) == octets(*b),
{
    b.clone()
}

} // verus!
