//! Byte buffers, shared and growing, from the `bytes` crate.

use bytes::{Bytes, BytesMut};
use vstd::prelude::*;

verus! {

/// A shared, immutable byte buffer.
#[verifier::external_type_specification]
#[verifier::external_body]
pub struct ExBytes(bytes::Bytes);

/// A byte buffer under construction.
#[verifier::external_type_specification]
#[verifier::external_body]
pub struct ExBytesMut(bytes::BytesMut);

/// The bytes that a `Bytes` holds.
pub uninterp spec fn bytes_contents(b: bytes::Bytes) -> Seq<u8>;

/// The bytes that a `BytesMut` holds.
pub uninterp spec fn bytes_mut_contents(b: bytes::BytesMut) -> Seq<u8>;

/// Calls `Bytes::as_ref`: the bytes it holds, as a slice.
#[verifier::external_body]
pub(crate) fn as_slice(b: &Bytes) -> (r: &[u8])
    ensures
        r@ == bytes_contents(*b),
{
    b.as_ref()
}

/// Calls `Bytes::slice` for a range without end: what the buffer holds from `from` on.
/// `Bytes::slice` panics where the range starts behind the end.
#[verifier::external_body]
pub(crate) fn slice_from(b: &Bytes, from: usize) -> (r: Bytes)
    requires
        from <= bytes_contents(*b).len(),
    ensures
        bytes_contents(r) == bytes_contents(*b).skip(from as int),
{
    b.slice(from..)
}

/// Calls `Bytes::from` on a vector: a buffer that holds its elements.
#[verifier::external_body]
pub(crate) fn from_vec(v: Vec<u8>) -> (r: Bytes)
    ensures
        bytes_contents(r) == v@,
{
    Bytes::from(v)
}

/// Calls `BytesMut::with_capacity`: an empty buffer. It panics where that many bytes exceed
/// the largest allocation.
#[verifier::external_body]
pub(crate) fn with_capacity(capacity: usize) -> (r: BytesMut)
    requires
        capacity <= isize::MAX,
    ensures
        bytes_mut_contents(r) == Seq::<u8>::empty(),
{
    BytesMut::with_capacity(capacity)
}

/// Calls `BufMut::put` on a `BytesMut`: appends all that `src` holds. It panics where the
/// result exceeds the largest allocation.
#[verifier::external_body]
pub(crate) fn put(buf: &mut BytesMut, src: Bytes)
    requires
        bytes_mut_contents(*old(buf)).len() + bytes_contents(src).len() <= isize::MAX,
    ensures
        bytes_mut_contents(*final(buf)) == bytes_mut_contents(*old(buf)) + bytes_contents(src),
{
    bytes::BufMut::put(buf, src)
}

/// Calls `BytesMut::freeze`: the same bytes, no longer changeable.
#[verifier::external_body]
pub(crate) fn freeze(buf: BytesMut) -> (r: Bytes)
    ensures
        bytes_contents(r) == bytes_mut_contents(buf),
{
    buf.freeze()
}

/// A buffer that holds `head` and then what `tail` holds.
pub(crate) fn concat(head: Vec<u8>, tail: Bytes, capacity: usize) -> (r: Bytes)
    requires
        capacity <= isize::MAX,
        head@.len() + bytes_contents(tail).len() <= isize::MAX,
    ensures
        bytes_contents(r) == head@ + bytes_contents(tail),
{
    let mut buf = with_capacity(capacity);
    put(&mut buf, from_vec(head));
    put(&mut buf, tail);
    freeze(buf)
}

/// Whether `a` and `b` hold the same bytes.
pub fn same_bytes(a: &Vec<u8>, b: &Vec<u8>) -> (r: bool)
    ensures
        r == (a@ == b@),
{
    if a.len() != b.len() {
        return false;
    }
    let mut i: usize = 0;
    while i < a.len()
        invariant
            i <= a.len() == b.len(),
            forall|j: int| 0 <= j < i ==> a@[j] == b@[j],
        decreases a.len() - i,
    {
        if a[i] != b[i] {
            assert(a@[i as int] != b@[i as int]);
            return false;
        }
        i = i + 1;
    }
    assert(a@ == b@);
    true
}

} // verus!
