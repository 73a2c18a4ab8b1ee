//! The byte buffers of a connection.
//!
//! A connection keeps its unread input, its unsent output and the body under
//! construction in `bytes::BytesMut` values. Verus cannot look inside that
//! type, so this module names what a buffer holds and states, for each method
//! the engine calls, what the method does to it.

use bytes::Buf;
use bytes::BytesMut;
use vstd::prelude::*;

verus! {

#[verifier::external_type_specification]
#[verifier::external_body]
pub struct ExBytesMut(bytes::BytesMut);

/// The bytes a buffer holds, first to last.
pub uninterp spec fn contents(buf: BytesMut) -> Seq<u8>;

/// `BytesMut::with_capacity`: a buffer with room set aside and nothing in
/// it. The room comes from a `Vec`, which panics when asked for more than
/// `isize::MAX` bytes.
pub assume_specification[ BytesMut::with_capacity ](capacity: usize) -> (buf: BytesMut)
    requires
        capacity <= isize::MAX,
    ensures
        contents(buf) == Seq::<u8>::empty(),
;

/// `BytesMut::len`: how many bytes the buffer holds.
pub assume_specification[ BytesMut::len ](buf: &BytesMut) -> (n: usize)
    ensures
        n == contents(*buf).len(),
;

/// `BytesMut::is_empty`: whether the buffer holds no byte.
pub assume_specification[ BytesMut::is_empty ](buf: &BytesMut) -> (b: bool)
    ensures
        b == (contents(*buf).len() == 0),
;

/// `BytesMut::capacity`: how many bytes fit without reallocating. The number
/// is the allocator's business; all that is claimed is that what the buffer
/// holds fits.
pub assume_specification[ BytesMut::capacity ](buf: &BytesMut) -> (n: usize)
    ensures
        n >= contents(*buf).len(),
;

/// `BytesMut::reserve`: makes room for `additional` more bytes and leaves
/// the contents alone. It panics when the new capacity overflows, and the
/// room comes from a `Vec`, which holds no more than `isize::MAX` bytes,
/// so callers must keep within that.
pub assume_specification[ BytesMut::reserve ](buf: &mut BytesMut, additional: usize)
    requires
        contents(*old(buf)).len() + additional <= isize::MAX,
    ensures
        contents(*final(buf)) == contents(*old(buf)),
;

/// `BytesMut::extend_from_slice`: appends the given bytes at the tail.
pub assume_specification[ BytesMut::extend_from_slice ](buf: &mut BytesMut, extend: &[u8])
    ensures
        contents(*final(buf)) == contents(*old(buf)) + extend@,
;

/// `BytesMut::clear`: drops every byte.
pub assume_specification[ BytesMut::clear ](buf: &mut BytesMut)
    ensures
        contents(*final(buf)) == Seq::<u8>::empty(),
;

/// `Buf::advance` on a `BytesMut`: drops the first `cnt` bytes. It panics
/// when asked to drop more than the buffer holds.
#[verifier::external_body]
pub(crate) fn advance(buf: &mut BytesMut, cnt: usize)
    requires
        cnt <= contents(*old(buf)).len(),
    ensures
        contents(*final(buf)) == contents(*old(buf)).skip(cnt as int),
{
    buf.advance(cnt)
}

/// `Deref` on a `BytesMut`: the buffer's bytes as a slice.
#[verifier::external_body]
pub(crate) fn as_slice(buf: &BytesMut) -> (bytes: &[u8])
    ensures
        bytes@ == contents(*buf),
{
    buf
}

} // verus!
