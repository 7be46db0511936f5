//! A byte buffer that is either borrowed from the caller or owned.
//!
//! The reader itself borrows a plain slice; this type lets a caller keep a
//! buffer alive past the call site that produced it when that is needed.

use vstd::prelude::*;

verus! {

/// A byte buffer, borrowed when the source outlives the user and owned
/// when it must not.
pub enum Bytes<'b> {
    /// A buffer borrowed from the caller.
    Borrowed(&'b [u8]),
    /// A buffer owned by this value.
    Owned(Vec<u8>),
}

impl<'b> View for Bytes<'b> {
    type V = Seq<u8>;

    open spec fn view(&self) -> Seq<u8> {
        match self {
            Bytes::Borrowed(s) => s@,
            Bytes::Owned(v) => v@,
        }
    }
}

impl<'b> Bytes<'b> {
    /// The underlying bytes, wherever they are stored.
    pub fn as_slice(&self) -> (r: &[u8])
        ensures
            r@ == self@,
    {
        match self {
            Bytes::Borrowed(s) => s,
            Bytes::Owned(v) => v.as_slice(),
        }
    }
}

/// Conversion of a caller's buffer into [`Bytes`], borrowing when possible.
pub trait IntoBytes<'b>: Sized {
    /// The byte sequence the value denotes.
    spec fn byte_view(self) -> Seq<u8>;

    /// Wraps `self` as [`Bytes`] without changing its contents.
    fn into_bytes(self) -> (r: Bytes<'b>)
        ensures
            r@ == self.byte_view(),
    ;
}

impl<'b> IntoBytes<'b> for &'b [u8] {
    open spec fn byte_view(self) -> Seq<u8> {
        self@
    }

    fn into_bytes(self) -> (r: Bytes<'b>) {
        Bytes::Borrowed(self)
    }
}

impl<'b> IntoBytes<'b> for Vec<u8> {
    open spec fn byte_view(self) -> Seq<u8> {
        self@
    }

    fn into_bytes(self) -> (r: Bytes<'b>) {
        Bytes::Owned(self)
    }
}

} // verus!
