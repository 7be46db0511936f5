//! Read access to the bytes of the common buffer shapes, for feeding any
//! of them to the reader.

use vstd::prelude::*;
use vstd::utf8::encode_utf8;

verus! {

/// A value with an underlying byte sequence.
pub trait Bytes {
    /// The byte sequence the value denotes.
    spec fn byte_view(&self) -> Seq<u8>;

    /// The underlying bytes.
    fn bytes(&self) -> (r: &[u8])
        ensures
            r@ == self.byte_view(),
    ;
}

impl Bytes for Vec<u8> {
    open spec fn byte_view(&self) -> Seq<u8> {
        self@
    }

    fn bytes(&self) -> (r: &[u8]) {
        self.as_slice()
    }
}

impl Bytes for &[u8] {
    open spec fn byte_view(&self) -> Seq<u8> {
        self@
    }

    fn bytes(&self) -> (r: &[u8]) {
        *self
    }
}

impl Bytes for String {
    open spec fn byte_view(&self) -> Seq<u8> {
        encode_utf8(self@)
    }

    fn bytes(&self) -> (r: &[u8]) {
        self.as_str().as_bytes()
    }
}

impl Bytes for &str {
    open spec fn byte_view(&self) -> Seq<u8> {
        encode_utf8(self@)
    }

    fn bytes(&self) -> (r: &[u8]) {
        self.as_bytes()
    }
}

} // verus!
