use vstd::prelude::*;

use bytes::Bytes;

verus! {

#[verifier::external_type_specification]
#[verifier::external_body]
pub struct ExBytes(bytes::Bytes);

/// The bytes that a `bytes::Bytes` holds.
pub uninterp spec fn bytes_content(b: Bytes) -> Seq<u8>;

/// `Bytes::len`. Claimed, as its source shows (it returns the view's length): the number of
/// bytes the value holds.
#[verifier::external_body]
fn bytes_len(b: &Bytes) -> (r: usize)
    ensures
        r == bytes_content(*b).len(),
{
    b.len()
}

/// The raw bytes of an archive entry, as the reader's raw cache holds them.
pub trait PageBytes: Clone + Send {
    /// How many bytes the value holds.
    spec fn byte_count(&self) -> nat;

    /// How many bytes the value holds, which the raw cache charges for it.
    fn byte_len(&self) -> (r: usize)
        ensures
            r == self.byte_count(),
    ;
}

impl PageBytes for Vec<u8> {
    open spec fn byte_count(&self) -> nat {
        self@.len()
    }

    fn byte_len(&self) -> (r: usize) {
        self.len()
    }
}

impl PageBytes for Bytes {
    open spec fn byte_count(&self) -> nat {
        bytes_content(*self).len()
    }

    fn byte_len(&self) -> (r: usize) {
        bytes_len(self)
    }
}

} // verus!
