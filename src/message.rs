use vstd::prelude::*;
use vstd::slice::slice_to_vec;

verus! {

/// An immutable byte payload, shared between a publisher and the queues of
/// every subscriber it is handed to.
pub struct Message {
    pub data: Vec<u8>,
}

impl Message {
    /// The payload bytes.
    pub open spec fn bytes(&self) -> Seq<u8> {
        self.data@
    }

    /// A message holding a copy of `bytes`.
    pub fn from_bytes(bytes: &[u8]) -> (r: Message)
        ensures
            r.bytes() == bytes@,
    {
        Message { data: slice_to_vec(bytes) }
    }

    /// A message that takes ownership of `vec`.
    pub fn from_vec(vec: Vec<u8>) -> (r: Message)
        ensures
            r.bytes() == vec@,
    {
        Message { data: vec }
    }

    /// The number of payload bytes.
    pub fn len(&self) -> (r: usize)
        ensures
            r == self.bytes().len(),
    {
        self.data.len()
    }
}

} // verus!
