use vstd::prelude::*;

verus! {

/// Read-only handle to a process-lifetime packed byte array. Every fetch goes
/// through `get_unchecked`, the one place a byte of pixel data is loaded.
#[derive(Debug, Clone, Copy)]
pub struct Data {
    bytes: &'static [u8],
}

impl View for Data {
    type V = Seq<u8>;

    closed spec fn view(&self) -> Seq<u8> {
        self.bytes@
    }
}

impl Data {
    /// Wraps a byte array that lives for the whole process.
    pub fn from_raw(bytes: &'static [u8]) -> (d: Data)
        ensures
            d@ == bytes@,
    {
        Data { bytes }
    }

    /// The byte at offset `i`; the caller guarantees `i` is in range.
    pub fn get_unchecked(&self, i: usize) -> (b: u8)
        requires
            i < self@.len(),
        ensures
            b == self@[i as int],
    {
        self.bytes[i]
    }
}

} // verus!
