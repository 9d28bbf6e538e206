//! The streams of a compound file.

use vstd::prelude::*;

verus! {

/// One stream of an OLE compound file, with its contents.
#[derive(Debug)]
pub struct OleStream {
    pub stream: Vec<u8>,
}

impl View for OleStream {
    type V = Seq<u8>;

    open spec fn view(&self) -> Seq<u8> {
        self.stream@
    }
}

} // verus!
