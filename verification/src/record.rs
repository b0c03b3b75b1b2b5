//! The four-field FASTQ record and its mathematical view.

use vstd::prelude::*;

verus! {

/// Ghost model of a record: each field as a byte sequence.
pub ghost struct RecV {
    pub name: Seq<u8>,
    pub seq: Seq<u8>,
    pub plus: Seq<u8>,
    pub qual: Seq<u8>,
}

impl RecV {
    /// A record is well formed when the quality string covers the bases
    /// one for one.
    pub open spec fn wf(self) -> bool {
        self.seq.len() == self.qual.len()
    }
}

/// One FASTQ record: header, bases, separator and Phred+33 qualities,
/// each kept as raw bytes.
#[derive(Clone, Debug)]
pub struct FastqRecord {
    pub name: Vec<u8>,
    pub seq: Vec<u8>,
    pub plus: Vec<u8>,
    pub qual: Vec<u8>,
}

impl View for FastqRecord {
    type V = RecV;

    open spec fn view(&self) -> RecV {
        RecV {
            name: self.name@,
            seq: self.seq@,
            plus: self.plus@,
            qual: self.qual@,
        }
    }
}

impl FastqRecord {
    pub fn new(name: Vec<u8>, seq: Vec<u8>, plus: Vec<u8>, qual: Vec<u8>) -> (r: Self)
        ensures
            r@ == (RecV { name: name@, seq: seq@, plus: plus@, qual: qual@ }),
    {
        Self { name, seq, plus, qual }
    }

    pub open spec fn wf(&self) -> bool {
        self@.wf()
    }
}

} // verus!
