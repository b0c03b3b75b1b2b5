//! Record-at-a-time reading from a decoded input buffer, and record
//! serialization for the output side.

use vstd::prelude::*;
use vstd::slice::{slice_subrange, slice_to_vec};
use crate::bases::{BYTE_CR, BYTE_LF};
use crate::compress::{gunzip_of, gzip_decode};
use crate::record::{FastqRecord, RecV};

verus! {

/// What can go wrong on the input side.
#[derive(Clone, Copy, Debug, PartialEq, Eq, Structural)]
pub enum FastqError {
    /// The stream ended in the middle of a four-line record.
    Truncated,
    /// The bytes were not a gzip stream.
    BadGzip,
}

/// Position of the first line feed at or after `from`, or the length.
pub open spec fn find_nl(d: Seq<u8>, from: int) -> int
    decreases d.len() - from,
{
    if from < 0 || from >= d.len() {
        d.len() as int
    } else if d[from] == BYTE_LF {
        from
    } else {
        find_nl(d, from + 1)
    }
}

/// The line starting at `pos`, without its line feed.
pub open spec fn line_content(d: Seq<u8>, pos: int) -> Seq<u8> {
    d.subrange(pos, find_nl(d, pos))
}

/// Where the next line starts.
pub open spec fn line_next(d: Seq<u8>, pos: int) -> int {
    if find_nl(d, pos) < d.len() {
        find_nl(d, pos) + 1
    } else {
        d.len() as int
    }
}

/// Drop a single trailing carriage return.
pub open spec fn strip_cr(s: Seq<u8>) -> Seq<u8> {
    if s.len() > 0 && s[s.len() - 1] == BYTE_CR {
        s.drop_last()
    } else {
        s
    }
}

/// The record parsed at `pos`: four lines, each without its line ending.
pub open spec fn rec_at(d: Seq<u8>, pos: int) -> RecV {
    let p1 = line_next(d, pos);
    let p2 = line_next(d, p1);
    let p3 = line_next(d, p2);
    RecV {
        name: strip_cr(line_content(d, pos)),
        seq: strip_cr(line_content(d, p1)),
        plus: strip_cr(line_content(d, p2)),
        qual: strip_cr(line_content(d, p3)),
    }
}

/// Where the record parsed at `pos` ends.
pub open spec fn rec_end(d: Seq<u8>, pos: int) -> int {
    line_next(d, line_next(d, line_next(d, line_next(d, pos))))
}

/// The stream ends inside the record at `pos`: a later line would start
/// past the end.
pub open spec fn rec_truncated(d: Seq<u8>, pos: int) -> bool {
    pos < d.len() && (line_next(d, pos) == d.len() || line_next(d, line_next(d, pos)) == d.len()
        || line_next(d, line_next(d, line_next(d, pos))) == d.len())
}

/// Reads records one at a time from a fully decoded input buffer.
pub struct Reader {
    data: Vec<u8>,
    pos: usize,
}

impl Reader {
    /// The decoded input bytes.
    pub closed spec fn datav(&self) -> Seq<u8> {
        self.data@
    }

    /// The read position.
    pub closed spec fn posv(&self) -> int {
        self.pos as int
    }

    pub open spec fn wf(&self) -> bool {
        0 <= self.posv() <= self.datav().len()
    }

    /// A reader over plain bytes.
    pub fn new(data: Vec<u8>) -> (r: Reader)
        ensures
            r.wf(),
            r.datav() == data@,
            r.posv() == 0,
    {
        Reader { data, pos: 0 }
    }

    /// A reader over a gzip stream: decode it first.
    pub fn from_gzip(data: Vec<u8>) -> (r: Result<Reader, FastqError>)
        ensures
            match r {
                Result::Ok(rd) => rd.wf() && gunzip_of(data@) == Option::Some(rd.datav())
                    && rd.posv() == 0,
                Result::Err(e) => e == FastqError::BadGzip && gunzip_of(data@) is None,
            },
    {
        match gzip_decode(&data) {
            Option::Some(plain) => Result::Ok(Reader { data: plain, pos: 0 }),
            Option::None => Result::Err(FastqError::BadGzip),
        }
    }

    /// Read one line, without its line ending, and advance past it.
    fn read_line(&mut self) -> (r: Option<Vec<u8>>)
        requires
            old(self).wf(),
        ensures
            final(self).wf(),
            final(self).datav() == old(self).datav(),
            match r {
                Option::None => old(self).posv() == old(self).datav().len() && final(self).posv()
                    == old(self).posv(),
                Option::Some(line) => old(self).posv() < old(self).datav().len() && line@
                    == strip_cr(line_content(old(self).datav(), old(self).posv()))
                    && final(self).posv() == line_next(old(self).datav(), old(self).posv()),
            },
    {
        let len = self.data.len();
        if self.pos >= len {
            return Option::None;
        }
        let start = self.pos;
        let mut e = start;
        while e < len && self.data[e] != BYTE_LF
            invariant
                start <= e <= len,
                len == self.data@.len(),
                find_nl(self.data@, start as int) == find_nl(self.data@, e as int),
            decreases len - e,
        {
            e = e + 1;
        }
        assert(e as int == find_nl(self.data@, start as int));
        let mut line = slice_to_vec(slice_subrange(self.data.as_slice(), start, e));
        if e < len {
            self.pos = e + 1;
        } else {
            self.pos = len;
        }
        if line.len() > 0 {
            let last = line.len() - 1;
            if line[last] == BYTE_CR {
                let _ = line.pop();
            }
        }
        assert(line@ =~= strip_cr(line_content(self.data@, start as int)));
        Option::Some(line)
    }

    /// Read the next four-line record.  The end of the stream before a
    /// record is the end of input; the end of the stream inside a record
    /// is an error.
    pub fn next_record(&mut self) -> (r: Result<Option<FastqRecord>, FastqError>)
        requires
            old(self).wf(),
        ensures
            final(self).wf(),
            final(self).datav() == old(self).datav(),
            ({
                let d = old(self).datav();
                let p = old(self).posv();
                match r {
                    Result::Ok(o) => match o {
                        Option::None => p == d.len() && final(self).posv() == p,
                        Option::Some(rec) => p < d.len() && !rec_truncated(d, p) && rec@ == rec_at(
                            d,
                            p,
                        ) && final(self).posv() == rec_end(d, p),
                    },
                    Result::Err(e) => e == FastqError::Truncated && rec_truncated(d, p)
                        && final(self).posv() == d.len(),
                }
            }),
    {
        let name = match self.read_line() {
            Option::None => {
                return Result::Ok(Option::None);
            },
            Option::Some(v) => v,
        };
        let seq = match self.read_line() {
            Option::None => {
                return Result::Err(FastqError::Truncated);
            },
            Option::Some(v) => v,
        };
        let plus = match self.read_line() {
            Option::None => {
                return Result::Err(FastqError::Truncated);
            },
            Option::Some(v) => v,
        };
        let qual = match self.read_line() {
            Option::None => {
                return Result::Err(FastqError::Truncated);
            },
            Option::Some(v) => v,
        };
        Result::Ok(Option::Some(FastqRecord { name, seq, plus, qual }))
    }
}

/// The four output lines of one record, each closed by a line feed.
pub open spec fn record_bytes(rv: RecV) -> Seq<u8> {
    rv.name + seq![BYTE_LF] + rv.seq + seq![BYTE_LF] + rv.plus + seq![BYTE_LF] + rv.qual + seq![
        BYTE_LF
    ]
}

/// Serializes records into an output byte buffer.
pub struct Writer {
    buf: Vec<u8>,
}

impl Writer {
    /// The bytes written so far.
    pub closed spec fn bufv(&self) -> Seq<u8> {
        self.buf@
    }

    pub fn new() -> (r: Writer)
        ensures
            r.bufv().len() == 0,
    {
        Writer { buf: Vec::new() }
    }

    /// Append one record as its four lines.
    pub fn write_record(&mut self, rec: &FastqRecord)
        ensures
            final(self).bufv() == old(self).bufv() + record_bytes(rec@),
    {
        self.buf.extend_from_slice(rec.name.as_slice());
        self.buf.push(BYTE_LF);
        self.buf.extend_from_slice(rec.seq.as_slice());
        self.buf.push(BYTE_LF);
        self.buf.extend_from_slice(rec.plus.as_slice());
        self.buf.push(BYTE_LF);
        self.buf.extend_from_slice(rec.qual.as_slice());
        self.buf.push(BYTE_LF);
        assert(self.buf@ =~= old(self).bufv() + record_bytes(rec@));
    }

    /// Hand the gathered bytes out and start over empty.
    pub fn take_bytes(&mut self) -> (r: Vec<u8>)
        ensures
            r@ == old(self).bufv(),
            final(self).bufv().len() == 0,
    {
        let r = self.buf.split_off(0);
        assert(self.buf@ =~= Seq::<u8>::empty());
        r
    }
}

} // verus!
