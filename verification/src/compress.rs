//! Gzip jobs for the compression offload pool, and the gzip codec calls
//! the library relies on.

use vstd::prelude::*;

verus! {

/// One compression job: which pack, which output stream, and the raw
/// serialized bytes.
pub struct CompressTask {
    pub id: u64,
    pub which: u8,
    pub data: Vec<u8>,
}

/// The finished job: the same pack and stream, compressed bytes.
pub struct CompressedResult {
    pub id: u64,
    pub which: u8,
    pub data: Vec<u8>,
}

/// What a gzip byte stream decodes to, if it decodes at all: a pure
/// function of the bytes.
pub uninterp spec fn gunzip_of(data: Seq<u8>) -> Option<Seq<u8>>;

/// Relies on flate2's MultiGzDecoder: decoding a byte stream, with
/// multi-member support, is a function of the bytes alone.
#[verifier::external_body]
pub(crate) fn gzip_decode(data: &Vec<u8>) -> (r: Option<Vec<u8>>)
    ensures
        match r {
            Option::Some(v) => gunzip_of(data@) == Option::Some(v@),
            Option::None => gunzip_of(data@) is None,
        },
{
    let mut dec = flate2::read::MultiGzDecoder::new(data.as_slice());
    let mut out = Vec::new();
    match std::io::Read::read_to_end(&mut dec, &mut out) {
        Ok(_) => Some(out),
        Err(_) => None,
    }
}

/// Relies on flate2's GzEncoder into an in-memory buffer: it writes a
/// well-formed gzip stream that decodes back to exactly the input, and
/// neither call can fail on a Vec-backed writer.
#[verifier::external_body]
fn gzip_encode(data: &Vec<u8>, level: u32) -> (r: Vec<u8>)
    ensures
        gunzip_of(r@) == Option::Some(data@),
{
    let mut enc = flate2::write::GzEncoder::new(Vec::new(), flate2::Compression::new(level));
    std::io::Write::write_all(&mut enc, data.as_slice()).unwrap();
    enc.finish().unwrap()
}

/// Run one job of the compression offload pool: gzip the raw bytes at the
/// requested level, keeping the pack id and stream tag.
pub fn compress_task(task: CompressTask, level: u32) -> (r: CompressedResult)
    ensures
        r.id == task.id,
        r.which == task.which,
        gunzip_of(r.data@) == Option::Some(task.data@),
{
    let out = gzip_encode(&task.data, level);
    CompressedResult { id: task.id, which: task.which, data: out }
}

/// The bytes belonging to one pack and one output stream, in the order
/// the results were listed.
pub open spec fn stream_bytes(rs: Seq<CompressedResult>, id: u64, which: u8) -> Seq<u8>
    decreases rs.len(),
{
    if rs.len() == 0 {
        Seq::empty()
    } else {
        stream_bytes(rs.drop_last(), id, which) + if rs.last().id == id && rs.last().which
            == which {
            rs.last().data@
        } else {
            Seq::empty()
        }
    }
}

/// Select one pack's compressed bytes for one output stream.  The writer
/// appends stream one before stream two and pack ids in order, so this
/// keeps the required (pack id, stream) output discipline.
pub fn pack_stream_bytes(results: &Vec<CompressedResult>, id: u64, which: u8) -> (r: Vec<u8>)
    ensures
        r@ == stream_bytes(results@, id, which),
{
    let mut out: Vec<u8> = Vec::new();
    let n = results.len();
    let mut i: usize = 0;
    while i < n
        invariant
            i <= n,
            n == results@.len(),
            out@ == stream_bytes(results@.take(i as int), id, which),
        decreases n - i,
    {
        proof {
            assert(results@.take(i + 1).drop_last() =~= results@.take(i as int));
            assert(results@.take(i + 1).last() == results@[i as int]);
        }
        if results[i].id == id && results[i].which == which {
            let d = &results[i].data;
            out.append(&mut d.clone());
            assert(out@ =~= stream_bytes(results@.take(i + 1), id, which));
        } else {
            assert(out@ =~= stream_bytes(results@.take(i + 1), id, which));
        }
        i = i + 1;
    }
    assert(results@.take(n as int) =~= results@);
    out
}

} // verus!
