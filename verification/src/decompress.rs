//! The decompression engine: reassembles the payload from its chunks.
//!
//! Each chunk covers up to 32 KiB of decompressed data.  A chunk whose byte
//! range is exactly 32768 bytes is stored verbatim.  Otherwise its leading
//! bytes decide: a first byte of `1` marks an LZSS chunk, which is recognized
//! but deliberately unsupported and fails fast; a second byte of `8` marks a
//! deflate stream behind a 3-byte frame header; any other leading byte passes
//! through verbatim, matching archives that mix raw and compressed chunks.
//! Chunk outputs are concatenated in table order into one buffer.

use vstd::prelude::*;

verus! {

use crate::CHUNK_SIZE;
use crate::archive::SfsFile;
use crate::error::FormatFault;
use crate::error::SfsError;

/// What a raw deflate stream decodes to.  The decoding is a pure function of
/// the compressed bytes; its value is given only by the trusted inflate call.
pub uninterp spec fn inflate_of(b: Seq<u8>) -> Seq<u8>;

/// Whether a byte string is a decodable raw deflate stream.  Like the decoded
/// value, success is a function of the compressed bytes alone.
pub uninterp spec fn inflate_ok(b: Seq<u8>) -> bool;

/// Relies on `flate2::bufread::DeflateDecoder` over a byte slice, read to its
/// end: raw deflate decoding, whose output — and whether decoding succeeds at
/// all — depends on the input bytes alone.
#[verifier::external_body]
fn inflate(input: &[u8]) -> (r: Result<Vec<u8>, SfsError>)
    ensures
        r is Ok <==> inflate_ok(input@),
        r matches Ok(v) ==> v@ == inflate_of(input@),
        r matches Err(e) ==> e == SfsError::Format(FormatFault::BadDeflate),
{
    let mut decoder = flate2::bufread::DeflateDecoder::new(input);
    let mut out = Vec::new();
    match std::io::Read::read_to_end(&mut decoder, &mut out) {
        Ok(_) => Ok(out),
        Err(_) => Err(SfsError::Format(FormatFault::BadDeflate)),
    }
}

/// The chunk bytes mark the unsupported LZSS scheme.
pub open spec fn chunk_is_lzss(c: Seq<u8>) -> bool {
    c.len() != CHUNK_SIZE && c.len() >= 1 && c[0] == 1
}

/// The chunk bytes mark a deflate stream behind a 3-byte frame header.
pub open spec fn chunk_is_deflate(c: Seq<u8>) -> bool {
    c.len() != CHUNK_SIZE && c.len() >= 2 && c[0] != 1 && c[1] == 8
}

/// What one chunk contributes to the decompressed buffer (for deflate chunks,
/// assuming the stream decodes).
pub open spec fn spec_chunk_out(data: Seq<u8>, b: (usize, usize)) -> Seq<u8> {
    let c = data.subrange(b.0 as int, b.1 as int);
    if chunk_is_deflate(c) {
        inflate_of(c.skip(3))
    } else {
        c
    }
}

/// Decompresses the chunk covering `boundary` within the archive's bytes.
pub fn decompress_chunk(sfs_file: &SfsFile, boundary: (usize, usize)) -> (r: Result<
    Vec<u8>,
    SfsError,
>)
    requires
        boundary.0 <= boundary.1 <= sfs_file.data@.len(),
    ensures
        ({
            let c = sfs_file.data@.subrange(boundary.0 as int, boundary.1 as int);
            &&& c.len() == 0 ==> r == Err::<Vec<u8>, SfsError>(
                SfsError::Format(FormatFault::Truncated),
            )
            &&& chunk_is_lzss(c) ==> r == Err::<Vec<u8>, SfsError>(
                SfsError::UnsupportedCompression,
            )
            &&& (chunk_is_deflate(c) && c.len() < 3) ==> r == Err::<Vec<u8>, SfsError>(
                SfsError::Format(FormatFault::Truncated),
            )
            &&& (chunk_is_deflate(c) && c.len() >= 3) ==> ((r is Ok <==> inflate_ok(c.skip(3)))
                && (r matches Ok(v) ==> v@ == inflate_of(c.skip(3))) && (r is Err ==> r
                == Err::<Vec<u8>, SfsError>(SfsError::Format(FormatFault::BadDeflate))))
            &&& (c.len() > 0 && !chunk_is_lzss(c) && !chunk_is_deflate(c)) ==> (r matches Ok(v)
                && v@ == c)
            &&& r is Err ==> (r == Err::<Vec<u8>, SfsError>(SfsError::UnsupportedCompression) || r
                == Err::<Vec<u8>, SfsError>(SfsError::Format(FormatFault::Truncated)) || r
                == Err::<Vec<u8>, SfsError>(SfsError::Format(FormatFault::BadDeflate)))
        }),
{
    let start = boundary.0;
    let end = boundary.1;
    let chunk = &sfs_file.data.as_slice()[start..end];
    if chunk.len() == CHUNK_SIZE as usize {
        Ok(vstd::slice::slice_to_vec(chunk))
    } else if chunk.len() == 0 {
        Err(SfsError::Format(FormatFault::Truncated))
    } else if chunk[0] == 1 {
        Err(SfsError::UnsupportedCompression)
    } else if chunk.len() >= 2 && chunk[1] == 8 {
        if chunk.len() < 3 {
            return Err(SfsError::Format(FormatFault::Truncated));
        }
        proof {
            assert(chunk@.subrange(3, chunk@.len() as int) =~= chunk@.skip(3));
        }
        inflate(&chunk[3..chunk.len()])
    } else {
        Ok(vstd::slice::slice_to_vec(chunk))
    }
}

/// Every deflate-framed chunk's payload actually decodes.
pub open spec fn chunks_decodable(data: Seq<u8>, bounds: Seq<(usize, usize)>) -> bool {
    forall|k: int|
        0 <= k < bounds.len() ==> {
            let c = data.subrange((#[trigger] bounds[k]).0 as int, bounds[k].1 as int);
            chunk_is_deflate(c) ==> inflate_ok(c.skip(3))
        }
}

/// Every chunk range holds a supported frame shape.
pub open spec fn chunks_supported(data: Seq<u8>, bounds: Seq<(usize, usize)>) -> bool {
    forall|k: int|
        0 <= k < bounds.len() ==> {
            let c = data.subrange((#[trigger] bounds[k]).0 as int, bounds[k].1 as int);
            &&& c.len() > 0
            &&& !chunk_is_lzss(c)
            &&& (chunk_is_deflate(c) ==> c.len() >= 3)
        }
}

/// The whole decompressed buffer: chunk outputs concatenated in table order.
pub open spec fn spec_decompressed(data: Seq<u8>, bounds: Seq<(usize, usize)>) -> Seq<u8>
    decreases bounds.len(),
{
    if bounds.len() == 0 {
        Seq::empty()
    } else {
        spec_decompressed(data, bounds.drop_last()) + spec_chunk_out(data, bounds.last())
    }
}

/// Decompresses every chunk of the archive, in table order, into one buffer.
pub fn decompress_sfs(sfs_file: &SfsFile) -> (r: Result<Vec<u8>, SfsError>)
    requires
        sfs_file.wf(),
    ensures
        (chunks_supported(sfs_file.data@, sfs_file.chunk_boundaries@) && chunks_decodable(
            sfs_file.data@,
            sfs_file.chunk_boundaries@,
        )) ==> r is Ok,
        r matches Ok(v) ==> v@ == spec_decompressed(sfs_file.data@, sfs_file.chunk_boundaries@),
        !chunks_supported(sfs_file.data@, sfs_file.chunk_boundaries@) ==> r is Err,
        (chunks_supported(sfs_file.data@, sfs_file.chunk_boundaries@) && r is Err) ==> r
            == Err::<Vec<u8>, SfsError>(SfsError::Format(FormatFault::BadDeflate)),
        r is Err ==> (r == Err::<Vec<u8>, SfsError>(SfsError::UnsupportedCompression) || r
            == Err::<Vec<u8>, SfsError>(SfsError::Format(FormatFault::Truncated)) || r
            == Err::<Vec<u8>, SfsError>(SfsError::Format(FormatFault::BadDeflate))),
{
    let ghost data = sfs_file.data@;
    let ghost bounds = sfs_file.chunk_boundaries@;
    let mut out: Vec<u8> = Vec::new();
    let mut k: usize = 0;
    let n = sfs_file.chunk_boundaries.len();
    while k < n
        invariant
            sfs_file.wf(),
            data == sfs_file.data@,
            bounds == sfs_file.chunk_boundaries@,
            n == bounds.len(),
            k <= n,
            out@ == spec_decompressed(data, bounds.subrange(0, k as int)),
            forall|j: int|
                0 <= j < k ==> {
                    let c = data.subrange((#[trigger] bounds[j]).0 as int, bounds[j].1 as int);
                    &&& c.len() > 0
                    &&& !chunk_is_lzss(c)
                    &&& (chunk_is_deflate(c) ==> c.len() >= 3)
                },
        decreases n - k,
    {
        let boundary = sfs_file.chunk_boundaries[k];
        let piece = decompress_chunk(sfs_file, boundary);
        let mut piece = match piece {
            Ok(v) => v,
            Err(e) => {
                proof {
                    let c = data.subrange(bounds[k as int].0 as int, bounds[k as int].1 as int);
                    if c.len() > 0 && !chunk_is_lzss(c) && !(chunk_is_deflate(c) && c.len() < 3) {
                        assert(chunk_is_deflate(c) ==> c.len() >= 3);
                        assert(chunk_is_deflate(c) && !inflate_ok(c.skip(3)));
                        assert(!chunks_decodable(data, bounds));
                    } else {
                        assert(!chunks_supported(data, bounds));
                    }
                }
                return Err(e);
            },
        };
        out.append(&mut piece);
        k += 1;
        proof {
            assert(bounds.subrange(0, k as int).drop_last() =~= bounds.subrange(0, k as int - 1));
            assert(bounds.subrange(0, k as int).last() == bounds[k as int - 1]);
        }
    }
    proof {
        assert(bounds.subrange(0, n as int) =~= bounds);
        assert(chunks_supported(data, bounds));
    }
    Ok(out)
}

/// Sum of the byte widths of the chunk ranges.
pub open spec fn widths_sum(bounds: Seq<(usize, usize)>) -> int
    decreases bounds.len(),
{
    if bounds.len() == 0 {
        0
    } else {
        widths_sum(bounds.drop_last()) + (bounds.last().1 - bounds.last().0)
    }
}

/// When no chunk is deflate-framed, every chunk passes through verbatim, so
/// the decompressed buffer's length is exactly the summed chunk widths.
pub proof fn lemma_verbatim_decompressed_len(data: Seq<u8>, bounds: Seq<(usize, usize)>)
    requires
        forall|k: int|
            0 <= k < bounds.len() ==> ((#[trigger] bounds[k]).0 <= bounds[k].1 <= data.len()),
        forall|k: int|
            0 <= k < bounds.len() ==> !chunk_is_deflate(
                data.subrange((#[trigger] bounds[k]).0 as int, bounds[k].1 as int),
            ),
    ensures
        spec_decompressed(data, bounds).len() == widths_sum(bounds),
    decreases bounds.len(),
{
    if bounds.len() > 0 {
        lemma_verbatim_decompressed_len(data, bounds.drop_last());
        assert(bounds.last() == bounds[bounds.len() - 1]);
    }
}


/// A verbatim-only archive whose chunk widths sum to the declared size
/// decompresses to exactly that size.  Together with the success clause of
/// [`decompress_sfs`], such an archive is guaranteed a buffer of exactly
/// `uncompressed_size` bytes, whether or not that size is divisible by the
/// chunk size.
pub proof fn lemma_verbatim_total_length(f: SfsFile)
    requires
        f.wf(),
        forall|k: int|
            0 <= k < f.chunk_boundaries@.len() ==> !chunk_is_deflate(
                f.data@.subrange(
                    (#[trigger] f.chunk_boundaries@[k]).0 as int,
                    f.chunk_boundaries@[k].1 as int,
                ),
            ),
        widths_sum(f.chunk_boundaries@) == f.header.uncompressed_size,
    ensures
        spec_decompressed(f.data@, f.chunk_boundaries@).len() == f.header.uncompressed_size,
{
    lemma_verbatim_decompressed_len(f.data@, f.chunk_boundaries@);
}

} // verus!
