//! The format parser: fixed header, table-of-contents rows, and the header
//! checksum.
//!
//! All integers in the container are little-endian.  The header occupies a
//! fixed 256 bytes; each table-of-contents row occupies 32 bytes.  The stored
//! checksum must equal the wrapping 32-bit sum of every header byte up to
//! `header_end`, with the 4 checksum bytes themselves summed as zero.

use vstd::prelude::*;

verus! {

use vstd::bytes::spec_u16_from_le_bytes;
use vstd::bytes::spec_u32_from_le_bytes;
use vstd::bytes::spec_u64_from_le_bytes;
use vstd::bytes::u16_from_le_bytes;
use vstd::bytes::u32_from_le_bytes;
use vstd::bytes::u64_from_le_bytes;
use vstd::string::StrSliceExecFns;
use crate::error::FormatFault;
use crate::error::SfsError;

/// Byte length of the fixed archive header.
pub const HEADER_SIZE: usize = 256;

/// Byte length of one table-of-contents row.
pub const TOC_ITEM_SIZE: usize = 32;

/// The little-endian `u16` at byte offset `off` of `s`.
pub open spec fn le16_at(s: Seq<u8>, off: int) -> u16 {
    spec_u16_from_le_bytes(s.subrange(off, off + 2))
}

/// The little-endian `u32` at byte offset `off` of `s`.
pub open spec fn le32_at(s: Seq<u8>, off: int) -> u32 {
    spec_u32_from_le_bytes(s.subrange(off, off + 4))
}

/// The little-endian `u64` at byte offset `off` of `s`.
pub open spec fn le64_at(s: Seq<u8>, off: int) -> u64 {
    spec_u64_from_le_bytes(s.subrange(off, off + 8))
}

/// The fixed 256-byte archive header.
///
/// `comment` holds the raw trailing 222 bytes; [`SfsHeader::comment_text`]
/// decodes them best-effort.
#[derive(Debug)]
pub struct SfsHeader {
    /// Must equal the ASCII bytes `S F S \0`.
    pub magic: u32,
    /// Format version; `0xCA` selects the encrypted-header keying path.
    pub version: u32,
    /// Wrapping byte sum of the header through `header_end`, checksum zeroed.
    pub checksum: u32,
    /// Number of table-of-contents rows.
    pub toc_count: u32,
    /// Byte offset where the header's variable region ends.
    pub header_end: u32,
    /// Byte offset where the table of contents ends.
    pub toc_end: u32,
    /// End of the chunk-offset table; recomputed, never trusted from the file.
    pub chunk_table_end: u32,
    /// Total decompressed payload size in bytes.
    pub uncompressed_size: u32,
    /// Preserved but unused.
    pub unknown: u16,
    /// Raw comment bytes (offsets 34..256 of the header).
    pub comment: Vec<u8>,
}

/// One row of the table of contents.
#[derive(Clone, Copy, Debug, PartialEq, Eq, Structural)]
pub struct SfsTocItem {
    /// Content-addressing key of the entry.
    pub fingerprint: i64,
    /// Canonical position of the entry; rows are sorted by this field.
    pub index: u32,
    /// Byte offset of the entry within the decompressed payload.
    pub offset: u32,
    /// Byte length of the entry; 0 marks a directory/empty row.
    pub size: u32,
    /// Preserved but unused.
    pub unknown_1: u32,
    /// Attribute bits of the entry.
    pub attributes: u32,
    /// Preserved but unused.
    pub unknown_2: u32,
}

/// `s` with every trailing NUL character removed.
pub open spec fn trim_nul(s: Seq<char>) -> Seq<char>
    decreases s.len(),
{
    if s.len() > 0 && s.last() == '\0' {
        trim_nul(s.drop_last())
    } else {
        s
    }
}

proof fn lemma_trim_nul(s: Seq<char>, end: int)
    requires
        0 <= end <= s.len(),
        forall|j: int| end <= j < s.len() ==> s[j] == '\0',
        end > 0 ==> s[end - 1] != '\0',
    ensures
        trim_nul(s) == s.subrange(0, end),
    decreases s.len(),
{
    if s.len() == end {
        assert(trim_nul(s) =~= s.subrange(0, end));
    } else {
        lemma_trim_nul(s.drop_last(), end);
        assert(s.drop_last().subrange(0, end) =~= s.subrange(0, end));
    }
}

/// Relies on `String::from_utf8`: decodes the bytes as UTF-8, degrading to
/// the empty string when they are not valid.
#[verifier::external_body]
fn utf8_or_empty(bytes: Vec<u8>) -> (r: String)
    ensures
        vstd::utf8::valid_utf8(bytes@) ==> r@ == vstd::utf8::decode_utf8(bytes@),
        !vstd::utf8::valid_utf8(bytes@) ==> r@ == Seq::<char>::empty(),
{
    String::from_utf8(bytes).unwrap_or_else(|_| String::new())
}

impl SfsHeader {
    /// The header's comment, decoded best-effort: its 222 raw bytes as
    /// UTF-8 with trailing NULs trimmed, or the empty string when they are
    /// not valid UTF-8.
    pub fn comment_text(&self) -> (r: String)
        ensures
            vstd::utf8::valid_utf8(self.comment@) ==> r@ == trim_nul(
                vstd::utf8::decode_utf8(self.comment@),
            ),
            !vstd::utf8::valid_utf8(self.comment@) ==> r@.len() == 0,
    {
        let decoded = utf8_or_empty(vstd::slice::slice_to_vec(self.comment.as_slice()));
        let s = decoded.as_str();
        let n = s.unicode_len();
        let mut end = n;
        while end > 0 && s.get_char(end - 1) == '\0'
            invariant
                n == s@.len(),
                end <= n,
                forall|j: int| end <= j < n ==> s@[j] == '\0',
            decreases end,
        {
            end -= 1;
        }
        proof {
            lemma_trim_nul(s@, end as int);
        }
        let trimmed = s.substring_char(0, end);
        trimmed.to_owned()
    }
}

/// `h` holds exactly the fields encoded in the 256-byte prefix of `s`.
pub open spec fn header_matches(h: SfsHeader, s: Seq<u8>) -> bool {
    &&& h.magic == le32_at(s, 0)
    &&& h.version == le32_at(s, 4)
    &&& h.checksum == le32_at(s, 8)
    &&& h.toc_count == le32_at(s, 12)
    &&& h.header_end == le32_at(s, 16)
    &&& h.toc_end == le32_at(s, 20)
    &&& h.chunk_table_end == le32_at(s, 24)
    &&& h.uncompressed_size == le32_at(s, 28)
    &&& h.unknown == le16_at(s, 32)
    &&& h.comment@ == s.subrange(34, 256)
}

/// `t` holds exactly the fields encoded in the 32-byte row `s`.
pub open spec fn toc_item_matches(t: SfsTocItem, s: Seq<u8>) -> bool {
    &&& t.fingerprint == le64_at(s, 0) as i64
    &&& t.index == le32_at(s, 8)
    &&& t.offset == le32_at(s, 12)
    &&& t.size == le32_at(s, 16)
    &&& t.unknown_1 == le32_at(s, 20)
    &&& t.attributes == le32_at(s, 24)
    &&& t.unknown_2 == le32_at(s, 28)
}

/// Decodes the fixed header from the front of `input`.
pub fn parse_header(input: &[u8]) -> (r: Result<SfsHeader, SfsError>)
    ensures
        input@.len() < HEADER_SIZE ==> r == Err::<SfsHeader, SfsError>(
            SfsError::Format(FormatFault::Truncated),
        ),
        input@.len() >= HEADER_SIZE ==> (r matches Ok(h) && header_matches(h, input@)),
{
    if input.len() < HEADER_SIZE {
        return Err(SfsError::Format(FormatFault::Truncated));
    }
    let magic = u32_from_le_bytes(&input[0..4]);
    let version = u32_from_le_bytes(&input[4..8]);
    let checksum = u32_from_le_bytes(&input[8..12]);
    let toc_count = u32_from_le_bytes(&input[12..16]);
    let header_end = u32_from_le_bytes(&input[16..20]);
    let toc_end = u32_from_le_bytes(&input[20..24]);
    let chunk_table_end = u32_from_le_bytes(&input[24..28]);
    let uncompressed_size = u32_from_le_bytes(&input[28..32]);
    let unknown = u16_from_le_bytes(&input[32..34]);
    let comment = vstd::slice::slice_to_vec(&input[34..256]);
    Ok(
        SfsHeader {
            magic,
            version,
            checksum,
            toc_count,
            header_end,
            toc_end,
            chunk_table_end,
            uncompressed_size,
            unknown,
            comment,
        },
    )
}

/// Decodes one table-of-contents row from the front of `input`.
pub fn parse_toc_item(input: &[u8]) -> (r: Result<SfsTocItem, SfsError>)
    ensures
        input@.len() < TOC_ITEM_SIZE ==> r == Err::<SfsTocItem, SfsError>(
            SfsError::Format(FormatFault::Truncated),
        ),
        input@.len() >= TOC_ITEM_SIZE ==> (r matches Ok(t) && toc_item_matches(t, input@)),
{
    if input.len() < TOC_ITEM_SIZE {
        return Err(SfsError::Format(FormatFault::Truncated));
    }
    let fingerprint = #[verifier::truncate] (u64_from_le_bytes(&input[0..8]) as i64);
    let index = u32_from_le_bytes(&input[8..12]);
    let offset = u32_from_le_bytes(&input[12..16]);
    let size = u32_from_le_bytes(&input[16..20]);
    let unknown_1 = u32_from_le_bytes(&input[20..24]);
    let attributes = u32_from_le_bytes(&input[24..28]);
    let unknown_2 = u32_from_le_bytes(&input[28..32]);
    Ok(SfsTocItem { fingerprint, index, offset, size, unknown_1, attributes, unknown_2 })
}

/// Every row of the table of contents, in on-disk order: row `k` of the
/// result is decoded from bytes `32*k .. 32*k + 32` of `s`.
pub open spec fn toc_rows_match(rows: Seq<SfsTocItem>, count: int, s: Seq<u8>) -> bool {
    &&& rows.len() == count
    &&& forall|k: int|
        0 <= k < count ==> toc_item_matches(
            #[trigger] rows[k],
            s.subrange(32 * k, 32 * k + 32),
        )
}

/// Decodes `header.toc_count` rows from the front of `input`.
pub fn parse_toc(header: &SfsHeader, input: &[u8]) -> (r: Result<Vec<SfsTocItem>, SfsError>)
    ensures
        input@.len() < 32 * header.toc_count ==> r == Err::<Vec<SfsTocItem>, SfsError>(
            SfsError::Format(FormatFault::Truncated),
        ),
        input@.len() >= 32 * header.toc_count ==> (r matches Ok(v) && toc_rows_match(
            v@,
            header.toc_count as int,
            input@,
        )),
{
    let count = header.toc_count;
    if (input.len() as u64) < 32u64 * (count as u64) {
        return Err(SfsError::Format(FormatFault::Truncated));
    }
    let mut rows: Vec<SfsTocItem> = Vec::new();
    let mut k: usize = 0;
    while k < count as usize
        invariant
            k <= count,
            32 * (count as int) <= input@.len(),
            input@.len() <= usize::MAX,
            rows@.len() == k,
            forall|j: int|
                0 <= j < k ==> toc_item_matches(
                    #[trigger] rows@[j],
                    input@.subrange(32 * j, 32 * j + 32),
                ),
        decreases count - k,
    {
        let row = match parse_toc_item(&input[32 * k..32 * k + 32]) {
            Ok(t) => t,
            Err(e) => {
                proof {
                    assert(false);
                }
                return Err(e);
            },
        };
        rows.push(row);
        k += 1;
    }
    Ok(rows)
}

/// The running sum of a byte string.
pub open spec fn byte_sum(s: Seq<u8>) -> int
    decreases s.len(),
{
    if s.len() == 0 {
        0
    } else {
        byte_sum(s.drop_last()) + s.last()
    }
}

/// The checksum of a header: the 32-bit wrapping sum of bytes `0..8` and
/// `12..header_end` (the 4 checksum bytes count as zero).
pub open spec fn spec_header_checksum(s: Seq<u8>, header_end: int) -> u32 {
    ((byte_sum(s.subrange(0, 8)) + byte_sum(s.subrange(12, header_end))) % 0x1_0000_0000) as u32
}

/// The sum of a byte string is bounded by 255 per byte.
pub proof fn lemma_byte_sum_bound(s: Seq<u8>)
    ensures
        0 <= byte_sum(s) <= 255 * s.len(),
    decreases s.len(),
{
    if s.len() > 0 {
        lemma_byte_sum_bound(s.drop_last());
    }
}

/// Computes the header checksum over the 256-byte header slice `s`.
pub fn header_checksum(s: &[u8], header_end: usize) -> (c: u32)
    requires
        12 <= header_end <= s@.len() <= 256,
    ensures
        c == spec_header_checksum(s@, header_end as int),
{
    let mut sum: u32 = 0;
    let mut i: usize = 0;
    while i < 8
        invariant
            i <= 8,
            8 <= s@.len(),
            sum == byte_sum(s@.subrange(0, i as int)),
            sum <= 255 * i,
        decreases 8 - i,
    {
        proof {
            assert(s@.subrange(0, i + 1).drop_last() =~= s@.subrange(0, i as int));
            assert(s@.subrange(0, i + 1).last() == s@[i as int]);
        }
        sum = sum + (s[i] as u32);
        i += 1;
    }
    let ghost front = byte_sum(s@.subrange(0, 8));
    let mut j: usize = 12;
    while j < header_end
        invariant
            12 <= j <= header_end <= s@.len() <= 256,
            front == byte_sum(s@.subrange(0, 8)),
            0 <= front <= 2040,
            sum == front + byte_sum(s@.subrange(12, j as int)),
            sum <= 255 * j,
        decreases header_end - j,
    {
        proof {
            assert(s@.subrange(12, j + 1).drop_last() =~= s@.subrange(12, j as int));
            assert(s@.subrange(12, j + 1).last() == s@[j as int]);
            lemma_byte_sum_bound(s@.subrange(12, j as int));
        }
        sum = sum + (s[j] as u32);
        j += 1;
    }
    proof {
        lemma_byte_sum_bound(s@.subrange(12, header_end as int));
        assert(s@.subrange(0, 0).len() == 0);
    }
    sum
}

} // verus!
