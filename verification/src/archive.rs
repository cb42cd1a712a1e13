//! Opening an archive: two-pass header decoding, checksum validation, table
//! of contents decryption and canonical ordering, and the derived chunk
//! table.
//!
//! The header may itself be encrypted: version `0xCA` keys the archive by the
//! fingerprint of the lower-cased file name and encrypts the header's middle
//! region (bytes 8..32); any other version keys it by the fingerprint of the
//! raw 256-byte header, left in plaintext.  The table of contents is
//! decrypted with the primary stream pass and re-sorted by `index`, since
//! on-disk order is not canonical.  The chunk-offset table's end is never
//! read from the file; it is recomputed from `uncompressed_size` as one
//! 4-byte offset per 32 KiB chunk plus a terminal sentinel, and decrypted
//! with the secondary stream pass.

use vstd::prelude::*;

verus! {

use vstd::pervasive::VecAdditionalExecFns;
use vstd::bytes::u32_from_le_bytes;
use crate::crypt::primary_xor;
use crate::crypt::secondary_xor;
use crate::crypt::sfs_decrypt;
use crate::crypt::sfs_decrypt2;
use crate::error::FormatFault;
use crate::error::SfsError;
use crate::finger::spec_fingerprint;
use crate::parse::SfsHeader;
use crate::parse::SfsTocItem;
use crate::parse::le32_at;
use crate::parse::le64_at;
use crate::parse::spec_header_checksum;
use vstd::utf8::encode_utf8;

/// Little-endian value of the magic bytes `S F S \0`.
pub const MAGIC: u32 = 0x00534653;

/// Version value that selects the encrypted-header keying path.
pub const ENCRYPTED_HEADER_VERSION: u32 = 0xCA;

/// A parsed archive: the raw file bytes, the decoded header, the canonically
/// ordered table of contents, and the byte range of each compressed chunk.
pub struct SfsFile {
    /// The raw bytes of the whole archive file.
    pub data: Vec<u8>,
    /// The decoded (and, if needed, decrypted) header.
    pub header: SfsHeader,
    /// Table of contents, sorted ascending by `index`.
    pub toc: Vec<SfsTocItem>,
    /// `(start, end)` byte ranges of the compressed chunks within `data`.
    pub chunk_boundaries: Vec<(usize, usize)>,
}

/// Number of chunks covering `size` decompressed bytes: `size / 32768`,
/// rounded up.
pub open spec fn spec_chunk_count(size: u32) -> int {
    (size >> 15) + if size & 0x7FFF != 0 {
        1int
    } else {
        0int
    }
}

/// The archive key: for version `0xCA` the fingerprint of the lower-cased
/// file name, otherwise the fingerprint of the raw 256-byte header.
pub open spec fn spec_header_key(data: Seq<u8>, name: Seq<char>) -> i64 {
    if le32_at(data, 4) == ENCRYPTED_HEADER_VERSION {
        spec_fingerprint(0, encode_utf8(crate::finger::lower_of(name)))
    } else {
        spec_fingerprint(0, data.subrange(0, 256))
    }
}

/// The plaintext header bytes: for version `0xCA` the middle region 8..32 is
/// decrypted with the primary pass, otherwise the header is already plain.
pub open spec fn spec_plain_header(data: Seq<u8>, key: i64) -> Seq<u8> {
    if le32_at(data, 4) == ENCRYPTED_HEADER_VERSION {
        data.subrange(0, 8) + primary_xor(key, data.subrange(8, 32)) + data.subrange(32, 256)
    } else {
        data.subrange(0, 256)
    }
}

/// The table of contents is sorted ascending by `index`.
pub open spec fn toc_sorted(toc: Seq<SfsTocItem>) -> bool {
    forall|a: int, b: int| 0 <= a <= b < toc.len() ==> toc[a].index <= toc[b].index
}

/// The row encoded in the 32-byte string `s`.
pub open spec fn spec_toc_item(s: Seq<u8>) -> SfsTocItem {
    SfsTocItem {
        fingerprint: le64_at(s, 0) as i64,
        index: le32_at(s, 8),
        offset: le32_at(s, 12),
        size: le32_at(s, 16),
        unknown_1: le32_at(s, 20),
        attributes: le32_at(s, 24),
        unknown_2: le32_at(s, 28),
    }
}

/// The `count` rows encoded back to back in `s`, in on-disk order.
pub open spec fn spec_toc_rows(s: Seq<u8>, count: int) -> Seq<SfsTocItem> {
    Seq::new(count as nat, |k: int| spec_toc_item(s.subrange(32 * k, 32 * k + 32)))
}

/// The `n + 1` little-endian offsets of the decrypted chunk table `s`.
pub open spec fn spec_chunk_offsets(s: Seq<u8>, n: int) -> Seq<u32> {
    Seq::new((n + 1) as nat, |i: int| le32_at(s, 4 * i))
}

/// Chunk byte ranges from consecutive offsets: the first chunk starts right
/// after the chunk table, each later one where its predecessor ended.  The
/// first entry of the offset table is ignored.
pub open spec fn spec_boundaries(cte: int, offsets: Seq<u32>) -> Seq<(usize, usize)> {
    Seq::new(
        (offsets.len() - 1) as nat,
        |i: int|
            (
                if i == 0 {
                    cte as usize
                } else {
                    offsets[i] as usize
                },
                offsets[i + 1] as usize,
            ),
    )
}

/// Every chunk range is well formed and lies within the file.
pub open spec fn boundaries_ok(cte: int, offsets: Seq<u32>, data_len: int) -> bool {
    forall|i: int|
        0 <= i < offsets.len() - 1 ==> {
            let start = if i == 0 {
                cte
            } else {
                offsets[i] as int
            };
            start <= #[trigger] offsets[i + 1] <= data_len
        }
}

/// The recomputed end of the chunk-offset table.
pub open spec fn spec_chunk_table_end(plain: Seq<u8>) -> int {
    le32_at(plain, 20) + 4 * spec_chunk_count(le32_at(plain, 28)) + 4
}

/// The magic number is the ASCII bytes `S F S \0`.
pub open spec fn magic_ok(plain: Seq<u8>) -> bool {
    le32_at(plain, 0) == MAGIC
}

/// `header_end` covers at least the fixed fields and at most the header.
pub open spec fn header_end_ok(plain: Seq<u8>) -> bool {
    12 <= le32_at(plain, 16) <= 256
}

/// The stored checksum matches the summed header bytes.
pub open spec fn checksum_ok(plain: Seq<u8>) -> bool {
    le32_at(plain, 8) == spec_header_checksum(plain, le32_at(plain, 16) as int)
}

/// The table of contents region lies within the file.
pub open spec fn toc_region_ok(plain: Seq<u8>, data_len: int) -> bool {
    le32_at(plain, 16) <= le32_at(plain, 20) <= data_len
}

/// The declared row count fits in the table of contents region.
pub open spec fn toc_count_ok(plain: Seq<u8>) -> bool {
    32 * le32_at(plain, 12) <= le32_at(plain, 20) - le32_at(plain, 16)
}

/// The recomputed chunk table lies within the file and is addressable.
pub open spec fn chunk_table_ok(plain: Seq<u8>, data_len: int) -> bool {
    spec_chunk_table_end(plain) <= data_len && spec_chunk_table_end(plain) <= u32::MAX
}

/// The first failing validation of `data` under file name `name`, or `None`
/// when every check passes.  Checks run in the order the reader performs
/// them.
pub open spec fn spec_read_err(data: Seq<u8>, name: Seq<char>) -> Option<SfsError> {
    if data.len() < 256 {
        Some(SfsError::Format(FormatFault::Truncated))
    } else {
        let key = spec_header_key(data, name);
        let plain = spec_plain_header(data, key);
        if !magic_ok(plain) {
            Some(SfsError::Format(FormatFault::BadMagic))
        } else if !header_end_ok(plain) {
            Some(SfsError::Format(FormatFault::BadLayout))
        } else if !checksum_ok(plain) {
            Some(SfsError::Format(FormatFault::ChecksumMismatch))
        } else if !toc_region_ok(plain, data.len() as int) {
            Some(SfsError::Format(FormatFault::BadLayout))
        } else if !toc_count_ok(plain) {
            Some(SfsError::Format(FormatFault::Truncated))
        } else if !chunk_table_ok(plain, data.len() as int) {
            Some(SfsError::Format(FormatFault::BadLayout))
        } else {
            let cte = spec_chunk_table_end(plain);
            let table = secondary_xor(key, data.subrange(le32_at(plain, 20) as int, cte));
            let offsets = spec_chunk_offsets(table, spec_chunk_count(le32_at(plain, 28)));
            if !boundaries_ok(cte, offsets, data.len() as int) {
                Some(SfsError::Format(FormatFault::BadLayout))
            } else {
                None
            }
        }
    }
}

impl SfsFile {
    /// Structural facts every parsed archive satisfies: chunk ranges lie
    /// within the file and the table of contents is canonically ordered.
    pub open spec fn wf(&self) -> bool {
        &&& toc_sorted(self.toc@)
        &&& forall|k: int|
            0 <= k < self.chunk_boundaries@.len() ==> ((#[trigger] self.chunk_boundaries@[k]).0
                <= self.chunk_boundaries@[k].1 <= self.data@.len())
    }

    /// The fields of a successfully parsed archive, in terms of the raw
    /// bytes and the file name it was opened under.
    pub open spec fn parsed_from(&self, data: Seq<u8>, name: Seq<char>) -> bool {
        let key = spec_header_key(data, name);
        let plain = spec_plain_header(data, key);
        let cte = spec_chunk_table_end(plain);
        let table = secondary_xor(key, data.subrange(le32_at(plain, 20) as int, cte));
        let offsets = spec_chunk_offsets(table, spec_chunk_count(le32_at(plain, 28)));
        let toc_bytes = primary_xor(
            key,
            data.subrange(le32_at(plain, 16) as int, le32_at(plain, 20) as int),
        );
        &&& self.data@ == data
        &&& self.header.magic == le32_at(plain, 0)
        &&& self.header.version == le32_at(plain, 4)
        &&& self.header.checksum == le32_at(plain, 8)
        &&& self.header.toc_count == le32_at(plain, 12)
        &&& self.header.header_end == le32_at(plain, 16)
        &&& self.header.toc_end == le32_at(plain, 20)
        &&& self.header.chunk_table_end == cte
        &&& self.header.uncompressed_size == le32_at(plain, 28)
        &&& self.header.unknown == crate::parse::le16_at(plain, 32)
        &&& self.header.comment@ == plain.subrange(34, 256)
        &&& toc_sorted(self.toc@)
        &&& self.toc@ == sort_rows(spec_toc_rows(toc_bytes, le32_at(plain, 12) as int))
        &&& self.chunk_boundaries@ == spec_boundaries(cte, offsets)
    }
}

/// Inserts `e` into the sorted row sequence `s`, after every row whose
/// index does not exceed `e`'s: the insertion step of a stable sort.
pub open spec fn insert_row(s: Seq<SfsTocItem>, e: SfsTocItem) -> Seq<SfsTocItem>
    decreases s.len(),
{
    if s.len() == 0 {
        seq![e]
    } else if s.last().index > e.index {
        insert_row(s.drop_last(), e).push(s.last())
    } else {
        s.push(e)
    }
}

/// The table of contents in canonical order: rows sorted ascending by
/// `index`, rows with equal indices keeping their on-disk order (a stable
/// insertion sort).
pub open spec fn sort_rows(rows: Seq<SfsTocItem>) -> Seq<SfsTocItem>
    decreases rows.len(),
{
    if rows.len() == 0 {
        Seq::empty()
    } else {
        insert_row(sort_rows(rows.drop_last()), rows.last())
    }
}

proof fn lemma_insert_row_ensures(s: Seq<SfsTocItem>, e: SfsTocItem)
    requires
        toc_sorted(s),
    ensures
        toc_sorted(insert_row(s, e)),
        insert_row(s, e).len() == s.len() + 1,
        insert_row(s, e).to_multiset() == s.to_multiset().insert(e),
    decreases s.len(),
{
    broadcast use vstd::seq_lib::group_to_multiset_ensures;
    broadcast use vstd::multiset::group_multiset_axioms;
    broadcast use vstd::multiset::group_multiset_properties;

    if s.len() == 0 {
        assert(insert_row(s, e) =~= s.push(e));
    } else if s.last().index > e.index {
        lemma_insert_row_ensures(s.drop_last(), e);
        let t = insert_row(s.drop_last(), e);
        let r = t.push(s.last());
        assert forall|a: int, b: int| 0 <= a <= b < r.len() implies r[a].index <= r[b].index by {
            if b == t.len() && a < t.len() {
                let y = t[a];
                assert(t.contains(y));
                assert(t.to_multiset().count(y) > 0);
                if y != e {
                    assert(s.drop_last().to_multiset().count(y) > 0);
                    assert(s.drop_last().contains(y));
                    let m = choose|m: int|
                        0 <= m < s.drop_last().len() && s.drop_last()[m] == y;
                    assert(s[m] == y);
                    assert(y.index <= s.last().index);
                }
            }
        }
        assert(s =~= s.drop_last().push(s.last()));
        assert(insert_row(s, e).to_multiset() =~= s.to_multiset().insert(e));
    } else {
        assert(insert_row(s, e).to_multiset() =~= s.to_multiset().insert(e));
    }
}

proof fn lemma_sort_rows_ensures(rows: Seq<SfsTocItem>)
    ensures
        toc_sorted(sort_rows(rows)),
        sort_rows(rows).len() == rows.len(),
        sort_rows(rows).to_multiset() == rows.to_multiset(),
    decreases rows.len(),
{
    broadcast use vstd::seq_lib::group_to_multiset_ensures;

    if rows.len() > 0 {
        lemma_sort_rows_ensures(rows.drop_last());
        lemma_insert_row_ensures(sort_rows(rows.drop_last()), rows.last());
        assert(rows =~= rows.drop_last().push(rows.last()));
        assert(sort_rows(rows).to_multiset() =~= rows.to_multiset());
    }
}

proof fn lemma_insert_row_at(s: Seq<SfsTocItem>, e: SfsTocItem, j: int)
    requires
        0 <= j <= s.len(),
        forall|m: int| j <= m < s.len() ==> (#[trigger] s[m]).index > e.index,
        j > 0 ==> s[j - 1].index <= e.index,
    ensures
        insert_row(s, e) == s.subrange(0, j) + seq![e] + s.subrange(j, s.len() as int),
    decreases s.len(),
{
    if s.len() == j {
        if j == 0 {
            assert(insert_row(s, e) =~= s.subrange(0, 0) + seq![e] + s.subrange(0, 0));
        } else {
            assert(insert_row(s, e) =~= s.subrange(0, j) + seq![e] + s.subrange(j, j));
        }
    } else {
        lemma_insert_row_at(s.drop_last(), e, j);
        assert(s.drop_last().subrange(0, j) =~= s.subrange(0, j));
        assert(s.drop_last().subrange(j, s.len() - 1) =~= s.subrange(j, s.len() - 1));
        assert((s.subrange(0, j) + seq![e] + s.subrange(j, s.len() - 1)).push(s.last()) =~= s
            .subrange(0, j) + seq![e] + s.subrange(j, s.len() as int));
    }
}

/// Sorts the table of contents ascending by `index` with a stable insertion
/// sort: rows with equal indices keep their previous relative order, so the
/// result is exactly [`sort_rows`] of the input.
#[verifier::rlimit(60)]
fn sort_toc(v: &mut Vec<SfsTocItem>)
    ensures
        final(v)@ == sort_rows(old(v)@),
        final(v)@.len() == old(v)@.len(),
        toc_sorted(final(v)@),
        final(v)@.to_multiset() == old(v)@.to_multiset(),
{
    proof {
        lemma_sort_rows_ensures(old(v)@);
    }
    let n = v.len();
    if n <= 1 {
        proof {
            if n == 1 {
                assert(sort_rows(old(v)@.drop_last()) =~= Seq::<SfsTocItem>::empty());
                assert(sort_rows(old(v)@) =~= old(v)@);
            } else {
                assert(sort_rows(old(v)@) =~= old(v)@);
            }
        }
        return ;
    }
    let mut i: usize = 1;
    proof {
        assert(old(v)@.subrange(0, 1).drop_last() =~= Seq::<SfsTocItem>::empty());
        assert(sort_rows(old(v)@.subrange(0, 1).drop_last()) =~= Seq::<SfsTocItem>::empty());
        assert(v@.subrange(0, 1) =~= sort_rows(old(v)@.subrange(0, 1)));
        assert(v@.subrange(1, n as int) =~= old(v)@.subrange(1, n as int));
    }
    while i < n
        invariant
            1 <= i <= n,
            n == v@.len(),
            v@.len() == old(v)@.len(),
            v@.subrange(i as int, n as int) == old(v)@.subrange(i as int, n as int),
            v@.subrange(0, i as int) == sort_rows(old(v)@.subrange(0, i as int)),
            toc_sorted(v@.subrange(0, i as int)),
        decreases n - i,
    {
        let ghost sp = v@.subrange(0, i as int);
        let ghost e = old(v)@[i as int];
        proof {
            assert(v@.subrange(i as int, n as int)[0] == v@[i as int]);
            assert(v@[i as int] == e);
            assert(sp.subrange(0, i as int) =~= sp);
            assert(v@.subrange(i as int + 1, i as int + 1) =~= sp.subrange(i as int, i as int));
            assert forall|m: int| 0 <= m < n as int - (i as int + 1) implies #[trigger] v@
                .subrange(i as int + 1, n as int)[m] == old(v)@.subrange(
                i as int + 1,
                n as int,
            )[m] by {
                assert(v@.subrange(i as int, n as int)[m + 1] == old(v)@.subrange(
                    i as int,
                    n as int,
                )[m + 1]);
            }
            assert(v@.subrange(i as int + 1, n as int) =~= old(v)@.subrange(
                i as int + 1,
                n as int,
            ));
        }
        let mut j: usize = i;
        while j > 0 && v[j - 1].index > v[j].index
            invariant
                j <= i < n,
                n == v@.len(),
                v@.len() == old(v)@.len(),
                toc_sorted(sp),
                sp.len() == i,
                v@[j as int] == e,
                v@.subrange(0, j as int) == sp.subrange(0, j as int),
                v@.subrange(j as int + 1, i as int + 1) == sp.subrange(j as int, i as int),
                forall|m: int| j <= m < i ==> (#[trigger] sp[m]).index > e.index,
                v@.subrange(i as int + 1, n as int) == old(v)@.subrange(i as int + 1, n as int),
            decreases j,
        {
            let x = v[j - 1];
            let y = v[j];
            let ghost vpre = v@;
            proof {
                assert(vpre.subrange(0, j as int)[j as int - 1] == vpre[j as int - 1]);
                assert(x == sp[j as int - 1]);
                assert(y == e);
            }
            v.set(j - 1, y);
            v.set(j, x);
            j -= 1;
            proof {
                assert(v@ == vpre.update(j as int, y).update(j as int + 1, x));
                assert forall|m: int| 0 <= m < j as int implies v@.subrange(0, j as int)[m]
                    == sp.subrange(0, j as int)[m] by {
                    assert(v@[m] == vpre[m]);
                    assert(vpre.subrange(0, j as int + 1)[m] == sp.subrange(0, j as int + 1)[m]);
                }
                assert(v@.subrange(0, j as int) =~= sp.subrange(0, j as int));
                assert forall|m: int| 0 <= m < i as int - j as int implies v@.subrange(
                    j as int + 1,
                    i as int + 1,
                )[m] == sp.subrange(j as int, i as int)[m] by {
                    if m == 0 {
                        assert(v@[j as int + 1] == x);
                    } else {
                        assert(v@[j as int + 1 + m] == vpre[j as int + 1 + m]);
                        assert(vpre.subrange(j as int + 2, i as int + 1)[m - 1] == sp.subrange(
                            j as int + 1,
                            i as int,
                        )[m - 1]);
                    }
                }
                assert(v@.subrange(j as int + 1, i as int + 1) =~= sp.subrange(
                    j as int,
                    i as int,
                ));
                assert(x.index > e.index);
                assert forall|m: int| j as int <= m < i as int implies (#[trigger] sp[m]).index
                    > e.index by {
                    if m == j as int {
                        assert(sp[m] == x);
                    }
                }
                assert forall|m: int| 0 <= m < n as int - (i as int + 1) implies #[trigger] v@
                    .subrange(i as int + 1, n as int)[m] == old(v)@.subrange(
                    i as int + 1,
                    n as int,
                )[m] by {
                    assert(v@[i as int + 1 + m] == vpre[i as int + 1 + m]);
                }
                assert(v@.subrange(i as int + 1, n as int) =~= old(v)@.subrange(
                    i as int + 1,
                    n as int,
                ));
            }
        }
        proof {
            if j > 0 {
                assert(v@.subrange(0, j as int)[j as int - 1] == v@[j as int - 1]);
                assert(sp[j as int - 1].index <= e.index);
            }
            lemma_insert_row_at(sp, e, j as int);
            assert(v@.subrange(0, i as int + 1) =~= sp.subrange(0, j as int) + seq![e]
                + sp.subrange(j as int, i as int));
            assert(old(v)@.subrange(0, i as int + 1).drop_last() =~= old(v)@.subrange(
                0,
                i as int,
            ));
            assert(old(v)@.subrange(0, i as int + 1).last() == e);
            assert(v@.subrange(0, i as int + 1) == sort_rows(old(v)@.subrange(0, i as int + 1)));
            lemma_insert_row_ensures(sp, e);
        }
        i += 1;
    }
    proof {
        assert(v@.subrange(0, n as int) =~= v@);
        assert(old(v)@.subrange(0, n as int) =~= old(v)@);
    }
}

proof fn lemma_shr15_bound(x: u32)
    by (bit_vector)
    ensures
        (x >> 15) < 0x20000,
{
}

/// Turns consecutive chunk-table offsets into validated byte ranges.
///
/// Range `i` runs from `cte` (for the first) or `offsets[i]` up to
/// `offsets[i + 1]`; the first offset of the table is ignored.  Rejects the
/// table unless every range is well formed and lies within `data_len`.
fn build_boundaries(offsets: &Vec<u32>, cte: usize, data_len: usize) -> (r: Result<
    Vec<(usize, usize)>,
    SfsError,
>)
    requires
        offsets@.len() >= 1,
        cte <= data_len,
    ensures
        r is Ok <==> boundaries_ok(cte as int, offsets@, data_len as int),
        r matches Ok(b) ==> b@ == spec_boundaries(cte as int, offsets@),
        r matches Ok(b) ==> forall|j: int|
            0 <= j < b@.len() ==> ((#[trigger] b@[j]).0 <= b@[j].1 <= data_len),
        r is Err ==> r == Err::<Vec<(usize, usize)>, SfsError>(
            SfsError::Format(FormatFault::BadLayout),
        ),
{
    let ghost goffsets = offsets@;
    let mut boundaries: Vec<(usize, usize)> = Vec::new();
    let mut prev: usize = cte;
    let mut k: usize = 1;
    while k < offsets.len()
        invariant
            1 <= k <= goffsets.len(),
            offsets@ == goffsets,
            cte <= data_len,
            prev == if k == 1 {
                cte as int
            } else {
                goffsets[k as int - 1] as int
            },
            boundaries@.len() == k - 1,
            forall|j: int|
                0 <= j < k - 1 ==> #[trigger] boundaries@[j] == spec_boundaries(
                    cte as int,
                    goffsets,
                )[j],
            forall|j: int|
                0 <= j < k - 1 ==> ((#[trigger] boundaries@[j]).0 <= boundaries@[j].1
                    <= data_len),
        decreases goffsets.len() - k,
    {
        let next = offsets[k] as usize;
        if prev > next || next > data_len {
            proof {
                let i = k as int - 1;
                let start = if i == 0 {
                    cte as int
                } else {
                    goffsets[i] as int
                };
                assert(!(start <= goffsets[i + 1] <= data_len));
                assert(!boundaries_ok(cte as int, goffsets, data_len as int));
            }
            return Err(SfsError::Format(FormatFault::BadLayout));
        }
        boundaries.push((prev, next));
        prev = next;
        k += 1;
    }
    proof {
        assert(boundaries@ =~= spec_boundaries(cte as int, goffsets));
        assert forall|i: int| 0 <= i < goffsets.len() - 1 implies {
            let start = if i == 0 {
                cte as int
            } else {
                goffsets[i] as int
            };
            start <= #[trigger] goffsets[i + 1] <= data_len
        } by {
            assert(boundaries@[i] == spec_boundaries(cte as int, goffsets)[i]);
            assert(boundaries@[i].0 <= boundaries@[i].1 <= data_len);
        }
        assert(boundaries_ok(cte as int, goffsets, data_len as int));
    }
    Ok(boundaries)
}

/// Opens an archive from its raw bytes and the file name it was read under.
///
/// Pass 1 reads the header verbatim and derives the archive key; pass 2
/// re-parses the (possibly decrypted) header, verifies the magic and checksum
/// invariants, decrypts and decodes the table of contents, sorts it by
/// `index`, and decodes the chunk-offset table into validated byte ranges.
pub fn read_sfs(data: Vec<u8>, file_name: &str) -> (r: Result<SfsFile, SfsError>)
    ensures
        spec_read_err(data@, file_name@) matches Some(e) ==> r == Err::<SfsFile, SfsError>(e),
        spec_read_err(data@, file_name@) is None ==> (r matches Ok(f) && f.wf()
            && f.parsed_from(data@, file_name@)),
{
    let ghost gdata = data@;
    let ghost gname = file_name@;
    if data.len() < 256 {
        return Err(SfsError::Format(FormatFault::Truncated));
    }
    let d = data.as_slice();
    let version = u32_from_le_bytes(&d[4..8]);
    let header_hash: i64 = if version == ENCRYPTED_HEADER_VERSION {
        crate::finger::string(0, file_name)
    } else {
        crate::finger::bytes(0, &d[0..256])
    };
    let ghost key = spec_header_key(gdata, gname);
    proof {
        assert(header_hash == key);
    }
    let mut plain: Vec<u8> = Vec::new();
    if version == ENCRYPTED_HEADER_VERSION {
        plain.extend_from_slice(&d[0..8]);
        let mid = sfs_decrypt(header_hash, &d[8..32]);
        plain.extend_from_slice(mid.as_slice());
        plain.extend_from_slice(&d[32..256]);
    } else {
        plain.extend_from_slice(&d[0..256]);
    }
    let ghost gplain = spec_plain_header(gdata, key);
    proof {
        assert(plain@ =~= gplain);
    }
    let header0 = match crate::parse::parse_header(plain.as_slice()) {
        Ok(h) => h,
        Err(_) => {
            proof {
                assert(false);
            }
            return Err(SfsError::Format(FormatFault::Truncated));
        },
    };
    if header0.magic != MAGIC {
        return Err(SfsError::Format(FormatFault::BadMagic));
    }
    let header_end = header0.header_end;
    if header_end < 12 || header_end > 256 {
        return Err(SfsError::Format(FormatFault::BadLayout));
    }
    let sum = crate::parse::header_checksum(plain.as_slice(), header_end as usize);
    if sum != header0.checksum {
        return Err(SfsError::Format(FormatFault::ChecksumMismatch));
    }
    let toc_end = header0.toc_end;
    if toc_end < header_end || (toc_end as usize) > data.len() {
        return Err(SfsError::Format(FormatFault::BadLayout));
    }
    if 32u64 * (header0.toc_count as u64) > ((toc_end - header_end) as u64) {
        return Err(SfsError::Format(FormatFault::Truncated));
    }
    let toc_slice = &d[header_end as usize..toc_end as usize];
    let decrypted_toc = sfs_decrypt(header_hash, toc_slice);
    let ghost toc_bytes = primary_xor(key, gdata.subrange(header_end as int, toc_end as int));
    let mut toc = match crate::parse::parse_toc(&header0, decrypted_toc.as_slice()) {
        Ok(t) => t,
        Err(_) => {
            proof {
                assert(false);
            }
            return Err(SfsError::Format(FormatFault::Truncated));
        },
    };
    proof {
        assert forall|k: int| 0 <= k < header0.toc_count implies toc@[k] == spec_toc_rows(
            toc_bytes,
            header0.toc_count as int,
        )[k] by {
            assert(crate::parse::toc_item_matches(
                toc@[k],
                toc_bytes.subrange(32 * k, 32 * k + 32),
            ));
        }
        assert(toc@ =~= spec_toc_rows(toc_bytes, header0.toc_count as int));
    }
    sort_toc(&mut toc);
    let size = header0.uncompressed_size;
    proof {
        lemma_shr15_bound(size);
    }
    let chunks: u32 = (size >> 15) + if size & 0x7FFF != 0 {
        1
    } else {
        0
    };
    let table_bytes: u64 = (chunks as u64) * 4 + 4;
    let cte64: u64 = (toc_end as u64) + table_bytes;
    if cte64 > (data.len() as u64) || cte64 > 0xFFFF_FFFFu64 {
        return Err(SfsError::Format(FormatFault::BadLayout));
    }
    let cte = cte64 as usize;
    let chunk_slice = &d[toc_end as usize..cte];
    let table = sfs_decrypt2(header_hash, chunk_slice);
    let ghost gtable = secondary_xor(key, gdata.subrange(toc_end as int, cte as int));
    let mut offsets: Vec<u32> = Vec::new();
    let mut oi: usize = 0;
    while oi < (chunks as usize) + 1
        invariant
            table@ == gtable,
            chunks <= 0x20000,
            gtable.len() == 4 * (chunks as int) + 4,
            oi <= chunks + 1,
            offsets@.len() == oi,
            forall|k: int| 0 <= k < oi ==> offsets@[k] == le32_at(gtable, 4 * k),
        decreases chunks + 1 - oi,
    {
        let o = u32_from_le_bytes(&table.as_slice()[4 * oi..4 * oi + 4]);
        offsets.push(o);
        oi += 1;
    }
    let ghost goffsets = spec_chunk_offsets(gtable, chunks as int);
    proof {
        assert(offsets@ =~= goffsets);
    }
    let boundaries = match build_boundaries(&offsets, cte, data.len()) {
        Ok(b) => b,
        Err(e) => {
            return Err(e);
        },
    };
    let mut header = header0;
    header.chunk_table_end = cte as u32;
    let sfs_file = SfsFile { data, header, toc, chunk_boundaries: boundaries };
    proof {
        assert(sfs_file.wf());
        assert(sfs_file.parsed_from(gdata, gname));
    }
    Ok(sfs_file)
}


/// Every archive the reader accepts satisfies the checksum invariant: the
/// stored checksum equals the wrapping 32-bit sum of the plaintext header's
/// bytes through `header_end`, with the checksum field summed as zero.
pub proof fn lemma_accepted_checksum(data: Seq<u8>, name: Seq<char>)
    requires
        spec_read_err(data, name) is None,
    ensures
        checksum_ok(spec_plain_header(data, spec_header_key(data, name))),
        le32_at(spec_plain_header(data, spec_header_key(data, name)), 8) == spec_header_checksum(
            spec_plain_header(data, spec_header_key(data, name)),
            le32_at(spec_plain_header(data, spec_header_key(data, name)), 16) as int,
        ),
{
}


/// An accepted archive carries one chunk range per 32 KiB of declared
/// decompressed size, rounded up: the chunk table is derived from
/// `uncompressed_size`, never read from the file.
pub proof fn lemma_accepted_chunk_count(f: SfsFile, data: Seq<u8>, name: Seq<char>)
    requires
        spec_read_err(data, name) is None,
        f.parsed_from(data, name),
    ensures
        f.chunk_boundaries@.len() == spec_chunk_count(f.header.uncompressed_size),
{
}


/// Parsing is deterministic: two archives accepted from the same bytes under
/// the same file name agree on every component — the key, the header, the
/// canonically ordered table of contents and the chunk ranges are all pure
/// functions of the input.
pub proof fn lemma_read_deterministic(f1: SfsFile, f2: SfsFile, data: Seq<u8>, name: Seq<char>)
    requires
        f1.parsed_from(data, name),
        f2.parsed_from(data, name),
    ensures
        f1.data@ == f2.data@,
        f1.header.magic == f2.header.magic,
        f1.header.version == f2.header.version,
        f1.header.checksum == f2.header.checksum,
        f1.header.toc_count == f2.header.toc_count,
        f1.header.header_end == f2.header.header_end,
        f1.header.toc_end == f2.header.toc_end,
        f1.header.chunk_table_end == f2.header.chunk_table_end,
        f1.header.uncompressed_size == f2.header.uncompressed_size,
        f1.header.unknown == f2.header.unknown,
        f1.header.comment@ == f2.header.comment@,
        f1.toc@ == f2.toc@,
        f1.chunk_boundaries@ == f2.chunk_boundaries@,
{
}

} // verus!
