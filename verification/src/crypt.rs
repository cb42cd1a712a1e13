//! The decryption layer: three XOR stream variants.
//!
//! The primary and secondary passes are keyed by a 64-bit fingerprint; they
//! differ only in how a byte position selects one of the key's 8 bytes.  Both
//! index derivations multiply by a fixed-point reciprocal constant and shift,
//! matching the original obfuscator bit for bit; they are deliberately not
//! simplified to a modulo, since the constant's rounding decides which key
//! byte is picked.  The third variant XORs a payload against a per-entry key
//! table expanded by the fingerprint engine.
//!
//! Every variant is an involution: applying it twice restores the input, so
//! the same functions serve as encryption and decryption.

use vstd::prelude::*;

verus! {

use vstd::bytes::spec_u64_to_le_bytes;
use vstd::bytes::u64_to_le_bytes;
use crate::finger::spec_key_table;

/// The 8 key bytes of a fingerprint, in little-endian order.
pub open spec fn key_bytes_of(hash: i64) -> Seq<u8> {
    spec_u64_to_le_bytes(hash as u64)
}

/// Which key byte the primary pass uses at position `i`.
pub open spec fn primary_slot(i: u64) -> u64 {
    (i.wrapping_mul(0x2AAAAAAAB) >> 0x21) & 7
}

/// Which key byte the secondary pass uses at position `i`.
pub open spec fn secondary_slot(i: u64) -> u64 {
    (i.wrapping_mul(0x4CCCCCCCD) >> 0x22) & 7
}

/// The primary XOR stream applied to `s` under `hash`.
pub open spec fn primary_xor(hash: i64, s: Seq<u8>) -> Seq<u8> {
    Seq::new(s.len(), |i: int| s[i] ^ key_bytes_of(hash)[primary_slot(i as u64) as int])
}

/// The secondary XOR stream applied to `s` under `hash`.
pub open spec fn secondary_xor(hash: i64, s: Seq<u8>) -> Seq<u8> {
    Seq::new(s.len(), |i: int| s[i] ^ key_bytes_of(hash)[secondary_slot(i as u64) as int])
}

/// The per-entry XOR pass: position `i` is XORed against
/// `table[(i + idx_offset) % table.len()]`.
pub open spec fn table_xor(table: Seq<u8>, idx_offset: int, s: Seq<u8>) -> Seq<u8>
    recommends
        table.len() > 0,
{
    Seq::new(s.len(), |i: int| s[i] ^ table[(i + idx_offset) % (table.len() as int)])
}

proof fn lemma_and7_bound(x: u64)
    by (bit_vector)
    ensures
        x & 7 < 8,
{
}

proof fn lemma_xor_cancel(a: u8, b: u8)
    by (bit_vector)
    ensures
        (a ^ b) ^ b == a,
{
}

/// Applies the primary XOR stream; used for the header's encrypted middle
/// region and for the table of contents.
pub fn sfs_decrypt(hash: i64, buf: &[u8]) -> (r: Vec<u8>)
    ensures
        r@ == primary_xor(hash, buf@),
{
    let key = u64_to_le_bytes(#[verifier::truncate] (hash as u64));
    let mut r: Vec<u8> = Vec::new();
    let mut i: usize = 0;
    while i < buf.len()
        invariant
            i <= buf@.len(),
            key@ == key_bytes_of(hash),
            key@.len() == 8,
            r@.len() == i,
            forall|k: int| 0 <= k < i ==> r@[k] == #[trigger] primary_xor(hash, buf@)[k],
        decreases buf@.len() - i,
    {
        let slot = ((i as u64).wrapping_mul(0x2AAAAAAAB) >> 0x21) & 7;
        proof {
            lemma_and7_bound((i as u64).wrapping_mul(0x2AAAAAAAB) >> 0x21);
        }
        r.push(buf[i] ^ key[slot as usize]);
        i += 1;
    }
    proof {
        assert(r@ =~= primary_xor(hash, buf@));
    }
    r
}

/// Applies the secondary XOR stream; used for the chunk-offset table.
pub fn sfs_decrypt2(hash: i64, buf: &[u8]) -> (r: Vec<u8>)
    ensures
        r@ == secondary_xor(hash, buf@),
{
    let key = u64_to_le_bytes(#[verifier::truncate] (hash as u64));
    let mut r: Vec<u8> = Vec::new();
    let mut i: usize = 0;
    while i < buf.len()
        invariant
            i <= buf@.len(),
            key@ == key_bytes_of(hash),
            key@.len() == 8,
            r@.len() == i,
            forall|k: int| 0 <= k < i ==> r@[k] == #[trigger] secondary_xor(hash, buf@)[k],
        decreases buf@.len() - i,
    {
        let slot = ((i as u64).wrapping_mul(0x4CCCCCCCD) >> 0x22) & 7;
        proof {
            lemma_and7_bound((i as u64).wrapping_mul(0x4CCCCCCCD) >> 0x22);
        }
        r.push(buf[i] ^ key[slot as usize]);
        i += 1;
    }
    proof {
        assert(r@ =~= secondary_xor(hash, buf@));
    }
    r
}

/// Decrypts one entry's payload against the key table expanded from
/// `key_hash` and `key_len_offset`, rotating table positions by
/// `key_idx_offset`.
pub fn decrypt_data(raw_data: Vec<u8>, key_hash: i32, key_len_offset: i32, key_idx_offset: i32) -> (r:
    Vec<u8>)
    requires
        key_len_offset >= 1,
        key_idx_offset >= 0,
        raw_data@.len() + key_idx_offset <= usize::MAX,
    ensures
        r@ == table_xor(
            spec_key_table(key_hash, key_len_offset as nat),
            key_idx_offset as int,
            raw_data@,
        ),
{
    let xor_table = crate::finger::key_table(key_hash, key_len_offset);
    let ghost table = spec_key_table(key_hash, key_len_offset as nat);
    let mut r: Vec<u8> = Vec::new();
    let mut i: usize = 0;
    while i < raw_data.len()
        invariant
            i <= raw_data@.len(),
            raw_data@.len() + key_idx_offset <= usize::MAX,
            key_idx_offset >= 0,
            xor_table@ == table,
            table.len() == key_len_offset >= 1,
            r@.len() == i,
            forall|k: int|
                0 <= k < i ==> r@[k] == #[trigger] table_xor(table, key_idx_offset as int, raw_data@)[k],
        decreases raw_data@.len() - i,
    {
        let table_idx = (i + key_idx_offset as usize) % xor_table.len();
        r.push(raw_data[i] ^ xor_table[table_idx]);
        i += 1;
    }
    proof {
        assert(r@ =~= table_xor(table, key_idx_offset as int, raw_data@));
    }
    r
}

/// The primary stream cipher is an involution: decrypting what was encrypted
/// under the same key restores the input, for every key and every length.
pub proof fn lemma_primary_roundtrip(hash: i64, s: Seq<u8>)
    ensures
        primary_xor(hash, primary_xor(hash, s)) == s,
{
    assert forall|i: int| 0 <= i < s.len() implies primary_xor(hash, primary_xor(hash, s))[i]
        == s[i] by {
        lemma_xor_cancel(s[i], key_bytes_of(hash)[primary_slot(i as u64) as int]);
    }
    assert(primary_xor(hash, primary_xor(hash, s)) =~= s);
}

/// The secondary stream cipher is an involution as well.
pub proof fn lemma_secondary_roundtrip(hash: i64, s: Seq<u8>)
    ensures
        secondary_xor(hash, secondary_xor(hash, s)) == s,
{
    assert forall|i: int| 0 <= i < s.len() implies secondary_xor(hash, secondary_xor(hash, s))[i]
        == s[i] by {
        lemma_xor_cancel(s[i], key_bytes_of(hash)[secondary_slot(i as u64) as int]);
    }
    assert(secondary_xor(hash, secondary_xor(hash, s)) =~= s);
}

/// The per-entry pass is an involution under a fixed table and offset.
pub proof fn lemma_table_xor_roundtrip(table: Seq<u8>, idx_offset: int, s: Seq<u8>)
    ensures
        table_xor(table, idx_offset, table_xor(table, idx_offset, s)) == s,
{
    assert forall|i: int| 0 <= i < s.len() implies table_xor(
        table,
        idx_offset,
        table_xor(table, idx_offset, s),
    )[i] == s[i] by {
        lemma_xor_cancel(s[i], table[(i + idx_offset) % (table.len() as int)]);
    }
    assert(table_xor(table, idx_offset, table_xor(table, idx_offset, s)) =~= s);
}

} // verus!
