//! The fingerprint engine: a 64-bit running hash over byte streams.
//!
//! The accumulator is split into two independent 32-bit lanes ("bottom" and
//! "top").  For each input byte `b` a lane steps to
//! `((lane << 8) | b) ^ TABLE[lane >> 24]`, where each lane has its own fixed
//! 256-entry lookup table generated from a feedback constant.  The combined
//! fingerprint `bottom | (top << 32)` serves both as the content-addressing
//! key of the table of contents and as the archive's decryption key.
//!
//! The engine also carries two auxiliary variants: an integer-character hash
//! used only for obfuscated class-name resolution, and a key-table expansion
//! that turns a 32-bit hash and a length into an XOR key stream for per-entry
//! payload decryption.

use vstd::prelude::*;

verus! {


/// Feedback constant of the bottom lane's lookup table.
pub const BOTTOM_POLY: u32 = 0x04C11DB3;

/// Feedback constant of the top lane's lookup table.
pub const TOP_POLY: u32 = 0x1EDC6F41;

/// One shift-and-feedback round of the table generator.
pub open spec fn table_round(poly: u32, x: u32) -> u32 {
    if x & 0x8000_0000 != 0 {
        (x << 1) ^ poly
    } else {
        x << 1
    }
}

/// `n` rounds of the table generator applied to `x`.
pub open spec fn table_rounds(poly: u32, x: u32, n: nat) -> u32
    decreases n,
{
    if n == 0 {
        x
    } else {
        table_round(poly, table_rounds(poly, x, (n - 1) as nat))
    }
}

/// Entry `b` of the 256-entry lookup table generated from `poly`.
pub open spec fn table_entry(poly: u32, b: u8) -> u32 {
    table_rounds(poly, (b as u32) << 24, 8)
}

/// One lane update for input byte `b`.
pub open spec fn lane_step(poly: u32, lane: u32, b: u8) -> u32 {
    ((lane << 8) | (b as u32)) ^ table_entry(poly, (lane >> 24) as u8)
}

/// Both lanes after hashing `bytes`, starting from the lanes of `seed`
/// (bottom is the low half of the seed, top the high half).
pub open spec fn spec_lanes(seed: i64, bytes: Seq<u8>) -> (u32, u32)
    decreases bytes.len(),
{
    if bytes.len() == 0 {
        (seed as u32, (seed >> 32) as u32)
    } else {
        let prev = spec_lanes(seed, bytes.drop_last());
        (
            lane_step(BOTTOM_POLY, prev.0, bytes.last()),
            lane_step(TOP_POLY, prev.1, bytes.last()),
        )
    }
}

/// The 64-bit fingerprint of `bytes` under `seed`: `bottom | (top << 32)`.
pub open spec fn spec_fingerprint(seed: i64, bytes: Seq<u8>) -> i64 {
    let lanes = spec_lanes(seed, bytes);
    ((lanes.0 as u64) | ((lanes.1 as u64) << 32)) as i64
}

proof fn lemma_shr24_bound(x: u32)
    by (bit_vector)
    ensures
        (x >> 24) < 256,
{
}

/// Builds the 256-entry lookup table for `poly`.
fn build_table(poly: u32) -> (t: Vec<u32>)
    ensures
        t@.len() == 256,
        forall|b: int| 0 <= b < 256 ==> t@[b] == table_entry(poly, b as u8),
{
    let mut t: Vec<u32> = Vec::new();
    let mut b: usize = 0;
    while b < 256
        invariant
            b <= 256,
            t@.len() == b,
            forall|k: int| 0 <= k < b ==> t@[k] == table_entry(poly, k as u8),
        decreases 256 - b,
    {
        let mut x: u32 = (b as u32) << 24;
        let mut r: usize = 0;
        while r < 8
            invariant
                r <= 8,
                b < 256,
                x == table_rounds(poly, ((b as u32) << 24), r as nat),
            decreases 8 - r,
        {
            x = if x & 0x8000_0000 != 0 {
                (x << 1) ^ poly
            } else {
                x << 1
            };
            r += 1;
        }
        proof {
            assert((b as u8) as u32 == b as u32);
        }
        t.push(x);
        b += 1;
    }
    t
}

/// Fingerprint of a raw byte slice.
pub fn bytes(seed: i64, input: &[u8]) -> (r: i64)
    ensures
        r == spec_fingerprint(seed, input@),
{
    let bottom_table = build_table(BOTTOM_POLY);
    let top_table = build_table(TOP_POLY);
    let mut bottom: u32 = #[verifier::truncate] (seed as u32);
    let mut top: u32 = #[verifier::truncate] ((seed >> 32) as u32);
    let mut i: usize = 0;
    while i < input.len()
        invariant
            i <= input@.len(),
            bottom_table@.len() == 256,
            forall|k: int| 0 <= k < 256 ==> bottom_table@[k] == table_entry(BOTTOM_POLY, k as u8),
            top_table@.len() == 256,
            forall|k: int| 0 <= k < 256 ==> top_table@[k] == table_entry(TOP_POLY, k as u8),
            (bottom, top) == spec_lanes(seed, input@.subrange(0, i as int)),
        decreases input@.len() - i,
    {
        let byte = input[i];
        proof {
            lemma_shr24_bound(bottom);
            lemma_shr24_bound(top);
        }
        let bi = (bottom >> 24) as usize;
        let ti = (top >> 24) as usize;
        bottom = ((bottom << 8) | (byte as u32)) ^ bottom_table[bi];
        top = ((top << 8) | (byte as u32)) ^ top_table[ti];
        i += 1;
        proof {
            let s = input@;
            assert(s.subrange(0, i as int).drop_last() =~= s.subrange(0, i - 1));
            assert(s.subrange(0, i as int).last() == s[i - 1]);
        }
    }
    proof {
        assert(input@.subrange(0, input@.len() as int) =~= input@);
    }
    let lo = bottom as u64;
    let hi = (top as u64) << 32;
    #[verifier::truncate] ((lo | hi) as i64)
}

/// What Unicode case folding turns a string into.  The folded string is a
/// function of the characters alone; its value is given only by the trusted
/// lowercase call.
pub uninterp spec fn lower_of(s: Seq<char>) -> Seq<char>;

/// Relies on `str::to_lowercase`: Unicode lower-casing, whose result depends
/// on the characters alone.
#[verifier::external_body]
fn lowercase(s: &str) -> (r: String)
    ensures
        r@ == lower_of(s@),
{
    s.to_lowercase()
}

/// Fingerprint of a path or file-name string: the string is lower-cased
/// first, then its UTF-8 bytes are hashed.
pub fn string(seed: i64, s: &str) -> (r: i64)
    ensures
        r == spec_fingerprint(seed, vstd::utf8::encode_utf8(lower_of(s@))),
{
    let lowered = lowercase(s);
    bytes(seed, lowered.as_str().as_bytes())
}

/// One step of the integer-character hash.
pub open spec fn int_hash_step(h: i32, c: i32) -> i32 {
    h.wrapping_mul(31).wrapping_add(c)
}

/// The integer-character hash of a character sequence.
pub open spec fn spec_int_hash(cs: Seq<i32>) -> i32
    decreases cs.len(),
{
    if cs.len() == 0 {
        0
    } else {
        int_hash_step(spec_int_hash(cs.drop_last()), cs.last())
    }
}

/// Integer-character hash over the code points of an obfuscated class name.
pub fn int_hash(chars: &Vec<i32>) -> (r: i32)
    ensures
        r == spec_int_hash(chars@),
{
    let mut h: i32 = 0;
    let mut i: usize = 0;
    while i < chars.len()
        invariant
            i <= chars@.len(),
            h == spec_int_hash(chars@.subrange(0, i as int)),
        decreases chars@.len() - i,
    {
        h = h.wrapping_mul(31).wrapping_add(chars[i]);
        i += 1;
        proof {
            let s = chars@;
            assert(s.subrange(0, i as int).drop_last() =~= s.subrange(0, i - 1));
            assert(s.subrange(0, i as int).last() == s[i - 1]);
        }
    }
    proof {
        assert(chars@.subrange(0, chars@.len() as int) =~= chars@);
    }
    h
}

/// One step of the key-stream state recurrence.
pub open spec fn key_state_step(s: u32) -> u32 {
    s.wrapping_mul(0x343FD).wrapping_add(0x269EC3)
}

/// The key-stream state after `n` steps from `hash`.
pub open spec fn spec_key_state(hash: i32, n: nat) -> u32
    decreases n,
{
    if n == 0 {
        hash as u32
    } else {
        key_state_step(spec_key_state(hash, (n - 1) as nat))
    }
}

/// The XOR key table of length `len` expanded from `hash`.
pub open spec fn spec_key_table(hash: i32, len: nat) -> Seq<u8> {
    Seq::new(len, |i: int| ((spec_key_state(hash, (i + 1) as nat) >> 16) & 0xFF) as u8)
}

/// Expands a 32-bit hash and a length parameter into an XOR key table for
/// per-entry payload decryption.  A non-positive length yields an empty table.
pub fn key_table(key_hash: i32, key_len_offset: i32) -> (r: Vec<u8>)
    ensures
        key_len_offset >= 1 ==> r@ == spec_key_table(key_hash, key_len_offset as nat),
        key_len_offset < 1 ==> r@.len() == 0,
{
    let mut r: Vec<u8> = Vec::new();
    if key_len_offset < 1 {
        return r;
    }
    let len = key_len_offset as usize;
    let mut state: u32 = #[verifier::truncate] (key_hash as u32);
    let mut i: usize = 0;
    while i < len
        invariant
            i <= len,
            state == spec_key_state(key_hash, i as nat),
            r@.len() == i,
            forall|k: int|
                0 <= k < i ==> r@[k] == ((spec_key_state(key_hash, (k + 1) as nat) >> 16)
                    & 0xFF) as u8,
        decreases len - i,
    {
        state = state.wrapping_mul(0x343FD).wrapping_add(0x269EC3);
        r.push(((state >> 16) & 0xFF) as u8);
        i += 1;
    }
    proof {
        assert(r@ =~= spec_key_table(key_hash, key_len_offset as nat));
    }
    r
}


/// Fingerprinting is deterministic: the fingerprint is a pure function of
/// the seed and the input bytes, so identical inputs always hash alike.
pub proof fn lemma_fingerprint_deterministic(seed: i64, a: Seq<u8>, b: Seq<u8>)
    requires
        a == b,
    ensures
        spec_fingerprint(seed, a) == spec_fingerprint(seed, b),
{
}


proof fn lemma_step_preserves_diff(x: u32, y: u32, c: u8)
    by (bit_vector)
    requires
        x != y,
    ensures
        lane_step(BOTTOM_POLY, x, c) != lane_step(BOTTOM_POLY, y, c),
{
}


proof fn lemma_step_diff_byte(la: u32, e: u32, b: u8, b2: u8)
    by (bit_vector)
    requires
        b != b2,
    ensures
        ((la << 8) | (b as u32)) ^ e != ((la << 8) | (b2 as u32)) ^ e,
{
}

proof fn lemma_compose_diff(a: u32, b: u32, c: u32, d: u32)
    by (bit_vector)
    requires
        a != b,
    ensures
        ((a as u64) | ((c as u64) << 32)) as i64 != ((b as u64) | ((d as u64) << 32)) as i64,
{
}

proof fn lemma_bottom_lane_diverges(seed: i64, s: Seq<u8>, t: Seq<u8>, i: int)
    requires
        s.len() == t.len(),
        0 <= i < s.len(),
        s[i] != t[i],
        forall|j: int| 0 <= j < s.len() && j != i ==> s[j] == t[j],
    ensures
        spec_lanes(seed, s).0 != spec_lanes(seed, t).0,
    decreases s.len(),
{
    if i == s.len() - 1 {
        assert(s.drop_last() =~= t.drop_last());
        let la = spec_lanes(seed, s.drop_last()).0;
        lemma_step_diff_byte(
            la,
            table_entry(BOTTOM_POLY, (la >> 24) as u8),
            s.last(),
            t.last(),
        );
    } else {
        assert forall|j: int| 0 <= j < s.drop_last().len() && j != i implies s.drop_last()[j]
            == t.drop_last()[j] by {}
        lemma_bottom_lane_diverges(seed, s.drop_last(), t.drop_last(), i);
        lemma_step_preserves_diff(
            spec_lanes(seed, s.drop_last()).0,
            spec_lanes(seed, t.drop_last()).0,
            s.last(),
        );
        assert(s.last() == t.last());
    }
}

/// Changing any single byte of the input changes the fingerprint: the lane
/// update is an invertible linear map, so a one-byte difference can never
/// cancel out.
pub proof fn lemma_fingerprint_byte_sensitive(seed: i64, s: Seq<u8>, t: Seq<u8>, i: int)
    requires
        s.len() == t.len(),
        0 <= i < s.len(),
        s[i] != t[i],
        forall|j: int| 0 <= j < s.len() && j != i ==> s[j] == t[j],
    ensures
        spec_fingerprint(seed, s) != spec_fingerprint(seed, t),
{
    lemma_bottom_lane_diverges(seed, s, t, i);
    lemma_compose_diff(
        spec_lanes(seed, s).0,
        spec_lanes(seed, t).0,
        spec_lanes(seed, s).1,
        spec_lanes(seed, t).1,
    );
}

} // verus!
