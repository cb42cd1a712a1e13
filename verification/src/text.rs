//! Byte-level text helpers: ASCII case mapping, number formatting, and
//! substring replacement.
//!
//! The case mappings here fold only over the ASCII range, as the repacker's
//! entry names and the virtual filesystem's normalization do; bytes outside
//! it (including UTF-8 continuation bytes) pass through unchanged.

use vstd::prelude::*;

verus! {

/// ASCII lower-casing of a single byte.
pub open spec fn lower_byte(b: u8) -> u8 {
    if 0x41 <= b <= 0x5A {
        (b + 0x20) as u8
    } else {
        b
    }
}

/// ASCII upper-casing of a single byte.
pub open spec fn upper_byte(b: u8) -> u8 {
    if 0x61 <= b <= 0x7A {
        (b - 0x20) as u8
    } else {
        b
    }
}

/// ASCII lower-casing of a byte string.
pub open spec fn lower_bytes(s: Seq<u8>) -> Seq<u8> {
    s.map_values(|b: u8| lower_byte(b))
}

/// ASCII upper-casing of a byte string.
pub open spec fn upper_bytes(s: Seq<u8>) -> Seq<u8> {
    s.map_values(|b: u8| upper_byte(b))
}

/// Lower-cases the ASCII letters of `s`, leaving every other byte unchanged.
pub fn ascii_lower(s: &[u8]) -> (r: Vec<u8>)
    ensures
        r@ == lower_bytes(s@),
{
    let mut r: Vec<u8> = Vec::new();
    let mut i: usize = 0;
    while i < s.len()
        invariant
            i <= s@.len(),
            r@ == lower_bytes(s@.subrange(0, i as int)),
        decreases s@.len() - i,
    {
        let b = s[i];
        if 0x41 <= b && b <= 0x5A {
            r.push(b + 0x20);
        } else {
            r.push(b);
        }
        i += 1;
        proof {
            assert(r@ =~= lower_bytes(s@.subrange(0, i as int)));
        }
    }
    proof {
        assert(s@.subrange(0, s@.len() as int) =~= s@);
    }
    r
}

/// Upper-cases the ASCII letters of `s`, leaving every other byte unchanged.
pub fn ascii_upper(s: &[u8]) -> (r: Vec<u8>)
    ensures
        r@ == upper_bytes(s@),
{
    let mut r: Vec<u8> = Vec::new();
    let mut i: usize = 0;
    while i < s.len()
        invariant
            i <= s@.len(),
            r@ == upper_bytes(s@.subrange(0, i as int)),
        decreases s@.len() - i,
    {
        let b = s[i];
        if 0x61 <= b && b <= 0x7A {
            r.push(b - 0x20);
        } else {
            r.push(b);
        }
        i += 1;
        proof {
            assert(r@ =~= upper_bytes(s@.subrange(0, i as int)));
        }
    }
    proof {
        assert(s@.subrange(0, s@.len() as int) =~= s@);
    }
    r
}

/// Decimal digits of a non-negative number, most significant first.
pub open spec fn spec_udec(n: nat) -> Seq<u8>
    decreases n,
{
    if n < 10 {
        seq![(48 + n) as u8]
    } else {
        spec_udec(n / 10) + seq![(48 + n % 10) as u8]
    }
}

/// Decimal notation of an integer, with a leading minus sign when negative.
pub open spec fn spec_idec(n: int) -> Seq<u8> {
    if n < 0 {
        seq![45u8] + spec_udec((-n) as nat)
    } else {
        spec_udec(n as nat)
    }
}

/// Writes `n` in decimal ASCII, with a leading `-` when negative.
pub fn dec_bytes(n: i32) -> (r: Vec<u8>)
    ensures
        r@ == spec_idec(n as int),
{
    let mut r: Vec<u8> = Vec::new();
    if n == 0 {
        r.push(48);
        proof {
            assert(r@ =~= spec_udec(0));
        }
        return r;
    }
    let neg = n < 0;
    let mut v: u64 = if n < 0 {
        (-(n as i64)) as u64
    } else {
        n as u64
    };
    let ghost n0 = v as nat;
    let mut tmp: Vec<u8> = Vec::new();
    proof {
        assert(spec_udec(n0) =~= spec_udec(v as nat) + tmp@.reverse());
    }
    while v > 0
        invariant
            spec_udec(n0) == if v > 0 {
                spec_udec(v as nat) + tmp@.reverse()
            } else {
                tmp@.reverse()
            },
        decreases v,
    {
        let d: u8 = (48 + (v % 10)) as u8;
        proof {
            assert(tmp@.push(d).reverse() =~= seq![d] + tmp@.reverse());
            if v >= 10 {
                assert(spec_udec(v as nat) =~= spec_udec((v as nat) / 10) + seq![d]);
                assert(spec_udec((v as nat) / 10) + seq![d] + tmp@.reverse() =~= spec_udec(
                    (v as nat) / 10,
                ) + (seq![d] + tmp@.reverse()));
            } else {
                assert(spec_udec(v as nat) =~= seq![d]);
                assert(seq![d] + tmp@.reverse() =~= spec_udec(v as nat) + tmp@.reverse());
            }
            assert((v as nat) / 10 == (v / 10) as nat);
        }
        tmp.push(d);
        v = v / 10;
    }
    if neg {
        r.push(45);
    }
    let ghost sign = r@;
    let mut i: usize = tmp.len();
    while i > 0
        invariant
            i <= tmp@.len(),
            r@ == sign + tmp@.reverse().subrange(0, tmp@.len() - i),
        decreases i,
    {
        i -= 1;
        r.push(tmp[i]);
        proof {
            assert(tmp@.reverse()[tmp@.len() - i - 1] == tmp@[i as int]);
            assert(r@ =~= sign + tmp@.reverse().subrange(0, tmp@.len() - i));
        }
    }
    proof {
        assert(tmp@.reverse().subrange(0, tmp@.len() as int) =~= tmp@.reverse());
        assert(r@ =~= spec_idec(n as int));
    }
    r
}

/// The code points of `s`, in order, as 32-bit integers.
pub fn chars_to_ints(s: &str) -> (r: Vec<i32>)
    ensures
        r@ == s@.map_values(|c: char| (c as u32) as i32),
{
    let n = s.unicode_len();
    let mut r: Vec<i32> = Vec::new();
    let mut i: usize = 0;
    while i < n
        invariant
            n == s@.len(),
            i <= n,
            r@.len() == i,
            forall|k: int| 0 <= k < i ==> r@[k] == (s@[k] as u32) as i32,
        decreases n - i,
    {
        let c = s.get_char(i);
        r.push((c as u32) as i32);
        i += 1;
    }
    proof {
        assert(r@ =~= s@.map_values(|c: char| (c as u32) as i32));
    }
    r
}

/// `s` with every non-overlapping occurrence of `pat` replaced by `rep`,
/// scanning left to right.  An empty pattern leaves `s` unchanged.
pub open spec fn spec_replace(s: Seq<char>, pat: Seq<char>, rep: Seq<char>) -> Seq<char>
    decreases s.len(),
{
    if pat.len() == 0 || s.len() < pat.len() {
        s
    } else if s.subrange(0, pat.len() as int) == pat {
        rep + spec_replace(s.skip(pat.len() as int), pat, rep)
    } else {
        seq![s[0]] + spec_replace(s.drop_first(), pat, rep)
    }
}

/// The characters of `pat` appear in `s` starting at position `i`.
fn str_matches_at(s: &str, i: usize, pat: &str) -> (r: bool)
    requires
        i + pat@.len() <= s@.len(),
    ensures
        r == (s@.subrange(i as int, i + pat@.len()) == pat@),
{
    let slen = s.unicode_len();
    let plen = pat.unicode_len();
    let mut k: usize = 0;
    while k < plen
        invariant
            slen == s@.len(),
            plen == pat@.len(),
            i + plen <= slen,
            k <= plen,
            forall|j: int| 0 <= j < k ==> s@[i + j] == pat@[j],
        decreases plen - k,
    {
        if s.get_char(i + k) != pat.get_char(k) {
            proof {
                assert(s@.subrange(i as int, i + pat@.len())[k as int] != pat@[k as int]);
            }
            return false;
        }
        k += 1;
    }
    proof {
        assert(s@.subrange(i as int, i + pat@.len()) =~= pat@);
    }
    true
}

/// Replaces every non-overlapping occurrence of `pat` in `s` by `rep`,
/// scanning left to right.
pub fn replace_str(s: &str, pat: &str, rep: &str) -> (r: String)
    ensures
        r@ == spec_replace(s@, pat@, rep@),
{
    let n = s.unicode_len();
    let plen = pat.unicode_len();
    let mut out = String::new();
    if plen == 0 {
        out.append(s);
        return out;
    }
    let mut i: usize = 0;
    proof {
        assert(s@.skip(0) =~= s@);
        assert(out@ + spec_replace(s@, pat@, rep@) =~= spec_replace(s@, pat@, rep@));
    }
    while i < n
        invariant
            n == s@.len(),
            plen == pat@.len(),
            plen >= 1,
            i <= n,
            spec_replace(s@, pat@, rep@) == out@ + spec_replace(s@.skip(i as int), pat@, rep@),
        decreases n - i,
    {
        if plen <= n - i && str_matches_at(s, i, pat) {
            out.append(rep);
            proof {
                assert(s@.skip(i as int).subrange(0, plen as int) =~= s@.subrange(
                    i as int,
                    i + plen,
                ));
                assert(s@.skip(i as int).skip(plen as int) =~= s@.skip(i + plen));
            }
            i += plen;
        } else {
            let piece = s.substring_char(i, i + 1);
            out.append(piece);
            proof {
                if i + plen <= n {
                    assert(s@.skip(i as int).subrange(0, plen as int) =~= s@.subrange(
                        i as int,
                        i + plen,
                    ));
                }
                assert(s@.skip(i as int)[0] == s@[i as int]);
                assert(piece@ =~= seq![s@[i as int]]);
                assert(s@.skip(i as int).drop_first() =~= s@.skip(i + 1));
            }
            i += 1;
        }
    }
    proof {
        assert(s@.skip(n as int) =~= Seq::<char>::empty());
        assert(out@ + Seq::<char>::empty() =~= out@);
    }
    out
}

/// `s` with every non-overlapping occurrence of `pat` replaced by `rep`,
/// scanning left to right, over bytes.  An empty pattern leaves `s`
/// unchanged.
pub open spec fn spec_replace_bytes(s: Seq<u8>, pat: Seq<u8>, rep: Seq<u8>) -> Seq<u8>
    decreases s.len(),
{
    if pat.len() == 0 || s.len() < pat.len() {
        s
    } else if s.subrange(0, pat.len() as int) == pat {
        rep + spec_replace_bytes(s.skip(pat.len() as int), pat, rep)
    } else {
        seq![s[0]] + spec_replace_bytes(s.drop_first(), pat, rep)
    }
}

/// The bytes of `pat` appear in `s` starting at position `i`.
fn bytes_match_at(s: &[u8], i: usize, pat: &[u8]) -> (r: bool)
    requires
        i + pat@.len() <= s@.len(),
    ensures
        r == (s@.subrange(i as int, i + pat@.len()) == pat@),
{
    let slen = s.len();
    let plen = pat.len();
    let mut k: usize = 0;
    while k < plen
        invariant
            slen == s@.len(),
            plen == pat@.len(),
            i + plen <= slen,
            k <= plen,
            forall|j: int| 0 <= j < k ==> s@[i + j] == pat@[j],
        decreases plen - k,
    {
        if s[i + k] != pat[k] {
            proof {
                assert(s@.subrange(i as int, i + pat@.len())[k as int] != pat@[k as int]);
            }
            return false;
        }
        k += 1;
    }
    proof {
        assert(s@.subrange(i as int, i + pat@.len()) =~= pat@);
    }
    true
}

/// Replaces every non-overlapping occurrence of `pat` in `s` by `rep`,
/// scanning left to right, over bytes.
pub fn replace_bytes(s: &[u8], pat: &[u8], rep: &[u8]) -> (r: Vec<u8>)
    ensures
        r@ == spec_replace_bytes(s@, pat@, rep@),
{
    let n = s.len();
    let plen = pat.len();
    let mut out: Vec<u8> = Vec::new();
    if plen == 0 {
        out.extend_from_slice(s);
        return out;
    }
    let mut i: usize = 0;
    proof {
        assert(s@.skip(0) =~= s@);
        assert(out@ + spec_replace_bytes(s@, pat@, rep@) =~= spec_replace_bytes(s@, pat@, rep@));
    }
    while i < n
        invariant
            n == s@.len(),
            plen == pat@.len(),
            plen >= 1,
            i <= n,
            spec_replace_bytes(s@, pat@, rep@) == out@ + spec_replace_bytes(
                s@.skip(i as int),
                pat@,
                rep@,
            ),
        decreases n - i,
    {
        if plen <= n - i && bytes_match_at(s, i, pat) {
            out.extend_from_slice(rep);
            proof {
                assert(s@.skip(i as int).subrange(0, plen as int) =~= s@.subrange(
                    i as int,
                    i + plen,
                ));
                assert(s@.skip(i as int).skip(plen as int) =~= s@.skip(i + plen));
            }
            i += plen;
        } else {
            out.push(s[i]);
            proof {
                if plen <= n - i {
                    assert(s@.skip(i as int).subrange(0, plen as int) =~= s@.subrange(
                        i as int,
                        i + plen,
                    ));
                }
                assert(s@.skip(i as int)[0] == s@[i as int]);
                assert(out@ =~= out@.drop_last() + seq![s@[i as int]]);
                assert(s@.skip(i as int).drop_first() =~= s@.skip(i + 1));
            }
            i += 1;
        }
    }
    proof {
        assert(s@.skip(n as int) =~= Seq::<u8>::empty());
        assert(out@ + Seq::<u8>::empty() =~= out@);
    }
    out
}

/// `s` ends with the characters of `suffix`.
pub open spec fn spec_ends_with(s: Seq<char>, suffix: Seq<char>) -> bool {
    s.len() >= suffix.len() && s.subrange(s.len() - suffix.len(), s.len() as int) == suffix
}

/// Whether `s` ends with `suffix`.
pub fn str_ends_with(s: &str, suffix: &str) -> (r: bool)
    ensures
        r == spec_ends_with(s@, suffix@),
{
    let n = s.unicode_len();
    let m = suffix.unicode_len();
    if m > n {
        return false;
    }
    let r = str_matches_at(s, n - m, suffix);
    proof {
        assert(s@.subrange(s@.len() - suffix@.len(), s@.len() as int) =~= s@.subrange(
            n - m,
            (n - m) + suffix@.len(),
        ));
    }
    r
}

} // verus!
