//! The content lookup API: resolving a logical file to its decompressed
//! bytes by numeric fingerprint, by relative path, or by compiled class
//! name.
//!
//! A fingerprint lookup scans the table of contents for the first matching
//! row.  A path lookup rejects absolute paths, fingerprints the lower-cased
//! path string and delegates.  A class lookup wraps the class name in the
//! obfuscator's fixed prefix and suffix, hashes the characters, resolves the
//! derived `cod/<hash>` name, and reconstructs the stripped class-file header
//! when the stored bytes are encrypted.

use vstd::prelude::*;

verus! {

use vstd::string::StrSliceExecFns;
use vstd::string::StringExecFns;
use vstd::utf8::encode_utf8;
use crate::archive::SfsFile;
use crate::crypt::table_xor;
use crate::error::FormatFault;
use crate::error::SfsError;
use crate::finger::spec_fingerprint;
use crate::finger::spec_int_hash;
use crate::finger::spec_key_table;
use crate::parse::SfsTocItem;
use crate::text::spec_idec;

/// Index of the first table-of-contents row with the given fingerprint.
pub open spec fn toc_find(toc: Seq<SfsTocItem>, fp: i64) -> Option<int>
    decreases toc.len(),
{
    if toc.len() == 0 {
        None
    } else if toc[0].fingerprint == fp {
        Some(0int)
    } else {
        match toc_find(toc.drop_first(), fp) {
            Some(i) => Some(i + 1),
            None => None,
        }
    }
}

proof fn lemma_toc_find_none(toc: Seq<SfsTocItem>, fp: i64)
    requires
        forall|j: int| 0 <= j < toc.len() ==> (#[trigger] toc[j]).fingerprint != fp,
    ensures
        toc_find(toc, fp) is None,
    decreases toc.len(),
{
    if toc.len() > 0 {
        lemma_toc_find_none(toc.drop_first(), fp);
    }
}

proof fn lemma_toc_find_at(toc: Seq<SfsTocItem>, fp: i64, i: int)
    requires
        0 <= i < toc.len(),
        toc[i].fingerprint == fp,
        forall|j: int| 0 <= j < i ==> (#[trigger] toc[j]).fingerprint != fp,
    ensures
        toc_find(toc, fp) == Some(i),
    decreases i,
{
    if i > 0 {
        lemma_toc_find_at(toc.drop_first(), fp, i - 1);
    }
}

/// What a fingerprint lookup returns: the bytes of the first matching entry,
/// `NotFound` when no row matches, `InvalidEntry` for a zero-size directory
/// row, and a layout fault when the entry's range overruns the buffer.
pub open spec fn spec_lookup(toc: Seq<SfsTocItem>, dec: Seq<u8>, fp: i64) -> Result<
    Seq<u8>,
    SfsError,
> {
    match toc_find(toc, fp) {
        Option::None => Err(SfsError::NotFound),
        Option::Some(i) => {
            let e = toc[i];
            if e.size == 0 {
                Err(SfsError::InvalidEntry)
            } else if e.offset + e.size > dec.len() {
                Err(SfsError::Format(FormatFault::BadLayout))
            } else {
                Ok(dec.subrange(e.offset as int, e.offset + e.size))
            }
        },
    }
}

/// The executable result carries exactly the bytes or error of the
/// mathematical one.
pub open spec fn lookup_matches(r: Result<Vec<u8>, SfsError>, s: Result<Seq<u8>, SfsError>) -> bool {
    match r {
        Ok(v) => s matches Ok(sv) && v@ == sv,
        Err(e) => s matches Err(se) && e == se,
    }
}

/// Extracts the bytes of the entry whose fingerprint is `fingerprint` from
/// the decompressed payload.
pub fn unpack_from_sfs_by_fingerprint(
    sfs_file: &SfsFile,
    decompressed: &Vec<u8>,
    fingerprint: i64,
) -> (r: Result<Vec<u8>, SfsError>)
    ensures
        lookup_matches(r, spec_lookup(sfs_file.toc@, decompressed@, fingerprint)),
{
    let ghost toc = sfs_file.toc@;
    let n = sfs_file.toc.len();
    let mut i: usize = 0;
    while i < n
        invariant
            toc == sfs_file.toc@,
            n == toc.len(),
            i <= n,
            forall|j: int| 0 <= j < i ==> (#[trigger] toc[j]).fingerprint != fingerprint,
        decreases n - i,
    {
        let entry = sfs_file.toc[i];
        if entry.fingerprint == fingerprint {
            proof {
                lemma_toc_find_at(toc, fingerprint, i as int);
            }
            if entry.size == 0 {
                return Err(SfsError::InvalidEntry);
            }
            let start = entry.offset as u64;
            let end = start + entry.size as u64;
            if end > decompressed.len() as u64 {
                return Err(SfsError::Format(FormatFault::BadLayout));
            }
            let piece = vstd::slice::slice_to_vec(
                &decompressed.as_slice()[entry.offset as usize..(entry.offset as usize) + (
                entry.size as usize)],
            );
            return Ok(piece);
        }
        i += 1;
    }
    proof {
        lemma_toc_find_none(toc, fingerprint);
    }
    Err(SfsError::NotFound)
}

/// The path's UTF-8 bytes name an absolute location: a leading slash or
/// backslash, or a drive-letter prefix such as `C:`.
pub open spec fn is_absolute_path(b: Seq<u8>) -> bool {
    (b.len() >= 1 && (b[0] == 0x2F || b[0] == 0x5C)) || (b.len() >= 2 && b[1] == 0x3A)
}

/// Extracts the entry named by the relative path `path`: the path string is
/// lower-cased, fingerprinted, and looked up, so path lookups are
/// case-insensitive.  Absolute paths are rejected before any lookup.
pub fn unpack_from_sfs_by_path(sfs_file: &SfsFile, decompressed: &Vec<u8>, path: &str) -> (r:
    Result<Vec<u8>, SfsError>)
    ensures
        is_absolute_path(encode_utf8(path@)) ==> r == Err::<Vec<u8>, SfsError>(
            SfsError::InvalidPath,
        ),
        !is_absolute_path(encode_utf8(path@)) ==> lookup_matches(
            r,
            spec_lookup(
                sfs_file.toc@,
                decompressed@,
                spec_fingerprint(0, encode_utf8(crate::finger::lower_of(path@))),
            ),
        ),
{
    let b = path.as_bytes();
    if (b.len() >= 1 && (b[0] == 0x2F || b[0] == 0x5C)) || (b.len() >= 2 && b[1] == 0x3A) {
        return Err(SfsError::InvalidPath);
    }
    let fp = crate::finger::string(0, path);
    unpack_from_sfs_by_fingerprint(sfs_file, decompressed, fp)
}

/// The 4-byte magic signature of a compiled class file.
pub open spec fn class_magic() -> Seq<u8> {
    seq![0xCAu8, 0xFEu8, 0xBAu8, 0xBEu8]
}

/// The fixed 8-byte class-file header the obfuscator strips.
pub open spec fn class_header() -> Seq<u8> {
    seq![0xCAu8, 0xFEu8, 0xBAu8, 0xBEu8, 0u8, 0u8, 0u8, 0x2Fu8]
}

/// The obfuscated name wrapped around a class name.
pub open spec fn obfuscated_name(class_name: Seq<char>) -> Seq<char> {
    "sdw"@ + class_name + "cwc2w9e"@
}

/// The integer-character hash of the obfuscated name.
pub open spec fn spec_class_hash(class_name: Seq<char>) -> i32 {
    spec_int_hash(obfuscated_name(class_name).map_values(|c: char| (c as u32) as i32))
}

/// The derived `cod/<hash>` lookup name, as bytes.  The name is already
/// lower-case, so its fingerprint is taken over these bytes directly.
pub open spec fn cod_name(class_hash: i32) -> Seq<u8> {
    seq![0x63u8, 0x6Fu8, 0x64u8, 0x2Fu8] + spec_idec(class_hash as int)
}

/// What a class-name lookup returns: the entry under the derived `cod/...`
/// fingerprint, unmodified when it already starts with the class magic,
/// otherwise decrypted with the per-entry pass (key table of the class hash,
/// length parameter 14) and prefixed with the reconstructed 8-byte header.
pub open spec fn spec_class_lookup(
    toc: Seq<SfsTocItem>,
    dec: Seq<u8>,
    class_name: Seq<char>,
) -> Result<Seq<u8>, SfsError> {
    let class_hash = spec_class_hash(class_name);
    let fp = spec_fingerprint(0, cod_name(class_hash));
    match spec_lookup(toc, dec, fp) {
        Err(e) => Err(e),
        Ok(raw) => {
            if raw.len() >= 4 && raw.subrange(0, 4) == class_magic() {
                Ok(raw)
            } else {
                Ok(class_header() + table_xor(spec_key_table(class_hash, 14), 0, raw))
            }
        },
    }
}

/// Extracts and reconstructs the compiled class `class_name` from the
/// archive.
pub fn unpack_from_sfs_by_class_name(
    sfs_file: &SfsFile,
    decompressed: &Vec<u8>,
    class_name: String,
) -> (r: Result<Vec<u8>, SfsError>)
    ensures
        lookup_matches(r, spec_class_lookup(sfs_file.toc@, decompressed@, class_name@)),
{
    let mut obfuscated = String::new();
    obfuscated.append("sdw");
    obfuscated.append(class_name.as_str());
    obfuscated.append("cwc2w9e");
    let obfuscated_chars = crate::text::chars_to_ints(obfuscated.as_str());
    let class_hash = crate::finger::int_hash(&obfuscated_chars);
    let mut cod: Vec<u8> = Vec::new();
    cod.push(0x63);
    cod.push(0x6F);
    cod.push(0x64);
    cod.push(0x2F);
    let mut digits = crate::text::dec_bytes(class_hash);
    cod.append(&mut digits);
    proof {
        assert(cod@ =~= cod_name(class_hash));
    }
    let class_fingerprint = crate::finger::bytes(0, cod.as_slice());
    let raw_class_data = match unpack_from_sfs_by_fingerprint(
        sfs_file,
        decompressed,
        class_fingerprint,
    ) {
        Ok(v) => v,
        Err(e) => {
            return Err(e);
        },
    };
    let starts_with_magic = raw_class_data.len() >= 4 && raw_class_data[0] == 0xCA
        && raw_class_data[1] == 0xFE && raw_class_data[2] == 0xBA && raw_class_data[3] == 0xBE;
    if starts_with_magic {
        proof {
            assert(raw_class_data@.subrange(0, 4) =~= class_magic());
        }
        Ok(raw_class_data)
    } else {
        proof {
            if raw_class_data@.len() >= 4 && raw_class_data@.subrange(0, 4) =~= class_magic() {
                assert(raw_class_data@[0] == 0xCA && raw_class_data@[1] == 0xFE
                    && raw_class_data@[2] == 0xBA && raw_class_data@[3] == 0xBE);
            }
        }
        let decrypted = crate::crypt::decrypt_data(raw_class_data, class_hash, 14, 0);
        let mut with_header: Vec<u8> = Vec::new();
        with_header.push(0xCA);
        with_header.push(0xFE);
        with_header.push(0xBA);
        with_header.push(0xBE);
        with_header.push(0);
        with_header.push(0);
        with_header.push(0);
        with_header.push(0x2F);
        let ghost header_part = with_header@;
        let mut decrypted = decrypted;
        with_header.append(&mut decrypted);
        proof {
            assert(header_part =~= class_header());
        }
        Ok(with_header)
    }
}

/// The non-empty rows of the table of contents, in order.
pub open spec fn nonempty_rows(toc: Seq<SfsTocItem>) -> Seq<SfsTocItem>
    decreases toc.len(),
{
    if toc.len() == 0 {
        Seq::empty()
    } else if toc.last().size > 0 {
        nonempty_rows(toc.drop_last()).push(toc.last())
    } else {
        nonempty_rows(toc.drop_last())
    }
}

/// `v` extracts every non-empty row: one `(fingerprint, bytes)` pair per
/// row with a positive size, in table order, each carrying that row's slice
/// of the decompressed payload.
pub open spec fn entries_extracted(
    toc: Seq<SfsTocItem>,
    dec: Seq<u8>,
    v: Seq<(i64, Vec<u8>)>,
) -> bool {
    let rows = nonempty_rows(toc);
    &&& v.len() == rows.len()
    &&& forall|k: int|
        0 <= k < rows.len() ==> {
            let e = #[trigger] rows[k];
            &&& v[k].0 == e.fingerprint
            &&& v[k].1@ == dec.subrange(e.offset as int, e.offset + e.size)
        }
}

/// Extracts every non-empty entry of the archive, in canonical order, as
/// `(fingerprint, bytes)` pairs.
pub fn unpack_sfs(sfs_file: &SfsFile, decompressed: &Vec<u8>) -> (r: Result<
    Vec<(i64, Vec<u8>)>,
    SfsError,
>)
    ensures
        r matches Ok(v) ==> entries_extracted(sfs_file.toc@, decompressed@, v@),
        r matches Err(e) ==> {
            &&& e == SfsError::Format(FormatFault::BadLayout)
            &&& exists|k: int|
                0 <= k < sfs_file.toc@.len() && (#[trigger] sfs_file.toc@[k]).size > 0
                    && sfs_file.toc@[k].offset + sfs_file.toc@[k].size > decompressed@.len()
        },
{
    let ghost toc = sfs_file.toc@;
    let n = sfs_file.toc.len();
    let mut out: Vec<(i64, Vec<u8>)> = Vec::new();
    let mut k: usize = 0;
    while k < n
        invariant
            toc == sfs_file.toc@,
            n == toc.len(),
            k <= n,
            entries_extracted(toc.subrange(0, k as int), decompressed@, out@),
        decreases n - k,
    {
        let entry = sfs_file.toc[k];
        if entry.size > 0 {
            let start = entry.offset as u64;
            let end = start + entry.size as u64;
            if end > decompressed.len() as u64 {
                return Err(SfsError::Format(FormatFault::BadLayout));
            }
            let piece = vstd::slice::slice_to_vec(
                &decompressed.as_slice()[entry.offset as usize..(entry.offset as usize) + (
                entry.size as usize)],
            );
            out.push((entry.fingerprint, piece));
        }
        k += 1;
        proof {
            assert(toc.subrange(0, k as int).drop_last() =~= toc.subrange(0, k as int - 1));
            assert(toc.subrange(0, k as int).last() == toc[k as int - 1]);
        }
    }
    proof {
        assert(toc.subrange(0, n as int) =~= toc);
    }
    Ok(out)
}

} // verus!
