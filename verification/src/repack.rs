//! The repacker's per-entry decisions: what each table-of-contents row
//! becomes in the output container.
//!
//! Entry metadata (name, size, fingerprint and optional per-entry key
//! parameters) comes from an external source, ordered by table-of-contents
//! index.  A zero-size entry becomes a directory record.  An entry named
//! `*.class` is extracted through the class-name path and handed to an
//! external transformer.  Any other entry is extracted by fingerprint and,
//! when key parameters are present, decrypted with the per-entry pass.
//! Entry names are upper-cased in the output.

use vstd::prelude::*;

verus! {

use vstd::utf8::encode_utf8;
use crate::archive::SfsFile;
use crate::crypt::table_xor;
use crate::error::FormatFault;
use crate::error::SfsError;
use crate::finger::spec_key_table;
use crate::lookup::spec_class_lookup;
use crate::lookup::spec_lookup;
use crate::parse::SfsTocItem;
use crate::text::spec_ends_with;
use crate::text::spec_replace;
use crate::text::upper_bytes;

/// One row of entry metadata from the external source.
pub struct RepackEntry {
    /// The entry's logical file name.
    pub file_name: String,
    /// Declared byte size; 0 marks a directory.
    pub file_size: i32,
    /// The entry's content-addressing key in the table of contents.
    pub fingerprint: i64,
    /// Hash of the per-entry decryption key, when the entry is encrypted.
    pub key_hash: Option<i32>,
    /// Length parameter of the per-entry key table.
    pub key_len_offset: Option<i32>,
    /// Rotation of the per-entry key table.
    pub key_idx_offset: Option<i32>,
}

impl RepackEntry {
    /// Key parameters, when present, name a usable key table.
    pub open spec fn wf(&self) -> bool {
        match (self.key_hash, self.key_len_offset, self.key_idx_offset) {
            (Some(_), Some(l), Some(x)) => l >= 1 && x >= 0,
            _ => true,
        }
    }
}

/// What one entry becomes in the output container.
pub enum RepackAction {
    /// A directory record.
    Directory {
        /// Upper-cased entry name.
        name: Vec<u8>,
    },
    /// A file record whose bytes are ready to write.
    File {
        /// Upper-cased entry name.
        name: Vec<u8>,
        /// The extracted (and, if keyed, decrypted) bytes.
        data: Vec<u8>,
    },
    /// A compiled class to hand to the external transformer before writing.
    TransformClass {
        /// Upper-cased entry name.
        name: Vec<u8>,
        /// The reconstructed class bytes.
        data: Vec<u8>,
    },
}

/// The mathematical shape of a [`RepackAction`].
pub enum PlanSpec {
    /// A directory record.
    Directory {
        /// Upper-cased entry name.
        name: Seq<u8>,
    },
    /// A ready file record.
    File {
        /// Upper-cased entry name.
        name: Seq<u8>,
        /// The bytes to write.
        data: Seq<u8>,
    },
    /// A class awaiting external transformation.
    TransformClass {
        /// Upper-cased entry name.
        name: Seq<u8>,
        /// The reconstructed class bytes.
        data: Seq<u8>,
    },
}

/// The shape of an executable action.
pub open spec fn action_view(a: RepackAction) -> PlanSpec {
    match a {
        RepackAction::Directory { name } => PlanSpec::Directory { name: name@ },
        RepackAction::File { name, data } => PlanSpec::File { name: name@, data: data@ },
        RepackAction::TransformClass { name, data } => PlanSpec::TransformClass {
            name: name@,
            data: data@,
        },
    }
}

/// The class name of an entry name: the `.class` suffix dropped and path
/// separators turned into dots.
pub open spec fn spec_class_name(name: Seq<char>) -> Seq<char> {
    spec_replace(spec_replace(name, ".class"@, ""@), "/"@, "."@)
}

/// What an entry becomes: the full per-entry decision of the repacker.
pub open spec fn spec_plan(
    toc: Seq<SfsTocItem>,
    dec: Seq<u8>,
    entry: RepackEntry,
) -> Result<PlanSpec, SfsError> {
    let upper = upper_bytes(encode_utf8(entry.file_name@));
    if entry.file_size == 0 {
        Ok(PlanSpec::Directory { name: upper })
    } else if spec_ends_with(entry.file_name@, ".class"@) {
        match spec_class_lookup(toc, dec, spec_class_name(entry.file_name@)) {
            Err(e) => Err(e),
            Ok(data) => Ok(PlanSpec::TransformClass { name: upper, data }),
        }
    } else {
        match spec_lookup(toc, dec, entry.fingerprint) {
            Err(e) => Err(e),
            Ok(raw) => match (entry.key_hash, entry.key_len_offset, entry.key_idx_offset) {
                (Some(h), Some(l), Some(x)) => {
                    if raw.len() + x > usize::MAX {
                        Err(SfsError::Format(FormatFault::BadLayout))
                    } else {
                        Ok(
                            PlanSpec::File {
                                name: upper,
                                data: table_xor(spec_key_table(h, l as nat), x as int, raw),
                            },
                        )
                    }
                },
                _ => Ok(PlanSpec::File { name: upper, data: raw }),
            },
        }
    }
}

/// Decides what `entry` becomes in the output container.
pub fn plan_entry(sfs_file: &SfsFile, decompressed: &Vec<u8>, entry: &RepackEntry) -> (r: Result<
    RepackAction,
    SfsError,
>)
    requires
        entry.wf(),
    ensures
        r matches Ok(a) ==> Ok::<PlanSpec, SfsError>(action_view(a)) == spec_plan(
            sfs_file.toc@,
            decompressed@,
            *entry,
        ),
        r matches Err(e) ==> Err::<PlanSpec, SfsError>(e) == spec_plan(
            sfs_file.toc@,
            decompressed@,
            *entry,
        ),
{
    let name_upper = crate::text::ascii_upper(entry.file_name.as_str().as_bytes());
    if entry.file_size == 0 {
        return Ok(RepackAction::Directory { name: name_upper });
    }
    if crate::text::str_ends_with(entry.file_name.as_str(), ".class") {
        let stem = crate::text::replace_str(entry.file_name.as_str(), ".class", "");
        let class_name = crate::text::replace_str(stem.as_str(), "/", ".");
        match crate::lookup::unpack_from_sfs_by_class_name(sfs_file, decompressed, class_name) {
            Ok(data) => Ok(RepackAction::TransformClass { name: name_upper, data }),
            Err(e) => Err(e),
        }
    } else {
        let raw = match crate::lookup::unpack_from_sfs_by_fingerprint(
            sfs_file,
            decompressed,
            entry.fingerprint,
        ) {
            Ok(v) => v,
            Err(e) => {
                return Err(e);
            },
        };
        let keyed: Option<(i32, i32, i32)> = match (
            entry.key_hash,
            entry.key_len_offset,
            entry.key_idx_offset,
        ) {
            (Some(h), Some(l), Some(x)) => Some((h, l, x)),
            _ => None,
        };
        match keyed {
            Some((h, l, x)) => {
                if (raw.len() as u64) + (x as u64) > (usize::MAX as u64) {
                    return Err(SfsError::Format(FormatFault::BadLayout));
                }
                let data = crate::crypt::decrypt_data(raw, h, l, x);
                Ok(RepackAction::File { name: name_upper, data })
            },
            None => Ok(RepackAction::File { name: name_upper, data: raw }),
        }
    }
}

/// Decides every entry, in the given (table-of-contents) order, aborting at
/// the first failing entry.
pub fn plan_archive(sfs_file: &SfsFile, decompressed: &Vec<u8>, entries: &Vec<RepackEntry>) -> (r:
    Result<Vec<RepackAction>, SfsError>)
    requires
        forall|k: int| 0 <= k < entries@.len() ==> (#[trigger] entries@[k]).wf(),
    ensures
        r matches Ok(v) ==> {
            &&& v@.len() == entries@.len()
            &&& forall|k: int|
                0 <= k < entries@.len() ==> Ok::<PlanSpec, SfsError>(
                    action_view(#[trigger] v@[k]),
                ) == spec_plan(sfs_file.toc@, decompressed@, entries@[k])
        },
        r matches Err(e) ==> exists|k: int|
            0 <= k < entries@.len() && Err::<PlanSpec, SfsError>(e) == spec_plan(
                sfs_file.toc@,
                decompressed@,
                #[trigger] entries@[k],
            ),
{
    let mut actions: Vec<RepackAction> = Vec::new();
    let n = entries.len();
    let mut k: usize = 0;
    while k < n
        invariant
            n == entries@.len(),
            k <= n,
            forall|j: int| 0 <= j < n ==> (#[trigger] entries@[j]).wf(),
            actions@.len() == k,
            forall|j: int|
                0 <= j < k ==> Ok::<PlanSpec, SfsError>(action_view(#[trigger] actions@[j]))
                    == spec_plan(sfs_file.toc@, decompressed@, entries@[j]),
        decreases n - k,
    {
        let action = match plan_entry(sfs_file, decompressed, &entries[k]) {
            Ok(a) => a,
            Err(e) => {
                return Err(e);
            },
        };
        actions.push(action);
        k += 1;
    }
    Ok(actions)
}

} // verus!
