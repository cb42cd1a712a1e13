//! The runtime-facing read API: an owning registry of open file handles.
//!
//! A handle is an opaque integer issued at open and freed at close; each one
//! owns the extracted bytes of a logical file and a read cursor.  Closing a
//! handle frees its entry.  A caller that needs concurrent access wraps the
//! registry in a lock.

use vstd::prelude::*;

verus! {

use crate::error::SfsError;
use crate::text::upper_bytes;

/// One open file: its bytes and the read cursor.
pub struct OpenFile {
    /// The file's extracted contents.
    pub data: Vec<u8>,
    /// Read position; never past the end.
    pub pos: usize,
}

/// Where a seek offset is measured from.
#[derive(Clone, Copy, Debug, PartialEq, Eq, Structural)]
pub enum SeekWhence {
    /// From the start of the file.
    Begin,
    /// From the current cursor.
    Current,
    /// From the end of the file.
    End,
}

/// The registry of open handles.
pub struct FileRegistry {
    /// The next handle to issue.
    pub next_handle: u64,
    /// The open files, keyed by handle.
    pub open_files: Vec<(u64, OpenFile)>,
}

/// Index of `h` among the open files.
pub open spec fn find_handle(s: Seq<(u64, OpenFile)>, h: u64) -> Option<int>
    decreases s.len(),
{
    if s.len() == 0 {
        None
    } else if s[0].0 == h {
        Some(0int)
    } else {
        match find_handle(s.drop_first(), h) {
            Some(i) => Some(i + 1),
            None => None,
        }
    }
}

proof fn lemma_find_handle_none(s: Seq<(u64, OpenFile)>, h: u64)
    requires
        forall|j: int| 0 <= j < s.len() ==> (#[trigger] s[j]).0 != h,
    ensures
        find_handle(s, h) is None,
    decreases s.len(),
{
    if s.len() > 0 {
        lemma_find_handle_none(s.drop_first(), h);
    }
}

proof fn lemma_find_handle_at(s: Seq<(u64, OpenFile)>, h: u64, i: int)
    requires
        0 <= i < s.len(),
        s[i].0 == h,
        forall|j: int| 0 <= j < i ==> (#[trigger] s[j]).0 != h,
    ensures
        find_handle(s, h) == Some(i),
    decreases i,
{
    if i > 0 {
        lemma_find_handle_at(s.drop_first(), h, i - 1);
    }
}

impl FileRegistry {
    /// Handles are unique, below the issue counter, and every cursor is in
    /// range.
    pub open spec fn wf(&self) -> bool {
        &&& forall|i: int, j: int|
            0 <= i < j < self.open_files@.len() ==> (#[trigger] self.open_files@[i]).0 != (
            #[trigger] self.open_files@[j]).0
        &&& forall|i: int|
            0 <= i < self.open_files@.len() ==> (#[trigger] self.open_files@[i]).0
                < self.next_handle
        &&& forall|i: int|
            0 <= i < self.open_files@.len() ==> (#[trigger] self.open_files@[i]).1.pos
                <= self.open_files@[i].1.data@.len()
    }

    /// An empty registry.
    pub fn new() -> (r: FileRegistry)
        ensures
            r.wf(),
            r.open_files@.len() == 0,
    {
        FileRegistry { next_handle: 0, open_files: Vec::new() }
    }

    /// Registers `data` as a newly opened file with its cursor at the start
    /// and returns its fresh handle; `None` only when the handle space is
    /// exhausted.
    pub fn open_read(&mut self, data: Vec<u8>) -> (r: Option<u64>)
        requires
            old(self).wf(),
        ensures
            final(self).wf(),
            r is Some <==> old(self).next_handle < u64::MAX,
            r matches Some(h) ==> {
                &&& find_handle(old(self).open_files@, h) is None
                &&& final(self).open_files@.len() == old(self).open_files@.len() + 1
                &&& final(self).open_files@.last().0 == h
                &&& final(self).open_files@.last().1.data == data
                &&& final(self).open_files@.last().1.pos == 0
                &&& final(self).open_files@.drop_last() == old(self).open_files@
            },
            r is None ==> *final(self) == *old(self),
    {
        if self.next_handle == u64::MAX {
            return None;
        }
        let h = self.next_handle;
        self.next_handle = h + 1;
        self.open_files.push((h, OpenFile { data, pos: 0 }));
        proof {
            lemma_find_handle_none(old(self).open_files@, h);
            assert(final(self).open_files@.drop_last() =~= old(self).open_files@);
        }
        Some(h)
    }

    /// Finds the position of `handle` among the open files.
    fn index_of(&self, handle: u64) -> (r: Option<usize>)
        ensures
            match r {
                Some(i) => i < self.open_files@.len() && self.open_files@[i as int].0 == handle
                    && find_handle(self.open_files@, handle) == Some(i as int),
                None => find_handle(self.open_files@, handle) is None,
            },
    {
        let n = self.open_files.len();
        let mut i: usize = 0;
        while i < n
            invariant
                n == self.open_files@.len(),
                i <= n,
                forall|j: int| 0 <= j < i ==> (#[trigger] self.open_files@[j]).0 != handle,
            decreases n - i,
        {
            if self.open_files[i].0 == handle {
                proof {
                    lemma_find_handle_at(self.open_files@, handle, i as int);
                }
                return Some(i);
            }
            i += 1;
        }
        proof {
            lemma_find_handle_none(self.open_files@, handle);
        }
        None
    }

    /// Length of the open file behind `handle`.
    pub fn file_length(&self, handle: u64) -> (r: Result<u64, SfsError>)
        ensures
            match find_handle(self.open_files@, handle) {
                Some(i) => r == Ok::<u64, SfsError>(self.open_files@[i].1.data@.len() as u64),
                None => r == Err::<u64, SfsError>(SfsError::BadHandle),
            },
    {
        match self.index_of(handle) {
            Some(i) => Ok(self.open_files[i].1.data.len() as u64),
            None => Err(SfsError::BadHandle),
        }
    }

    /// Current cursor of the open file behind `handle`.
    pub fn tell(&self, handle: u64) -> (r: Result<u64, SfsError>)
        ensures
            match find_handle(self.open_files@, handle) {
                Some(i) => r == Ok::<u64, SfsError>(self.open_files@[i].1.pos as u64),
                None => r == Err::<u64, SfsError>(SfsError::BadHandle),
            },
    {
        match self.index_of(handle) {
            Some(i) => Ok(self.open_files[i].1.pos as u64),
            None => Err(SfsError::BadHandle),
        }
    }

    /// Whether the cursor of the open file behind `handle` is at the end.
    pub fn eof(&self, handle: u64) -> (r: Result<bool, SfsError>)
        ensures
            match find_handle(self.open_files@, handle) {
                Some(i) => r == Ok::<bool, SfsError>(
                    self.open_files@[i].1.pos == self.open_files@[i].1.data@.len(),
                ),
                None => r == Err::<bool, SfsError>(SfsError::BadHandle),
            },
    {
        match self.index_of(handle) {
            Some(i) => Ok(self.open_files[i].1.pos == self.open_files[i].1.data.len()),
            None => Err(SfsError::BadHandle),
        }
    }

    /// Reads up to `count` bytes at the cursor, advancing it by what was
    /// read: everything up to `count`, cut short only by the end of the file.
    pub fn read(&mut self, handle: u64, count: usize) -> (r: Result<Vec<u8>, SfsError>)
        requires
            old(self).wf(),
        ensures
            final(self).wf(),
            final(self).next_handle == old(self).next_handle,
            match find_handle(old(self).open_files@, handle) {
                Some(i) => {
                    let f = old(self).open_files@[i].1;
                    let take = if count <= f.data@.len() - f.pos {
                        count as int
                    } else {
                        f.data@.len() - f.pos
                    };
                    &&& (r matches Ok(v) && v@ == f.data@.subrange(f.pos as int, f.pos + take))
                    &&& final(self).open_files@ == old(self).open_files@.update(
                        i,
                        (handle, (OpenFile { data: f.data, pos: (f.pos + take) as usize })),
                    )
                },
                None => r == Err::<Vec<u8>, SfsError>(SfsError::BadHandle) && *final(self) == *old(
                    self,
                ),
            },
    {
        let i = match self.index_of(handle) {
            Some(i) => i,
            None => {
                return Err(SfsError::BadHandle);
            },
        };
        proof {
            assert(self.open_files@[i as int].1.pos <= self.open_files@[i as int].1.data@.len());
        }
        let pos = self.open_files[i].1.pos;
        let len = self.open_files[i].1.data.len();
        let take = if count <= len - pos {
            count
        } else {
            len - pos
        };
        let piece = vstd::slice::slice_to_vec(
            &self.open_files[i].1.data.as_slice()[pos..pos + take],
        );
        let f = &mut self.open_files;
        let entry = &mut f[i].1;
        entry.pos = pos + take;
        proof {
            assert(final(self).open_files@ =~= old(self).open_files@.update(
                i as int,
                (handle, (OpenFile { data: old(self).open_files@[i as int].1.data, pos: (pos
                    + take) as usize })),
            ));
        }
        Ok(piece)
    }

    /// Moves the cursor of the open file behind `handle`: to `offset` from
    /// the start, the current cursor, or the end.  A target outside the file
    /// is rejected and leaves the cursor unchanged.
    pub fn seek(&mut self, handle: u64, whence: SeekWhence, offset: i64) -> (r: Result<
        u64,
        SfsError,
    >)
        requires
            old(self).wf(),
        ensures
            final(self).wf(),
            final(self).next_handle == old(self).next_handle,
            match find_handle(old(self).open_files@, handle) {
                Some(i) => {
                    let f = old(self).open_files@[i].1;
                    let base: int = match whence {
                        SeekWhence::Begin => 0,
                        SeekWhence::Current => f.pos as int,
                        SeekWhence::End => f.data@.len() as int,
                    };
                    let target = base + offset;
                    if 0 <= target <= f.data@.len() {
                        &&& r == Ok::<u64, SfsError>(target as u64)
                        &&& final(self).open_files@ == old(self).open_files@.update(
                            i,
                            (handle, (OpenFile { data: f.data, pos: target as usize })),
                        )
                    } else {
                        r == Err::<u64, SfsError>(SfsError::InvalidSeek) && *final(self) == *old(
                            self,
                        )
                    }
                },
                None => r == Err::<u64, SfsError>(SfsError::BadHandle) && *final(self) == *old(
                    self,
                ),
            },
    {
        let i = match self.index_of(handle) {
            Some(i) => i,
            None => {
                return Err(SfsError::BadHandle);
            },
        };
        let pos = self.open_files[i].1.pos;
        let len = self.open_files[i].1.data.len();
        let base: i128 = match whence {
            SeekWhence::Begin => 0,
            SeekWhence::Current => pos as i128,
            SeekWhence::End => len as i128,
        };
        let target: i128 = base + (offset as i128);
        if target < 0 || target > (len as i128) {
            return Err(SfsError::InvalidSeek);
        }
        let new_pos = target as usize;
        let f = &mut self.open_files;
        let entry = &mut f[i].1;
        entry.pos = new_pos;
        proof {
            assert(final(self).open_files@ =~= old(self).open_files@.update(
                i as int,
                (handle, (OpenFile { data: old(self).open_files@[i as int].1.data, pos: new_pos })),
            ));
        }
        Ok(new_pos as u64)
    }

    /// Closes `handle`, freeing its entry.
    pub fn close(&mut self, handle: u64) -> (r: Result<(), SfsError>)
        requires
            old(self).wf(),
        ensures
            final(self).wf(),
            final(self).next_handle == old(self).next_handle,
            match find_handle(old(self).open_files@, handle) {
                Some(i) => r == Ok::<(), SfsError>(()) && final(self).open_files@ == old(
                    self,
                ).open_files@.remove(i),
                None => r == Err::<(), SfsError>(SfsError::BadHandle) && *final(self) == *old(
                    self,
                ),
            },
    {
        let i = match self.index_of(handle) {
            Some(i) => i,
            None => {
                return Err(SfsError::BadHandle);
            },
        };
        self.open_files.remove(i);
        Ok(())
    }
}

/// The name normalization the virtual filesystem applies before a lookup:
/// path separators unified, the name upper-cased, and the compiled-class
/// extension restored to lower case.
pub open spec fn spec_normalize_name(b: Seq<u8>) -> Seq<u8> {
    crate::text::spec_replace_bytes(
        upper_bytes(crate::text::spec_replace_bytes(b, seq![0x5Cu8], seq![0x2Fu8])),
        seq![0x2Eu8, 0x43u8, 0x4Cu8, 0x41u8, 0x53u8, 0x53u8],
        seq![0x2Eu8, 0x63u8, 0x6Cu8, 0x61u8, 0x73u8, 0x73u8],
    )
}

/// Normalizes a name's bytes for the virtual filesystem: `\` becomes `/`,
/// the name is upper-cased, and a trailing upper-case `.CLASS` extension is
/// restored to `.class`.
pub fn normalize_vfs_name(name: &[u8]) -> (r: Vec<u8>)
    ensures
        r@ == spec_normalize_name(name@),
{
    let mut slash: Vec<u8> = Vec::new();
    slash.push(0x5C);
    let mut fwd: Vec<u8> = Vec::new();
    fwd.push(0x2F);
    let unified = crate::text::replace_bytes(name, slash.as_slice(), fwd.as_slice());
    let upper = crate::text::ascii_upper(unified.as_slice());
    let mut pat: Vec<u8> = Vec::new();
    pat.push(0x2E);
    pat.push(0x43);
    pat.push(0x4C);
    pat.push(0x41);
    pat.push(0x53);
    pat.push(0x53);
    let mut rep: Vec<u8> = Vec::new();
    rep.push(0x2E);
    rep.push(0x63);
    rep.push(0x6C);
    rep.push(0x61);
    rep.push(0x73);
    rep.push(0x73);
    let r = crate::text::replace_bytes(upper.as_slice(), pat.as_slice(), rep.as_slice());
    proof {
        assert(slash@ =~= seq![0x5Cu8]);
        assert(fwd@ =~= seq![0x2Fu8]);
        assert(pat@ =~= seq![0x2Eu8, 0x43u8, 0x4Cu8, 0x41u8, 0x53u8, 0x53u8]);
        assert(rep@ =~= seq![0x2Eu8, 0x63u8, 0x6Cu8, 0x61u8, 0x73u8, 0x73u8]);
    }
    r
}

} // verus!
