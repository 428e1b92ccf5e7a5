//! Request dispatch.
//!
//! [`ConfigScheme`] owns the handle table and the storage, and resolves
//! each open, read, write or close request completely before the next:
//! requests arrive one at a time, so the handle table and the storage are
//! never observed in a partially updated state.
//!
//! The access-mode and truncate bits of an open request are the open
//! flags of the `syscall` crate, taken through thin trusted accessors so
//! the dispatch logic is verified against their real values.

use vstd::prelude::*;

use crate::handle::{
    ancestor_open, is_writing, HandleMap, HandleView, NodeHandle, OpenMode, SchemeError,
};
use crate::path::normalize;
use crate::storage::{
    apply_trunc, apply_write, content_of, read_count, MemStorage, Storage,
};

verus! {

/// The value of the `syscall` crate's read-only access flag.
pub const OPEN_FLAG_RDONLY: usize = 0x0001_0000;

/// The value of the `syscall` crate's write-only access flag.
pub const OPEN_FLAG_WRONLY: usize = 0x0002_0000;

/// The value of the `syscall` crate's access-mode mask.
pub const OPEN_FLAG_ACCMODE: usize = 0x0003_0000;

/// The value of the `syscall` crate's truncate flag.
pub const OPEN_FLAG_TRUNC: usize = 0x0400_0000;

/// Relies on syscall::flag::O_RDONLY: the read-only access flag.
#[verifier::external_body]
fn o_rdonly() -> (r: usize)
    ensures
        r == OPEN_FLAG_RDONLY,
{
    syscall::O_RDONLY
}

/// Relies on syscall::flag::O_WRONLY: the write-only access flag.
#[verifier::external_body]
fn o_wronly() -> (r: usize)
    ensures
        r == OPEN_FLAG_WRONLY,
{
    syscall::O_WRONLY
}

/// Relies on syscall::flag::O_ACCMODE: the access-mode mask.
#[verifier::external_body]
fn o_accmode() -> (r: usize)
    ensures
        r == OPEN_FLAG_ACCMODE,
{
    syscall::O_ACCMODE
}

/// Relies on syscall::flag::O_TRUNC: the truncate flag.
#[verifier::external_body]
fn o_trunc() -> (r: usize)
    ensures
        r == OPEN_FLAG_TRUNC,
{
    syscall::O_TRUNC
}

/// The access mode a set of open flags requests: the read-only and
/// write-only flag values map to the matching modes, and anything else
/// is read-write.
pub open spec fn mode_of_flags(flags: usize) -> OpenMode {
    if flags & OPEN_FLAG_ACCMODE == OPEN_FLAG_RDONLY {
        OpenMode::Read
    } else if flags & OPEN_FLAG_ACCMODE == OPEN_FLAG_WRONLY {
        OpenMode::Write
    } else {
        OpenMode::ReadWrite
    }
}

/// True when a set of open flags asks for truncation.
pub open spec fn wants_trunc(flags: usize) -> bool {
    flags & OPEN_FLAG_TRUNC == OPEN_FLAG_TRUNC
}

/// The request dispatcher: owns the handle table and the storage.
pub struct ConfigScheme {
    handles: HandleMap,
    storage: MemStorage,
}

impl ConfigScheme {
    /// The map from open handle id to that handle's state.
    pub closed spec fn handles_map(&self) -> Map<usize, HandleView> {
        self.handles@
    }

    /// The mapping from path to stored content.
    pub closed spec fn contents(&self) -> Map<Seq<char>, Seq<u8>> {
        self.storage.contents()
    }

    /// The id the next successful open will be given.
    pub closed spec fn next_id_spec(&self) -> usize {
        self.handles.next_id_spec()
    }

    /// Well-formedness of the handle table and the storage.
    pub closed spec fn wf(&self) -> bool {
        self.handles.wf() && self.storage.inv()
    }

    /// Creates a scheme with no open handles and no stored content.
    pub fn new() -> (r: ConfigScheme)
        ensures
            r.wf(),
            r.handles_map() == Map::<usize, HandleView>::empty(),
            r.contents() == Map::<Seq<char>, Seq<u8>>::empty(),
            r.next_id_spec() == 1,
    {
        ConfigScheme { handles: HandleMap::new(), storage: MemStorage::new() }
    }

    /// Handles an open request: derives the access mode from `flags`,
    /// opens a handle on the normalized path for `uid`, and, when the
    /// truncate flag is set, clears the path's stored content before
    /// returning the new handle's id.
    pub fn open(&mut self, path: &str, flags: usize, uid: u32) -> (r: Result<usize, SchemeError>)
        requires
            old(self).wf(),
            old(self).next_id_spec() < usize::MAX,
        ensures
            final(self).wf(),
            ({
                let p = normalize(path@);
                let mode = mode_of_flags(flags);
                match r {
                    Err(SchemeError::MalformedPath) => p.len() == 0 && *final(self) == *old(self),
                    Err(SchemeError::Busy) => p.len() > 0 && is_writing(mode) && ancestor_open(
                        old(self).handles_map(),
                        p,
                    ) && *final(self) == *old(self),
                    Err(SchemeError::BadHandle) => false,
                    Ok(id) => {
                        &&& p.len() > 0
                        &&& !(is_writing(mode) && ancestor_open(old(self).handles_map(), p))
                        &&& id == old(self).next_id_spec()
                        &&& !old(self).handles_map().dom().contains(id)
                        &&& forall|j: usize| old(self).handles_map().dom().contains(j) ==> j < id
                        &&& final(self).handles_map() == old(self).handles_map().insert(
                            id,
                            (HandleView { path: p, mode: mode, uid: uid, seek: 0 }),
                        )
                        &&& final(self).next_id_spec() == old(self).next_id_spec() + 1
                        &&& final(self).contents() == (if wants_trunc(flags) {
                            apply_trunc(old(self).contents(), p)
                        } else {
                            old(self).contents()
                        })
                    },
                }
            }),
    {
        let acc = flags & o_accmode();
        let open_mode = if acc == o_rdonly() {
            OpenMode::Read
        } else if acc == o_wronly() {
            OpenMode::Write
        } else {
            OpenMode::ReadWrite
        };
        proof {
            assert(open_mode == mode_of_flags(flags));
        }
        let id = match self.handles.open_handle(path, uid, open_mode) {
            Ok(id) => id,
            Err(e) => {
                return Err(e);
            },
        };
        if flags & o_trunc() == o_trunc() {
            if let Ok(h) = self.handles.get_handle(id) {
                self.storage.trunc(h);
            }
        }
        Ok(id)
    }

    /// Handles a read request: looks the handle up, copies bytes from the
    /// content stored at its path — starting at its cursor — into the
    /// front of `buf`, and advances the cursor by the number of bytes
    /// copied. Fails with a bad-handle error exactly when `id` is not
    /// open; a path without stored content reads as empty.
    pub fn read(&mut self, id: usize, buf: &mut Vec<u8>) -> (r: Result<usize, SchemeError>)
        requires
            old(self).wf(),
        ensures
            final(self).wf(),
            final(self).contents() == old(self).contents(),
            final(self).next_id_spec() == old(self).next_id_spec(),
            match r {
                Err(e) => e == SchemeError::BadHandle && !old(self).handles_map().dom().contains(
                    id,
                ) && *final(self) == *old(self) && final(buf)@ == old(buf)@,
                Ok(n) => ({
                    let h = old(self).handles_map()[id];
                    let c = content_of(old(self).contents(), h.path);
                    &&& old(self).handles_map().dom().contains(id)
                    &&& n == read_count(c.len(), h.seek, old(buf)@.len())
                    &&& final(buf)@.len() == old(buf)@.len()
                    &&& (forall|t: int| 0 <= t < n ==> final(buf)@[t] == c[h.seek + t])
                    &&& (forall|t: int|
                        n <= t < old(buf)@.len() ==> final(buf)@[t] == old(buf)@[t])
                    &&& final(self).handles_map() == old(self).handles_map().insert(
                        id,
                        (HandleView { seek: (h.seek + n) as nat, ..h }),
                    )
                }),
            },
    {
        let mut h: NodeHandle = match self.handles.take_handle(id) {
            Ok(h) => h,
            Err(e) => {
                return Err(e);
            },
        };
        let n = self.storage.read(&mut h, buf);
        self.handles.put_handle(h);
        proof {
            assert(self.handles@ =~= old(self).handles_map().insert(
                id,
                (HandleView {
                    seek: (old(self).handles_map()[id].seek + n) as nat,
                    ..old(self).handles_map()[id]
                }),
            ));
        }
        Ok(n)
    }

    /// Handles a write request: looks the handle up and appends `buf` to
    /// the content stored at its path, creating the entry if absent; the
    /// handle's cursor plays no part and does not move. Fails with a
    /// bad-handle error exactly when `id` is not open.
    pub fn write(&mut self, id: usize, buf: &[u8]) -> (r: Result<usize, SchemeError>)
        requires
            old(self).wf(),
        ensures
            final(self).wf(),
            final(self).handles_map() == old(self).handles_map(),
            final(self).next_id_spec() == old(self).next_id_spec(),
            match r {
                Err(e) => e == SchemeError::BadHandle && !old(self).handles_map().dom().contains(
                    id,
                ) && *final(self) == *old(self),
                Ok(n) => n == buf@.len() && old(self).handles_map().dom().contains(id) && final(self).contents() == apply_write(
                    old(self).contents(),
                    old(self).handles_map()[id].path,
                    buf@,
                ),
            },
    {
        match self.handles.get_handle(id) {
            Ok(h) => Ok(self.storage.write(h, buf)),
            Err(e) => Err(e),
        }
    }

    /// Handles a close request: removes the handle from the table, so any
    /// later read, write or close of the same id fails with a bad-handle
    /// error. Fails with a bad-handle error exactly when `id` is not
    /// open. The id counter is untouched: a closed id is never reissued.
    pub fn close(&mut self, id: usize) -> (r: Result<usize, SchemeError>)
        requires
            old(self).wf(),
        ensures
            final(self).wf(),
            final(self).contents() == old(self).contents(),
            final(self).next_id_spec() == old(self).next_id_spec(),
            match r {
                Ok(z) => z == 0 && old(self).handles_map().dom().contains(id) && final(self).handles_map() == old(self).handles_map().remove(id),
                Err(e) => e == SchemeError::BadHandle && !old(self).handles_map().dom().contains(
                    id,
                ) && *final(self) == *old(self),
            },
    {
        self.handles.close(id)
    }
}

} // verus!
