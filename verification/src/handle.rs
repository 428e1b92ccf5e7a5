//! Open-handle state.
//!
//! A [`NodeHandle`] records the state of one open call: the normalized
//! target path, the access mode, the owning principal and the read cursor.
//! A [`HandleMap`] owns every handle that is currently open, allocates
//! unique ascending ids, and enforces the single-writer rule: a path may
//! not be opened for writing while any proper ancestor of it has open
//! handles.

use vstd::prelude::*;

use crate::path::{is_separator, normalize, trim_separators};

verus! {

/// The error kinds a request can fail with.
#[derive(Clone, Copy, Debug, PartialEq, Eq, Structural)]
pub enum SchemeError {
    /// The operation referenced a handle id that is not currently open.
    BadHandle,
    /// Write access was requested while an ancestor path had open handles.
    Busy,
    /// The path was empty after normalization.
    MalformedPath,
}

/// The access mode requested by an open call.
#[derive(Clone, Copy, Debug, PartialEq, Eq, Structural)]
pub enum OpenMode {
    Read,
    Write,
    ReadWrite,
}

/// True when `mode` grants write access.
pub open spec fn is_writing(mode: OpenMode) -> bool {
    mode == OpenMode::Write || mode == OpenMode::ReadWrite
}

/// The state of one open handle, as the contracts speak of it.
pub ghost struct HandleView {
    /// The normalized path the handle is open on.
    pub path: Seq<char>,
    /// The access mode requested at open.
    pub mode: OpenMode,
    /// The principal that opened the handle.
    pub uid: u32,
    /// The read cursor: a byte offset into the path's stored content.
    pub seek: nat,
}

/// Per-open-call state: target path, access mode, owning principal and
/// read cursor.
pub struct NodeHandle {
    path: String,
    id: usize,
    mode: OpenMode,
    uid: u32,
    seek: usize,
}

impl View for NodeHandle {
    type V = HandleView;

    closed spec fn view(&self) -> HandleView {
        HandleView { path: self.path@, mode: self.mode, uid: self.uid, seek: self.seek as nat }
    }
}

impl NodeHandle {
    /// The id this handle was allocated at open.
    pub closed spec fn id_spec(&self) -> usize {
        self.id
    }

    /// Creates the state for a fresh open call, with the cursor at zero.
    pub fn new(path: String, id: usize, mode: OpenMode, uid: u32) -> (r: Self)
        ensures
            r.id_spec() == id,
            r@ == (HandleView { path: path@, mode: mode, uid: uid, seek: 0 }),
    {
        Self { path, id, mode, uid, seek: 0 }
    }

    pub fn get_id(&self) -> (r: usize)
        ensures
            r == self.id_spec(),
    {
        self.id
    }

    pub fn get_path(&self) -> (r: &str)
        ensures
            r@ == self@.path,
    {
        self.path.as_str()
    }

    pub fn get_seek(&self) -> (r: usize)
        ensures
            r == self@.seek,
    {
        self.seek
    }

    /// Moves the read cursor to `seek`.
    pub fn set_seek(&mut self, seek: usize)
        ensures
            final(self)@ == (HandleView { seek: seek as nat, ..old(self)@ }),
            final(self).id_spec() == old(self).id_spec(),
    {
        self.seek = seek;
    }

    /// Advances the read cursor by `amt` bytes.
    pub fn advance_seek(&mut self, amt: usize)
        requires
            old(self)@.seek + amt <= usize::MAX,
        ensures
            final(self)@ == (HandleView { seek: (old(self)@.seek + amt) as nat, ..old(self)@ }),
            final(self).id_spec() == old(self).id_spec(),
    {
        self.seek = self.seek + amt;
    }
}

/// True when some currently open handle sits on a proper ancestor of the
/// normalized path `p`: a prefix of `p` ending just before a separator.
pub open spec fn ancestor_open(m: Map<usize, HandleView>, p: Seq<char>) -> bool {
    exists|i: int, id: usize|
        0 <= i < p.len() && is_separator(p[i]) && m.dom().contains(id) && m[id].path == p.subrange(
            0,
            i,
        )
}

/// The table of currently open handles.
///
/// Handles live in one arena; the id of each entry is unique, and the
/// mapping from id to handle state is the table's view. Ids are allocated
/// from a counter that starts at 1 and only ever grows, so an id is never
/// reassigned while any handle is open and never reused after a close.
pub struct HandleMap {
    handles: Vec<NodeHandle>,
    next_id: usize,
}

impl View for HandleMap {
    type V = Map<usize, HandleView>;

    /// The map from open handle id to that handle's state.
    closed spec fn view(&self) -> Map<usize, HandleView> {
        Map::new(|id: usize| self.is_open(id), |id: usize| self.handles@[self.idx_of(id)]@)
    }
}

impl HandleMap {
    /// True when a handle with id `id` is currently open.
    pub closed spec fn is_open(&self, id: usize) -> bool {
        exists|i: int| 0 <= i < self.handles@.len() && self.handles@[i].id_spec() == id
    }

    spec fn idx_of(&self, id: usize) -> int {
        choose|i: int| 0 <= i < self.handles@.len() && self.handles@[i].id_spec() == id
    }

    /// The id the next successful open will be given.
    pub closed spec fn next_id_spec(&self) -> usize {
        self.next_id
    }

    /// Well-formedness: ids are unique, positive, and below the counter.
    pub closed spec fn wf(&self) -> bool {
        &&& forall|i: int, j: int|
            0 <= i < j < self.handles@.len() ==> self.handles@[i].id_spec()
                != self.handles@[j].id_spec()
        &&& forall|i: int|
            0 <= i < self.handles@.len() ==> 1 <= #[trigger] self.handles@[i].id_spec()
                < self.next_id
        &&& self.next_id >= 1
    }

    /// Every open id is positive and below the allocation counter.
    pub proof fn lemma_ids_below_next(&self)
        requires
            self.wf(),
        ensures
            forall|id: usize| self@.dom().contains(id) ==> 1 <= id < self.next_id_spec(),
    {
    }

    /// Creates an empty table; the first open will receive id 1.
    pub fn new() -> (r: Self)
        ensures
            r.wf(),
            r@ == Map::<usize, HandleView>::empty(),
            r.next_id_spec() == 1,
    {
        let r = HandleMap { handles: Vec::new(), next_id: 1 };
        proof {
            assert(r@ =~= Map::<usize, HandleView>::empty());
        }
        r
    }

    /// True when some open handle sits on exactly the path `path`.
    fn any_handle_on(&self, path: &str) -> (b: bool)
        requires
            self.wf(),
        ensures
            b == exists|id: usize| self@.dom().contains(id) && self@[id].path == path@,
    {
        let owned: String = path.to_owned();
        let mut k: usize = 0;
        while k < self.handles.len()
            invariant
                self.wf(),
                owned@ == path@,
                0 <= k <= self.handles@.len(),
                forall|i: int| 0 <= i < k ==> self.handles@[i]@.path != path@,
            decreases self.handles@.len() - k,
        {
            if self.handles[k].path == owned {
                proof {
                    let id = self.handles@[k as int].id_spec();
                    assert(self.is_open(id));
                    let i = self.idx_of(id);
                    assert(i == k as int);
                    assert(self@.dom().contains(id) && self@[id].path == path@);
                }
                return true;
            }
            k = k + 1;
        }
        proof {
            assert forall|id: usize| self@.dom().contains(id) implies self@[id].path != path@ by {
                let i = self.idx_of(id);
                assert(self.handles@[i]@.path != path@);
            }
        }
        false
    }

    /// Opens a handle on `path` for `uid` with access `open_mode`.
    ///
    /// The path is normalized first; an empty result is rejected. A request
    /// for write access fails with busy while any proper ancestor of the
    /// normalized path has open handles. Only proper ancestors are
    /// checked: a second open on the exact same path succeeds whatever
    /// its mode, deliberately, since exclusivity here guards a subtree,
    /// not the entry itself. On success the handle receives the
    /// next id — strictly greater than every id ever handed out before, so
    /// ids strictly increase across successive opens and are never
    /// reassigned — and the counter advances by one.
    pub fn open_handle(&mut self, path: &str, uid: u32, open_mode: OpenMode) -> (r: Result<
        usize,
        SchemeError,
    >)
        requires
            old(self).wf(),
            old(self).next_id_spec() < usize::MAX,
        ensures
            final(self).wf(),
            ({
                let p = normalize(path@);
                match r {
                    Err(SchemeError::MalformedPath) => p.len() == 0 && *final(self) == *old(self),
                    Err(SchemeError::Busy) => p.len() > 0 && is_writing(open_mode)
                        && ancestor_open(old(self)@, p) && *final(self) == *old(self),
                    Err(SchemeError::BadHandle) => false,
                    Ok(id) => {
                        &&& p.len() > 0
                        &&& !(is_writing(open_mode) && ancestor_open(old(self)@, p))
                        &&& id == old(self).next_id_spec()
                        &&& !old(self)@.dom().contains(id)
                        &&& forall|j: usize| old(self)@.dom().contains(j) ==> j < id
                        &&& final(self)@ == old(self)@.insert(
                            id,
                            (HandleView { path: p, mode: open_mode, uid: uid, seek: 0 }),
                        )
                        &&& final(self).next_id_spec() == old(self).next_id_spec() + 1
                    },
                }
            }),
    {
        let trimmed: &str = trim_separators(path);
        let tlen = trimmed.unicode_len();
        if tlen == 0 {
            return Err(SchemeError::MalformedPath);
        }
        let writing = match open_mode {
            OpenMode::Write | OpenMode::ReadWrite => true,
            OpenMode::Read => false,
        };
        if writing {
            let mut i: usize = 0;
            while i < tlen
                invariant
                    *self == *old(self),
                    self.wf(),
                    writing && writing == is_writing(open_mode),
                    tlen == trimmed@.len(),
                    trimmed@ == normalize(path@),
                    0 <= i <= tlen,
                    forall|j: int, id: usize|
                        0 <= j < i && is_separator(trimmed@[j]) && self@.dom().contains(id)
                            ==> self@[id].path != trimmed@.subrange(0, j),
                decreases tlen - i,
            {
                if trimmed.get_char(i) == '/' {
                    let prefix: &str = trimmed.substring_char(0, i);
                    if self.any_handle_on(prefix) {
                        proof {
                            assert(ancestor_open(self@, trimmed@));
                        }
                        return Err(SchemeError::Busy);
                    }
                }
                i = i + 1;
            }
        }
        let ghost old_map = self@;
        let id = self.next_id;
        self.next_id = self.next_id + 1;
        let handle = NodeHandle::new(trimmed.to_owned(), id, open_mode, uid);
        self.handles.push(handle);
        proof {
            let n = self.handles@.len() - 1;
            assert(self.handles@[n].id_spec() == id);
            assert forall|i: int| 0 <= i < n implies self.handles@[i].id_spec() != id by {
                assert(old(self).handles@[i].id_spec() < id);
            }
            assert forall|oid: usize, i: int|
                0 <= i < n && self.handles@[i].id_spec() == oid implies old(self).is_open(oid) by {
                assert(old(self).handles@[i].id_spec() == oid);
            }
            assert forall|oid: usize| old(self).is_open(oid) implies self.is_open(oid)
                && self.idx_of(oid) == old(self).idx_of(oid) by {
                let i = old(self).idx_of(oid);
                assert(self.handles@[i].id_spec() == oid);
                let j = self.idx_of(oid);
                assert(0 <= j < self.handles@.len() && self.handles@[j].id_spec() == oid);
                if j == n {
                    assert(oid == id);
                    assert(old(self).handles@[i].id_spec() < id);
                }
            }
            assert(self.is_open(id) && self.idx_of(id) == n);
            assert forall|i: int, j: int|
                0 <= i < j < self.handles@.len() implies self.handles@[i].id_spec()
                != self.handles@[j].id_spec() by {
                if j < n {
                    assert(old(self).handles@[i].id_spec() != old(self).handles@[j].id_spec());
                }
            }
            assert forall|i: int|
                0 <= i < self.handles@.len() implies 1 <= #[trigger] self.handles@[i].id_spec()
                < self.next_id by {
                if i < n {
                    assert(1 <= old(self).handles@[i].id_spec() < old(self).next_id_spec());
                }
            }
            assert(self.wf());
            assert(self@ =~= old_map.insert(
                id,
                (HandleView { path: normalize(path@), mode: open_mode, uid: uid, seek: 0 }),
            ));
        }
        Ok(id)
    }

    /// A shared borrow of the open handle with id `id`.
    pub fn get_handle(&self, id: usize) -> (r: Result<&NodeHandle, SchemeError>)
        requires
            self.wf(),
        ensures
            match r {
                Ok(h) => self@.dom().contains(id) && h.id_spec() == id && h@ == self@[id],
                Err(e) => e == SchemeError::BadHandle && !self@.dom().contains(id),
            },
    {
        let mut k: usize = 0;
        while k < self.handles.len()
            invariant
                self.wf(),
                0 <= k <= self.handles@.len(),
                forall|i: int| 0 <= i < k ==> self.handles@[i].id_spec() != id,
            decreases self.handles@.len() - k,
        {
            if self.handles[k].get_id() == id {
                proof {
                    assert(self.is_open(id));
                    assert(self.idx_of(id) == k as int);
                }
                return Ok(&self.handles[k]);
            }
            k = k + 1;
        }
        Err(SchemeError::BadHandle)
    }

    /// Removes the open handle with id `id` from the table and hands it
    /// to the caller, which may then operate on it by mutable reference;
    /// [`Self::put_handle`] returns it afterwards.
    pub fn take_handle(&mut self, id: usize) -> (r: Result<NodeHandle, SchemeError>)
        requires
            old(self).wf(),
        ensures
            final(self).wf(),
            final(self).next_id_spec() == old(self).next_id_spec(),
            match r {
                Ok(h) => old(self)@.dom().contains(id) && h.id_spec() == id && h@ == old(self)@[id]
                    && 1 <= id < old(self).next_id_spec() && final(self)@ == old(self)@.remove(id),
                Err(e) => e == SchemeError::BadHandle && !old(self)@.dom().contains(id) && *final(self) == *old(self),
            },
    {
        let n = self.handles.len();
        let mut k: usize = 0;
        while k < n
            invariant
                *self == *old(self),
                self.wf(),
                n == self.handles@.len(),
                0 <= k <= n,
                forall|i: int| 0 <= i < k ==> self.handles@[i].id_spec() != id,
            decreases n - k,
        {
            if self.handles[k].get_id() == id {
                proof {
                    assert(self.is_open(id));
                    assert(self.idx_of(id) == k as int);
                }
                let ghost pre = *self;
                let h = self.handles.swap_remove(k);
                proof {
                    let m = self.handles@.len() as int;
                    assert forall|i: int| 0 <= i < m implies self.handles@[i] == pre.handles@[
                        (if i == k as int {
                            m
                        } else {
                            i
                        })] by {}
                    assert forall|oid: usize| self.is_open(oid) implies pre.is_open(oid) && oid
                        != id by {
                        let i = self.idx_of(oid);
                        let src = if i == k as int {
                            m
                        } else {
                            i
                        };
                        assert(pre.handles@[src].id_spec() == oid);
                        assert(pre.is_open(oid));
                        if oid == id {
                            assert(pre.handles@[src].id_spec() == id && src != k as int);
                        }
                    }
                    assert forall|oid: usize| pre.is_open(oid) && oid != id implies self.is_open(
                        oid,
                    ) && self.handles@[self.idx_of(oid)] == pre.handles@[pre.idx_of(oid)] by {
                        let i = pre.idx_of(oid);
                        assert(i != k as int);
                        if i == m {
                            assert(self.handles@[k as int].id_spec() == oid);
                        } else {
                            assert(self.handles@[i].id_spec() == oid);
                        }
                        let j = self.idx_of(oid);
                        let src = if j == k as int {
                            m
                        } else {
                            j
                        };
                        assert(pre.handles@[src].id_spec() == oid);
                        assert(src == i);
                    }
                    assert(self@ =~= pre@.remove(id));
                }
                return Ok(h);
            }
            k = k + 1;
        }
        Err(SchemeError::BadHandle)
    }

    /// Returns a handle taken with [`Self::take_handle`] to the table.
    pub fn put_handle(&mut self, h: NodeHandle)
        requires
            old(self).wf(),
            !old(self)@.dom().contains(h.id_spec()),
            1 <= h.id_spec() < old(self).next_id_spec(),
        ensures
            final(self).wf(),
            final(self).next_id_spec() == old(self).next_id_spec(),
            final(self)@ == old(self)@.insert(h.id_spec(), h@),
    {
        let ghost id = h.id_spec();
        let ghost old_map = self@;
        self.handles.push(h);
        proof {
            let n = self.handles@.len() - 1;
            assert(self.handles@[n].id_spec() == id);
            assert forall|i: int| 0 <= i < n implies self.handles@[i].id_spec() != id by {
                if self.handles@[i].id_spec() == id {
                    assert(old(self).is_open(id));
                }
            }
            assert forall|oid: usize, i: int|
                0 <= i < n && self.handles@[i].id_spec() == oid implies old(self).is_open(oid) by {
                assert(old(self).handles@[i].id_spec() == oid);
            }
            assert forall|oid: usize| old(self).is_open(oid) implies self.is_open(oid)
                && self.idx_of(oid) == old(self).idx_of(oid) by {
                let i = old(self).idx_of(oid);
                assert(self.handles@[i].id_spec() == oid);
                let j = self.idx_of(oid);
                assert(0 <= j < self.handles@.len() && self.handles@[j].id_spec() == oid);
                if j == n {
                    assert(oid == id);
                    assert(old(self).is_open(id));
                }
            }
            assert(self.is_open(id) && self.idx_of(id) == n);
            assert forall|i: int, j: int|
                0 <= i < j < self.handles@.len() implies self.handles@[i].id_spec()
                != self.handles@[j].id_spec() by {
                if j < n {
                    assert(old(self).handles@[i].id_spec() != old(self).handles@[j].id_spec());
                }
            }
            assert forall|i: int|
                0 <= i < self.handles@.len() implies 1 <= #[trigger] self.handles@[i].id_spec()
                < self.next_id by {
                if i < n {
                    assert(1 <= old(self).handles@[i].id_spec() < old(self).next_id_spec());
                }
            }
            assert(self.wf());
            assert(self@ =~= old_map.insert(id, self.handles@[n]@));
        }
    }

    /// Closes the handle with id `id`, removing it from the table.
    ///
    /// Fails with a bad-handle error when no handle with that id is open.
    /// The allocation counter is untouched, so a closed id is never handed
    /// out again.
    pub fn close(&mut self, id: usize) -> (r: Result<usize, SchemeError>)
        requires
            old(self).wf(),
        ensures
            final(self).wf(),
            final(self).next_id_spec() == old(self).next_id_spec(),
            match r {
                Ok(z) => z == 0 && old(self)@.dom().contains(id) && final(self)@ == old(self)@.remove(id),
                Err(e) => e == SchemeError::BadHandle && !old(self)@.dom().contains(id) && *final(self) == *old(self),
            },
    {
        match self.take_handle(id) {
            Ok(_) => Ok(0),
            Err(e) => Err(e),
        }
    }
}

/// Once a handle id is removed from the table, the table no longer
/// contains it, so any later read, write or close that looks it up fails
/// with a bad-handle error by the contracts of those operations.
pub proof fn lemma_close_invalidates(m: Map<usize, HandleView>, id: usize)
    ensures
        !m.remove(id).dom().contains(id),
{
}

} // verus!
