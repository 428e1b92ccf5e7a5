//! Byte storage keyed by path.
//!
//! The [`Storage`] capability reads, appends and truncates the byte
//! content associated with a path; [`MemStorage`] keeps that content in
//! memory. A path that was never written or truncated has no entry, which
//! reads as empty content; truncating such a path is a no-op and creates
//! no entry.

use vstd::prelude::*;

use crate::handle::{HandleView, NodeHandle};

verus! {

/// The content stored at path `p` in contents map `m`; a path with no
/// entry reads as empty content.
pub open spec fn content_of(m: Map<Seq<char>, Seq<u8>>, p: Seq<char>) -> Seq<u8> {
    if m.dom().contains(p) {
        m[p]
    } else {
        Seq::empty()
    }
}

/// How many bytes a read returns: none at or past the end of content,
/// otherwise as many as the buffer holds, capped by what is left after
/// the cursor.
pub open spec fn read_count(content_len: nat, seek: nat, cap: nat) -> nat {
    if seek >= content_len {
        0
    } else if cap < content_len - seek {
        cap
    } else {
        (content_len - seek) as nat
    }
}

/// The contents after appending `w` to path `p`: the entry is created if
/// absent, and the cursor of whoever writes plays no part.
pub open spec fn apply_write(m: Map<Seq<char>, Seq<u8>>, p: Seq<char>, w: Seq<u8>) -> Map<
    Seq<char>,
    Seq<u8>,
> {
    m.insert(p, content_of(m, p) + w)
}

/// The contents after appending each chunk of `ws` to path `p` in order.
pub open spec fn apply_writes(m: Map<Seq<char>, Seq<u8>>, p: Seq<char>, ws: Seq<Seq<u8>>) -> Map<
    Seq<char>,
    Seq<u8>,
> decreases ws.len(),
{
    if ws.len() == 0 {
        m
    } else {
        apply_writes(apply_write(m, p, ws[0]), p, ws.drop_first())
    }
}

/// The contents after truncating path `p`: an existing entry is cleared
/// to empty; a missing entry stays missing.
pub open spec fn apply_trunc(m: Map<Seq<char>, Seq<u8>>, p: Seq<char>) -> Map<Seq<char>, Seq<u8>> {
    if m.dom().contains(p) {
        m.insert(p, Seq::empty())
    } else {
        m
    }
}

/// Law: a path that was never written or truncated has no entry, and a
/// read of it returns zero bytes at any cursor position and for any
/// buffer capacity.
pub proof fn lemma_read_unwritten_is_empty(
    m: Map<Seq<char>, Seq<u8>>,
    p: Seq<char>,
    seek: nat,
    cap: nat,
)
    requires
        !m.dom().contains(p),
    ensures
        content_of(m, p).len() == 0,
        read_count(content_of(m, p).len(), seek, cap) == 0,
{
}

/// Law: any sequence of writes to one path stores exactly the
/// concatenation of the written chunks, in call order; the writers'
/// cursors play no part.
pub proof fn lemma_writes_concatenate(m: Map<Seq<char>, Seq<u8>>, p: Seq<char>, ws: Seq<Seq<u8>>)
    ensures
        content_of(apply_writes(m, p, ws), p) == content_of(m, p) + ws.flatten(),
    decreases ws.len(),
{
    if ws.len() == 0 {
        assert(content_of(m, p) + ws.flatten() =~= content_of(m, p));
    } else {
        let m1 = apply_write(m, p, ws[0]);
        lemma_writes_concatenate(m1, p, ws.drop_first());
        assert(ws.first() == ws[0]);
        assert(content_of(m1, p) == content_of(m, p) + ws[0]);
        assert((content_of(m, p) + ws[0]) + ws.drop_first().flatten() =~= content_of(m, p) + (ws[0]
            + ws.drop_first().flatten()));
    }
}

/// Law: after a truncate, the path's readable content is empty, so the
/// next read from cursor 0 returns zero bytes; and a truncate creates no
/// entry, so the set of stored paths is unchanged.
pub proof fn lemma_trunc_then_read(m: Map<Seq<char>, Seq<u8>>, p: Seq<char>, cap: nat)
    ensures
        content_of(apply_trunc(m, p), p).len() == 0,
        read_count(content_of(apply_trunc(m, p), p).len(), 0, cap) == 0,
        apply_trunc(m, p).dom() =~= m.dom(),
        !m.dom().contains(p) ==> apply_trunc(m, p) == m,
{
}

/// Capability for reading, appending and truncating the byte content
/// associated with a path. The in-memory [`MemStorage`] implements it; a
/// persistent backend satisfying the same contract would be a valid
/// alternate implementation.
pub trait Storage {
    /// The mapping from path to stored content.
    spec fn contents(&self) -> Map<Seq<char>, Seq<u8>>;

    /// Backend-specific well-formedness.
    spec fn inv(&self) -> bool;

    /// Copies up to `buf.len()` bytes into the front of `buf`, from the
    /// content stored at the handle's path starting at the handle's
    /// cursor, and advances the cursor by the number of bytes copied.
    /// A cursor at or past the end of content reads zero bytes, as does a
    /// path with no stored entry; neither is an error, and the storage
    /// itself is never changed by a read.
    fn read(&self, handle: &mut NodeHandle, buf: &mut Vec<u8>) -> (n: usize)
        requires
            self.inv(),
        ensures
            n == read_count(
                content_of(self.contents(), old(handle)@.path).len(),
                old(handle)@.seek,
                old(buf)@.len(),
            ),
            final(buf)@.len() == old(buf)@.len(),
            forall|t: int|
                0 <= t < n ==> final(buf)@[t] == content_of(self.contents(), old(handle)@.path)[
                    old(handle)@.seek + t],
            forall|t: int| n <= t < old(buf)@.len() ==> final(buf)@[t] == old(buf)@[t],
            final(handle)@ == (HandleView {
                seek: (old(handle)@.seek + n) as nat,
                ..old(handle)@
            }),
            final(handle).id_spec() == old(handle).id_spec(),
    ;

    /// Appends `buf` to the content stored at the handle's path, creating
    /// the entry if absent — a write is always an append, wherever the
    /// handle's cursor is — and returns the full length written. Never
    /// fails.
    fn write(&mut self, handle: &NodeHandle, buf: &[u8]) -> (n: usize)
        requires
            old(self).inv(),
        ensures
            final(self).inv(),
            n == buf@.len(),
            final(self).contents() == apply_write(old(self).contents(), handle@.path, buf@),
    ;

    /// Clears the content stored at the handle's path if an entry exists;
    /// a missing entry is left missing. Never fails.
    fn trunc(&mut self, handle: &NodeHandle)
        requires
            old(self).inv(),
        ensures
            final(self).inv(),
            final(self).contents() == apply_trunc(old(self).contents(), handle@.path),
    ;
}

/// In-memory storage: one entry per path that has ever been written or
/// truncated, with unique keys.
pub struct MemStorage {
    data: Vec<(String, Vec<u8>)>,
}

impl MemStorage {
    /// True when an entry for path `p` exists.
    pub closed spec fn has_key(&self, p: Seq<char>) -> bool {
        exists|i: int| 0 <= i < self.data@.len() && self.data@[i].0@ == p
    }

    spec fn key_idx(&self, p: Seq<char>) -> int {
        choose|i: int| 0 <= i < self.data@.len() && self.data@[i].0@ == p
    }

    /// Creates an empty storage: no path has an entry yet.
    pub fn new() -> (r: Self)
        ensures
            r.inv(),
            r.contents() == Map::<Seq<char>, Seq<u8>>::empty(),
    {
        let r = MemStorage { data: Vec::new() };
        proof {
            assert(r.contents() =~= Map::<Seq<char>, Seq<u8>>::empty());
        }
        r
    }

    /// The index of the entry for `path`, when one exists.
    fn find(&self, path: &str) -> (r: Option<usize>)
        requires
            self.inv(),
        ensures
            match r {
                Some(k) => k < self.data@.len() && self.data@[k as int].0@ == path@ && self.has_key(
                    path@,
                ) && self.key_idx(path@) == k && self.contents().dom().contains(path@)
                    && self.contents()[path@] == self.data@[k as int].1@,
                None => !self.has_key(path@) && !self.contents().dom().contains(path@),
            },
    {
        let owned: String = path.to_owned();
        let mut k: usize = 0;
        while k < self.data.len()
            invariant
                self.inv(),
                owned@ == path@,
                0 <= k <= self.data@.len(),
                forall|i: int| 0 <= i < k ==> self.data@[i].0@ != path@,
            decreases self.data@.len() - k,
        {
            if self.data[k].0 == owned {
                proof {
                    assert(self.has_key(path@));
                    assert(self.key_idx(path@) == k as int);
                }
                return Some(k);
            }
            k = k + 1;
        }
        None
    }

    /// Removes and returns the entry for `path`, when one exists.
    fn take_entry(&mut self, path: &str) -> (r: Option<(String, Vec<u8>)>)
        requires
            old(self).inv(),
        ensures
            final(self).inv(),
            match r {
                Some(entry) => old(self).contents().dom().contains(path@) && entry.0@ == path@
                    && entry.1@ == old(self).contents()[path@] && final(self).contents() == old(
                    self,
                ).contents().remove(path@),
                None => !old(self).contents().dom().contains(path@) && *final(self) == *old(self),
            },
    {
        let owned: String = path.to_owned();
        let n = self.data.len();
        let mut k: usize = 0;
        while k < n
            invariant
                *self == *old(self),
                self.inv(),
                owned@ == path@,
                n == self.data@.len(),
                0 <= k <= n,
                forall|i: int| 0 <= i < k ==> self.data@[i].0@ != path@,
            decreases n - k,
        {
            if self.data[k].0 == owned {
                proof {
                    assert(self.has_key(path@));
                    assert(self.key_idx(path@) == k as int);
                }
                let ghost pre = *self;
                let entry = self.data.swap_remove(k);
                proof {
                    let m = self.data@.len() as int;
                    assert forall|i: int| 0 <= i < m implies self.data@[i] == pre.data@[
                        (if i == k as int {
                            m
                        } else {
                            i
                        })] by {}
                    assert forall|p: Seq<char>| self.has_key(p) implies pre.has_key(p) && p
                        != path@ by {
                        let i = self.key_idx(p);
                        let src = if i == k as int {
                            m
                        } else {
                            i
                        };
                        assert(pre.data@[src].0@ == p);
                        assert(pre.has_key(p));
                        if p == path@ {
                            assert(pre.data@[src].0@ == path@ && src != k as int);
                        }
                    }
                    assert forall|p: Seq<char>| pre.has_key(p) && p != path@ implies self.has_key(
                        p,
                    ) && self.data@[self.key_idx(p)] == pre.data@[pre.key_idx(p)] by {
                        let i = pre.key_idx(p);
                        assert(i != k as int);
                        if i == m {
                            assert(self.data@[k as int].0@ == p);
                        } else {
                            assert(self.data@[i].0@ == p);
                        }
                        let j = self.key_idx(p);
                        let src = if j == k as int {
                            m
                        } else {
                            j
                        };
                        assert(pre.data@[src].0@ == p);
                        assert(src == i);
                    }
                    assert(self.contents() =~= pre.contents().remove(path@));
                }
                return Some(entry);
            }
            k = k + 1;
        }
        None
    }

    /// Adds an entry for a path that has none.
    fn put_entry(&mut self, entry: (String, Vec<u8>))
        requires
            old(self).inv(),
            !old(self).contents().dom().contains(entry.0@),
        ensures
            final(self).inv(),
            final(self).contents() == old(self).contents().insert(entry.0@, entry.1@),
    {
        let ghost p = entry.0@;
        let ghost v = entry.1@;
        self.data.push(entry);
        proof {
            let n = self.data@.len() - 1;
            assert(self.data@[n].0@ == p);
            assert forall|i: int| 0 <= i < n implies self.data@[i].0@ != p by {
                if self.data@[i].0@ == p {
                    assert(old(self).has_key(p));
                }
            }
            assert forall|q: Seq<char>, i: int|
                0 <= i < n && self.data@[i].0@ == q implies old(self).has_key(q) by {
                assert(old(self).data@[i].0@ == q);
            }
            assert forall|q: Seq<char>| old(self).has_key(q) implies self.has_key(q)
                && self.key_idx(q) == old(self).key_idx(q) by {
                let i = old(self).key_idx(q);
                assert(self.data@[i].0@ == q);
                let j = self.key_idx(q);
                assert(0 <= j < self.data@.len() && self.data@[j].0@ == q);
                if j == n {
                    assert(q == p);
                    assert(old(self).has_key(p));
                }
            }
            assert(self.has_key(p) && self.key_idx(p) == n);
            assert forall|i: int, j: int|
                0 <= i < j < self.data@.len() implies self.data@[i].0@ != self.data@[j].0@ by {
                if j < n {
                    assert(old(self).data@[i].0@ != old(self).data@[j].0@);
                }
            }
            assert(self.inv());
            assert(self.contents() =~= old(self).contents().insert(p, v));
        }
    }
}

impl Storage for MemStorage {
    /// The mapping from path to stored content.
    closed spec fn contents(&self) -> Map<Seq<char>, Seq<u8>> {
        Map::new(|p: Seq<char>| self.has_key(p), |p: Seq<char>| self.data@[self.key_idx(p)].1@)
    }

    /// Well-formedness: entry keys are unique.
    closed spec fn inv(&self) -> bool {
        forall|i: int, j: int| 0 <= i < j < self.data@.len() ==> self.data@[i].0@ != self.data@[j].0@
    }

    fn read(&self, handle: &mut NodeHandle, buf: &mut Vec<u8>) -> (n: usize) {
        match self.find(handle.get_path()) {
            None => 0,
            Some(k) => {
                let seek = handle.get_seek();
                let content: &Vec<u8> = &self.data[k].1;
                if seek >= content.len() {
                    return 0;
                }
                let avail = content.len() - seek;
                let cap = buf.len();
                let amt = if cap < avail {
                    cap
                } else {
                    avail
                };
                let mut j: usize = 0;
                while j < amt
                    invariant
                        *handle == *old(handle),
                        seek == old(handle)@.seek,
                        content@.len() <= usize::MAX,
                        seek + amt <= content@.len(),
                        0 <= j <= amt,
                        amt <= buf@.len(),
                        buf@.len() == old(buf)@.len(),
                        forall|t: int| 0 <= t < j ==> buf@[t] == content@[seek + t],
                        forall|t: int| j <= t < buf@.len() ==> buf@[t] == old(buf)@[t],
                    decreases amt - j,
                {
                    let b = content[seek + j];
                    buf[j] = b;
                    j = j + 1;
                }
                handle.advance_seek(amt);
                amt
            },
        }
    }

    fn write(&mut self, handle: &NodeHandle, buf: &[u8]) -> (n: usize) {
        let ghost old_contents = self.contents();
        let ghost p = handle@.path;
        match self.take_entry(handle.get_path()) {
            Some(entry) => {
                let (key, mut value) = entry;
                let mut extra: Vec<u8> = vstd::slice::slice_to_vec(buf);
                value.append(&mut extra);
                self.put_entry((key, value));
                proof {
                    assert(self.contents() =~= apply_write(old_contents, p, buf@));
                }
            },
            None => {
                let key: String = handle.get_path().to_owned();
                let value: Vec<u8> = vstd::slice::slice_to_vec(buf);
                self.put_entry((key, value));
                proof {
                    assert(content_of(old_contents, p) + buf@ =~= buf@);
                    assert(self.contents() =~= apply_write(old_contents, p, buf@));
                }
            },
        }
        buf.len()
    }

    fn trunc(&mut self, handle: &NodeHandle) {
        let ghost old_contents = self.contents();
        let ghost p = handle@.path;
        match self.take_entry(handle.get_path()) {
            Some(entry) => {
                let (key, mut value) = entry;
                value.clear();
                self.put_entry((key, value));
                proof {
                    assert(self.contents() =~= apply_trunc(old_contents, p));
                }
            },
            None => {
                proof {
                    assert(self.contents() =~= apply_trunc(old_contents, p));
                }
            },
        }
    }
}

} // verus!
