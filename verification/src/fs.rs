//! In-memory model of the slice of the filesystem one generation run
//! touches: a finite map from paths to entries.  The surrounding binary
//! loads the relevant paths into an `FsState`, runs generation, and writes
//! the changed entries back out.

use vstd::prelude::*;
use crate::text::{bytes_eq, copy_bytes, lines_view, push_all_lines};

verus! {

/// One filesystem entry: a directory, or a file with its lines.
#[derive(Debug, Clone, PartialEq, Eq)]
pub enum FsEntry {
    Dir,
    File(Vec<Vec<u8>>),
}

/// The mathematical value of an entry.
pub enum EntryV {
    Dir,
    File(Seq<Seq<u8>>),
}

pub open spec fn entry_view(e: FsEntry) -> EntryV {
    match e {
        FsEntry::Dir => EntryV::Dir,
        FsEntry::File(c) => EntryV::File(lines_view(c@)),
    }
}

/// The map described by an association list, later entries winning.
pub open spec fn map_of(s: Seq<(Vec<u8>, FsEntry)>) -> Map<Seq<u8>, EntryV>
    decreases s.len(),
{
    if s.len() == 0 {
        Map::empty()
    } else {
        map_of(s.drop_last()).insert(s.last().0@, entry_view(s.last().1))
    }
}

pub proof fn lemma_map_of_contains(s: Seq<(Vec<u8>, FsEntry)>, p: Seq<u8>)
    ensures
        map_of(s).contains_key(p) <==> exists|i: int| 0 <= i < s.len() && s[i].0@ == p,
    decreases s.len(),
{
    if s.len() > 0 {
        lemma_map_of_contains(s.drop_last(), p);
        if map_of(s).contains_key(p) {
            if s.last().0@ == p {
                assert(s[s.len() - 1].0@ == p);
            }
        }
        if exists|i: int| 0 <= i < s.len() && s[i].0@ == p {
            let i = choose|i: int| 0 <= i < s.len() && s[i].0@ == p;
            if i < s.len() - 1 {
                assert(s.drop_last()[i].0@ == p);
            }
        }
    }
}

pub proof fn lemma_map_of_index(s: Seq<(Vec<u8>, FsEntry)>, i: int)
    requires
        0 <= i < s.len(),
        forall|k: int, l: int| 0 <= k < l < s.len() ==> s[k].0@ != s[l].0@,
    ensures
        map_of(s).contains_key(s[i].0@),
        map_of(s)[s[i].0@] == entry_view(s[i].1),
    decreases s.len(),
{
    if i == s.len() - 1 {
    } else {
        lemma_map_of_index(s.drop_last(), i);
        assert(s.drop_last()[i] == s[i]);
        assert(s.last().0@ != s[i].0@);
    }
}

/// The filesystem slice, with each path held at most once.
#[derive(Debug, Clone, PartialEq, Eq)]
pub struct FsState {
    entries: Vec<(Vec<u8>, FsEntry)>,
}

impl View for FsState {
    type V = Map<Seq<u8>, EntryV>;

    closed spec fn view(&self) -> Map<Seq<u8>, EntryV> {
        map_of(self.entries@)
    }
}

impl FsState {
    /// Paths are pairwise distinct.
    pub closed spec fn wf(&self) -> bool {
        forall|k: int, l: int|
            0 <= k < l < self.entries@.len() ==> self.entries@[k].0@ != self.entries@[l].0@
    }

    /// An empty filesystem slice.
    pub fn new() -> (r: FsState)
        ensures
            r.wf(),
            r@ == Map::<Seq<u8>, EntryV>::empty(),
    {
        FsState { entries: Vec::new() }
    }

    /// The entry at `path`, if one is held.
    pub fn get(&self, path: &Vec<u8>) -> (r: Option<&FsEntry>)
        requires
            self.wf(),
        ensures
            match r {
                Some(e) => self@.contains_key(path@) && entry_view(*e) == self@[path@],
                None => !self@.contains_key(path@),
            },
    {
        let mut i: usize = 0;
        while i < self.entries.len()
            invariant
                self.wf(),
                0 <= i <= self.entries@.len(),
                forall|j: int| 0 <= j < i ==> self.entries@[j].0@ != path@,
            decreases self.entries@.len() - i,
        {
            if bytes_eq(&self.entries[i].0, path) {
                proof {
                    lemma_map_of_index(self.entries@, i as int);
                }
                return Some(&self.entries[i].1);
            }
            i = i + 1;
        }
        proof {
            lemma_map_of_contains(self.entries@, path@);
        }
        None
    }

    /// The held entries, each agreeing with the map view.
    pub fn entries(&self) -> (r: &Vec<(Vec<u8>, FsEntry)>)
        requires
            self.wf(),
        ensures
            forall|i: int|
                0 <= i < r@.len() ==> self@.contains_key(#[trigger] r@[i].0@) && self@[r@[i].0@]
                    == entry_view(r@[i].1),
    {
        proof {
            assert forall|i: int|
                0 <= i < self.entries@.len() implies self@.contains_key(
                #[trigger] self.entries@[i].0@,
            ) && self@[self.entries@[i].0@] == entry_view(self.entries@[i].1) by {
                lemma_map_of_index(self.entries@, i);
            }
        }
        &self.entries
    }

    /// Sets `path` to `e`, replacing what was there.
    pub fn set(&mut self, path: &Vec<u8>, e: FsEntry)
        requires
            old(self).wf(),
        ensures
            final(self).wf(),
            final(self)@ == old(self)@.insert(path@, entry_view(e)),
    {
        let mut i: usize = 0;
        while i < self.entries.len()
            invariant
                self.wf(),
                self@ == old(self)@,
                self.entries@ == old(self).entries@,
                0 <= i <= self.entries@.len(),
                forall|j: int| 0 <= j < i ==> self.entries@[j].0@ != path@,
            decreases self.entries@.len() - i,
        {
            if bytes_eq(&self.entries[i].0, path) {
                let p = copy_bytes(path);
                let ghost pre = self.entries@;
                self.entries.set(i, (p, e));
                proof {
                    lemma_map_of_update(pre, i as int, (p, e));
                    assert(forall|k: int|
                        0 <= k < self.entries@.len() && k != i ==> self.entries@[k] == pre[k]);
                    assert(self.entries@[i as int].0@ == pre[i as int].0@);
                    assert(self.wf());
                }
                return ;
            }
            i = i + 1;
        }
        let p = copy_bytes(path);
        let ghost pre = self.entries@;
        self.entries.push((p, e));
        proof {
            assert(self.entries@.drop_last() =~= pre);
            assert(forall|k: int|
                0 <= k < pre.len() ==> self.entries@[k] == pre[k]);
        }
    }
}

/// Updating the entry whose path is already held replaces its value in the map.
pub proof fn lemma_map_of_update(s: Seq<(Vec<u8>, FsEntry)>, i: int, kv: (Vec<u8>, FsEntry))
    requires
        0 <= i < s.len(),
        forall|k: int, l: int| 0 <= k < l < s.len() ==> s[k].0@ != s[l].0@,
        kv.0@ == s[i].0@,
    ensures
        map_of(s.update(i, kv)) == map_of(s).insert(kv.0@, entry_view(kv.1)),
    decreases s.len(),
{
    let u = s.update(i, kv);
    if i == s.len() - 1 {
        assert(u.drop_last() =~= s.drop_last());
        assert(u.last() == kv);
        assert(map_of(s.drop_last()).insert(kv.0@, entry_view(kv.1)) =~= map_of(
            s.drop_last(),
        ).insert(s.last().0@, entry_view(s.last().1)).insert(kv.0@, entry_view(kv.1)));
    } else {
        assert(u.drop_last() =~= s.drop_last().update(i, kv));
        assert(u.last() == s.last());
        lemma_map_of_update(s.drop_last(), i, kv);
        assert(s.last().0@ != kv.0@);
        assert(map_of(s.drop_last()).insert(kv.0@, entry_view(kv.1)).insert(
            s.last().0@,
            entry_view(s.last().1),
        ) =~= map_of(s.drop_last()).insert(s.last().0@, entry_view(s.last().1)).insert(
            kv.0@,
            entry_view(kv.1),
        ));
    }
}

/// Copies a line list.
pub fn copy_lines(src: &Vec<Vec<u8>>) -> (r: Vec<Vec<u8>>)
    ensures
        lines_view(r@) == lines_view(src@),
{
    let mut r: Vec<Vec<u8>> = Vec::new();
    push_all_lines(&mut r, src);
    assert(lines_view(r@) =~= lines_view(src@));
    r
}

} // verus!
