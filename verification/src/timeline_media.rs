//! What was computed for the timeline of each video, kept by the video's path
//! so that opening it again is instant. Captions are not kept: they can change.
use vstd::prelude::*;
use crate::error::owned;
use crate::text;

verus! {

/// What is kept, by path.
#[derive(Debug)]
pub struct MediaCache<T> {
    entries: Vec<(String, T)>,
}

/// What the entries hold: the last one of a path counts.
spec fn entry_map<T>(entries: Seq<(String, T)>) -> Map<Seq<char>, T>
    decreases entries.len(),
{
    if entries.len() == 0 {
        Map::empty()
    } else {
        entry_map(entries.drop_last()).insert(entries.last().0@, entries.last().1)
    }
}

proof fn lemma_absent<T>(entries: Seq<(String, T)>, path: Seq<char>)
    requires
        forall|i: int| 0 <= i < entries.len() ==> (#[trigger] entries[i]).0@ != path,
    ensures
        !entry_map(entries).contains_key(path),
    decreases entries.len(),
{
    if entries.len() > 0 {
        lemma_absent(entries.drop_last(), path);
    }
}

proof fn lemma_last<T>(entries: Seq<(String, T)>, path: Seq<char>, at: int)
    requires
        0 <= at < entries.len(),
        entries[at].0@ == path,
        forall|i: int| at < i < entries.len() ==> (#[trigger] entries[i]).0@ != path,
    ensures
        entry_map(entries).contains_key(path),
        entry_map(entries)[path] == entries[at].1,
    decreases entries.len(),
{
    if at < entries.len() - 1 {
        lemma_last(entries.drop_last(), path, at);
    }
}

proof fn lemma_replaced<T>(entries: Seq<(String, T)>, at: int, entry: (String, T))
    requires
        0 <= at < entries.len(),
        entries[at].0@ == entry.0@,
        forall|i: int| at < i < entries.len() ==> (#[trigger] entries[i]).0@ != entry.0@,
    ensures
        entry_map(entries.update(at, entry)) == entry_map(entries).insert(entry.0@, entry.1),
    decreases entries.len(),
{
    let changed = entries.update(at, entry);
    if at == entries.len() - 1 {
        assert(changed.drop_last() =~= entries.drop_last());
        assert(entry_map(changed) =~= entry_map(entries).insert(entry.0@, entry.1));
    } else {
        lemma_replaced(entries.drop_last(), at, entry);
        assert(changed.drop_last() =~= entries.drop_last().update(at, entry));
        assert(entry_map(changed) =~= entry_map(entries).insert(entry.0@, entry.1));
    }
}

impl<T> View for MediaCache<T> {
    type V = Map<Seq<char>, T>;

    closed spec fn view(&self) -> Map<Seq<char>, T> {
        entry_map(self.entries@)
    }
}

impl<T> MediaCache<T> {
    pub fn new() -> (r: MediaCache<T>)
        ensures
            r@ == Map::<Seq<char>, T>::empty(),
    {
        MediaCache { entries: Vec::new() }
    }

    /// The entry of a path that counts.
    fn find(&self, path: &str) -> (r: Option<usize>)
        ensures
            match r {
                Some(i) => i < self.entries@.len() && self.entries@[i as int].0@ == path@ && forall|
                    k: int,
                |
                    i < k < self.entries@.len() ==> (#[trigger] self.entries@[k]).0@ != path@,
                None => forall|k: int|
                    0 <= k < self.entries@.len() ==> (#[trigger] self.entries@[k]).0@ != path@,
            },
    {
        let mut i: usize = self.entries.len();
        while i > 0
            invariant
                i <= self.entries@.len(),
                forall|k: int|
                    i <= k < self.entries@.len() ==> (#[trigger] self.entries@[k]).0@ != path@,
            decreases i,
        {
            i -= 1;
            if text::same_text(self.entries[i].0.as_str(), path) {
                return Some(i);
            }
        }
        None
    }

    /// What is kept for a path; `None` where nothing was computed yet.
    pub fn cached(&self, path: &str) -> (r: Option<&T>)
        ensures
            match r {
                Some(v) => self@.contains_key(path@) && self@[path@] == *v,
                None => !self@.contains_key(path@),
            },
    {
        match self.find(path) {
            Some(i) => {
                proof {
                    lemma_last(self.entries@, path@, i as int);
                }
                Some(&self.entries[i].1)
            },
            None => {
                proof {
                    lemma_absent(self.entries@, path@);
                }
                None
            },
        }
    }

    /// Keep something for a path, in place of what was kept before.
    pub fn insert(&mut self, path: &str, media: T)
        ensures
            final(self)@ == old(self)@.insert(path@, media),
    {
        let ghost before = self.entries@;
        let entry = (owned(path), media);
        match self.find(path) {
            Some(i) => {
                proof {
                    lemma_replaced(before, i as int, entry);
                }
                self.entries.set(i, entry);
            },
            None => {
                self.entries.push(entry);
                assert(self.entries@.drop_last() =~= before);
            },
        }
    }
}

} // verus!
