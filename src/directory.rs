//! A directory that is owned by one holder: named entries and a fingerprint of its contents.

use vstd::prelude::*;

use crate::counters::key_index;

verus! {

/// An entry of a directory: a subdirectory or a leaf.
pub enum DirectoryEntry<D, L> {
    Dir(D),
    Leaf(L),
}

/// The names of a directory's entries, in order.
pub open spec fn entry_names<D, L>(entries: Seq<(String, DirectoryEntry<D, L>)>) -> Seq<Seq<char>> {
    entries.map_values(|e: (String, DirectoryEntry<D, L>)| e.0@)
}

/// A directory owned by one holder, with subdirectories of type `D` and leaves of type `L`.
pub struct ExclusiveDirectory<D, L> {
    entries: Vec<(String, DirectoryEntry<D, L>)>,
    fingerprint: u64,
}

/// A directory on its way to being built: either still being changed, or an exclusive one
/// handed over whole.
pub enum DirectoryBuilder<D, L> {
    Mutable(Vec<(String, DirectoryEntry<D, L>)>),
    Immutable(ExclusiveDirectory<D, L>),
}

impl<D, L> ExclusiveDirectory<D, L> {
    pub closed spec fn spec_entries(&self) -> Seq<(String, DirectoryEntry<D, L>)> {
        self.entries@
    }

    pub closed spec fn spec_fingerprint(&self) -> u64 {
        self.fingerprint
    }

    /// Entries are named uniquely.
    pub open spec fn wf(&self) -> bool {
        entry_names(self.spec_entries()).no_duplicates()
    }

    pub fn new(entries: Vec<(String, DirectoryEntry<D, L>)>, fingerprint: u64) -> (r: Self)
        requires
            entry_names(entries@).no_duplicates(),
        ensures
            r.wf(),
            r.spec_entries() == entries@,
            r.spec_fingerprint() == fingerprint,
    {
        ExclusiveDirectory { entries, fingerprint }
    }

    pub fn entries(&self) -> (r: &Vec<(String, DirectoryEntry<D, L>)>)
        ensures
            r@ == self.spec_entries(),
    {
        &self.entries
    }

    /// The entry named `needle`, if there is one.
    pub fn get(&self, needle: &String) -> (r: Option<&DirectoryEntry<D, L>>)
        requires
            self.wf(),
        ensures
            match key_index(entry_names(self.spec_entries()), needle@) {
                Some(i) => r == Some(&self.spec_entries()[i].1),
                None => r is None,
            },
    {
        let ghost names = entry_names(self.entries@);
        let n = self.entries.len();
        let mut i: usize = 0;
        while i < n
            invariant
                0 <= i <= n,
                n == self.entries@.len(),
                names == entry_names(self.entries@),
                names.no_duplicates(),
                forall|j: int| 0 <= j < i ==> names[j] != needle@,
            decreases n - i,
        {
            if self.entries[i].0 == *needle {
                proof {
                    crate::counters::lemma_key_index(names, needle@, i as int);
                }
                return Some(&self.entries[i].1);
            }
            i = i + 1;
        }
        None
    }

    pub fn fingerprint(&self) -> (r: u64)
        ensures
            r == self.spec_fingerprint(),
    {
        self.fingerprint
    }

    pub fn into_entries(self) -> (r: Vec<(String, DirectoryEntry<D, L>)>)
        ensures
            r@ == self.spec_entries(),
    {
        self.entries
    }

    pub fn into_builder(self) -> (r: DirectoryBuilder<D, L>)
        ensures
            r == DirectoryBuilder::Immutable(self),
    {
        DirectoryBuilder::Immutable(self)
    }
}

} // verus!
