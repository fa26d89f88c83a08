//! The part store: each dataset name maps to the two uploaded byte blobs
//! ("part A" and "part B") that a merge consumes. Writes replace a slot
//! unconditionally; a read fails unless both slots were written. The
//! surrounding service serializes access to the store and runs the codec
//! that turns the fetched bytes into containers.

use crate::errors::MergeError;
use crate::model::copy_bytes;
use crate::model::find_name;
use crate::model::lemma_find_name;
use crate::model::unique_names;
use vstd::prelude::*;

verus! {

/// Which of a dataset's two parts an upload fills.
#[derive(Clone, Copy, PartialEq, Eq, Structural, Debug)]
pub enum Slot {
    A,
    B,
}

/// One dataset's uploads.
pub struct PartEntry {
    pub name: String,
    pub part_a: Option<Vec<u8>>,
    pub part_b: Option<Vec<u8>>,
}

/// Mathematical image of a [`PartEntry`].
#[verifier::ext_equal]
pub struct PartEntryV {
    pub name: Seq<char>,
    pub part_a: Option<Seq<u8>>,
    pub part_b: Option<Seq<u8>>,
}

impl View for PartEntry {
    type V = PartEntryV;

    open spec fn view(&self) -> PartEntryV {
        PartEntryV {
            name: self.name@,
            part_a: match self.part_a {
                Some(ref v) => Some(v@),
                None => None,
            },
            part_b: match self.part_b {
                Some(ref v) => Some(v@),
                None => None,
            },
        }
    }
}

pub open spec fn entry_names(s: Seq<PartEntryV>) -> Seq<Seq<char>> {
    s.map_values(|e: PartEntryV| e.name)
}

/// A store holds at most one entry per dataset name.
pub open spec fn store_wf(s: Seq<PartEntryV>) -> bool {
    unique_names(entry_names(s))
}

/// Writing one slot: the named entry's slot is replaced, everything else is
/// untouched; an unknown name gains a fresh entry at the end.
pub open spec fn spec_put(
    s: Seq<PartEntryV>,
    name: Seq<char>,
    slot: Slot,
    data: Seq<u8>,
) -> Seq<PartEntryV> {
    let i = find_name(entry_names(s), name);
    let e = if i == -1 {
        PartEntryV { name, part_a: None, part_b: None }
    } else {
        s[i]
    };
    let e2 = match slot {
        Slot::A => PartEntryV { part_a: Some(data), ..e },
        Slot::B => PartEntryV { part_b: Some(data), ..e },
    };
    if i == -1 {
        s.push(e2)
    } else {
        s.update(i, e2)
    }
}

/// Reading a dataset: both parts, or nothing if either slot was never
/// written.
pub open spec fn spec_get(s: Seq<PartEntryV>, name: Seq<char>) -> Option<(Seq<u8>, Seq<u8>)> {
    let i = find_name(entry_names(s), name);
    if i == -1 {
        None
    } else {
        match (s[i].part_a, s[i].part_b) {
            (Some(x), Some(y)) => Some((x, y)),
            _ => None,
        }
    }
}

/// The upload store of the service: dataset name to its two parts.
pub struct PartStore {
    pub entries: Vec<PartEntry>,
}

impl View for PartStore {
    type V = Seq<PartEntryV>;

    open spec fn view(&self) -> Seq<PartEntryV> {
        self.entries@.map_values(|e: PartEntry| e@)
    }
}

impl PartStore {
    /// An empty store.
    pub fn new() -> (s: PartStore)
        ensures
            s@ == Seq::<PartEntryV>::empty(),
            store_wf(s@),
    {
        let s = PartStore { entries: Vec::new() };
        proof {
            assert(s@ =~= Seq::<PartEntryV>::empty());
        }
        s
    }

    /// Index of the named entry, if any.
    fn find_entry(&self, name: &String) -> (r: Option<usize>)
        ensures
            match r {
                Some(i) => i as int == find_name(entry_names(self@), name@),
                None => find_name(entry_names(self@), name@) == -1,
            },
    {
        let mut i: usize = 0;
        while i < self.entries.len()
            invariant
                i <= self.entries.len(),
                find_name(entry_names(self@), name@) == crate::model::find_name_from(
                    entry_names(self@),
                    name@,
                    i as int,
                ),
            decreases self.entries.len() - i,
        {
            if self.entries[i].name == *name {
                return Some(i);
            }
            i = i + 1;
        }
        None
    }

    /// Replace the named dataset's slot with the uploaded bytes, creating the
    /// entry if needed, and report the stored byte count.
    pub fn put(&mut self, name: String, slot: Slot, data: Vec<u8>) -> (n: usize)
        ensures
            n == data@.len(),
            final(self)@ == spec_put(old(self)@, name@, slot, data@),
            store_wf(old(self)@) ==> store_wf(final(self)@),
    {
        let n = data.len();
        let found = self.find_entry(&name);
        proof {
            lemma_find_name(entry_names(self@), name@);
        }
        match found {
            Some(i) => {
                let e = &mut self.entries[i];
                match slot {
                    Slot::A => {
                        e.part_a = Some(data);
                    },
                    Slot::B => {
                        e.part_b = Some(data);
                    },
                }
                proof {
                    assert(self@ =~= spec_put(old(self)@, name@, slot, data@));
                    assert(entry_names(self@) =~= entry_names(old(self)@));
                }
            },
            None => {
                self.entries.push(PartEntry { name, part_a: None, part_b: None });
                let last = self.entries.len() - 1;
                let e = &mut self.entries[last];
                match slot {
                    Slot::A => {
                        e.part_a = Some(data);
                    },
                    Slot::B => {
                        e.part_b = Some(data);
                    },
                }
                proof {
                    assert(self@ =~= spec_put(old(self)@, name@, slot, data@));
                    assert(entry_names(self@) =~= entry_names(old(self)@).push(name@));
                    if store_wf(old(self)@) {
                        let names2 = entry_names(old(self)@).push(name@);
                        assert forall|p: int, q: int|
                            0 <= p < q < names2.len() implies names2[p] != names2[q] by {
                            if q == names2.len() - 1 {
                                assert(entry_names(old(self)@)[p] != name@);
                            }
                        };
                    }
                }
            },
        }
        n
    }

    /// Both stored parts of the named dataset, or `NotFound` if either slot
    /// was never written.
    pub fn get(&self, name: &String) -> (r: Result<(Vec<u8>, Vec<u8>), MergeError>)
        ensures
            match r {
                Ok(p) => spec_get(self@, name@) == Some((p.0@, p.1@)),
                Err(e) => spec_get(self@, name@) is None && e == MergeError::NotFound,
            },
    {
        let found = self.find_entry(name);
        proof {
            lemma_find_name(entry_names(self@), name@);
        }
        match found {
            None => Err(MergeError::NotFound),
            Some(i) => {
                match (&self.entries[i].part_a, &self.entries[i].part_b) {
                    (Some(x), Some(y)) => Ok((copy_bytes(x), copy_bytes(y))),
                    _ => Err(MergeError::NotFound),
                }
            },
        }
    }
}

/// Store the uploaded bytes as the named dataset's part A and report the
/// byte count received.
pub fn part_a(store: &mut PartStore, name: String, input: Vec<u8>) -> (n: usize)
    ensures
        n == input@.len(),
        final(store)@ == spec_put(old(store)@, name@, Slot::A, input@),
        store_wf(old(store)@) ==> store_wf(final(store)@),
{
    store.put(name, Slot::A, input)
}

/// Store the uploaded bytes as the named dataset's part B and report the
/// byte count received.
pub fn part_b(store: &mut PartStore, name: String, input: Vec<u8>) -> (n: usize)
    ensures
        n == input@.len(),
        final(store)@ == spec_put(old(store)@, name@, Slot::B, input@),
        store_wf(old(store)@) ==> store_wf(final(store)@),
{
    store.put(name, Slot::B, input)
}

/// Fetch the two stored parts that a read of the named dataset merges; the
/// codec boundary around the library parses them into containers for
/// [`crate::merge::merge_containers`] and serializes the result.
pub fn read(store: &PartStore, name: &String) -> (r: Result<(Vec<u8>, Vec<u8>), MergeError>)
    ensures
        match r {
            Ok(p) => spec_get(store@, name@) == Some((p.0@, p.1@)),
            Err(e) => spec_get(store@, name@) is None && e == MergeError::NotFound,
        },
{
    store.get(name)
}

/// Initial state of the service: an empty part store.
pub fn rocket() -> (s: PartStore)
    ensures
        s@ == Seq::<PartEntryV>::empty(),
        store_wf(s@),
{
    PartStore::new()
}

} // verus!
