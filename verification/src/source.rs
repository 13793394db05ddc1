//! The inventory of `SOURCE` leaves that a compiled module declares.
use vstd::prelude::*;
use crate::shape::Shape;

verus! {

#[derive(Debug)]
pub enum SourceOwner {
    Static,
    DynamicFamily { owner_path: String },
}

#[derive(Debug)]
pub struct SourceEntry {
    pub id: usize,
    pub path: String,
    pub shape: Shape,
    pub producer: String,
    pub readers: Vec<String>,
    pub owner: SourceOwner,
}

#[derive(Debug)]
pub struct SourceInventory {
    pub entries: Vec<SourceEntry>,
}

/// The position of the first entry whose path is `path`.
pub open spec fn entry_index(entries: Seq<SourceEntry>, path: Seq<char>) -> Option<int> {
    if exists|i: int| 0 <= i < entries.len() && entries[i].path@ == path {
        Some(
            choose|i: int|
                0 <= i < entries.len() && entries[i].path@ == path && forall|j: int|
                    0 <= j < i ==> entries[j].path@ != path,
        )
    } else {
        None
    }
}

impl SourceInventory {
    /// An inventory with no entries.
    pub fn new() -> (r: SourceInventory)
        ensures
            r.entries@.len() == 0,
    {
        SourceInventory { entries: Vec::new() }
    }

    /// The first entry whose path is `path`.
    pub fn get(&self, path: &str) -> (r: Option<&SourceEntry>)
        ensures
            match entry_index(self.entries@, path@) {
                Some(i) => r == Some(&self.entries@[i]),
                None => r is None,
            },
    {
        let mut i: usize = 0;
        while i < self.entries.len()
            invariant
                i <= self.entries@.len(),
                forall|j: int| 0 <= j < i ==> self.entries@[j].path@ != path@,
            decreases self.entries.len() - i,
        {
            if crate::text::str_eq(&self.entries[i].path, path) {
                proof {
                    let w = choose|w: int|
                        0 <= w < self.entries@.len() && self.entries@[w].path@ == path@ && forall|
                            j: int,
                        | 0 <= j < w ==> self.entries@[j].path@ != path@;
                    assert(0 <= i && self.entries@[i as int].path@ == path@ && forall|j: int|
                        0 <= j < i ==> self.entries@[j].path@ != path@);
                    assert(w == i) by {
                        if w < i {
                            assert(self.entries@[w].path@ != path@);
                        }
                        if w > i {
                            assert(self.entries@[i as int].path@ != path@);
                        }
                    }
                }
                return Some(&self.entries[i]);
            }
            i += 1;
        }
        None
    }
}

} // verus!
