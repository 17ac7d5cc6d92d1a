//! The entry store: an exclusive-write key-value backend with no policy
//! logic, kept in memory. It refuses to overwrite an occupied id, reports
//! presence, and deletes idempotently; every lifecycle decision stays with
//! the layer. Being in memory, this backend cannot fail: a fallible one
//! would surface its faults through an error of its own, which the layer
//! would pass through verbatim.

use std::collections::HashMap;
use vstd::prelude::*;

use crate::{Entry, EntryView};

verus! {

broadcast use vstd::std_specs::hash::group_hash_axioms;

/// An entry together with its creation time.
#[derive(Debug)]
pub struct Stored {
    pub entry: Entry,
    pub created: u64,
}

/// Mathematical image of a [`Stored`].
pub struct StoredView {
    pub entry: EntryView,
    pub created: u64,
}

impl View for Stored {
    type V = StoredView;

    open spec fn view(&self) -> StoredView {
        StoredView { entry: self.entry@, created: self.created }
    }
}

/// In-memory storage of entries keyed by id.
#[derive(Debug)]
pub struct Store {
    map: HashMap<u32, Stored>,
}

impl View for Store {
    type V = Map<u32, StoredView>;

    closed spec fn view(&self) -> Map<u32, StoredView> {
        self.map@.map_values(|s: Stored| s@)
    }
}

impl Store {
    /// An empty store.
    pub fn new() -> (r: Store)
        ensures
            r@ == Map::<u32, StoredView>::empty(),
    {
        let r = Store { map: HashMap::new() };
        proof {
            assert(r@ =~= Map::<u32, StoredView>::empty());
        }
        r
    }

    /// Stores `s` under `id` unless `id` is occupied; reports whether it
    /// stored, and never silently overwrites.
    pub fn put(&mut self, id: u32, s: Stored) -> (r: bool)
        ensures
            r == !old(self)@.contains_key(id),
            r ==> final(self)@ == old(self)@.insert(id, s@),
            !r ==> final(self)@ == old(self)@,
    {
        if self.map.contains_key(&id) {
            false
        } else {
            let ghost old_map = self.map@;
            self.map.insert(id, s);
            proof {
                assert(self@ =~= old_map.map_values(|s: Stored| s@).insert(id, s@));
            }
            true
        }
    }

    /// Looks the entry of `id` up.
    pub fn get(&self, id: u32) -> (r: Option<&Stored>)
        ensures
            match r {
                Some(s) => self@.contains_key(id) && s@ == self@[id],
                None => !self@.contains_key(id),
            },
    {
        self.map.get(&id)
    }

    /// Deletes the entry of `id`; deleting an absent id does nothing.
    pub fn delete(&mut self, id: u32)
        ensures
            final(self)@ == old(self)@.remove(id),
    {
        let ghost old_map = self.map@;
        self.map.remove(&id);
        proof {
            assert(self@ =~= old_map.map_values(|s: Stored| s@).remove(id));
        }
    }
}

} // verus!
