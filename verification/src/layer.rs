//! The entry cache/store layer: allocates unique ids with bounded collision
//! retry, enforces expiration and burn-after-reading, and memoizes rendered
//! output. Every operation's outcome is stated against the model in
//! [`crate::model`].

use vstd::prelude::*;

use crate::id::Id;
use crate::key::Key;
use crate::model::{
    expired, lemma_alloc_all_live, lemma_alloc_at, lemma_alloc_ok, lemma_lookup_at,
    lemma_lookup_none, lemma_lookup_some, lemma_wf_drop_id, lemma_wf_store_at, lookup, minus_id,
    CacheSlotView, LayerModel,
};
use crate::render::{render, render_of};
use crate::store::{Store, Stored, StoredView};
use crate::{Entry, Error};

verus! {

/// One memoized rendering: markup for an id under an effective extension.
#[derive(Debug)]
pub struct CacheSlot {
    pub id: u32,
    pub ext: String,
    pub markup: String,
}

impl View for CacheSlot {
    type V = CacheSlotView;

    open spec fn view(&self) -> CacheSlotView {
        CacheSlotView { id: self.id, ext: self.ext@, markup: self.markup@ }
    }
}

/// The views of a cache's slots, in order.
pub open spec fn cache_view(slots: Seq<CacheSlot>) -> Seq<CacheSlotView> {
    Seq::new(slots.len(), |i: int| slots[i]@)
}

/// Relies on `rand::random`: an arbitrary 32-bit value; nothing is assumed
/// of its distribution.
#[verifier::external_body]
fn random_u32() -> u32 {
    rand::random()
}

/// Whether the stored entry's deadline has passed at `now`.
fn stored_is_expired(s: &Stored, now: u64) -> (r: bool)
    ensures
        r == expired(s@, now),
{
    match s.entry.expires {
        Some(secs) => secs > 0 && now >= s.created && now - s.created >= secs as u64,
        None => false,
    }
}

/// Whether the entry asks to be burned after reading.
fn entry_burn(e: &Entry) -> (r: bool)
    ensures
        r == e@.burn,
{
    match e.burn_after_reading {
        Some(b) => b,
        None => false,
    }
}

/// The slots of `cache` that do not name `id`, as an owned vector.
fn filter_cache(cache: &Vec<CacheSlot>, id: u32) -> (r: Vec<CacheSlot>)
    ensures
        cache_view(r@) == minus_id(cache_view(cache@), id),
{
    let mut kept: Vec<CacheSlot> = Vec::new();
    let mut i: usize = 0;
    while i < cache.len()
        invariant
            i <= cache@.len(),
            cache_view(kept@) =~= minus_id(cache_view(cache@).subrange(0, i as int), id),
        decreases cache@.len() - i,
    {
        let ghost before = cache_view(kept@);
        let c = &cache[i];
        if c.id != id {
            kept.push(CacheSlot { id: c.id, ext: c.ext.clone(), markup: c.markup.clone() });
        }
        i = i + 1;
        proof {
            let full = cache_view(cache@);
            let p = full.subrange(0, i as int);
            assert(p.drop_last() =~= full.subrange(0, i - 1));
            assert(p.last() == full[i - 1]);
            if c.id != id {
                assert(cache_view(kept@) =~= before.push(full[i - 1]));
            } else {
                assert(cache_view(kept@) =~= before);
            }
        }
    }
    proof {
        assert(cache_view(cache@).subrange(0, cache@.len() as int) =~= cache_view(cache@));
    }
    kept
}

/// The orchestrator over the store, the render collaborator, and the
/// rendered-output cache.
#[derive(Debug)]
pub struct Layer {
    store: Store,
    cache: Vec<CacheSlot>,
    render_calls: u64,
    max_attempts: u32,
}

impl View for Layer {
    type V = LayerModel;

    closed spec fn view(&self) -> LayerModel {
        LayerModel {
            entries: self.store@,
            cache: cache_view(self.cache@),
            render_calls: self.render_calls,
            max_attempts: self.max_attempts,
        }
    }
}

impl Layer {
    /// An empty layer whose inserts try at most `max_attempts` candidate ids.
    pub fn new(max_attempts: u32) -> (r: Layer)
        ensures
            r@ == (LayerModel {
                entries: Map::<u32, StoredView>::empty(),
                cache: Seq::<CacheSlotView>::empty(),
                render_calls: 0,
                max_attempts,
            }),
            r@.wf(),
    {
        let r = Layer { store: Store::new(), cache: Vec::new(), render_calls: 0, max_attempts };
        proof {
            assert(r@.cache =~= Seq::<CacheSlotView>::empty());
            assert(r@ =~= (LayerModel {
                entries: Map::<u32, StoredView>::empty(),
                cache: Seq::<CacheSlotView>::empty(),
                render_calls: 0,
                max_attempts,
            }));
        }
        r
    }

    /// How often the render collaborator has been called.
    pub fn render_call_count(&self) -> (r: u64)
        ensures
            r == self@.render_calls,
    {
        self.render_calls
    }

    /// Deletes entry `id` and every cached rendering of it.
    fn drop_entry(&mut self, id: u32)
        ensures
            final(self)@ == old(self)@.drop_id(id),
    {
        self.store.delete(id);
        let kept = filter_cache(&self.cache, id);
        self.cache = kept;
        proof {
            assert(self@ =~= old(self)@.drop_id(id));
        }
    }

    /// Tries to store `entry` under the candidate `id` at `now`: succeeds
    /// exactly when no live entry occupies the id, displacing an expired one.
    pub fn insert_candidate(&mut self, id: Id, entry: &Entry, now: u64) -> (r: bool)
        requires
            old(self)@.wf(),
        ensures
            final(self)@.wf(),
            r == !old(self)@.live(id.value, now),
            r ==> final(self)@ == old(self)@.store_at(id.value, entry@, now),
            !r ==> final(self)@ == old(self)@,
    {
        let ghost m0 = self@;
        let occupied = match self.store.get(id.value) {
            Some(s) => !stored_is_expired(s, now),
            None => false,
        };
        if occupied {
            return false;
        }
        self.drop_entry(id.value);
        let stored = self.store.put(id.value, Stored { entry: entry.duplicate(), created: now });
        proof {
            assert(stored);
            assert(self@.entries =~= m0.entries.insert(
                id.value,
                StoredView { entry: entry@, created: now },
            ));
            assert(self@ =~= m0.store_at(id.value, entry@, now));
            lemma_wf_store_at(m0, id.value, entry@, now);
        }
        true
    }

    /// Stores `entry` under the first of `candidates` not occupied by a live
    /// entry; exhausts with `OutOfIds` when every candidate is occupied.
    pub fn insert_with(&mut self, candidates: &Vec<u32>, entry: &Entry, now: u64) -> (r: Result<
        Id,
        Error,
    >)
        requires
            old(self)@.wf(),
        ensures
            final(self)@.wf(),
            final(self)@ == old(self)@.alloc_next(candidates@, entry@, now),
            match r {
                Ok(id) => old(self)@.alloc_result(candidates@, now) == Ok::<u32, Error>(id.value),
                Err(e) => old(self)@.alloc_result(candidates@, now) == Err::<u32, Error>(e) && e
                    == Error::OutOfIds,
            },
    {
        let ghost m0 = self@;
        let mut i: usize = 0;
        while i < candidates.len()
            invariant
                i <= candidates@.len(),
                self@ == m0,
                m0 == old(self)@,
                m0.wf(),
                forall|k: int| 0 <= k < i ==> m0.live(#[trigger] candidates@[k], now),
            decreases candidates@.len() - i,
        {
            let cand = candidates[i];
            if self.insert_candidate(Id { value: cand }, entry, now) {
                proof {
                    lemma_alloc_at(m0, candidates@, now, i as int);
                }
                return Ok(Id { value: cand });
            }
            i = i + 1;
        }
        proof {
            lemma_alloc_all_live(m0, candidates@, now);
        }
        Err(Error::OutOfIds)
    }

    /// Stores `entry` under a randomly drawn id, retrying on collision up to
    /// the layer's attempt budget; a success names an id that was not live.
    /// With a positive budget and no live entry at all, every draw succeeds,
    /// so insertion is owed.
    pub fn insert(&mut self, entry: &Entry, now: u64) -> (r: Result<Id, Error>)
        requires
            old(self)@.wf(),
        ensures
            final(self)@.wf(),
            match r {
                Ok(id) => !old(self)@.live(id.value, now) && final(self)@ == old(self)@.store_at(
                    id.value,
                    entry@,
                    now,
                ),
                Err(e) => e == Error::OutOfIds && final(self)@ == old(self)@,
            },
            (old(self)@.max_attempts > 0 && (forall|v: u32| !old(self)@.live(v, now))) ==> r is Ok,
    {
        let ghost m0 = self@;
        let n = self.max_attempts;
        let mut candidates: Vec<u32> = Vec::new();
        let mut i: u32 = 0;
        while i < n
            invariant
                self@ == m0,
                i <= n,
                candidates@.len() == i as int,
            decreases n - i,
        {
            candidates.push(random_u32());
            i = i + 1;
        }
        let r = self.insert_with(&candidates, entry, now);
        proof {
            lemma_alloc_ok(m0, candidates@, now);
            if m0.max_attempts > 0 && (forall|v: u32| !m0.live(v, now)) {
                assert(candidates@.len() == n as int);
                assert(!m0.live(candidates@[0], now));
                assert(m0.alloc_result(candidates@, now) == Ok::<u32, Error>(candidates@[0]));
            }
        }
        r
    }

    /// Fetches the raw text of `id` at `now`. A burn-after-reading entry is
    /// deleted by its first successful read; an expired or absent entry
    /// reads as `NotFound` and is dropped from store and cache.
    pub fn get_raw(&mut self, id: Id, now: u64) -> (r: Result<String, Error>)
        requires
            old(self)@.wf(),
        ensures
            final(self)@.wf(),
            final(self)@ == old(self)@.raw_next(id.value, now),
            match r {
                Ok(t) => old(self)@.raw_result(id.value, now) == Ok::<Seq<char>, Error>(t@),
                Err(e) => old(self)@.raw_result(id.value, now) == Err::<Seq<char>, Error>(e),
            },
    {
        let ghost m0 = self@;
        let found: Option<(String, bool)> = match self.store.get(id.value) {
            Some(s) => {
                if stored_is_expired(s, now) {
                    None
                } else {
                    Some((s.entry.text.clone(), entry_burn(&s.entry)))
                }
            },
            None => None,
        };
        match found {
            None => {
                self.drop_entry(id.value);
                proof {
                    lemma_wf_drop_id(m0, id.value);
                }
                Err(Error::NotFound)
            },
            Some((text, burn)) => {
                if burn {
                    self.drop_entry(id.value);
                    proof {
                        lemma_wf_drop_id(m0, id.value);
                    }
                }
                Ok(text)
            },
        }
    }

    /// The first cached markup for `(id, ext)`, owned.
    fn cache_get(&self, id: u32, ext: &String) -> (r: Option<String>)
        ensures
            match r {
                Some(m) => lookup(self@.cache, id, ext@) == Some(m@),
                None => lookup(self@.cache, id, ext@) == None::<Seq<char>>,
            },
    {
        let mut i: usize = 0;
        while i < self.cache.len()
            invariant
                i <= self.cache@.len(),
                forall|k: int|
                    0 <= k < i ==> !((#[trigger] cache_view(self.cache@)[k]).id == id
                        && cache_view(self.cache@)[k].ext == ext@),
            decreases self.cache@.len() - i,
        {
            let c = &self.cache[i];
            if c.id == id && c.ext.eq(ext) {
                proof {
                    lemma_lookup_at(self@.cache, id, ext@, i as int);
                }
                return Some(c.markup.clone());
            }
            i = i + 1;
        }
        proof {
            lemma_lookup_none(self@.cache, id, ext@);
        }
        None
    }

    /// Fetches the rendered markup of the entry `key` names, rendering under
    /// the key's effective extension. A hit in the rendered-output cache is
    /// returned without calling the render collaborator again; a miss
    /// renders once and memoizes. Burn and expiry act as on a raw read; a
    /// burn read renders once and memoizes nothing.
    pub fn get_formatted(&mut self, key: &Key, now: u64) -> (r: Result<String, Error>)
        requires
            old(self)@.wf(),
        ensures
            final(self)@.wf(),
            final(self)@ == old(self)@.fmt_next(key.id.value, key.ext_view(), now),
            match r {
                Ok(m) => old(self)@.fmt_result(key.id.value, key.ext_view(), now) == Ok::<
                    Seq<char>,
                    Error,
                >(m@),
                Err(e) => old(self)@.fmt_result(key.id.value, key.ext_view(), now) == Err::<
                    Seq<char>,
                    Error,
                >(e),
            },
    {
        let ghost m0 = self@;
        let idv = key.id.value;
        let found: Option<(String, bool, String)> = match self.store.get(idv) {
            Some(s) => {
                if stored_is_expired(s, now) {
                    None
                } else {
                    let eff = key.effective_extension(&s.entry.extension);
                    Some((s.entry.text.clone(), entry_burn(&s.entry), eff))
                }
            },
            None => None,
        };
        match found {
            None => {
                self.drop_entry(idv);
                proof {
                    lemma_wf_drop_id(m0, idv);
                }
                Err(Error::NotFound)
            },
            Some((text, burn, eff)) => {
                proof {
                    assert(eff@ == m0.eff_of(idv, key.ext_view()));
                }
                if burn {
                    let markup = render(&text, &eff);
                    if self.render_calls < u64::MAX {
                        self.render_calls = self.render_calls + 1;
                    }
                    self.drop_entry(idv);
                    proof {
                        lemma_wf_drop_id(m0, idv);
                        assert(self@ =~= m0.fmt_next(idv, key.ext_view(), now));
                    }
                    Ok(markup)
                } else {
                    match self.cache_get(idv, &eff) {
                        Some(markup) => {
                            proof {
                                lemma_lookup_some(m0.cache, idv, eff@);
                            }
                            Ok(markup)
                        },
                        None => {
                            let markup = render(&text, &eff);
                            if self.render_calls < u64::MAX {
                                self.render_calls = self.render_calls + 1;
                            }
                            self.cache.push(
                                CacheSlot { id: idv, ext: eff, markup: markup.clone() },
                            );
                            proof {
                                let slot = CacheSlotView {
                                    id: idv,
                                    ext: eff@,
                                    markup: render_of(m0.entries[idv].entry.text, eff@),
                                };
                                assert(self@.cache =~= m0.cache.push(slot));
                                assert(self@ =~= m0.fmt_next(idv, key.ext_view(), now));
                                assert forall|i: int| 0 <= i < self@.cache.len() implies {
                                    let c = #[trigger] self@.cache[i];
                                    &&& self@.entries.contains_key(c.id)
                                    &&& !self@.entries[c.id].entry.burn
                                    &&& c.markup == render_of(self@.entries[c.id].entry.text, c.ext)
                                } by {
                                    if i < m0.cache.len() {
                                        assert(self@.cache[i] == m0.cache[i]);
                                    }
                                }
                            }
                            Ok(markup)
                        },
                    }
                }
            },
        }
    }
}

} // verus!
