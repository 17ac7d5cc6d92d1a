//! Mathematical model of the entry layer: stored entries, the
//! rendered-output cache, and the transition that each operation performs.
//! The layer's contracts state their outcome as these functions; the laws at
//! the end are proved of the model alone.

use vstd::prelude::*;

use crate::render::render_of;
use crate::store::StoredView;
use crate::{EntryView, Error};

verus! {

/// One memoized rendering: markup for an id under an effective extension.
pub struct CacheSlotView {
    pub id: u32,
    pub ext: Seq<char>,
    pub markup: Seq<char>,
}

/// The extension that stands for plain text.
pub open spec fn default_ext() -> Seq<char> {
    "txt"@
}

/// The extension used for rendering: the key's override when present, else
/// the entry's stored extension, else plain text.
pub open spec fn effective_ext(key_ext: Option<Seq<char>>, entry_ext: Option<Seq<char>>) -> Seq<
    char,
> {
    match key_ext {
        Some(e) => e,
        None => match entry_ext {
            Some(e) => e,
            None => default_ext(),
        },
    }
}

/// Whether a stored entry's deadline has passed at `now`.
pub open spec fn expired(s: StoredView, now: u64) -> bool {
    match s.entry.expires {
        Some(secs) => secs > 0 && s.created + secs <= now,
        None => false,
    }
}

/// The slots of `cache` whose id is not `id`, in order.
pub open spec fn minus_id(cache: Seq<CacheSlotView>, id: u32) -> Seq<CacheSlotView>
    decreases cache.len(),
{
    if cache.len() == 0 {
        Seq::empty()
    } else {
        let r = minus_id(cache.drop_last(), id);
        if cache.last().id == id {
            r
        } else {
            r.push(cache.last())
        }
    }
}

/// The first cached markup for `(id, ext)`, if any.
pub open spec fn lookup(cache: Seq<CacheSlotView>, id: u32, ext: Seq<char>) -> Option<Seq<char>>
    decreases cache.len(),
{
    if cache.len() == 0 {
        None
    } else if cache[0].id == id && cache[0].ext == ext {
        Some(cache[0].markup)
    } else {
        lookup(cache.subrange(1, cache.len() as int), id, ext)
    }
}

/// A counter that sticks at its ceiling instead of wrapping.
pub open spec fn bump(c: u64) -> u64 {
    if c == u64::MAX {
        c
    } else {
        (c + 1) as u64
    }
}

/// State of the layer: entries, rendered-output cache, the number of calls
/// made to the render collaborator, and the id-allocation retry budget.
#[verifier::ext_equal]
pub struct LayerModel {
    pub entries: Map<u32, StoredView>,
    pub cache: Seq<CacheSlotView>,
    pub render_calls: u64,
    pub max_attempts: u32,
}

impl LayerModel {
    /// Entry `id` is present and not expired: the only state in which a read
    /// succeeds.
    pub open spec fn live(self, id: u32, now: u64) -> bool {
        self.entries.contains_key(id) && !expired(self.entries[id], now)
    }

    /// Every cached slot renders the text of a present, non-burn entry.
    pub open spec fn wf(self) -> bool {
        forall|i: int|
            0 <= i < self.cache.len() ==> {
                let c = #[trigger] self.cache[i];
                &&& self.entries.contains_key(c.id)
                &&& !self.entries[c.id].entry.burn
                &&& c.markup == render_of(self.entries[c.id].entry.text, c.ext)
            }
    }

    /// Removal of entry `id` together with its cached renderings.
    pub open spec fn drop_id(self, id: u32) -> LayerModel {
        LayerModel { entries: self.entries.remove(id), cache: minus_id(self.cache, id), ..self }
    }

    /// Storage of `e` under `id` at `now`, displacing whatever expired entry
    /// occupied the id, along with any stale cached renderings.
    pub open spec fn store_at(self, id: u32, e: EntryView, now: u64) -> LayerModel {
        LayerModel {
            entries: self.entries.insert(id, StoredView { entry: e, created: now }),
            cache: minus_id(self.cache, id),
            ..self
        }
    }

    /// Outcome of a raw read of `id` at `now`.
    pub open spec fn raw_result(self, id: u32, now: u64) -> Result<Seq<char>, Error> {
        if self.live(id, now) {
            Ok(self.entries[id].entry.text)
        } else {
            Err(Error::NotFound)
        }
    }

    /// State after a raw read: a burn entry is gone once read, an expired or
    /// absent entry is dropped on access, any other read changes nothing.
    pub open spec fn raw_next(self, id: u32, now: u64) -> LayerModel {
        if self.live(id, now) {
            if self.entries[id].entry.burn {
                self.drop_id(id)
            } else {
                self
            }
        } else {
            self.drop_id(id)
        }
    }

    /// The extension a formatted read of `id` renders under.
    pub open spec fn eff_of(self, id: u32, key_ext: Option<Seq<char>>) -> Seq<char> {
        effective_ext(key_ext, self.entries[id].entry.extension)
    }

    /// Outcome of a formatted read.
    pub open spec fn fmt_result(self, id: u32, key_ext: Option<Seq<char>>, now: u64) -> Result<
        Seq<char>,
        Error,
    > {
        if self.live(id, now) {
            Ok(render_of(self.entries[id].entry.text, self.eff_of(id, key_ext)))
        } else {
            Err(Error::NotFound)
        }
    }

    /// State after a formatted read: burn and expiry act as on a raw read,
    /// a burn read rendering once without memoizing; a cache miss renders
    /// once and memoizes, a hit leaves the layer as it was.
    pub open spec fn fmt_next(self, id: u32, key_ext: Option<Seq<char>>, now: u64) -> LayerModel {
        if !self.live(id, now) {
            self.drop_id(id)
        } else if self.entries[id].entry.burn {
            LayerModel { render_calls: bump(self.render_calls), ..self.drop_id(id) }
        } else {
            let eff = self.eff_of(id, key_ext);
            match lookup(self.cache, id, eff) {
                Some(_) => self,
                None => LayerModel {
                    cache: self.cache.push(
                        CacheSlotView {
                            id,
                            ext: eff,
                            markup: render_of(self.entries[id].entry.text, eff),
                        },
                    ),
                    render_calls: bump(self.render_calls),
                    ..self
                },
            }
        }
    }

    /// The id that a run over `candidates` allocates: the first one not
    /// occupied by a live entry, or exhaustion when every candidate is.
    pub open spec fn alloc_result(self, candidates: Seq<u32>, now: u64) -> Result<u32, Error>
        decreases candidates.len(),
    {
        if candidates.len() == 0 {
            Err(Error::OutOfIds)
        } else if !self.live(candidates[0], now) {
            Ok(candidates[0])
        } else {
            self.alloc_result(candidates.subrange(1, candidates.len() as int), now)
        }
    }

    /// State after an insert over `candidates`: the entry stands under the
    /// allocated id, or nothing changed when allocation was exhausted.
    pub open spec fn alloc_next(self, candidates: Seq<u32>, e: EntryView, now: u64) -> LayerModel {
        match self.alloc_result(candidates, now) {
            Ok(id) => self.store_at(id, e, now),
            Err(_) => self,
        }
    }
}

/// Every slot that survives `minus_id` is a slot of the original cache and
/// names a different id.
pub proof fn lemma_minus_id_elems(cache: Seq<CacheSlotView>, id: u32)
    ensures
        forall|i: int|
            0 <= i < minus_id(cache, id).len() ==> (#[trigger] minus_id(cache, id)[i]).id != id
                && cache.contains(minus_id(cache, id)[i]),
    decreases cache.len(),
{
    if cache.len() > 0 {
        lemma_minus_id_elems(cache.drop_last(), id);
        let r = minus_id(cache, id);
        let rd = minus_id(cache.drop_last(), id);
        assert forall|i: int| 0 <= i < r.len() implies (#[trigger] r[i]).id != id
            && cache.contains(r[i]) by {
            if i < rd.len() {
                assert(r[i] == rd[i]);
                assert(rd[i].id != id && cache.drop_last().contains(rd[i]));
                let j = choose|j: int|
                    0 <= j < cache.drop_last().len() && cache.drop_last()[j] == rd[i];
                assert(cache[j] == rd[i]);
            } else {
                assert(r[i] == cache.last());
                assert(cache[cache.len() - 1] == cache.last());
            }
        }
    }
}

/// A read hit returns the markup of some matching slot.
pub proof fn lemma_lookup_some(cache: Seq<CacheSlotView>, id: u32, ext: Seq<char>)
    ensures
        match lookup(cache, id, ext) {
            Some(m) => exists|i: int|
                0 <= i < cache.len() && (#[trigger] cache[i]).id == id && cache[i].ext == ext
                    && cache[i].markup == m,
            None => forall|i: int|
                0 <= i < cache.len() ==> !((#[trigger] cache[i]).id == id && cache[i].ext == ext),
        },
    decreases cache.len(),
{
    if cache.len() > 0 && !(cache[0].id == id && cache[0].ext == ext) {
        let tail = cache.subrange(1, cache.len() as int);
        lemma_lookup_some(tail, id, ext);
        match lookup(cache, id, ext) {
            Some(m) => {
                let j = choose|j: int|
                    0 <= j < tail.len() && (#[trigger] tail[j]).id == id && tail[j].ext == ext
                        && tail[j].markup == m;
                assert(cache[j + 1] == tail[j]);
            },
            None => {
                assert forall|i: int|
                    0 <= i < cache.len() implies !((#[trigger] cache[i]).id == id && cache[i].ext
                    == ext) by {
                    if i > 0 {
                        assert(cache[i] == tail[i - 1]);
                    }
                }
            },
        }
    }
}

/// The first matching slot is the one a lookup returns.
pub proof fn lemma_lookup_at(cache: Seq<CacheSlotView>, id: u32, ext: Seq<char>, i: int)
    requires
        0 <= i < cache.len(),
        cache[i].id == id && cache[i].ext == ext,
        forall|k: int| 0 <= k < i ==> !((#[trigger] cache[k]).id == id && cache[k].ext == ext),
    ensures
        lookup(cache, id, ext) == Some(cache[i].markup),
    decreases i,
{
    if i > 0 {
        let tail = cache.subrange(1, cache.len() as int);
        assert(tail[i - 1] == cache[i]);
        assert forall|k: int|
            0 <= k < i - 1 implies !((#[trigger] tail[k]).id == id && tail[k].ext == ext) by {
            assert(tail[k] == cache[k + 1]);
        }
        lemma_lookup_at(tail, id, ext, i - 1);
    }
}

/// A cache without a matching slot misses.
pub proof fn lemma_lookup_none(cache: Seq<CacheSlotView>, id: u32, ext: Seq<char>)
    requires
        forall|k: int| 0 <= k < cache.len() ==> !((#[trigger] cache[k]).id == id && cache[k].ext == ext),
    ensures
        lookup(cache, id, ext) == None::<Seq<char>>,
    decreases cache.len(),
{
    if cache.len() > 0 {
        let tail = cache.subrange(1, cache.len() as int);
        assert forall|k: int|
            0 <= k < tail.len() implies !((#[trigger] tail[k]).id == id && tail[k].ext == ext) by {
            assert(tail[k] == cache[k + 1]);
        }
        lemma_lookup_none(tail, id, ext);
    }
}

/// Memoizing after a miss makes the next lookup hit that markup.
pub proof fn lemma_lookup_push(cache: Seq<CacheSlotView>, id: u32, ext: Seq<char>, markup: Seq<char>)
    requires
        lookup(cache, id, ext) == None::<Seq<char>>,
    ensures
        lookup(cache.push(CacheSlotView { id, ext, markup }), id, ext) == Some(markup),
    decreases cache.len(),
{
    let pushed = cache.push(CacheSlotView { id, ext, markup });
    lemma_lookup_some(cache, id, ext);
    lemma_lookup_at(pushed, id, ext, cache.len() as int);
}

/// An allocated id was not live; exhaustion is the only failure.
pub proof fn lemma_alloc_ok(m: LayerModel, candidates: Seq<u32>, now: u64)
    ensures
        match m.alloc_result(candidates, now) {
            Ok(v) => !m.live(v, now),
            Err(e) => e == Error::OutOfIds,
        },
    decreases candidates.len(),
{
    if candidates.len() > 0 && m.live(candidates[0], now) {
        lemma_alloc_ok(m, candidates.subrange(1, candidates.len() as int), now);
    }
}

/// The first candidate that is not live is the one allocated.
pub proof fn lemma_alloc_at(m: LayerModel, candidates: Seq<u32>, now: u64, i: int)
    requires
        0 <= i < candidates.len(),
        !m.live(candidates[i], now),
        forall|k: int| 0 <= k < i ==> m.live(#[trigger] candidates[k], now),
    ensures
        m.alloc_result(candidates, now) == Ok::<u32, Error>(candidates[i]),
    decreases i,
{
    if i > 0 {
        let tail = candidates.subrange(1, candidates.len() as int);
        assert(tail[i - 1] == candidates[i]);
        assert forall|k: int| 0 <= k < i - 1 implies m.live(#[trigger] tail[k], now) by {
            assert(tail[k] == candidates[k + 1]);
        }
        lemma_alloc_at(m, tail, now, i - 1);
    }
}

/// When every candidate is occupied by a live entry, allocation is
/// exhausted and fails.
pub proof fn lemma_alloc_all_live(m: LayerModel, candidates: Seq<u32>, now: u64)
    requires
        forall|k: int| 0 <= k < candidates.len() ==> m.live(#[trigger] candidates[k], now),
    ensures
        m.alloc_result(candidates, now) == Err::<u32, Error>(Error::OutOfIds),
    decreases candidates.len(),
{
    if candidates.len() > 0 {
        let tail = candidates.subrange(1, candidates.len() as int);
        assert forall|k: int| 0 <= k < tail.len() implies m.live(#[trigger] tail[k], now) by {
            assert(tail[k] == candidates[k + 1]);
        }
        lemma_alloc_all_live(m, tail, now);
    }
}

/// Dropping an id preserves well-formedness.
pub proof fn lemma_wf_drop_id(m: LayerModel, id: u32)
    requires
        m.wf(),
    ensures
        m.drop_id(id).wf(),
{
    lemma_minus_id_elems(m.cache, id);
    let d = m.drop_id(id);
    assert forall|i: int| 0 <= i < d.cache.len() implies {
        let c = #[trigger] d.cache[i];
        &&& d.entries.contains_key(c.id)
        &&& !d.entries[c.id].entry.burn
        &&& c.markup == render_of(d.entries[c.id].entry.text, c.ext)
    } by {
        let c = d.cache[i];
        let j = choose|j: int| 0 <= j < m.cache.len() && m.cache[j] == c;
        assert(m.cache[j] == c);
    }
}

/// Storing a fresh entry preserves well-formedness.
pub proof fn lemma_wf_store_at(m: LayerModel, id: u32, e: EntryView, now: u64)
    requires
        m.wf(),
    ensures
        m.store_at(id, e, now).wf(),
{
    lemma_minus_id_elems(m.cache, id);
    let d = m.store_at(id, e, now);
    assert forall|i: int| 0 <= i < d.cache.len() implies {
        let c = #[trigger] d.cache[i];
        &&& d.entries.contains_key(c.id)
        &&& !d.entries[c.id].entry.burn
        &&& c.markup == render_of(d.entries[c.id].entry.text, c.ext)
    } by {
        let c = d.cache[i];
        let j = choose|j: int| 0 <= j < m.cache.len() && m.cache[j] == c;
        assert(m.cache[j] == c);
    }
}

} // verus!
