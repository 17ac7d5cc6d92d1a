//! Laws of the layer, proved of the model alone: id uniqueness,
//! burn-after-reading read-once, lazy expiration, extension override, and
//! rendered-output cache coherence.

use vstd::prelude::*;

use crate::model::{
    default_ext, expired, lemma_lookup_push, lemma_lookup_some, lookup, LayerModel,
};
use crate::render::render_of;
use crate::store::StoredView;
use crate::{EntryView, Error};

verus! {

/// Uniqueness: an id allocated by one insert is not handed out by a later
/// insert for as long as its entry has not expired.
pub proof fn lemma_insert_unique(
    m: LayerModel,
    id1: u32,
    id2: u32,
    e1: EntryView,
    now1: u64,
    now2: u64,
)
    requires
        !expired(StoredView { entry: e1, created: now1 }, now2),
        !m.store_at(id1, e1, now1).live(id2, now2),
    ensures
        id2 != id1,
{
}

/// A run of successful inserts, one per element: each step's id was not
/// occupied by a live entry when its insert returned, and each step's state
/// is the previous one with the entry stored — exactly what
/// `Layer::insert`'s contract gives of every `Ok` result.
pub open spec fn inserts_admissible(m: LayerModel, steps: Seq<(u32, EntryView, u64)>) -> bool
    decreases steps.len(),
{
    if steps.len() == 0 {
        true
    } else {
        &&& !m.live(steps[0].0, steps[0].2)
        &&& inserts_admissible(
            m.store_at(steps[0].0, steps[0].1, steps[0].2),
            steps.drop_first(),
        )
    }
}

/// An entry that no later step's time expires is never displaced by the
/// run: no step allocates its id again.
proof fn lemma_entry_persists(m: LayerModel, steps: Seq<(u32, EntryView, u64)>, id: u32)
    requires
        inserts_admissible(m, steps),
        m.entries.contains_key(id),
        forall|k: int| 0 <= k < steps.len() ==> !expired(m.entries[id], (#[trigger] steps[k]).2),
    ensures
        forall|k: int| 0 <= k < steps.len() ==> (#[trigger] steps[k]).0 != id,
    decreases steps.len(),
{
    if steps.len() > 0 {
        assert(m.live(id, steps[0].2));
        assert(steps[0].0 != id);
        let m1 = m.store_at(steps[0].0, steps[0].1, steps[0].2);
        assert(m1.entries[id] == m.entries[id]);
        let tail = steps.drop_first();
        assert forall|k: int| 0 <= k < tail.len() implies !expired(
            m1.entries[id],
            (#[trigger] tail[k]).2,
        ) by {
            assert(tail[k] == steps[k + 1]);
        }
        lemma_entry_persists(m1, tail, id);
        assert forall|k: int| 0 <= k < steps.len() implies (#[trigger] steps[k]).0 != id by {
            if k > 0 {
                assert(tail[k - 1] == steps[k]);
            }
        }
    }
}

/// Uniqueness over a whole run: successful inserts hand out pairwise
/// distinct ids, as long as no inserted entry expires before a later step
/// of the run (an expired id is rightly reusable).
pub proof fn lemma_inserts_distinct(m: LayerModel, steps: Seq<(u32, EntryView, u64)>)
    requires
        inserts_admissible(m, steps),
        forall|i: int, j: int|
            #![trigger steps[i], steps[j]]
            0 <= i < j < steps.len() ==> !expired(
                StoredView { entry: steps[i].1, created: steps[i].2 },
                steps[j].2,
            ),
    ensures
        forall|i: int, j: int|
            #![trigger steps[i], steps[j]]
            0 <= i < j < steps.len() ==> steps[i].0 != steps[j].0,
    decreases steps.len(),
{
    if steps.len() > 0 {
        let m1 = m.store_at(steps[0].0, steps[0].1, steps[0].2);
        let tail = steps.drop_first();
        assert forall|i: int, j: int|
            #![trigger tail[i], tail[j]]
            0 <= i < j < tail.len() implies !expired(
            StoredView { entry: tail[i].1, created: tail[i].2 },
            tail[j].2,
        ) by {
            assert(tail[i] == steps[i + 1] && tail[j] == steps[j + 1]);
        }
        lemma_inserts_distinct(m1, tail);
        assert(m1.entries[steps[0].0] == StoredView { entry: steps[0].1, created: steps[0].2 });
        assert forall|k: int| 0 <= k < tail.len() implies !expired(
            m1.entries[steps[0].0],
            (#[trigger] tail[k]).2,
        ) by {
            assert(tail[k] == steps[k + 1]);
        }
        lemma_entry_persists(m1, tail, steps[0].0);
        assert forall|i: int, j: int|
            #![trigger steps[i], steps[j]]
            0 <= i < j < steps.len() implies steps[i].0 != steps[j].0 by {
            if i == 0 {
                assert(tail[j - 1] == steps[j]);
            } else {
                assert(tail[i - 1] == steps[i] && tail[j - 1] == steps[j]);
            }
        }
    }
}

/// Burn after reading, exactly once: the first raw read of a live burn
/// entry returns its text, and any later read of the same id finds nothing.
pub proof fn lemma_burn_exactly_once(m: LayerModel, id: u32, now1: u64, now2: u64)
    requires
        m.live(id, now1),
        m.entries[id].entry.burn,
    ensures
        m.raw_result(id, now1) == Ok::<Seq<char>, Error>(m.entries[id].entry.text),
        m.raw_next(id, now1).raw_result(id, now2) == Err::<Seq<char>, Error>(Error::NotFound),
        m.raw_next(id, now1).fmt_result(id, None, now2) == Err::<Seq<char>, Error>(
            Error::NotFound,
        ),
{
}

/// Expiration: a stored entry reads back before its deadline; one whose
/// positive deadline has passed reads as absent; one stored with no expiry,
/// or an expiry of zero, never expires.
pub proof fn lemma_expiration(m: LayerModel, id: u32, e: EntryView, now0: u64, now1: u64, now2: u64)
    requires
        m.store_at(id, e, now0).entries.contains_key(id),
    ensures
        (match e.expires {
            Some(secs) => secs == 0 || now1 < now0 + secs,
            None => true,
        }) ==> m.store_at(id, e, now0).raw_result(id, now1) == Ok::<Seq<char>, Error>(e.text),
        (match e.expires {
            Some(secs) => secs > 0 && now0 + secs <= now2,
            None => false,
        }) ==> m.store_at(id, e, now0).raw_result(id, now2) == Err::<Seq<char>, Error>(
            Error::NotFound,
        ),
{
}

/// Extension override: a key's extension decides how a stored entry is
/// rendered — plain text when the entry has no extension and the key none —
/// and a formatted read never changes the stored entries.
pub proof fn lemma_extension_override(m: LayerModel, id: u32, ext: Seq<char>, now: u64)
    requires
        m.live(id, now),
        m.entries[id].entry.extension is None,
    ensures
        m.fmt_result(id, Some(ext), now) == Ok::<Seq<char>, Error>(
            render_of(m.entries[id].entry.text, ext),
        ),
        m.fmt_result(id, None, now) == Ok::<Seq<char>, Error>(
            render_of(m.entries[id].entry.text, default_ext()),
        ),
        !m.entries[id].entry.burn ==> m.fmt_next(id, Some(ext), now).entries == m.entries,
{
}

/// Cache coherence: after one formatted read of a live non-burn entry, a
/// second read under the same key returns the identical markup, leaves the
/// layer unchanged, and makes no further render call.
pub proof fn lemma_cache_coherence(
    m: LayerModel,
    id: u32,
    key_ext: Option<Seq<char>>,
    now1: u64,
    now2: u64,
)
    requires
        m.wf(),
        m.live(id, now1),
        !m.entries[id].entry.burn,
        !expired(m.entries[id], now2),
    ensures
        m.fmt_next(id, key_ext, now1).fmt_result(id, key_ext, now2) == m.fmt_result(
            id,
            key_ext,
            now1,
        ),
        m.fmt_next(id, key_ext, now1).fmt_next(id, key_ext, now2) == m.fmt_next(id, key_ext, now1),
        m.fmt_next(id, key_ext, now1).render_calls == m.fmt_next(id, key_ext, now1).fmt_next(
            id,
            key_ext,
            now2,
        ).render_calls,
{
    let m1 = m.fmt_next(id, key_ext, now1);
    let eff = m.eff_of(id, key_ext);
    match lookup(m.cache, id, eff) {
        Some(_) => {
            assert(m1 == m);
        },
        None => {
            let markup = render_of(m.entries[id].entry.text, eff);
            lemma_lookup_push(m.cache, id, eff, markup);
            assert(lookup(m1.cache, id, eff) == Some(markup));
        },
    }
    assert(m1.fmt_next(id, key_ext, now2) == m1);
}

/// A cache hit is sound: under well-formedness, whatever markup the cache
/// returns for a live entry is the rendering of that entry's text.
pub proof fn lemma_cache_hit_sound(m: LayerModel, id: u32, ext: Seq<char>, markup: Seq<char>)
    requires
        m.wf(),
        lookup(m.cache, id, ext) == Some(markup),
    ensures
        m.entries.contains_key(id),
        markup == render_of(m.entries[id].entry.text, ext),
{
    lemma_lookup_some(m.cache, id, ext);
}

} // verus!
