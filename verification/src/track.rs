//! Propagating asset reloads to the items that depend on the reloaded assets.
//!
//! An asset event names an asset; of the kinds of events, only `Modified` and
//! `LoadedWithDependencies` mean that data derived from the asset is out of date. The items
//! whose asset is named by such an event in a batch of events are marked changed, once each.
use vstd::prelude::*;

verus! {

/// The identity of an asset: a slot in an asset store, as the bits of its index and
/// generation, or a UUID.
#[derive(Clone, Copy, Debug, PartialEq, Eq, Hash, Structural)]
pub enum AssetKey {
    /// An asset stored by index.
    Index { bits: u64 },
    /// An asset identified by a UUID.
    Uuid(u128),
}

/// An event about an asset.
#[derive(Clone, Copy, Debug, PartialEq, Eq, Structural)]
pub enum AssetEvent {
    /// The asset was added.
    Added { id: AssetKey },
    /// The asset's content changed.
    Modified { id: AssetKey },
    /// The asset was removed.
    Removed { id: AssetKey },
    /// The last strong handle to the asset was dropped.
    Unused { id: AssetKey },
    /// The asset and all its dependencies finished loading.
    LoadedWithDependencies { id: AssetKey },
}

/// The ordering sets of the tracking systems: watchers run before the systems that react to
/// reloads.
#[derive(Clone, Copy, Debug, PartialEq, Eq, PartialOrd, Ord, Hash, Structural)]
pub enum TrackAssetSystems {
    /// Systems that watch for reloads and mark dependent items changed.
    Watcher,
    /// Systems that react to reloads; they run after the watchers.
    Reload,
}

/// The asset an event invalidates, if it invalidates one.
pub open spec fn spec_extract_asset_id(event: AssetEvent) -> Option<AssetKey> {
    match event {
        AssetEvent::Modified { id } => Some(id),
        AssetEvent::LoadedWithDependencies { id } => Some(id),
        _ => None,
    }
}

/// The asset of a `Modified` or `LoadedWithDependencies` event; `None` for `Added`, `Removed`
/// and `Unused`, which do not make derived data out of date.
pub fn extract_asset_id(event: &AssetEvent) -> (r: Option<AssetKey>)
    ensures
        r == spec_extract_asset_id(*event),
{
    match event {
        AssetEvent::Modified { id } => Some(*id),
        AssetEvent::LoadedWithDependencies { id } => Some(*id),
        AssetEvent::Added { .. } => None,
        AssetEvent::Removed { .. } => None,
        AssetEvent::Unused { .. } => None,
    }
}

/// Whether some event of `events` invalidates asset `id`.
pub open spec fn reloaded(events: Seq<AssetEvent>, id: AssetKey) -> bool {
    exists|i: int| 0 <= i < events.len() && spec_extract_asset_id(#[trigger] events[i]) == Some(id)
}

/// The distinct assets invalidated by a batch of events, in order of first invalidation.
pub fn reloaded_ids(events: &Vec<AssetEvent>) -> (r: Vec<AssetKey>)
    ensures
        r@.no_duplicates(),
        forall|id: AssetKey| #[trigger] r@.contains(id) <==> reloaded(events@, id),
{
    let mut cache: Vec<AssetKey> = Vec::new();
    let mut i: usize = 0;
    while i < events.len()
        invariant
            i <= events@.len(),
            cache@.no_duplicates(),
            forall|id: AssetKey| #[trigger]
                cache@.contains(id) <==> reloaded(events@.take(i as int), id),
        decreases events.len() - i,
    {
        let ghost before = cache@;
        match extract_asset_id(&events[i]) {
            Some(id) => {
                if !contains_key(&cache, &id) {
                    cache.push(id);
                    assert forall|a: int, b: int|
                        0 <= a < cache@.len() && 0 <= b < cache@.len() && a != b implies cache@[a]
                        != cache@[b] by {
                        if a == before.len() {
                            assert(before[b] == cache@[b]);
                            if cache@[a] == cache@[b] {
                                assert(before.contains(id));
                            }
                        } else if b == before.len() {
                            assert(before[a] == cache@[a]);
                            if cache@[a] == cache@[b] {
                                assert(before.contains(id));
                            }
                        }
                    }
                }
            },
            None => {},
        }
        assert forall|id: AssetKey| #[trigger]
            cache@.contains(id) <==> reloaded(events@.take(i + 1), id) by {
            let t = events@.take(i + 1);
            if reloaded(t, id) {
                let k = choose|k: int| 0 <= k < t.len() && spec_extract_asset_id(#[trigger] t[k]) == Some(id);
                if k < i {
                    assert(events@.take(i as int)[k] == t[k]);
                    assert(before.contains(id));
                    let a = choose|a: int| 0 <= a < before.len() && before[a] == id;
                    assert(cache@[a] == id);
                } else {
                    assert(t[k] == events@[i as int]);
                    if before.contains(id) {
                        let a = choose|a: int| 0 <= a < before.len() && before[a] == id;
                        assert(cache@[a] == id);
                    } else {
                        assert(cache@[cache@.len() - 1] == id);
                    }
                }
            }
            if cache@.contains(id) {
                let a = choose|a: int| 0 <= a < cache@.len() && cache@[a] == id;
                if a < before.len() {
                    assert(before[a] == id);
                    assert(before.contains(id));
                    let k = choose|k: int|
                        0 <= k < i && spec_extract_asset_id(
                            #[trigger] events@.take(i as int)[k],
                        ) == Some(id);
                    assert(t[k] == events@.take(i as int)[k]);
                } else {
                    assert(t[i as int] == events@[i as int]);
                }
            }
        }
        i = i + 1;
    }
    assert(events@.take(i as int) =~= events@);
    cache
}

/// Whether `id` is among `ids`.
fn contains_key(ids: &Vec<AssetKey>, id: &AssetKey) -> (r: bool)
    ensures
        r == ids@.contains(*id),
{
    let mut i: usize = 0;
    while i < ids.len()
        invariant
            i <= ids@.len(),
            forall|k: int| 0 <= k < i ==> ids@[k] != *id,
        decreases ids.len() - i,
    {
        if ids[i] == *id {
            return true;
        }
        i = i + 1;
    }
    false
}

/// For each item, given by the asset it depends on, whether it must be marked changed after
/// `events`: exactly when its asset was modified or (re)loaded.
pub fn changed_items(events: &Vec<AssetEvent>, items: &Vec<AssetKey>) -> (r: Vec<bool>)
    ensures
        r@.len() == items@.len(),
        forall|i: int| 0 <= i < items@.len() ==> #[trigger] r@[i] == reloaded(events@, items@[i]),
{
    let cache = reloaded_ids(events);
    let mut out: Vec<bool> = Vec::new();
    let mut i: usize = 0;
    while i < items.len()
        invariant
            i <= items@.len(),
            out@.len() == i,
            forall|id: AssetKey| #[trigger] cache@.contains(id) <==> reloaded(events@, id),
            forall|k: int| 0 <= k < i ==> #[trigger] out@[k] == reloaded(events@, items@[k]),
        decreases items.len() - i,
    {
        out.push(contains_key(&cache, &items[i]));
        i = i + 1;
    }
    out
}

} // verus!
