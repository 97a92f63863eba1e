use raster_font::track::{changed_items, extract_asset_id, reloaded_ids, AssetEvent, AssetKey};

fn key(i: u32) -> AssetKey {
    AssetKey::Index { bits: i as u64 }
}

#[test]
fn extract_asset_id_filters_events() {
    assert_eq!(extract_asset_id(&AssetEvent::Modified { id: key(1) }), Some(key(1)));
    assert_eq!(
        extract_asset_id(&AssetEvent::LoadedWithDependencies { id: key(2) }),
        Some(key(2))
    );
    assert_eq!(extract_asset_id(&AssetEvent::Added { id: key(3) }), None);
    assert_eq!(extract_asset_id(&AssetEvent::Removed { id: key(4) }), None);
    assert_eq!(extract_asset_id(&AssetEvent::Unused { id: key(5) }), None);
}

#[test]
fn reloaded_ids_are_deduplicated() {
    let events = vec![
        AssetEvent::Modified { id: key(1) },
        AssetEvent::Added { id: key(2) },
        AssetEvent::LoadedWithDependencies { id: key(1) },
        AssetEvent::Modified { id: AssetKey::Uuid(9) },
    ];
    assert_eq!(reloaded_ids(&events), vec![key(1), AssetKey::Uuid(9)]);
}

#[test]
fn only_dependents_of_reloaded_assets_change() {
    let events = vec![
        AssetEvent::Modified { id: key(1) },
        AssetEvent::Added { id: key(2) },
        AssetEvent::Removed { id: key(3) },
    ];
    let items = vec![key(1), key(2), key(3), key(1), AssetKey::Index { bits: (1u64 << 32) | 1 }];
    assert_eq!(changed_items(&events, &items), vec![true, false, false, true, false]);
    assert_eq!(changed_items(&vec![], &items), vec![false; 5]);
}
