use gitgpui_view::layout_cache::diff_text_segments_cache_set;
use gitgpui_view::layout_cache::{
    LayoutEntry, TextLayoutCache, DIFF_TEXT_LAYOUT_CACHE_MAX_ENTRIES,
};
use std::collections::HashMap;

#[test]
fn touching_stores_and_refreshes_layouts() {
    let mut cache: TextLayoutCache<&str> = TextLayoutCache { epoch: 3, entries: HashMap::new() };
    cache.touch_diff_text_layout_cache(7, Some("seven"));
    assert_eq!(cache.entries.get(&7).map(|e| (e.layout, e.last_used_epoch)), Some(("seven", 3)));
    cache.epoch = 5;
    cache.touch_diff_text_layout_cache(7, None);
    assert_eq!(cache.entries.get(&7).map(|e| (e.layout, e.last_used_epoch)), Some(("seven", 5)));
    cache.touch_diff_text_layout_cache(8, None);
    assert!(!cache.entries.contains_key(&8));
}

#[test]
fn pruning_drops_the_least_recently_used_layouts() {
    let mut entries: HashMap<u64, LayoutEntry<u64>> = HashMap::new();
    for k in 0..(DIFF_TEXT_LAYOUT_CACHE_MAX_ENTRIES as u64 + 3) {
        entries.insert(k, LayoutEntry { layout: k, last_used_epoch: 10 + k });
    }
    let mut cache = TextLayoutCache { epoch: 100, entries };
    cache.prune_diff_text_layout_cache();
    assert_eq!(cache.entries.len(), DIFF_TEXT_LAYOUT_CACHE_MAX_ENTRIES);
    assert!(!cache.entries.contains_key(&0));
    assert!(!cache.entries.contains_key(&1));
    assert!(!cache.entries.contains_key(&2));
    assert!(cache.entries.contains_key(&3));

    cache.epoch = 200;
    cache.touch_diff_text_layout_cache(3, None);
    cache.touch_diff_text_layout_cache(99_999, Some(1));
    assert_eq!(cache.entries.len(), DIFF_TEXT_LAYOUT_CACHE_MAX_ENTRIES);
    assert!(cache.entries.contains_key(&3));
    assert!(!cache.entries.contains_key(&4));
    assert!(cache.entries.contains_key(&99_999));
}

#[test]
fn segments_cache_grows_with_empty_slots() {
    let mut cache: Vec<Option<String>> = vec![Some("a".to_string())];
    let kept = diff_text_segments_cache_set(&mut cache, 3, "d".to_string()).clone();
    assert_eq!(kept, "d");
    assert_eq!(cache, vec![Some("a".to_string()), None, None, Some("d".to_string())]);
    diff_text_segments_cache_set(&mut cache, 0, "z".to_string());
    assert_eq!(cache[0].as_deref(), Some("z"));
    assert_eq!(cache.len(), 4);
}
