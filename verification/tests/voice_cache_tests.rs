use pocket_tts::state::{LayerState, ModelState};
use pocket_tts::voice_cache::VoiceStateCache;
use std::sync::Arc;

#[test]
fn voice_state_cache_evicts_lru() {
    let mut cache = VoiceStateCache::new(2);

    cache.put("a".to_string(), Arc::new(Default::default()));
    cache.put("b".to_string(), Arc::new(Default::default()));

    // Touch "a" so "b" becomes LRU.
    let _ = cache.get("a");
    cache.put("c".to_string(), Arc::new(Default::default()));

    assert!(cache.get("a").is_some());
    assert!(cache.get("c").is_some());
    assert!(cache.get("b").is_none());
}

#[test]
fn voice_state_cache_without_touch_evicts_oldest() {
    let mut cache = VoiceStateCache::new(2);
    cache.put("a".to_string(), Arc::new(ModelState::new()));
    cache.put("b".to_string(), Arc::new(ModelState::new()));
    cache.put("c".to_string(), Arc::new(ModelState::new()));
    assert!(!cache.contains("a"));
    assert!(cache.contains("b"));
    assert!(cache.contains("c"));
}

#[test]
fn voice_state_cache_contains_is_not_a_use() {
    let mut cache = VoiceStateCache::new(2);
    cache.put("a".to_string(), Arc::new(ModelState::new()));
    cache.put("b".to_string(), Arc::new(ModelState::new()));
    assert!(cache.contains("a"));
    cache.put("c".to_string(), Arc::new(ModelState::new()));
    assert!(!cache.contains("a"));
    assert!(cache.contains("b"));
    assert!(cache.contains("c"));
}

#[test]
fn voice_state_cache_capacity_zero_holds_one() {
    let mut cache = VoiceStateCache::new(0);
    cache.put("a".to_string(), Arc::new(ModelState::new()));
    assert!(cache.contains("a"));
    cache.put("b".to_string(), Arc::new(ModelState::new()));
    assert!(!cache.contains("a"));
    assert!(cache.contains("b"));
}

#[test]
fn voice_state_cache_put_replaces_value_and_touches() {
    let mut cache = VoiceStateCache::new(2);
    let mut with_layer = ModelState::new();
    with_layer.insert("layer0".to_string(), LayerState::new());
    cache.put("a".to_string(), Arc::new(ModelState::new()));
    cache.put("b".to_string(), Arc::new(ModelState::new()));
    // "a" gets a new value and becomes the most recently used.
    cache.put("a".to_string(), Arc::new(with_layer));
    cache.put("c".to_string(), Arc::new(ModelState::new()));
    assert!(!cache.contains("b"));
    let a = cache.get("a").expect("a is kept");
    assert!(a.contains_key("layer0"));
    assert_eq!(a.get("layer0").map(|l| l.position), Some(0));
}

#[test]
fn voice_state_cache_get_returns_the_stored_state() {
    let mut cache = VoiceStateCache::new(3);
    let mut first = ModelState::new();
    first.insert("x".to_string(), LayerState::new());
    let mut second = ModelState::new();
    second.insert("y".to_string(), LayerState::new());
    cache.put("first".to_string(), Arc::new(first));
    cache.put("second".to_string(), Arc::new(second));
    let got = cache.get("second").expect("second is kept");
    assert!(got.contains_key("y"));
    assert!(!got.contains_key("x"));
    let got = cache.get("first").expect("first is kept");
    assert!(got.contains_key("x"));
    assert!(cache.get("third").is_none());
}

#[test]
fn voice_state_cache_touch_counts_as_use() {
    let mut cache = VoiceStateCache::new(2);
    cache.put("a".to_string(), Arc::new(ModelState::new()));
    cache.put("b".to_string(), Arc::new(ModelState::new()));
    cache.touch("a");
    cache.touch("nobody");
    cache.put("c".to_string(), Arc::new(ModelState::new()));
    assert!(cache.contains("a"));
    assert!(!cache.contains("b"));
    assert!(cache.contains("c"));
    assert!(!cache.contains("nobody"));
}
