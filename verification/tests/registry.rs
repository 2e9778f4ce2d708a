use eir::ids::TagID;
use eir::storage::registry::Registry;

#[test]
fn registry_preserves_ids_after_record_roundtrip() {
    let mut registry = Registry::<TagID>::default();

    let apple = registry.intern("Apple");
    let banana = registry.intern("Banana");

    let record = registry.to_record();
    let restored = Registry::<TagID>::from_record(record);

    assert_eq!(restored.id("apple"), Some(apple));
    assert_eq!(restored.id("banana"), Some(banana));
}

#[test]
fn registry_reuses_freed_id_after_roundtrip() {
    let mut registry = Registry::<TagID>::default();

    let apple = registry.intern("Apple");
    let banana = registry.intern("Banana");

    registry.remove(apple);

    let record = registry.to_record();
    let mut restored = Registry::<TagID>::from_record(record);

    let cherry = restored.intern("Cherry");

    assert_eq!(cherry, apple);
    assert_eq!(restored.id("banana"), Some(banana));
}

#[test]
fn registry_get_and_id_agree_and_remove_forgets() {
    let mut registry = Registry::<TagID>::default();
    let apple = registry.intern("Apple");
    let pear = registry.intern("Pear");
    assert_eq!(registry.get(apple), Some("apple"));
    assert_eq!(registry.id("apple"), Some(apple));
    assert_eq!(registry.get(TagID::new(9)), None);

    let removed = registry.remove(registry.id("apple").unwrap());
    assert_eq!(removed, Some(String::from("apple")));
    assert!(!registry.contains("apple"));
    assert!(registry.contains("pear"));
    assert_eq!(registry.values(), vec![String::from("pear")]);
    assert_eq!(registry.iter(), vec![(pear, String::from("pear"))]);
    assert_eq!(registry.len(), 1);
    assert_eq!(registry.slot_count(), 2);
}
