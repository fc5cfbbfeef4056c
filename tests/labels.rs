use k8s_cloud_tagger::labels::Labels;
use k8s_cloud_tagger::mock::MockClient;
use std::time::Duration;

#[test]
fn labels_stay_in_key_order_with_unique_keys() {
    let mut l = Labels::new();
    assert!(l.is_empty());
    l.insert("b".to_string(), "2".to_string());
    l.insert("a".to_string(), "1".to_string());
    l.insert("c".to_string(), "3".to_string());
    l.insert("b".to_string(), "20".to_string());
    assert_eq!(l.len(), 3);
    let (k0, v0) = l.entry(0);
    let (k1, v1) = l.entry(1);
    let (k2, _) = l.entry(2);
    assert_eq!((k0.as_str(), v0.as_str()), ("a", "1"));
    assert_eq!((k1.as_str(), v1.as_str()), ("b", "20"));
    assert_eq!(k2, "c");
}

#[test]
fn labels_order_by_bytes() {
    let mut l = Labels::new();
    l.insert("a".to_string(), "x".to_string());
    l.insert("B".to_string(), "x".to_string());
    l.insert("ab".to_string(), "x".to_string());
    l.insert("".to_string(), "x".to_string());
    assert_eq!(l.entry(0).0, "");
    assert_eq!(l.entry(1).0, "B");
    assert_eq!(l.entry(2).0, "a");
    assert_eq!(l.entry(3).0, "ab");
}

#[test]
fn mock_client_keeps_delay() {
    let m = MockClient::new(Duration::from_millis(5));
    assert_eq!(m.delay(), Duration::from_millis(5));
    assert_eq!(m.provider_name(), "mock");
}
