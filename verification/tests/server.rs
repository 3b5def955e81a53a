use audio_forwarder::ConnectionTable;

#[test]
fn one_connection_per_device() {
    let mut t = ConnectionTable::new();
    assert_eq!(t.len(), 0);
    assert_eq!(t.insert("ALSA|Mic|Input".to_string(), 1), None);
    assert_eq!(t.insert("ALSA|Out|Output".to_string(), 2), None);
    assert_eq!(t.insert("ALSA|Mic|Input".to_string(), 3), Some(1));
    assert_eq!(t.len(), 2);
    assert_eq!(t.get("ALSA|Mic|Input"), Some(3));
    assert_eq!(t.remove("ALSA|Mic|Input"), Some(3));
    assert_eq!(t.remove("ALSA|Mic|Input"), None);
    assert_eq!(t.get("ALSA|Out|Output"), Some(2));
    assert_eq!(t.len(), 1);
}

#[test]
fn drain_returns_every_connection() {
    let mut t = ConnectionTable::new();
    t.insert("a".to_string(), 10);
    t.insert("b".to_string(), 20);
    let mut all = t.drain();
    all.sort();
    assert_eq!(all, vec![10, 20]);
    assert_eq!(t.len(), 0);
    assert_eq!(t.get("a"), None);
}
