use medguard::config::Config;
use medguard::detector::byte_histogram;
use medguard::detector::FileEvent;
use medguard::detector::FileEventType;
use medguard::detector::ThreatDetector;

fn event(path: &str, timestamp: u64) -> FileEvent {
    FileEvent { path: String::from(path), event_type: FileEventType::Modified, timestamp }
}

fn entropy_bits_per_byte(data: &Vec<u8>) -> f64 {
    let hist = byte_histogram(data);
    let total = data.len() as f64;
    let mut entropy = 0.0;
    for &count in hist.iter() {
        if count > 0 {
            let p = count as f64 / total;
            entropy -= p * p.log2();
        }
    }
    entropy
}

#[test]
fn test_entropy_calculation() {
    let random_data: Vec<u8> = (0..1000).map(|_| rand::random::<u8>()).collect();
    let entropy = entropy_bits_per_byte(&random_data);
    assert!(entropy > 7.0, "Random data should have high entropy");
}

#[test]
fn test_low_entropy() {
    let repeated = vec![b'A'; 1000];
    let entropy = entropy_bits_per_byte(&repeated);
    assert!(entropy < 1.0, "Repeated data should have low entropy");
}

#[test]
fn entropy_bounds() {
    // Ten thousand identical bytes carry no information; a thousand
    // random bytes are close to the eight-bit maximum.
    let repeated = vec![0x42u8; 10000];
    assert!(entropy_bits_per_byte(&repeated) < 1.0);
    let random_data: Vec<u8> = (0..1000).map(|_| rand::random::<u8>()).collect();
    assert!(entropy_bits_per_byte(&random_data) > 7.0);
}

#[test]
fn histogram_counts_exactly() {
    let data = vec![0u8, 0, 1, 255, 255, 255];
    let hist = byte_histogram(&data);
    assert_eq!(hist.len(), 256);
    assert_eq!(hist[0], 2);
    assert_eq!(hist[1], 1);
    assert_eq!(hist[255], 3);
    assert_eq!(hist[7], 0);
}

#[test]
fn rapid_changes_alone_score_thirty_and_no_alert() {
    // 51 events in the window against a threshold of 50: the rapid-change
    // factor fires alone, scoring 30, which stays below the alert line.
    let mut detector = ThreatDetector::new(Config::default());
    let now = 1_000_000;
    for i in 0..51 {
        let e = event(&format!("data/doc{}.txt", i), now);
        detector.process_event(&e, now);
    }
    assert_eq!(detector.files_monitored(), 51);
    let (score, reasons) = detector.current_threat_score(None);
    assert_eq!(score, 30);
    assert_eq!(reasons, "Rapid file changes detected: 51 files/min");
    let alert = detector.check_threat(now, None);
    assert!(alert.is_none());
}

#[test]
fn three_factors_fire_an_alert_with_all_reasons() {
    // Rapid changes plus suspicious extensions plus a high entropy reading
    // reach 90 >= 70; the alert carries all three reasons.
    let mut detector = ThreatDetector::new(Config::default());
    let now = 1_000_000;
    for i in 0..48 {
        let e = event(&format!("data/doc{}.txt", i), now);
        detector.process_event(&e, now);
    }
    for i in 0..3 {
        let e = event(&format!("data/doc{}.locked", i), now);
        detector.process_event(&e, now);
    }
    let alert = detector.check_threat(now, Some(7800)).expect("alert must fire");
    assert_eq!(alert.score, 90);
    assert_eq!(alert.threat_type, "Ransomware");
    assert_eq!(alert.file_path, "data/doc2.locked");
    assert!(alert.description.contains("Rapid file changes detected: 51 files/min"));
    assert!(alert.description.contains("Suspicious extensions: 3 files"));
    assert!(alert.description.contains("High entropy detected: 7.80 bits/byte"));
    assert_eq!(
        alert.description,
        "Rapid file changes detected: 51 files/min; Suspicious extensions: 3 files; \
         High entropy detected: 7.80 bits/byte"
    );
}

#[test]
fn entropy_below_threshold_contributes_nothing() {
    let mut detector = ThreatDetector::new(Config::default());
    let now = 500;
    for i in 0..51 {
        let e = event(&format!("data/doc{}.locked", i), now);
        detector.process_event(&e, now);
    }
    // 30 (rapid) + 20 (suspicious) + 0 (entropy at threshold) + 10 (one
    // extension occurring more than three times is not more than five
    // extensions, so no rename factor): 50 < 70.
    let alert = detector.check_threat(now, Some(7500));
    assert!(alert.is_none());
}

#[test]
fn mass_renaming_adds_ten() {
    // Six extensions, four files each: 24 events, rename factor fires but
    // nothing else does.
    let mut detector = ThreatDetector::new(Config::default());
    let now = 42;
    for ext in ["aa", "bb", "cc", "dd", "ee", "ff"] {
        for i in 0..4 {
            let e = event(&format!("f{}.{}", i, ext), now);
            detector.process_event(&e, now);
        }
    }
    // 24 events <= 50: only the rename factor, 10 < 70: no alert.
    assert!(detector.check_threat(now, None).is_none());
}

#[test]
fn window_evicts_events_older_than_sixty_seconds() {
    let mut detector = ThreatDetector::new(Config::default());
    detector.process_event(&event("a.txt", 0), 0);
    detector.process_event(&event("b.txt", 30), 30);
    detector.process_event(&event("c.txt", 100), 100);
    // At time 100 the cutoff is 40: the events at 0 and 30 are gone, so
    // even with a high entropy reading only 40 is scored: no alert.
    assert!(detector.check_threat(100, Some(8000)).is_none());
    assert_eq!(detector.files_monitored(), 3);
}

#[test]
fn empty_window_never_alerts() {
    let detector = ThreatDetector::new(Config::default());
    assert!(detector.check_threat(0, Some(8000)).is_none());
}
