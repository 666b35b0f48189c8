use mac_amx::detect::{classify_brand, contains_str, detect, is_available, AmxVersion, ProbeCell};

fn brand(s: &str) -> Option<String> {
    Some(s.to_string())
}

#[test]
fn test_detect() {
    let mut cell = ProbeCell::new();
    let result = detect(&mut cell, || brand("Apple M1 Pro"));
    println!("AMX detection: {result:?}");
    assert!(result.is_some(), "AMX should be available on Apple Silicon");
}

#[test]
fn classify_each_generation() {
    assert_eq!(classify_brand("Apple M1"), Some(AmxVersion::M1));
    assert_eq!(classify_brand("Apple M2 Max"), Some(AmxVersion::M2));
    assert_eq!(classify_brand("Apple M3 Pro"), Some(AmxVersion::M3));
    assert_eq!(classify_brand("Apple M4"), Some(AmxVersion::M4));
    assert_eq!(classify_brand("Apple processor"), Some(AmxVersion::Unknown));
}

#[test]
fn classify_first_generation_wins() {
    assert_eq!(classify_brand("Apple M2 (M1 compatible)"), Some(AmxVersion::M1));
}

#[test]
fn classify_other_vendor_is_none() {
    assert_eq!(classify_brand("Intel(R) Core(TM) i7-9750H CPU @ 2.60GHz"), None);
    assert_eq!(classify_brand("M1"), None);
    assert_eq!(classify_brand(""), None);
}

#[test]
fn contains_edge_cases() {
    assert!(contains_str("Apple", ""));
    assert!(contains_str("Apple", "Apple"));
    assert!(contains_str("xxApple", "ple"));
    assert!(!contains_str("App", "Apple"));
    assert!(!contains_str("apple", "Apple"));
}

#[test]
fn failed_lookup_means_unavailable() {
    let mut cell = ProbeCell::new();
    assert_eq!(detect(&mut cell, || None), None);
    assert_eq!(cell.peek(), Some(None));
}

#[test]
fn detect_is_idempotent() {
    let mut cell = ProbeCell::new();
    assert_eq!(cell.peek(), None);
    let first = detect(&mut cell, || brand("Apple M3 Max"));
    let second = detect(&mut cell, || brand("Intel Xeon"));
    let third = detect(&mut cell, || None);
    assert_eq!(first, Some(AmxVersion::M3));
    assert_eq!(second, first);
    assert_eq!(third, first);
    assert_eq!(cell.peek(), Some(Some(AmxVersion::M3)));
}

#[test]
fn lookup_runs_once() {
    let mut cell = ProbeCell::new();
    let mut calls = 0;
    detect(&mut cell, || {
        calls += 1;
        brand("Apple M2")
    });
    detect(&mut cell, || {
        calls += 1;
        brand("Apple M2")
    });
    assert_eq!(calls, 1);
}

#[test]
fn availability_follows_detection() {
    let mut cell = ProbeCell::new();
    assert!(is_available(&mut cell, || brand("Apple M4 Pro")));
    let mut other = ProbeCell::new();
    assert!(!is_available(&mut other, || brand("AMD Ryzen 9")));
    assert!(!is_available(&mut other, || brand("Apple M1")));
}
