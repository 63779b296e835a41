use sa::security::{advisory_from_feed, build_index, version_matches, FeedEntry, FeedPackage, SecurityScanner, Severity};
use sa::models::SecurityVulnerability;

fn advisory(id: &str, package: &str, range: &str, severity: &str) -> SecurityVulnerability {
    SecurityVulnerability {
        id: id.to_string(),
        package: package.to_string(),
        version_range: range.to_string(),
        severity: severity.to_string(),
        description: "issue".to_string(),
        fixed_version: None,
        published_at: 0,
    }
}

#[test]
fn scan_finds_advisory_with_lower_bound() {
    let s = SecurityScanner::new("/db.json".to_string(), Some(vec![advisory("A1", "pkg", ">=1.5", "high")]));
    let found = s.scan_package("pkg", "2.0");
    assert_eq!(found.len(), 1);
    assert_eq!(found[0].id, "A1");
}

#[test]
fn scan_skips_advisory_with_upper_bound_below() {
    let s = SecurityScanner::new("/db.json".to_string(), Some(vec![advisory("A2", "pkg", "<1.0", "high")]));
    assert!(s.scan_package("pkg", "2.0").is_empty());
}

#[test]
fn scan_needs_exact_package_name() {
    let s = SecurityScanner::new("/db.json".to_string(), Some(vec![advisory("A3", "pkg", "*", "low")]));
    assert!(s.scan_package("pkg2", "1.0").is_empty());
    assert!(s.scan_package("Pkg", "1.0").is_empty());
    assert_eq!(s.scan_package("pkg", "anything").len(), 1);
}

#[test]
fn scan_keeps_index_order() {
    let db = vec![
        advisory("A", "pkg", "*", "low"),
        advisory("B", "other", "*", "low"),
        advisory("C", "pkg", "<=3.0", "critical"),
    ];
    let s = SecurityScanner::new("/db.json".to_string(), Some(db));
    let ids: Vec<String> = s.scan_package("pkg", "2.0").into_iter().map(|v| v.id).collect();
    assert_eq!(ids, vec!["A".to_string(), "C".to_string()]);
}

#[test]
fn range_operators() {
    assert!(version_matches("1.0", "*"));
    assert!(version_matches("1.5", ">=1.5"));
    assert!(!version_matches("1.4", ">=1.5"));
    assert!(version_matches("1.5", "<=1.5"));
    assert!(!version_matches("1.6", "<=1.5"));
    assert!(version_matches("0.9", "<1.0"));
    assert!(!version_matches("1.0", "<1.0"));
    assert!(version_matches("1.1", ">1.0"));
    assert!(!version_matches("1.0", ">1.0"));
    assert!(version_matches("1.2.3", "1.2.3"));
    assert!(!version_matches("1.2.4", "1.2.3"));
}

#[test]
fn range_comparison_is_lexicographic() {
    assert!(version_matches("10.0", "<9.0"));
    assert!(!version_matches("10.0", ">=9.0"));
    assert!(version_matches("1.10", "<1.9"));
}

#[test]
fn failed_refresh_keeps_scan_results() {
    let mut s = SecurityScanner::new("/db.json".to_string(), Some(vec![advisory("A1", "pkg", ">=1.5", "high")]));
    let before = s.scan_package("pkg", "2.0");
    assert!(!s.apply_update(None));
    assert_eq!(s.scan_package("pkg", "2.0"), before);
    assert_eq!(s.vulnerability_db.len(), 1);
}

#[test]
fn successful_refresh_replaces_index() {
    let mut s = SecurityScanner::new("/db.json".to_string(), Some(vec![advisory("A1", "pkg", ">=1.5", "high")]));
    assert!(s.apply_update(Some(vec![advisory("B1", "other", "*", "low")])));
    assert!(s.scan_package("pkg", "2.0").is_empty());
    assert_eq!(s.scan_package("other", "0.1").len(), 1);
}

#[test]
fn unreadable_index_starts_empty() {
    let s = SecurityScanner::new("/db.json".to_string(), None);
    assert!(s.vulnerability_db.is_empty());
}

#[test]
fn feed_entries_take_defaults() {
    let feed = vec![
        FeedPackage {
            name: "django".to_string(),
            entries: vec![
                FeedEntry { id: Some("pyup-1".to_string()), first_spec: Some("<2.2".to_string()), advisory: Some("XSS".to_string()) },
                FeedEntry { id: None, first_spec: None, advisory: None },
            ],
        },
        FeedPackage { name: "flask".to_string(), entries: vec![] },
        FeedPackage {
            name: "jinja2".to_string(),
            entries: vec![FeedEntry { id: None, first_spec: Some(">=2.0".to_string()), advisory: None }],
        },
    ];
    let index = build_index(&feed, 42);
    assert_eq!(index.len(), 3);
    assert_eq!(index[0], SecurityVulnerability {
        id: "pyup-1".to_string(),
        package: "django".to_string(),
        version_range: "<2.2".to_string(),
        severity: "medium".to_string(),
        description: "XSS".to_string(),
        fixed_version: None,
        published_at: 42,
    });
    assert_eq!(index[1].id, "unknown");
    assert_eq!(index[1].version_range, "*");
    assert_eq!(index[1].description, "No description available");
    assert_eq!(index[2].package, "jinja2");
    assert_eq!(index[2].version_range, ">=2.0");
    let one = advisory_from_feed(&"x".to_string(), &FeedEntry { id: None, first_spec: None, advisory: None }, 7);
    assert_eq!(one.published_at, 7);
}

#[test]
fn severity_levels_are_ordered() {
    assert_eq!(Severity::parse("low"), Severity::Low);
    assert_eq!(Severity::parse("medium"), Severity::Medium);
    assert_eq!(Severity::parse("high"), Severity::High);
    assert_eq!(Severity::parse("critical"), Severity::Critical);
    assert_eq!(Severity::parse("bogus"), Severity::Critical);
    assert!(Severity::Low.rank() < Severity::Medium.rank());
    assert!(Severity::Medium.rank() < Severity::High.rank());
    assert!(Severity::High.rank() < Severity::Critical.rank());
}

#[test]
fn blocking_starts_at_threshold() {
    let s = SecurityScanner::new("/db.json".to_string(), Some(vec![advisory("M", "pkg", "*", "medium")]));
    assert!(!s.is_blocked("pkg", "1.0", Severity::Critical));
    assert!(s.is_blocked("pkg", "1.0", Severity::Medium));
    assert!(s.is_blocked("pkg", "1.0", Severity::Low));
    assert!(!s.is_blocked("other", "1.0", Severity::Low));
}
