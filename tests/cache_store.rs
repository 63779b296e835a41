use sa::cache::{is_artifact_file, PackageCache};
use sa::models::{CachedPackage, PackageMetadata};

fn record(name: &str, version: &str, hash: &str) -> CachedPackage {
    CachedPackage {
        name: name.to_string(),
        version: version.to_string(),
        hash: hash.to_string(),
        download_url: format!("https://example.org/{}-{}.whl", name, version),
        cached_at: 1_700_000_000,
        file_path: format!("/cache/{}-{}.whl", name, version),
        metadata: PackageMetadata {
            description: "a package".to_string(),
            author: "someone".to_string(),
            license: "MIT".to_string(),
            dependencies: vec!["idna".to_string(), "certifi".to_string()],
            keywords: vec!["http".to_string()],
            home_page: "https://example.org".to_string(),
        },
    }
}

#[test]
fn store_then_lookup_round_trip() {
    let mut cache = PackageCache::new("/cache".to_string());
    let rec = record("requests", "2.31.0", "abc123");
    cache.store_package(rec.clone());
    let got = cache.get_package("requests", "2.31.0", true);
    assert_eq!(got, Some(rec));
    assert_eq!(cache.package_count(), 1);
}

#[test]
fn stale_lookup_purges_row() {
    let mut cache = PackageCache::new("/cache".to_string());
    cache.store_package(record("requests", "2.31.0", "abc123"));
    assert!(cache.get_package("requests", "2.31.0", false).is_none());
    assert!(cache.find_package("requests", "2.31.0").is_none());
    assert_eq!(cache.package_count(), 0);
    assert!(cache.get_package("requests", "2.31.0", true).is_none());
}

#[test]
fn lookup_of_absent_key_is_none() {
    let mut cache = PackageCache::new("/cache".to_string());
    cache.store_package(record("requests", "2.31.0", "abc123"));
    assert!(cache.get_package("requests", "1.0.0", true).is_none());
    assert_eq!(cache.package_count(), 1);
}

#[test]
fn second_store_of_a_key_wins() {
    let mut cache = PackageCache::new("/cache".to_string());
    cache.store_package(record("numpy", "1.26.0", "first"));
    let newer = record("numpy", "1.26.0", "second");
    cache.store_package(newer.clone());
    assert_eq!(cache.package_count(), 1);
    assert_eq!(cache.find_package("numpy", "1.26.0"), Some(newer));
}

#[test]
fn keys_differ_by_version() {
    let mut cache = PackageCache::new("/cache".to_string());
    cache.store_package(record("numpy", "1.26.0", "a"));
    cache.store_package(record("numpy", "1.25.0", "b"));
    assert_eq!(cache.package_count(), 2);
    assert_eq!(cache.find_package("numpy", "1.25.0").unwrap().hash, "b");
}

#[test]
fn remove_deletes_only_that_key() {
    let mut cache = PackageCache::new("/cache".to_string());
    cache.store_package(record("numpy", "1.26.0", "a"));
    cache.store_package(record("pandas", "2.1.0", "b"));
    cache.remove_package("numpy", "1.26.0");
    assert!(cache.find_package("numpy", "1.26.0").is_none());
    assert!(cache.find_package("pandas", "2.1.0").is_some());
    cache.remove_package("numpy", "1.26.0");
    assert_eq!(cache.package_count(), 1);
}

#[test]
fn clear_all_deletes_every_row() {
    let mut cache = PackageCache::new("/cache".to_string());
    cache.store_package(record("numpy", "1.26.0", "a"));
    cache.store_package(record("pandas", "2.1.0", "b"));
    cache.clear_all();
    assert_eq!(cache.package_count(), 0);
    assert!(cache.find_package("pandas", "2.1.0").is_none());
}

#[test]
fn stats_count_rows_and_sum_file_sizes() {
    let mut cache = PackageCache::new("/cache".to_string());
    cache.store_package(record("numpy", "1.26.0", "a"));
    assert_eq!(cache.get_stats(&vec![100, 250, 4096]), (1, 4446));
    assert_eq!(cache.get_stats(&vec![]), (1, 0));
    assert_eq!(cache.get_stats(&vec![u64::MAX, 5]), (1, u64::MAX));
}

#[test]
fn artifact_path_is_conventional() {
    let cache = PackageCache::new("/home/u/.cache/sa-cache".to_string());
    assert_eq!(cache.artifact_path("requests", "latest"), "/home/u/.cache/sa-cache/requests-latest.whl");
}

#[test]
fn only_artifact_files_are_cleared() {
    assert!(is_artifact_file("requests-2.31.0.whl"));
    assert!(is_artifact_file("a.b.whl"));
    assert!(!is_artifact_file(".whl"));
    assert!(!is_artifact_file("cache.db"));
    assert!(!is_artifact_file("notes.whl.txt"));
}

#[test]
fn rows_load_with_last_write_winning() {
    let rows = vec![record("numpy", "1.26.0", "old"), record("pandas", "2.1.0", "p"), record("numpy", "1.26.0", "new")];
    let cache = PackageCache::with_rows("/cache".to_string(), rows);
    assert_eq!(cache.package_count(), 2);
    assert_eq!(cache.find_package("numpy", "1.26.0").unwrap().hash, "new");
}
