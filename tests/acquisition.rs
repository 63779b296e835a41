use sa::cache::PackageCache;
use sa::mirrors::MirrorManager;
use sa::models::{Mirror, SecurityVulnerability};
use sa::pipeline::{batch_succeeded, failed_members, install_spec, select_mirror, Acquisition, FetchedPackage, Outcome, PackageRequest, PipelineAction, Stage};
use sa::security::{SecurityScanner, Severity};

fn request(name: &str, skip_security: bool) -> PackageRequest {
    PackageRequest {
        name: name.to_string(),
        version: "latest".to_string(),
        mirror: None,
        skip_security,
        threshold: Severity::Critical,
    }
}

fn fetched(version: &str) -> FetchedPackage {
    FetchedPackage {
        version: version.to_string(),
        summary: "Python HTTP for Humans.".to_string(),
        home_page: "https://requests.readthedocs.io".to_string(),
        requires_dist: vec!["idna".to_string(), "urllib3".to_string()],
        download_url: "https://files.example/requests.whl".to_string(),
        hash: "sha256:00ff".to_string(),
    }
}

fn critical(package: &str) -> SecurityVulnerability {
    SecurityVulnerability {
        id: "CVE-1".to_string(),
        package: package.to_string(),
        version_range: "*".to_string(),
        severity: "critical".to_string(),
        description: "remote code execution".to_string(),
        fixed_version: None,
        published_at: 0,
    }
}

fn finish(a: &PipelineAction) -> Option<Outcome> {
    match a {
        PipelineAction::Finish { outcome } => Some(*outcome),
        _ => None,
    }
}

/// Runs one request to its end; `fetch` answers the fetch, `install_ok` the install.
fn run(
    req: PackageRequest,
    cache: &mut PackageCache,
    mirrors: &MirrorManager,
    index: &SecurityScanner,
    fetch: Option<FetchedPackage>,
    install_ok: bool,
) -> (Outcome, usize, usize) {
    let mut fetches = 0;
    let mut installs = 0;
    let mut acq = Acquisition::new(req);
    let mut action = acq.start(cache, mirrors);
    let mut fetch = Some(fetch);
    loop {
        action = match action {
            PipelineAction::CheckArtifact { .. } => acq.on_artifact(true, cache, mirrors),
            PipelineAction::Fetch { .. } => {
                fetches += 1;
                acq.on_fetched(fetch.take().unwrap(), index)
            }
            PipelineAction::Install { .. } => {
                installs += 1;
                acq.on_installed(install_ok, 1_700_000_000, cache)
            }
            PipelineAction::Finish { outcome } => return (outcome, fetches, installs),
        };
    }
}

#[test]
fn fresh_install_then_served_from_cache() {
    let mut cache = PackageCache::new("/cache".to_string());
    let mirrors = MirrorManager::new("/cfg".to_string(), None);
    let index = SecurityScanner::new("/db".to_string(), Some(vec![]));
    let first = run(request("requests", false), &mut cache, &mirrors, &index, Some(fetched("2.31.0")), true);
    assert_eq!(first, (Outcome::Installed, 1, 1));
    let rec = cache.find_package("requests", "latest").unwrap();
    assert_eq!(rec.hash, "sha256:00ff");
    assert_eq!(rec.file_path, "/cache/requests-latest.whl");
    assert_eq!(rec.cached_at, 1_700_000_000);
    assert_eq!(rec.metadata.dependencies, vec!["idna".to_string(), "urllib3".to_string()]);
    let second = run(request("requests", false), &mut cache, &mirrors, &index, None, true);
    assert_eq!(second, (Outcome::ServedFromCache, 0, 0));
}

#[test]
fn critical_advisory_blocks_install() {
    let mut cache = PackageCache::new("/cache".to_string());
    let mirrors = MirrorManager::new("/cfg".to_string(), None);
    let index = SecurityScanner::new("/db".to_string(), Some(vec![critical("bad-pkg")]));
    let r = run(request("bad-pkg", false), &mut cache, &mirrors, &index, Some(fetched("1.0")), true);
    assert_eq!(r, (Outcome::BlockedBySecurity, 1, 0));
    assert_eq!(cache.package_count(), 0);
}

#[test]
fn skip_security_installs_despite_advisory() {
    let mut cache = PackageCache::new("/cache".to_string());
    let mirrors = MirrorManager::new("/cfg".to_string(), None);
    let index = SecurityScanner::new("/db".to_string(), Some(vec![critical("bad-pkg")]));
    let r = run(request("bad-pkg", true), &mut cache, &mirrors, &index, Some(fetched("1.0")), true);
    assert_eq!(r, (Outcome::Installed, 1, 1));
    assert_eq!(cache.package_count(), 1);
}

#[test]
fn fetch_timeout_fails_only_that_member() {
    let mut cache = PackageCache::new("/cache".to_string());
    let mirrors = MirrorManager::new("/cfg".to_string(), None);
    let index = SecurityScanner::new("/db".to_string(), Some(vec![]));
    let slow = run(request("slow-pkg", false), &mut cache, &mirrors, &index, None, true);
    let sibling = run(request("requests", false), &mut cache, &mirrors, &index, Some(fetched("2.31.0")), true);
    assert_eq!(slow.0, Outcome::FetchFailed);
    assert_eq!(sibling.0, Outcome::Installed);
    let outcomes = vec![slow.0, sibling.0];
    assert!(!batch_succeeded(&outcomes));
    assert_eq!(failed_members(&outcomes), vec![0]);
    assert!(cache.find_package("slow-pkg", "latest").is_none());
}

#[test]
fn batch_of_successes_succeeds() {
    assert!(batch_succeeded(&vec![Outcome::Installed, Outcome::ServedFromCache]));
    assert!(batch_succeeded(&vec![]));
    assert!(failed_members(&vec![Outcome::Installed]).is_empty());
    assert_eq!(
        failed_members(&vec![Outcome::InstallFailed, Outcome::Installed, Outcome::NoMirrorAvailable]),
        vec![0, 2]
    );
}

#[test]
fn no_usable_mirror_stops_request() {
    let mut cache = PackageCache::new("/cache".to_string());
    let inactive = Mirror {
        name: "pypi".to_string(),
        url: "https://pypi.org/simple/".to_string(),
        is_default: true,
        last_tested: None,
        is_active: false,
    };
    let mirrors = MirrorManager::new("/cfg".to_string(), Some(vec![inactive]));
    let index = SecurityScanner::new("/db".to_string(), None);
    let r = run(request("requests", false), &mut cache, &mirrors, &index, None, true);
    assert_eq!(r, (Outcome::NoMirrorAvailable, 0, 0));
}

#[test]
fn failed_install_writes_no_record() {
    let mut cache = PackageCache::new("/cache".to_string());
    let mirrors = MirrorManager::new("/cfg".to_string(), None);
    let index = SecurityScanner::new("/db".to_string(), None);
    let r = run(request("requests", false), &mut cache, &mirrors, &index, Some(fetched("2.31.0")), false);
    assert_eq!(r, (Outcome::InstallFailed, 1, 1));
    assert_eq!(cache.package_count(), 0);
}

#[test]
fn stale_record_goes_back_to_mirror() {
    let mut cache = PackageCache::new("/cache".to_string());
    let mirrors = MirrorManager::new("/cfg".to_string(), None);
    let index = SecurityScanner::new("/db".to_string(), None);
    run(request("requests", false), &mut cache, &mirrors, &index, Some(fetched("2.31.0")), true);
    let mut acq = Acquisition::new(request("requests", false));
    let a = acq.start(&cache, &mirrors);
    match &a {
        PipelineAction::CheckArtifact { path } => assert_eq!(path, "/cache/requests-latest.whl"),
        _ => panic!("expected an artifact check"),
    }
    let b = acq.on_artifact(false, &mut cache, &mirrors);
    match &b {
        PipelineAction::Fetch { mirror } => assert_eq!(mirror.name, "pypi"),
        _ => panic!("expected a fetch"),
    }
    assert_eq!(acq.stage, Stage::AwaitFetch);
    assert_eq!(cache.package_count(), 0);
    assert_eq!(finish(&b), None);
}

#[test]
fn requested_mirror_is_preferred() {
    let mut mirrors = MirrorManager::new("/cfg".to_string(), None);
    mirrors.add_mirror("corp".to_string(), "https://corp.example".to_string(), false);
    assert_eq!(select_mirror(&mirrors, &Some("corp".to_string())).unwrap().name, "corp");
    assert_eq!(select_mirror(&mirrors, &Some("missing".to_string())).unwrap().name, "pypi");
    assert_eq!(select_mirror(&mirrors, &None).unwrap().name, "pypi");
}

#[test]
fn install_argument_pins_version() {
    assert_eq!(install_spec("requests", "latest"), "requests");
    assert_eq!(install_spec("requests", "2.31.0"), "requests==2.31.0");
}

#[test]
fn pinned_request_is_scanned_on_fetched_version() {
    let mut cache = PackageCache::new("/cache".to_string());
    let mirrors = MirrorManager::new("/cfg".to_string(), None);
    let mut adv = critical("pkg");
    adv.version_range = "<2.0".to_string();
    let index = SecurityScanner::new("/db".to_string(), Some(vec![adv]));
    let mut req = request("pkg", false);
    req.version = "1.0".to_string();
    let r = run(req, &mut cache, &mirrors, &index, Some(fetched("1.0")), true);
    assert_eq!(r.0, Outcome::BlockedBySecurity);
    let r = run(request("pkg", false), &mut cache, &mirrors, &index, Some(fetched("2.5")), true);
    assert_eq!(r.0, Outcome::Installed);
}
