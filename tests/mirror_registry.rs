use sa::mirrors::{builtin_mirror, MirrorManager};
use sa::models::Mirror;

fn mirror(name: &str, url: &str, is_default: bool, is_active: bool) -> Mirror {
    Mirror { name: name.to_string(), url: url.to_string(), is_default, last_tested: None, is_active }
}

fn defaults(m: &MirrorManager) -> Vec<String> {
    m.mirrors.iter().filter(|x| x.is_default).map(|x| x.name.clone()).collect()
}

#[test]
fn missing_config_seeds_builtin_mirror() {
    let m = MirrorManager::new("/cfg/mirrors.json".to_string(), None);
    assert_eq!(m.mirrors, vec![builtin_mirror()]);
    assert_eq!(m.mirrors[0].name, "pypi");
    assert_eq!(m.mirrors[0].url, "https://pypi.org/simple/");
    assert!(m.mirrors[0].is_default && m.mirrors[0].is_active);
}

#[test]
fn empty_config_seeds_builtin_mirror() {
    let m = MirrorManager::new("/cfg/mirrors.json".to_string(), Some(vec![]));
    assert_eq!(m.mirrors.len(), 1);
    assert_eq!(m.mirrors[0].name, "pypi");
}

#[test]
fn loaded_config_is_kept() {
    let loaded = vec![mirror("corp", "https://corp.example/simple", true, true)];
    let m = MirrorManager::new("/cfg/mirrors.json".to_string(), Some(loaded.clone()));
    assert_eq!(m.mirrors, loaded);
    assert_eq!(m.config_path, "/cfg/mirrors.json");
}

#[test]
fn add_default_twice_leaves_one_default() {
    let mut m = MirrorManager::new("/cfg".to_string(), None);
    m.add_mirror("a".to_string(), "https://a.example".to_string(), true);
    m.add_mirror("b".to_string(), "https://b.example".to_string(), true);
    assert_eq!(defaults(&m), vec!["b".to_string()]);

    let mut n = MirrorManager::new("/cfg".to_string(), None);
    n.add_mirror("b".to_string(), "https://b.example".to_string(), true);
    n.add_mirror("a".to_string(), "https://a.example".to_string(), true);
    assert_eq!(defaults(&n), vec!["a".to_string()]);
    assert_eq!(n.mirrors.len(), 3);
}

#[test]
fn add_non_default_keeps_current_default() {
    let mut m = MirrorManager::new("/cfg".to_string(), None);
    m.add_mirror("extra".to_string(), "https://x.example".to_string(), false);
    assert_eq!(defaults(&m), vec!["pypi".to_string()]);
    let last = m.mirrors.last().unwrap();
    assert!(last.is_active && !last.is_default && last.last_tested.is_none());
}

#[test]
fn remove_drops_every_mirror_of_that_name() {
    let loaded = vec![
        mirror("a", "https://a1", false, true),
        mirror("b", "https://b", true, true),
        mirror("a", "https://a2", false, true),
    ];
    let mut m = MirrorManager::new("/cfg".to_string(), Some(loaded));
    m.remove_mirror("a");
    assert_eq!(m.mirrors, vec![mirror("b", "https://b", true, true)]);
    m.remove_mirror("zzz");
    assert_eq!(m.mirrors.len(), 1);
}

#[test]
fn default_mirror_must_be_active() {
    let loaded = vec![mirror("a", "https://a", true, false), mirror("b", "https://b", false, true)];
    let m = MirrorManager::new("/cfg".to_string(), Some(loaded));
    assert!(m.get_default_mirror().is_none());

    let loaded = vec![mirror("a", "https://a", false, true), mirror("b", "https://b", true, true)];
    let m = MirrorManager::new("/cfg".to_string(), Some(loaded));
    assert_eq!(m.get_default_mirror().unwrap().name, "b");
}

#[test]
fn probe_url_appends_pip_path() {
    let m = MirrorManager::new("/cfg".to_string(), None);
    assert_eq!(m.probe_url("pypi"), Some("https://pypi.org/simple//pip/".to_string()));
    assert_eq!(m.probe_url("nope"), None);
}

#[test]
fn metadata_url_replaces_simple_index_path() {
    let m = builtin_mirror();
    assert_eq!(sa::mirrors::metadata_url(&m, "requests"), "https://pypi.org/pypi/requests/json");
    let other = mirror("corp", "https://corp.example/simple", false, true);
    assert_eq!(sa::mirrors::metadata_url(&other, "numpy"), "https://corp.example/pypi/numpy/json");
    let bare = mirror("bare", "https://bare.example", false, true);
    assert_eq!(sa::mirrors::metadata_url(&bare, "x"), "https://bare.example/pypi/x/json");
}
