use mcpm::lock::{LockEntry, LockFile, LockService, Refresh};
use mcpm::manifest::{Manifest, ModEntry, ModLoader, Provider, VersionSpec};
use mcpm::outdated::{select_entries, NoMatchingMods, Outdated, OutdatedEntry};
use mcpm::repository::VersionResult;
use mcpm::upgrade::Upgrade;

fn entry(slug: &str, spec: VersionSpec) -> ModEntry {
    ModEntry { slug: slug.to_string(), version: spec, provider: Provider::Modrinth }
}

fn range(text: &str) -> VersionSpec {
    VersionSpec::Range(text.to_string())
}

fn exact(text: &str) -> VersionSpec {
    VersionSpec::Exact(text.to_string())
}

fn candidates(versions: &[&str]) -> Vec<VersionResult> {
    versions
        .iter()
        .map(|v| VersionResult {
            mod_id: "id".to_string(),
            version: v.to_string(),
            minecraft_versions: Vec::new(),
            url: String::new(),
            hash: String::new(),
        })
        .collect()
}

fn lock_with(entries: &[(&str, &str)]) -> LockService {
    let mut lock = LockFile::new();
    for (key, version) in entries {
        lock.mods.insert(
            key.to_string(),
            LockEntry {
                id: "id".to_string(),
                version: version.to_string(),
                minecraft_versions: Vec::new(),
                url: String::new(),
                hash: String::new(),
            },
        );
    }
    LockService { lock }
}

fn finding(key: &str) -> OutdatedEntry {
    OutdatedEntry {
        key: key.to_string(),
        current: "1".to_string(),
        wanted: Some("2".to_string()),
        latest: None,
    }
}

fn slugs(entries: &[ModEntry]) -> Vec<String> {
    entries.iter().map(|e| e.slug.clone()).collect()
}

#[test]
fn empty_filter_selects_every_entry() {
    let all = vec![entry("sodium", range("*")), entry("lithium", exact("1")), entry("iris", exact("2"))];
    let chosen = select_entries(all, &Vec::new()).unwrap();
    assert_eq!(slugs(&chosen), vec!["sodium", "lithium", "iris"]);
}

#[test]
fn filter_selects_by_substring_of_the_slug() {
    let all = || {
        vec![
            entry("sodium", range("*")),
            entry("sodium-extra", exact("1")),
            entry("lithium", exact("2")),
            entry("iris", exact("3")),
        ]
    };
    let chosen = select_entries(all(), &vec!["sodium".to_string()]).unwrap();
    assert_eq!(slugs(&chosen), vec!["sodium", "sodium-extra"]);
    let chosen = select_entries(all(), &vec!["ium".to_string()]).unwrap();
    assert_eq!(slugs(&chosen), vec!["sodium", "sodium-extra", "lithium"]);
    let chosen = select_entries(all(), &vec!["zzz".to_string(), "ri".to_string(), "extra".to_string()]).unwrap();
    assert_eq!(slugs(&chosen), vec!["sodium-extra", "iris"]);
    let chosen = select_entries(all(), &vec!["".to_string()]).unwrap();
    assert_eq!(chosen.len(), 4);
    assert!(matches!(chosen[0].version, VersionSpec::Range(_)));
}

#[test]
fn filter_matching_no_entry_is_an_error() {
    let all = vec![entry("sodium", range("*")), entry("lithium", exact("1"))];
    assert_eq!(select_entries(all, &vec!["iris".to_string()]).err(), Some(NoMatchingMods));
    let all = vec![entry("sodium", range("*"))];
    assert_eq!(select_entries(all, &vec!["Sodium".to_string()]).err(), Some(NoMatchingMods));
    assert_eq!(select_entries(Vec::new(), &Vec::new()).err(), Some(NoMatchingMods));
    assert_eq!(select_entries(Vec::new(), &vec!["a".to_string()]).err(), Some(NoMatchingMods));
}

#[test]
fn outdated_reports_wanted_and_latest() {
    let lock = lock_with(&[("modrinth:testmod", "1.0.0")]);
    let found = Outdated::check_mod(
        &lock,
        &entry("testmod", range("^1.0.0")),
        &candidates(&["1.0.0", "1.1.0"]),
    )
    .unwrap();
    assert_eq!(found.key, "modrinth:testmod");
    assert_eq!(found.current, "1.0.0");
    assert_eq!(found.wanted.as_deref(), Some("1.1.0"));
    assert_eq!(found.latest.as_deref(), Some("1.1.0"));
}

#[test]
fn wanted_stays_within_the_range_and_latest_does_not() {
    let lock = lock_with(&[("modrinth:testmod", "1.1.0")]);
    let available = candidates(&["2.0.0", "1.1.0", "1.0.0"]);
    let found = Outdated::check_mod(&lock, &entry("testmod", range("^1.0.0")), &available).unwrap();
    assert_eq!(found.wanted.as_deref(), Some("1.1.0"));
    assert_eq!(found.latest.as_deref(), Some("2.0.0"));
    let found = Outdated::check_mod(&lock, &entry("testmod", exact("1.1.0")), &available).unwrap();
    assert_eq!(found.current, "1.1.0");
    assert_eq!(found.wanted.as_deref(), Some("1.1.0"));
    assert_eq!(found.latest.as_deref(), Some("2.0.0"));
    let found = Outdated::check_mod(&lock, &entry("testmod", range("^3")), &available).unwrap();
    assert_eq!(found.wanted, None);
    assert_eq!(found.latest.as_deref(), Some("2.0.0"));
}

#[test]
fn up_to_date_unlocked_and_unlisted_entries_are_passed_over() {
    let lock = lock_with(&[("modrinth:testmod", "1.1.0")]);
    let available = candidates(&["1.0.0", "1.1.0"]);
    assert!(Outdated::check_mod(&lock, &entry("testmod", range("^1.0.0")), &available).is_none());
    assert!(Outdated::check_mod(&lock, &entry("testmod", exact("1.1.0")), &available).is_none());
    assert!(Outdated::check_mod(&lock, &entry("other", range("^1.0.0")), &available).is_none());
    assert!(Outdated::check_mod(&lock, &entry("testmod", range("^1.0.0")), &[]).is_none());
}

#[test]
fn scan_asks_the_provider_of_the_entry() {
    let mut manifest = Manifest::default();
    manifest.modloader = ModLoader::Forge;
    let query = Outdated::query(&manifest, &entry("AANobbMI", exact("1")));
    assert_eq!(query.project_id, "modrinth:AANobbMI");
    assert_eq!(query.game_versions, vec!["1.21.7".to_string()]);
    assert_eq!(query.loaders, vec!["forge".to_string()]);
}

#[test]
fn report_is_sorted_by_key() {
    let found = vec![
        finding("modrinth:sodium"),
        finding("curseforge:jei"),
        finding("modrinth:iris"),
        finding("maven:x"),
        finding("modrinth:Iris"),
    ];
    let result = Outdated::report(9, found);
    assert_eq!(result.total_checked, 9);
    let keys: Vec<&str> = result.outdated.iter().map(|e| e.key.as_str()).collect();
    assert_eq!(
        keys,
        vec!["curseforge:jei", "maven:x", "modrinth:Iris", "modrinth:iris", "modrinth:sodium"]
    );
    assert_eq!(result.outdated[0].wanted.as_deref(), Some("2"));
    let result = Outdated::report(0, Vec::new());
    assert!(result.outdated.is_empty());
}

#[test]
fn findings_with_the_same_key_keep_their_order() {
    let mut first = finding("modrinth:a");
    first.current = "first".to_string();
    let mut second = finding("modrinth:a");
    second.current = "second".to_string();
    let result = Outdated::report(3, vec![finding("modrinth:b"), first, second]);
    let order: Vec<&str> = result.outdated.iter().map(|e| e.current.as_str()).collect();
    assert_eq!(order, vec!["first", "second", "1"]);
}

#[test]
fn upgrade_lists_what_changed() {
    let entries = vec![
        entry("sodium", range("^1")),
        entry("lithium", range("^1")),
        entry("iris", range("^1")),
        entry("phosphor", range("^1")),
    ];
    let mut lock = lock_with(&[("modrinth:sodium", "1.0.0"), ("modrinth:lithium", "1.0.0")]);
    let before = Upgrade::snapshot(&lock, &entries);
    assert_eq!(
        before,
        vec![Some("1.0.0".to_string()), Some("1.0.0".to_string()), None, None]
    );
    let manifest = Manifest::default();
    let newer = candidates(&["1.0.0", "1.2.0"]);
    let same = candidates(&["1.0.0"]);
    assert!(matches!(lock.update_entry(&entries[0], &manifest, Some(&newer), true), Ok(Refresh::Updated)));
    assert!(matches!(lock.update_entry(&entries[1], &manifest, Some(&same), true), Ok(Refresh::Updated)));
    assert!(matches!(lock.update_entry(&entries[2], &manifest, Some(&newer), true), Ok(Refresh::Updated)));
    let result = Upgrade::compare(&entries, &before, &lock);
    assert_eq!(
        result.upgraded,
        vec![
            ("modrinth:sodium".to_string(), Some("1.0.0".to_string()), Some("1.2.0".to_string())),
            ("modrinth:iris".to_string(), None, Some("1.2.0".to_string())),
        ]
    );
    assert_eq!(result.unchanged, 2);
}

#[test]
fn upgrade_of_nothing_changes_nothing() {
    let lock = lock_with(&[]);
    let entries: Vec<ModEntry> = Vec::new();
    let result = Upgrade::compare(&entries, &Upgrade::snapshot(&lock, &entries), &lock);
    assert!(result.upgraded.is_empty());
    assert_eq!(result.unchanged, 0);
}

#[test]
fn report_does_not_depend_on_the_order_of_arrival() {
    let keys = ["modrinth:c", "modrinth:a", "maven:z", "modrinth:b"];
    let expected = vec!["maven:z", "modrinth:a", "modrinth:b", "modrinth:c"];
    for rotation in 0..keys.len() {
        let mut arrived: Vec<OutdatedEntry> = keys.iter().map(|k| finding(k)).collect();
        arrived.rotate_left(rotation);
        let result = Outdated::report(4, arrived);
        let order: Vec<&str> = result.outdated.iter().map(|e| e.key.as_str()).collect();
        assert_eq!(order, expected);
        let mut arrived: Vec<OutdatedEntry> = keys.iter().map(|k| finding(k)).collect();
        arrived.rotate_left(rotation);
        arrived.reverse();
        let result = Outdated::report(4, arrived);
        let order: Vec<&str> = result.outdated.iter().map(|e| e.key.as_str()).collect();
        assert_eq!(order, expected);
    }
}
