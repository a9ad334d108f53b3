use mcpm::manifest::VersionSpec;
use mcpm::repository::VersionResult;
use mcpm::resolver::{
    find_version, is_semver_range, latest_version, normalize_semver_string, normalize_version,
    resolve_spec, resolve_version, resolve_with_exact, resolve_with_normalized,
    resolve_with_semver, satisfies, strip_comparators,
};

fn candidates(versions: &[&str]) -> Vec<VersionResult> {
    versions
        .iter()
        .enumerate()
        .map(|(i, v)| VersionResult {
            mod_id: "P7dR8mSH".to_string(),
            version: v.to_string(),
            minecraft_versions: vec!["1.21.7".to_string()],
            url: format!("https://cdn.example/{}", i),
            hash: format!("hash-{}", i),
        })
        .collect()
}

#[test]
fn range_is_told_by_its_first_character() {
    assert!(is_semver_range("^1.2.0"));
    assert!(is_semver_range("~1"));
    assert!(is_semver_range(">=1.18, <1.20"));
    assert!(is_semver_range("<2"));
    assert!(is_semver_range("*"));
    assert!(!is_semver_range("1.2.3"));
    assert!(!is_semver_range("=1.2.3"));
    assert!(!is_semver_range(" ^1"));
    assert!(!is_semver_range(""));
}

#[test]
fn leading_non_digits_are_stripped() {
    assert_eq!(normalize_version("mc1.21.1-0.6.5-fabric"), "1.21.1-0.6.5-fabric");
    assert_eq!(normalize_version("v2.0"), "2.0");
    assert_eq!(normalize_version("^1.0.0"), "1.0.0");
    assert_eq!(normalize_version("1.0.0"), "1.0.0");
    assert_eq!(normalize_version("release"), "");
    assert_eq!(normalize_version(""), "");
}

#[test]
fn comparators_are_stripped_for_the_exact_fallback() {
    assert_eq!(strip_comparators("^1.2.3"), "1.2.3");
    assert_eq!(strip_comparators(">=1.2.3"), "1.2.3");
    assert_eq!(strip_comparators("~<*=x"), "x");
    assert_eq!(strip_comparators("v^1"), "v^1");
    assert_eq!(strip_comparators("^~"), "");
}

#[test]
fn core_is_brought_to_three_components() {
    assert_eq!(normalize_semver_string("1.2.3"), "1.2.3");
    assert_eq!(normalize_semver_string("1.2"), "1.2.0");
    assert_eq!(normalize_semver_string("1"), "1.0.0");
    assert_eq!(normalize_semver_string("1.2.3.4"), "1.2.3");
    assert_eq!(normalize_semver_string("15.2.1.900.7"), "15.2.1");
    assert_eq!(normalize_semver_string("1.2.3-beta.1"), "1.2.3-beta");
}

#[test]
fn leading_comparator_is_kept() {
    assert_eq!(normalize_semver_string("^1.2"), "^1.2.0");
    assert_eq!(normalize_semver_string(">=1"), ">=1.0.0");
    assert_eq!(normalize_semver_string("~1.2.3.4"), "~1.2.3");
    assert_eq!(normalize_semver_string("=1.2.3"), "=1.2.3");
    assert_eq!(normalize_semver_string(">=1.18, <1.20"), ">=1.18, <1.20");
}

#[test]
fn what_else_stands_before_the_first_digit_is_dropped() {
    assert_eq!(normalize_semver_string("v1.2"), "1.2.0");
    assert_eq!(normalize_semver_string("mc1.21.1-0.6.5-fabric"), "1.21.1-0");
    assert_eq!(normalize_semver_string("^v1.2"), "^1.2.0");
    assert_eq!(normalize_semver_string("> 1.2"), ">1.2.0");
    assert_eq!(normalize_semver_string("v^1.2"), "1.2.0");
}

#[test]
fn text_without_digit_has_an_empty_core() {
    assert_eq!(normalize_semver_string("*"), "*.0.0");
    assert_eq!(normalize_semver_string("a.b"), ".0.0");
    assert_eq!(normalize_semver_string(""), ".0.0");
    assert_eq!(normalize_semver_string("^release"), "^.0.0");
}

#[test]
fn semantic_match_picks_the_highest_admitted_version() {
    let available = candidates(&["1.0.0", "1.4.2", "2.0.0", "1.10.0", "0.9.0"]);
    let picked = resolve_with_semver("^1.0.0", &available).unwrap();
    assert_eq!(picked.version, "1.10.0");
    assert_eq!(picked.url, "https://cdn.example/3");
    assert_eq!(picked.hash, "hash-3");
    assert_eq!(picked.mod_id, "P7dR8mSH");
    assert_eq!(picked.minecraft_versions, vec!["1.21.7".to_string()]);
    let picked = resolve_with_semver("~1.4", &available).unwrap();
    assert_eq!(picked.version, "1.4.2");
    let picked = resolve_with_semver(">=1.0.0", &available).unwrap();
    assert_eq!(picked.version, "2.0.0");
    let picked = resolve_with_semver("<1.0.0", &available).unwrap();
    assert_eq!(picked.version, "0.9.0");
}

#[test]
fn semantic_match_reads_short_and_long_versions() {
    let available = candidates(&["1.2", "1.3.0.77", "1"]);
    let picked = resolve_with_semver("^1", &available).unwrap();
    assert_eq!(picked.version, "1.3.0.77");
    let picked = resolve_with_semver("~1.2", &available).unwrap();
    assert_eq!(picked.version, "1.2");
}

#[test]
fn semantic_match_passes_over_what_is_no_version() {
    let available = candidates(&["latest", "=1.5.0", "1.2.0", "01.9.0", "1.x"]);
    let picked = resolve_with_semver("^1.0.0", &available).unwrap();
    assert_eq!(picked.version, "1.2.0");
    assert!(resolve_with_semver("^3", &available).is_none());
    assert!(resolve_with_semver("not a range", &available).is_none());
    assert!(resolve_with_semver("*", &available).is_none());
}

#[test]
fn semantic_match_reads_past_a_prefix_and_returns_the_candidate_as_given() {
    let available = candidates(&["v1.5.0", "mc-1.7.0", "release 2.0.0"]);
    let picked = resolve_with_semver("^1.0.0", &available).unwrap();
    assert_eq!(picked.version, "mc-1.7.0");
    assert_eq!(picked.url, "https://cdn.example/1");
    let picked = resolve_with_semver("<1.6", &available).unwrap();
    assert_eq!(picked.version, "v1.5.0");
    let picked = resolve_with_semver(">=1.18, <2.1", &available).unwrap();
    assert_eq!(picked.version, "release 2.0.0");
}

#[test]
fn tie_resolves_to_the_first_in_input_order() {
    let available = candidates(&["2.0.0", "2.0.0", "1.9.0"]);
    let picked = resolve_version(">=1.0.0", &available).unwrap();
    assert_eq!(picked.version, "2.0.0");
    assert_eq!(picked.url, "https://cdn.example/0");
    let available = candidates(&["1.9.0", "2.0", "2.0.0", "2.0.0.1"]);
    let picked = resolve_version("^2", &available).unwrap();
    assert_eq!(picked.version, "2.0");
    assert_eq!(picked.url, "https://cdn.example/1");
}

#[test]
fn caret_range_keeps_below_the_next_major() {
    let available = candidates(&["2.0.0", "2.0.0", "1.9.0"]);
    let picked = resolve_version("^1.0.0", &available).unwrap();
    assert_eq!(picked.version, "1.9.0");
    assert_eq!(picked.url, "https://cdn.example/2");
}

#[test]
fn digit_normalized_match_drops_the_comparator_of_the_range() {
    let available = candidates(&["1.4.2", "1.9.0", "2.0.0"]);
    assert!(resolve_with_semver("~>1.4", &available).is_none());
    let picked = resolve_with_normalized("~>1.4", &available).unwrap();
    assert_eq!(picked.version, "1.9.0");
    let picked = resolve_version("~>1.4", &available).unwrap();
    assert_eq!(picked.version, "1.9.0");
    let picked = resolve_with_normalized("<2.0.0", &available).unwrap();
    assert_eq!(picked.version, "2.0.0");
}

#[test]
fn digit_normalized_match_strips_the_versions_and_returns_them_as_given() {
    let available = candidates(&["=1.5.0", "*1.7.0", "=2.0.0"]);
    assert!(resolve_with_semver("^1.0.0", &available).is_none());
    let picked = resolve_with_normalized("^1.0.0", &available).unwrap();
    assert_eq!(picked.version, "*1.7.0");
    assert_eq!(picked.url, "https://cdn.example/1");
    let picked = resolve_version("^1.0.0", &available).unwrap();
    assert_eq!(picked.version, "*1.7.0");
}

#[test]
fn exact_fallback_compares_raw_texts() {
    let available = candidates(&["beta", "release-x", "release-x"]);
    let picked = resolve_with_exact("^release-x", &available).unwrap();
    assert_eq!(picked.url, "https://cdn.example/1");
    let picked = resolve_version(">=release-x", &available).unwrap();
    assert_eq!(picked.version, "release-x");
    assert_eq!(picked.url, "https://cdn.example/1");
    assert!(resolve_with_exact("release", &available).is_none());
    assert!(resolve_version("^gamma", &available).is_none());
}

#[test]
fn tiers_are_tried_in_order() {
    let available = candidates(&["^1.0.0", "=1.3.0", "1.1.0"]);
    let picked = resolve_version("^1.0.0", &available).unwrap();
    assert_eq!(picked.version, "1.1.0");
    let available = candidates(&["^1.2.0", "1.0.0", "=1.3.0"]);
    let picked = resolve_version("^1.2.0", &available).unwrap();
    assert_eq!(picked.version, "=1.3.0");
    let available = candidates(&["^1.2.0", "1.2.0", "1.0.0"]);
    let picked = resolve_version("^1.2.0", &available).unwrap();
    assert_eq!(picked.version, "1.2.0");
    let available = candidates(&["1.2.0", "1.0.0", "0.9.0"]);
    let picked = resolve_version("^2.0.0", &available);
    assert!(picked.is_none());
    let available = candidates(&["0.9.0", "2.0.0", "2.0.0-"]);
    let picked = resolve_version("^2.0.0-", &available).unwrap();
    assert_eq!(picked.version, "2.0.0-");
    let available = candidates(&["*", "v3"]);
    assert!(resolve_version("*", &available).is_none());
    let available = candidates(&["v3", ""]);
    let picked = resolve_version("*", &available).unwrap();
    assert_eq!(picked.url, "https://cdn.example/1");
}

#[test]
fn empty_candidate_list_yields_nothing() {
    let available: Vec<VersionResult> = Vec::new();
    assert!(resolve_with_semver("^1.0.0", &available).is_none());
    assert!(resolve_with_normalized("^1.0.0", &available).is_none());
    assert!(resolve_with_exact("^1.0.0", &available).is_none());
    assert!(resolve_version("^1.0.0", &available).is_none());
    assert!(resolve_version("", &available).is_none());
    assert!(resolve_spec(&VersionSpec::Exact("1.0.0".to_string()), &available).is_none());
    assert!(latest_version(&available).is_none());
}

#[test]
fn resolution_is_deterministic() {
    let available = candidates(&["1.0.0", "v1.4.0", "1.2.0", "1.2.0", "junk", "2.0.0-rc.1"]);
    for range in ["^1.0.0", "~1.2", ">=1", "*", "^junk", "=1.2.0", "", "^9"] {
        let first = resolve_version(range, &available);
        let second = resolve_version(range, &available);
        let third = resolve_version(range, &candidates(&[
            "1.0.0", "v1.4.0", "1.2.0", "1.2.0", "junk", "2.0.0-rc.1",
        ]));
        match (first, second, third) {
            (Some(a), Some(b), Some(c)) => {
                assert_eq!(a.version, b.version);
                assert_eq!(a.url, b.url);
                assert_eq!(a.hash, b.hash);
                assert_eq!(a.version, c.version);
                assert_eq!(a.url, c.url);
            }
            (None, None, None) => {}
            _ => panic!("resolution of {} differs between calls", range),
        }
    }
}

#[test]
fn prerelease_ranks_below_its_release() {
    let available = candidates(&["1.0.0-rc", "1.0.0", "1.0.0-alpha"]);
    let picked = latest_version(&available).unwrap();
    assert_eq!(picked.version, "1.0.0");
    let available = candidates(&["1.0.0-alpha", "1.0.0-rc", "1.0.0-beta"]);
    let picked = latest_version(&available).unwrap();
    assert_eq!(picked.version, "1.0.0-rc");
}

#[test]
fn latest_is_the_highest_version_of_all() {
    let available = candidates(&["1.0.0", "1.1.0"]);
    assert_eq!(latest_version(&available).unwrap().version, "1.1.0");
    let available = candidates(&["3.0.0", "1.1.0", "3.0.0"]);
    assert_eq!(latest_version(&available).unwrap().url, "https://cdn.example/0");
    let available = candidates(&["nightly", "weekly"]);
    assert_eq!(latest_version(&available).unwrap().version, "nightly");
}

#[test]
fn exact_specifier_finds_the_first_equal_version() {
    let available = candidates(&["1.2.3.0", "1.2.3", "1.2.3"]);
    let spec = VersionSpec::Exact("1.2.3".to_string());
    let picked = resolve_spec(&spec, &available).unwrap();
    assert_eq!(picked.url, "https://cdn.example/1");
    let picked = find_version(&available, "1.2.3.0").unwrap();
    assert_eq!(picked.url, "https://cdn.example/0");
    assert!(find_version(&available, "1.2").is_none());
    let spec = VersionSpec::Range("^1.0.0".to_string());
    let picked = resolve_spec(&spec, &available).unwrap();
    assert_eq!(picked.url, "https://cdn.example/0");
}

#[test]
fn exact_specs_use_string_equality_only() {
    let spec = VersionSpec::Exact("1.2.3".to_string());
    assert!(satisfies(&spec, "1.2.3"));
    assert!(!satisfies(&spec, "1.2.3.0"));
    assert!(!satisfies(&spec, "v1.2.3"));
    assert!(!satisfies(&spec, "1.2.3 "));
    assert!(!satisfies(&spec, ""));
    let spec = VersionSpec::Exact("^1.0.0".to_string());
    assert!(!satisfies(&spec, "1.0.0"));
    assert!(satisfies(&spec, "^1.0.0"));
}

#[test]
fn range_is_satisfied_by_semantic_or_digit_normalized_match() {
    let spec = VersionSpec::Range("^1.0.0".to_string());
    assert!(satisfies(&spec, "1.0.0"));
    assert!(satisfies(&spec, "1.9.3"));
    assert!(satisfies(&spec, "1.2"));
    assert!(satisfies(&spec, "1.2.3.4"));
    assert!(satisfies(&spec, "v1.2.0"));
    assert!(satisfies(&spec, "=1.2.0"));
    assert!(!satisfies(&spec, "2.0.0"));
    assert!(!satisfies(&spec, "0.9.0"));
    assert!(!satisfies(&spec, "release"));
}

#[test]
fn range_with_an_unknown_comparator_is_satisfied_without_it() {
    let spec = VersionSpec::Range("~>1.4".to_string());
    assert!(satisfies(&spec, "1.4.0"));
    assert!(satisfies(&spec, "1.9.0"));
    assert!(!satisfies(&spec, "2.0.0"));
    assert!(!satisfies(&spec, "1.3.9"));
}

#[test]
fn range_is_never_satisfied_by_the_exact_fallback() {
    let spec = VersionSpec::Range("^release-x".to_string());
    let available = candidates(&["release-x"]);
    assert!(resolve_spec(&spec, &available).is_some());
    assert!(!satisfies(&spec, "release-x"));
}

/// The semantic match as it can be had from `semver` directly: the prepared
/// versions sorted from high to low without disturbing equal ones, and the
/// first of them that the prepared range matches.
fn sorted_match(range: &str, available: &[VersionResult]) -> Option<usize> {
    let requirement = semver::VersionReq::parse(&normalize_semver_string(range)).ok()?;
    let mut parsed: Vec<(semver::Version, usize)> = available
        .iter()
        .enumerate()
        .filter_map(|(i, c)| {
            semver::Version::parse(&normalize_semver_string(&c.version)).ok().map(|v| (v, i))
        })
        .collect();
    parsed.sort_by(|a, b| b.0.cmp(&a.0));
    parsed.into_iter().find(|(v, _)| requirement.matches(v)).map(|(_, i)| i)
}

#[test]
fn semantic_match_is_the_first_match_of_the_sorted_versions() {
    let pool = [
        "1.0.0", "1.0", "1.2.3", "1.2.3-alpha", "1.2.3-alpha.1", "1.2.3-beta", "1.2.3+build",
        "1.2.3+build.2", "1.10.0", "1.9.9", "2.0.0", "2.0.0-rc.1", "0.9.0", "0.0.1", "v1.5.0",
        "mc1.21.1-0.6.5", "junk", "", "01.2.3", "1.2.3.4", "3", "=1.4.0", "1.2.x",
    ];
    let ranges = [
        "^1.0.0", "~1.2", ">=1.2.3", "<2", "<=1.2.3", ">1.2.3-alpha", "^0.9", "=1.2.3", "*", "1",
        "^1.2.3-alpha", ">=0.0.0", "~>1.4", ">=1.0, <2.0", "junk", "",
    ];
    let mut state: u64 = 0x2545_f491_4f6c_dd1d;
    let mut next = |bound: usize| -> usize {
        state = state.wrapping_mul(6364136223846793005).wrapping_add(1442695040888963407);
        ((state >> 33) as usize) % bound
    };
    for _ in 0..400 {
        let len = next(7);
        let versions: Vec<&str> = (0..len).map(|_| pool[next(pool.len())]).collect();
        let available = candidates(&versions);
        for range in ranges {
            let expected = sorted_match(range, &available).map(|i| available[i].url.clone());
            let found = resolve_with_semver(range, &available).map(|c| c.url);
            assert_eq!(found, expected, "range {:?} among {:?}", range, versions);
        }
    }
}
