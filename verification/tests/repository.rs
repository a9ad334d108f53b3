use mcpm::manifest::Side;
use mcpm::modrinth::{
    find_result, find_url, get_side, mod_from_hit, search_results, search_url, version_from_item,
    version_results, versions_url, with_pagination, FindResponse, SearchItem, SearchResponse,
    VersionFile, VersionItem,
};
use mcpm::repository::{gather, has_more, route, ModResult, RepositoryService, PAGINATION_SIZE};
use mcpm::table::Table;

fn hit(slug: &str, client: &str, server: &str) -> SearchItem {
    SearchItem {
        author: "jellysquid3".to_string(),
        categories: Vec::new(),
        client_side: client.to_string(),
        color: Some(7),
        date_created: String::new(),
        date_modified: String::new(),
        description: format!("About {}", slug),
        display_categories: Vec::new(),
        downloads: 10,
        featured_gallery: None,
        follows: 2,
        gallery: Vec::new(),
        icon_url: None,
        latest_version: "x".to_string(),
        license: "MIT".to_string(),
        project_id: format!("ID-{}", slug),
        project_type: "mod".to_string(),
        server_side: server.to_string(),
        slug: slug.to_string(),
        title: slug.to_uppercase(),
        versions: Vec::new(),
    }
}

fn file(url: &str, primary: bool, hashes: &[(&str, &str)]) -> VersionFile {
    let mut table = Table::new();
    for (algorithm, hash) in hashes {
        table.insert(algorithm.to_string(), hash.to_string());
    }
    VersionFile { url: url.to_string(), filename: "f.jar".to_string(), primary, size: 1, hashes: table }
}

fn item(version: &str, files: Vec<VersionFile>) -> VersionItem {
    VersionItem {
        id: "v".to_string(),
        project_id: "AANobbMI".to_string(),
        author_id: "a".to_string(),
        date_published: String::new(),
        version_number: version.to_string(),
        game_versions: vec!["1.21.7".to_string(), "1.21.6".to_string()],
        loaders: vec!["fabric".to_string()],
        files,
        changelog: None,
        dependencies: Vec::new(),
        status: "listed".to_string(),
        requested_status: None,
    }
}

#[test]
fn project_identifier_is_routed_by_its_prefix() {
    assert_eq!(route("modrinth:sodium"), ("modrinth".to_string(), "sodium".to_string()));
    assert_eq!(route("CurseForge:JEI"), ("curseforge".to_string(), "JEI".to_string()));
    assert_eq!(route("github:owner:repo"), ("github".to_string(), "owner:repo".to_string()));
    assert_eq!(route("AANobbMI"), ("modrinth".to_string(), "AANobbMI".to_string()));
    assert_eq!(route(":x"), ("".to_string(), "x".to_string()));
    assert_eq!(route("maven:"), ("maven".to_string(), "".to_string()));
    assert_eq!(route(""), ("modrinth".to_string(), "".to_string()));
}

#[test]
fn providers_are_registered_in_lower_case() {
    let service: RepositoryService<u8> = RepositoryService::new();
    assert_eq!(service.len(), 0);
    assert_eq!(service.first_provider(), None);
    assert_eq!(service.get_provider("modrinth"), None);
    let service = service.with_provider("Modrinth", 1).with_provider("maven", 2);
    assert_eq!(service.len(), 2);
    assert_eq!(service.get_provider("modrinth"), Some(&1));
    assert_eq!(service.get_provider("MODRINTH"), Some(&1));
    assert_eq!(service.get_provider("Maven"), Some(&2));
    assert_eq!(service.get_provider("github"), None);
    assert_eq!(*service.provider_at(0), 1);
    assert_eq!(*service.provider_at(1), 2);
}

#[test]
fn registering_a_name_again_replaces_the_provider_in_place() {
    let service: RepositoryService<u8> = RepositoryService::new()
        .with_provider("modrinth", 1)
        .with_provider("maven", 2)
        .with_provider("MODRINTH", 3);
    assert_eq!(service.len(), 2);
    assert_eq!(service.first_provider(), Some(&3));
    assert_eq!(service.get_provider("modrinth"), Some(&3));
    assert_eq!(*service.provider_at(1), 2);
}

#[test]
fn find_asks_only_the_first_registered_provider() {
    let service: RepositoryService<&str> =
        RepositoryService::new().with_provider("maven", "second choice").with_provider("modrinth", "x");
    assert_eq!(service.first_provider(), Some(&"second choice"));
}

#[test]
fn versions_are_asked_of_the_routed_provider() {
    let service: RepositoryService<u8> =
        RepositoryService::new().with_provider("modrinth", 1).with_provider("maven", 2);
    assert_eq!(service.versions_target("sodium"), Some((&1, "sodium".to_string())));
    assert_eq!(service.versions_target("modrinth:sodium"), Some((&1, "sodium".to_string())));
    assert_eq!(service.versions_target("Maven:org:lib"), Some((&2, "org:lib".to_string())));
    assert_eq!(service.versions_target("github:owner/repo"), None);
    let empty: RepositoryService<u8> = RepositoryService::new();
    assert_eq!(empty.versions_target("sodium"), None);
}

#[test]
fn search_results_are_concatenated_as_they_come() {
    let result = |id: &str| ModResult {
        id: id.to_string(),
        slug: String::new(),
        name: String::new(),
        description: String::new(),
        source: String::new(),
        side: Side::Both,
        url: String::new(),
    };
    let parts = vec![vec![result("a"), result("b")], Vec::new(), vec![result("a"), result("c")]];
    let ids: Vec<String> = gather(parts).into_iter().map(|r| r.id).collect();
    assert_eq!(ids, vec!["a", "b", "a", "c"]);
    assert!(gather(Vec::new()).is_empty());
}

#[test]
fn page_is_a_window_of_twenty() {
    assert_eq!(PAGINATION_SIZE, 20);
    assert_eq!(with_pagination(0), "&offset=0&limit=20");
    assert_eq!(with_pagination(1), "&offset=20&limit=20");
    assert_eq!(with_pagination(7), "&offset=140&limit=20");
    assert!(has_more(20));
    assert!(has_more(21));
    assert!(!has_more(19));
    assert!(!has_more(0));
}

#[test]
fn addresses_are_built_as_the_catalog_expects() {
    assert_eq!(
        search_url("sodium", 2),
        "https://api.modrinth.com/v2/search?query=sodium&offset=40&limit=20"
    );
    assert_eq!(find_url("sodium"), "https://api.modrinth.com/v2/project/sodium");
    assert_eq!(
        versions_url("AANobbMI", &vec!["1.21.7".to_string()], &vec!["fabric".to_string()]),
        "https://api.modrinth.com/v2/project/AANobbMI/version?game_versions=[\"1.21.7\"]&loaders=[\"fabric\"]"
    );
    assert_eq!(
        versions_url("x", &vec!["a\"b".to_string(), "c".to_string()], &Vec::new()),
        "https://api.modrinth.com/v2/project/x/version?game_versions=[\"a\\\"b\",\"c\"]&loaders=[]"
    );
}

#[test]
fn side_follows_what_client_and_server_support() {
    assert_eq!(get_side("required", "required"), Side::Both);
    assert_eq!(get_side("optional", "required"), Side::Both);
    assert_eq!(get_side("required", "unsupported"), Side::Client);
    assert_eq!(get_side("optional", ""), Side::Client);
    assert_eq!(get_side("unsupported", "optional"), Side::Server);
    assert_eq!(get_side("unknown", "required"), Side::Server);
    assert_eq!(get_side("unsupported", "unsupported"), Side::Unknown);
    assert_eq!(get_side("Required", "OPTIONAL"), Side::Unknown);
}

#[test]
fn hits_become_results() {
    let found = mod_from_hit(&hit("sodium", "required", "unsupported"));
    assert_eq!(found.id, "ID-sodium");
    assert_eq!(found.slug, "sodium");
    assert_eq!(found.name, "SODIUM");
    assert_eq!(found.description, "About sodium");
    assert_eq!(found.source, "Modrinth");
    assert_eq!(found.side, Side::Client);
    assert_eq!(found.url, "https://modrinth.com/mod/sodium");
    let response = SearchResponse {
        hits: vec![hit("a", "optional", "optional"), hit("b", "no", "required")],
    };
    let results = search_results(Some(response));
    assert_eq!(results.len(), 2);
    assert_eq!(results[0].slug, "a");
    assert_eq!(results[0].side, Side::Both);
    assert_eq!(results[1].slug, "b");
    assert_eq!(results[1].side, Side::Server);
    assert_eq!(results[1].url, "https://modrinth.com/mod/b");
}

#[test]
fn failed_requests_degrade_to_nothing() {
    assert!(search_results(None).is_empty());
    assert!(find_result(None).is_none());
    assert!(version_results(None).is_empty());
    assert!(version_results(Some(Vec::new())).is_empty());
}

#[test]
fn project_becomes_a_result() {
    let response = FindResponse {
        id: "AANobbMI".to_string(),
        slug: "sodium".to_string(),
        title: "Sodium".to_string(),
        description: "Fast".to_string(),
        client_side: "required".to_string(),
        server_side: "optional".to_string(),
        game_versions: vec!["1.21.7".to_string()],
    };
    let found = find_result(Some(response)).unwrap();
    assert_eq!(found.id, "AANobbMI");
    assert_eq!(found.slug, "sodium");
    assert_eq!(found.name, "Sodium");
    assert_eq!(found.description, "Fast");
    assert_eq!(found.source, "Modrinth");
    assert_eq!(found.side, Side::Both);
    assert_eq!(found.url, "https://modrinth.com/mod/sodium");
}

#[test]
fn primary_file_gives_url_and_hash() {
    let files = vec![
        file("https://cdn/sources.jar", false, &[("sha512", "wrong")]),
        file("https://cdn/mod.jar", true, &[("sha1", "one"), ("sha512", "five-twelve")]),
        file("https://cdn/other.jar", true, &[("sha512", "later")]),
    ];
    let candidate = version_from_item(item("0.6.5", files));
    assert_eq!(candidate.mod_id, "AANobbMI");
    assert_eq!(candidate.version, "0.6.5");
    assert_eq!(candidate.minecraft_versions, vec!["1.21.7".to_string(), "1.21.6".to_string()]);
    assert_eq!(candidate.url, "https://cdn/mod.jar");
    assert_eq!(candidate.hash, "five-twelve");
}

#[test]
fn hash_falls_back_to_sha1_and_then_to_nothing() {
    let candidate = version_from_item(item("1", vec![file("u", true, &[("md5", "m"), ("sha1", "one")])]));
    assert_eq!(candidate.hash, "one");
    assert_eq!(candidate.url, "u");
    let candidate = version_from_item(item("1", vec![file("u", true, &[("md5", "m")])]));
    assert_eq!(candidate.hash, "");
    assert_eq!(candidate.url, "u");
    let candidate = version_from_item(item("1", vec![file("u", false, &[("sha512", "h")])]));
    assert_eq!(candidate.hash, "");
    assert_eq!(candidate.url, "");
    let candidate = version_from_item(item("1", Vec::new()));
    assert_eq!(candidate.hash, "");
    assert_eq!(candidate.url, "");
}

#[test]
fn versions_keep_the_order_of_the_catalog() {
    let items = vec![
        item("3.0", vec![file("c", true, &[("sha512", "h3")])]),
        item("1.0", vec![file("a", true, &[("sha1", "h1")])]),
        item("2.0", Vec::new()),
    ];
    let results = version_results(Some(items));
    let seen: Vec<(&str, &str, &str)> =
        results.iter().map(|r| (r.version.as_str(), r.url.as_str(), r.hash.as_str())).collect();
    assert_eq!(seen, vec![("3.0", "c", "h3"), ("1.0", "a", "h1"), ("2.0", "", "")]);
}
