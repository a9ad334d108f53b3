use mcpm::json::JsonValue;
use mcpm::manifest::{
    key_of, Manifest, ManifestError, ManifestService, ModEntry, ModLoader, PartialManifest,
    Provider, Side, VersionSpec,
};

fn entry(slug: &str, version: &str, provider: Provider) -> ModEntry {
    ModEntry {
        slug: slug.to_string(),
        version: VersionSpec::classify(version.to_string()),
        provider,
    }
}

fn mods_of(manifest: &Manifest) -> Vec<(String, String, bool)> {
    (0..manifest.mods.len())
        .map(|i| {
            let spec = manifest.mods.value_at(i);
            (manifest.mods.key_at(i).to_string(), spec.to_string(), spec.is_semver_range())
        })
        .collect()
}

#[test]
fn enumerations_have_lower_case_names() {
    assert_eq!(Side::Client.as_str(), "client");
    assert_eq!(Side::Server.as_str(), "server");
    assert_eq!(Side::Both.as_str(), "both");
    assert_eq!(Side::Unknown.as_str(), "unknown");
    assert_eq!(ModLoader::Forge.as_str(), "forge");
    assert_eq!(ModLoader::Fabric.as_str(), "fabric");
    assert_eq!(ModLoader::Quilt.as_str(), "quilt");
    assert_eq!(ModLoader::NeoForge.as_str(), "neoforge");
    assert_eq!(Provider::Modrinth.as_str(), "modrinth");
    assert_eq!(Provider::CurseForge.as_str(), "curseforge");
    assert_eq!(Provider::Github.as_str(), "github");
    assert_eq!(Provider::Maven.as_str(), "maven");
}

#[test]
fn names_are_read_back() {
    for side in [Side::Client, Side::Server, Side::Both, Side::Unknown] {
        assert_eq!(Side::from_name(side.as_str()), Some(side));
    }
    for loader in [ModLoader::Forge, ModLoader::Fabric, ModLoader::Quilt, ModLoader::NeoForge] {
        assert_eq!(ModLoader::from_name(loader.as_str()), Some(loader));
    }
    for provider in [Provider::Modrinth, Provider::CurseForge, Provider::Github, Provider::Maven] {
        assert_eq!(Provider::from_name(provider.as_str()), Some(provider));
    }
    assert_eq!(Side::from_name("Both"), None);
    assert_eq!(ModLoader::from_name("neo-forge"), None);
    assert_eq!(Provider::from_name(""), None);
}

#[test]
fn specifier_is_classified_at_construction() {
    for raw in ["^1.2.0", "~1", ">=1.18, <1.20", "<2", "*"] {
        let spec = VersionSpec::classify(raw.to_string());
        assert!(matches!(&spec, VersionSpec::Range(r) if r == raw));
        assert!(spec.is_semver_range());
        assert_eq!(spec.as_str(), raw);
        assert_eq!(spec.to_string(), raw);
    }
    for raw in ["1.2.3", "=1.2.3", "", "v^1"] {
        let spec = VersionSpec::classify(raw.to_string());
        assert!(matches!(&spec, VersionSpec::Exact(v) if v == raw));
        assert!(!spec.is_semver_range());
        assert_eq!(spec.as_str(), raw);
        assert_eq!(spec.to_string(), raw);
    }
}

#[test]
fn key_is_provider_and_slug_in_lower_case() {
    assert_eq!(entry("sodium", "1.0.0", Provider::Modrinth).to_key(), "modrinth:sodium");
    assert_eq!(entry("Sodium-Extra", "1.0.0", Provider::CurseForge).to_key(), "curseforge:sodium-extra");
    assert_eq!(entry("", "1.0.0", Provider::Maven).to_key(), "maven:");
    assert_eq!(key_of(Provider::Github, "Owner/Repo"), "github:owner/repo");
}

#[test]
fn default_manifest_holds_the_documented_values() {
    let manifest = Manifest::default();
    assert_eq!(manifest.name, "My Modpack");
    assert_eq!(manifest.version, "1.0.0");
    assert_eq!(manifest.description.as_deref(), Some("A Minecraft modpack"));
    assert_eq!(manifest.author, None);
    assert_eq!(manifest.side, Side::Both);
    assert_eq!(manifest.modloader, ModLoader::Fabric);
    assert_eq!(manifest.minecraft_version, "1.21.7");
    assert_eq!(manifest.default_provider, Provider::Modrinth);
    assert_eq!(manifest.mods.len(), 0);
    assert_eq!(manifest.license, None);
    assert_eq!(manifest.homepage, None);
    assert_eq!(manifest.tags, None);
}

#[test]
fn document_is_merged_field_by_field_over_defaults() {
    let text = r#"{
        "name": "Pack",
        "author": "me",
        "side": "client",
        "modloader": "quilt",
        "minecraft_version": "1.20.1",
        "default_provider": "curseforge",
        "mods": { "modrinth:testmod": "1.0.0", "modrinth:other": "^2" },
        "homepage": "https://example.org",
        "tags": ["tech", "magic"]
    }"#;
    let manifest = ManifestService::new().load(Some(text)).unwrap();
    assert_eq!(manifest.name, "Pack");
    assert_eq!(manifest.version, "1.0.0");
    assert_eq!(manifest.description.as_deref(), Some("A Minecraft modpack"));
    assert_eq!(manifest.author.as_deref(), Some("me"));
    assert_eq!(manifest.side, Side::Client);
    assert_eq!(manifest.modloader, ModLoader::Quilt);
    assert_eq!(manifest.minecraft_version, "1.20.1");
    assert_eq!(manifest.default_provider, Provider::CurseForge);
    assert_eq!(manifest.license, None);
    assert_eq!(manifest.homepage.as_deref(), Some("https://example.org"));
    assert_eq!(manifest.tags, Some(vec!["tech".to_string(), "magic".to_string()]));
    let mut mods = mods_of(&manifest);
    mods.sort();
    assert_eq!(
        mods,
        vec![
            ("modrinth:other".to_string(), "^2".to_string(), true),
            ("modrinth:testmod".to_string(), "1.0.0".to_string(), false),
        ]
    );
}

#[test]
fn field_of_the_wrong_kind_counts_as_missing() {
    let text = r#"{
        "name": 7,
        "version": null,
        "description": ["x"],
        "side": "sideways",
        "modloader": true,
        "default_provider": "Modrinth",
        "mods": { "modrinth:a": "1.0.0", "modrinth:b": 2 },
        "tags": ["a", 1],
        "unknown": "ignored"
    }"#;
    let manifest = ManifestService::new().load(Some(text)).unwrap();
    assert_eq!(manifest.name, "My Modpack");
    assert_eq!(manifest.version, "1.0.0");
    assert_eq!(manifest.description.as_deref(), Some("A Minecraft modpack"));
    assert_eq!(manifest.side, Side::Both);
    assert_eq!(manifest.modloader, ModLoader::Fabric);
    assert_eq!(manifest.default_provider, Provider::Modrinth);
    assert_eq!(manifest.mods.len(), 0);
    assert_eq!(manifest.tags, None);
}

#[test]
fn any_json_document_loads() {
    for text in ["{}", "[]", "null", "42", "\"text\"", "[{\"name\": \"x\"}]"] {
        let manifest = ManifestService::new().load(Some(text)).unwrap();
        assert_eq!(manifest.name, "My Modpack");
        assert_eq!(manifest.mods.len(), 0);
    }
}

#[test]
fn missing_and_malformed_manifest_are_distinct_errors() {
    let service = ManifestService::new();
    assert_eq!(service.load(None).err(), Some(ManifestError::NotFound));
    assert_eq!(service.load(Some("{ not json")).err(), Some(ManifestError::InvalidData));
    assert_eq!(service.load(Some("")).err(), Some(ManifestError::InvalidData));
    assert_eq!(service.load(Some("{} trailing")).err(), Some(ManifestError::InvalidData));
}

#[test]
fn normalizing_replaces_what_is_no_json_by_the_defaults() {
    let service = ManifestService::new();
    assert_eq!(service.normalize("{ not json").name, "My Modpack");
    assert_eq!(service.normalize(r#"{"name": "Kept"}"#).name, "Kept");
    assert_eq!(service.init(None).name, "My Modpack");
    assert_eq!(service.init(Some(r#"{"name": "Kept"}"#)).name, "Kept");
    assert_eq!(service.init(Some("???")).minecraft_version, "1.21.7");
}

#[test]
fn partial_manifest_holds_only_what_the_document_says() {
    let doc = JsonValue::parse(r#"{"version": "3.1", "mods": {"maven:x": "*"}}"#).unwrap();
    let partial = PartialManifest::from_value(&doc);
    assert_eq!(partial.name, None);
    assert_eq!(partial.version.as_deref(), Some("3.1"));
    assert_eq!(partial.side, None);
    assert_eq!(partial.tags, None);
    let mods = partial.mods.unwrap();
    assert_eq!(mods.len(), 1);
    assert_eq!(mods.key_at(0), "maven:x");
    assert!(mods.value_at(0).is_semver_range());
    let partial = PartialManifest::from_value(&JsonValue::Null);
    assert!(partial.name.is_none() && partial.mods.is_none());
    let manifest = Manifest::merge(partial);
    assert_eq!(manifest.version, "1.0.0");
}

#[test]
fn json_values_are_read_as_they_are_written() {
    let doc = JsonValue::parse(r#"{"a": [1, "two", null, true, -2.5e3], "b": {"c": "d"}}"#).unwrap();
    match doc.get("a") {
        Some(JsonValue::Array(items)) => {
            assert!(matches!(&items[0], JsonValue::Number(n) if n == "1"));
            assert!(matches!(&items[1], JsonValue::Text(s) if s == "two"));
            assert!(matches!(&items[2], JsonValue::Null));
            assert!(matches!(&items[3], JsonValue::Bool(true)));
            assert!(matches!(&items[4], JsonValue::Number(_)));
        }
        _ => panic!("member a is no array"),
    }
    assert_eq!(doc.get("b").unwrap().get_text("c").as_deref(), Some("d"));
    assert!(doc.get("c").is_none());
    assert!(doc.get("a").unwrap().get("b").is_none());
    assert_eq!(doc.get("a").unwrap().as_texts(), None);
    assert_eq!(doc.get("a").unwrap().as_str(), None);
    let doc = JsonValue::parse(r#"["x", "y"]"#).unwrap();
    assert_eq!(doc.as_texts(), Some(vec!["x".to_string(), "y".to_string()]));
    assert!(JsonValue::parse("[1, 2").is_none());
}

#[test]
fn keys_are_read_as_entries() {
    let text = r#"{
        "default_provider": "maven",
        "mods": {
            "modrinth:sodium": "^0.6",
            "curseforge:jei": "15.2.1",
            "github:owner:repo": "*",
            "plain": "1",
            "Modrinth:Lithium": "1",
            ":odd": "1"
        }
    }"#;
    let manifest = ManifestService::new().load(Some(text)).unwrap();
    let mut entries: Vec<(String, String, Provider, bool)> = manifest
        .mods_as_entries()
        .into_iter()
        .map(|e| (e.slug.clone(), e.version.to_string(), e.provider, e.version.is_semver_range()))
        .collect();
    entries.sort_by(|a, b| a.0.cmp(&b.0));
    assert_eq!(
        entries,
        vec![
            ("".to_string(), "1".to_string(), Provider::Maven, false),
            ("Lithium".to_string(), "1".to_string(), Provider::Maven, false),
            ("jei".to_string(), "15.2.1".to_string(), Provider::CurseForge, false),
            ("odd".to_string(), "1".to_string(), Provider::Maven, false),
            ("owner:repo".to_string(), "*".to_string(), Provider::Github, true),
            ("sodium".to_string(), "^0.6".to_string(), Provider::Modrinth, true),
        ]
    );
}

#[test]
fn entries_come_in_the_order_of_the_keys() {
    let mut manifest = Manifest::default();
    manifest.insert_mod_entry(&entry("b", "1", Provider::Modrinth));
    manifest.insert_mod_entry(&entry("a", "^2", Provider::Github));
    let entries = manifest.mods_as_entries();
    assert_eq!(entries.len(), 2);
    assert_eq!(entries[0].slug, "b");
    assert_eq!(entries[0].provider, Provider::Modrinth);
    assert_eq!(entries[1].slug, "a");
    assert_eq!(entries[1].provider, Provider::Github);
    assert!(entries[1].version.is_semver_range());
}

#[test]
fn inserting_an_entry_replaces_its_specifier() {
    let mut manifest = Manifest::default();
    manifest.insert_mod_entry(&entry("sodium", "1.0.0", Provider::Modrinth));
    manifest.insert_mod_entry(&entry("lithium", "^1", Provider::Modrinth));
    manifest.insert_mod_entry(&entry("Sodium", "2.0.0", Provider::Modrinth));
    assert_eq!(
        mods_of(&manifest),
        vec![
            ("modrinth:sodium".to_string(), "2.0.0".to_string(), false),
            ("modrinth:lithium".to_string(), "^1".to_string(), true),
        ]
    );
    assert_eq!(manifest.name, "My Modpack");
}

#[test]
fn removing_an_entry_tells_whether_it_was_there() {
    let mut manifest = Manifest::default();
    manifest.insert_mod_entry(&entry("sodium", "1.0.0", Provider::Modrinth));
    manifest.insert_mod_entry(&entry("lithium", "^1", Provider::Modrinth));
    assert!(!manifest.remove_mod_entry(&Provider::CurseForge, "sodium"));
    assert!(!manifest.remove_mod_entry(&Provider::Modrinth, "sod"));
    assert_eq!(manifest.mods.len(), 2);
    assert!(manifest.remove_mod_entry(&Provider::Modrinth, "sodium"));
    assert!(!manifest.remove_mod_entry(&Provider::Modrinth, "sodium"));
    assert_eq!(mods_of(&manifest), vec![("modrinth:lithium".to_string(), "^1".to_string(), true)]);
}

fn encode(value: &JsonValue) -> serde_json::Value {
    match value {
        JsonValue::Null => serde_json::Value::Null,
        JsonValue::Bool(b) => serde_json::Value::Bool(*b),
        JsonValue::Number(n) => serde_json::Value::Number(n.parse().unwrap()),
        JsonValue::Text(s) => serde_json::Value::String(s.clone()),
        JsonValue::Array(items) => serde_json::Value::Array(items.iter().map(encode).collect()),
        JsonValue::Object(members) => {
            serde_json::Value::Object(members.iter().map(|(k, v)| (k.clone(), encode(v))).collect())
        }
    }
}

#[test]
fn manifest_is_written_as_the_complete_document() {
    let mut manifest = Manifest::default();
    manifest.author = Some("me".to_string());
    manifest.tags = Some(vec!["tech".to_string()]);
    manifest.insert_mod_entry(&entry("sodium", "^0.6", Provider::Modrinth));
    manifest.insert_mod_entry(&entry("jei", "15.2.1", Provider::CurseForge));
    let text = serde_json::to_string(&encode(&manifest.to_value())).unwrap();
    let expected = concat_all(&[
        r#"{"author":"me","default_provider":"modrinth","description":"A Minecraft modpack","#,
        r#""homepage":null,"license":null,"minecraft_version":"1.21.7","modloader":"fabric","#,
        r#""mods":{"curseforge:jei":"15.2.1","modrinth:sodium":"^0.6"},"name":"My Modpack","#,
        r#""side":"both","tags":["tech"],"version":"1.0.0"}"#,
    ]);
    assert_eq!(text, expected);
}

fn concat_all(parts: &[&str]) -> String {
    parts.iter().map(|p| p.to_string()).collect()
}

#[test]
fn what_is_written_is_what_is_read() {
    let mut manifest = Manifest::default();
    manifest.name = "Round \"trip\"".to_string();
    manifest.side = Side::Server;
    manifest.modloader = ModLoader::NeoForge;
    manifest.default_provider = Provider::Github;
    manifest.license = Some("MIT".to_string());
    manifest.tags = Some(Vec::new());
    manifest.insert_mod_entry(&entry("b", "*", Provider::Maven));
    manifest.insert_mod_entry(&entry("a", "1.0", Provider::Modrinth));
    let text = serde_json::to_string_pretty(&encode(&manifest.to_value())).unwrap();
    let loaded = ManifestService::new().load(Some(&text)).unwrap();
    assert_eq!(loaded.name, manifest.name);
    assert_eq!(loaded.version, manifest.version);
    assert_eq!(loaded.description, manifest.description);
    assert_eq!(loaded.author, manifest.author);
    assert_eq!(loaded.side, manifest.side);
    assert_eq!(loaded.modloader, manifest.modloader);
    assert_eq!(loaded.minecraft_version, manifest.minecraft_version);
    assert_eq!(loaded.default_provider, manifest.default_provider);
    assert_eq!(loaded.license, manifest.license);
    assert_eq!(loaded.homepage, manifest.homepage);
    assert_eq!(loaded.tags, manifest.tags);
    let mut written = mods_of(&manifest);
    let mut read = mods_of(&loaded);
    written.sort();
    read.sort();
    assert_eq!(read, written);
}
