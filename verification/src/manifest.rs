//! The manifest: a pack's description and the mods it asks for.

use vstd::prelude::*;
use crate::json::{
    JsonValue, JsonView, array_of_texts, json_document, lemma_texts_of_array, lemma_view_unfolds,
    text_or_null,
};

use crate::resolver::{is_range_text, is_semver_range};
use crate::table::{
    Table, distinct_keys, key_index_from, lemma_key_index_from, lemma_key_index_is,
    lemma_pair_views, lemma_pair_views_with_pair, pair_views, with_pair, without_key,
};
use crate::text::{chars_of, append, find_from, lowercased, text_of_range};

verus! {

/// Where a mod runs.
#[derive(Clone, Copy, Debug, PartialEq, Eq, Structural)]
pub enum Side {
    Client,
    Server,
    Both,
    Unknown,
}

/// The mod loader that a pack targets.
#[derive(Clone, Copy, Debug, PartialEq, Eq, Structural)]
pub enum ModLoader {
    Forge,
    Fabric,
    Quilt,
    NeoForge,
}

/// A catalog that mods come from.
#[derive(Clone, Copy, Debug, PartialEq, Eq, Structural)]
pub enum Provider {
    Modrinth,
    CurseForge,
    Github,
    Maven,
}

impl Side {
    /// The name that stands for this side in a document.
    pub open spec fn name(self) -> Seq<char> {
        match self {
            Side::Client => "client"@,
            Side::Server => "server"@,
            Side::Both => "both"@,
            Side::Unknown => "unknown"@,
        }
    }

    /// The side that `name` stands for, if any.
    pub open spec fn named(name: Seq<char>) -> Option<Side> {
        if name == "client"@ {
            Some(Side::Client)
        } else if name == "server"@ {
            Some(Side::Server)
        } else if name == "both"@ {
            Some(Side::Both)
        } else if name == "unknown"@ {
            Some(Side::Unknown)
        } else {
            None
        }
    }

    /// The name of this side.
    pub fn as_str(&self) -> (r: &'static str)
        ensures
            r@ == self.name(),
    {
        match self {
            Side::Client => "client",
            Side::Server => "server",
            Side::Both => "both",
            Side::Unknown => "unknown",
        }
    }

    /// The side of that name; none for any other text.
    pub fn from_name(name: &str) -> (r: Option<Side>)
        ensures
            r == Side::named(name@),
    {
        if *name == *"client" {
            Some(Side::Client)
        } else if *name == *"server" {
            Some(Side::Server)
        } else if *name == *"both" {
            Some(Side::Both)
        } else if *name == *"unknown" {
            Some(Side::Unknown)
        } else {
            None
        }
    }
}

impl ModLoader {
    /// The name that stands for this loader in a document and in a catalog query.
    pub open spec fn name(self) -> Seq<char> {
        match self {
            ModLoader::Forge => "forge"@,
            ModLoader::Fabric => "fabric"@,
            ModLoader::Quilt => "quilt"@,
            ModLoader::NeoForge => "neoforge"@,
        }
    }

    /// The loader that `name` stands for, if any.
    pub open spec fn named(name: Seq<char>) -> Option<ModLoader> {
        if name == "forge"@ {
            Some(ModLoader::Forge)
        } else if name == "fabric"@ {
            Some(ModLoader::Fabric)
        } else if name == "quilt"@ {
            Some(ModLoader::Quilt)
        } else if name == "neoforge"@ {
            Some(ModLoader::NeoForge)
        } else {
            None
        }
    }

    /// The name of this loader.
    pub fn as_str(&self) -> (r: &'static str)
        ensures
            r@ == self.name(),
    {
        match self {
            ModLoader::Forge => "forge",
            ModLoader::Fabric => "fabric",
            ModLoader::Quilt => "quilt",
            ModLoader::NeoForge => "neoforge",
        }
    }

    /// The loader of that name; none for any other text.
    pub fn from_name(name: &str) -> (r: Option<ModLoader>)
        ensures
            r == ModLoader::named(name@),
    {
        if *name == *"forge" {
            Some(ModLoader::Forge)
        } else if *name == *"fabric" {
            Some(ModLoader::Fabric)
        } else if *name == *"quilt" {
            Some(ModLoader::Quilt)
        } else if *name == *"neoforge" {
            Some(ModLoader::NeoForge)
        } else {
            None
        }
    }
}

impl Provider {
    /// The lower-case name of this catalog, as it stands in keys and documents.
    pub open spec fn name(self) -> Seq<char> {
        match self {
            Provider::Modrinth => "modrinth"@,
            Provider::CurseForge => "curseforge"@,
            Provider::Github => "github"@,
            Provider::Maven => "maven"@,
        }
    }

    /// The catalog that `name` stands for, if any.
    pub open spec fn named(name: Seq<char>) -> Option<Provider> {
        if name == "modrinth"@ {
            Some(Provider::Modrinth)
        } else if name == "curseforge"@ {
            Some(Provider::CurseForge)
        } else if name == "github"@ {
            Some(Provider::Github)
        } else if name == "maven"@ {
            Some(Provider::Maven)
        } else {
            None
        }
    }

    /// The name of this catalog.
    pub fn as_str(&self) -> (r: &'static str)
        ensures
            r@ == self.name(),
    {
        match self {
            Provider::Modrinth => "modrinth",
            Provider::CurseForge => "curseforge",
            Provider::Github => "github",
            Provider::Maven => "maven",
        }
    }

    /// The catalog of that name; none for any other text.
    pub fn from_name(name: &str) -> (r: Option<Provider>)
        ensures
            r == Provider::named(name@),
    {
        if *name == *"modrinth" {
            Some(Provider::Modrinth)
        } else if *name == *"curseforge" {
            Some(Provider::CurseForge)
        } else if *name == *"github" {
            Some(Provider::Github)
        } else if *name == *"maven" {
            Some(Provider::Maven)
        } else {
            None
        }
    }
}

/// What a manifest asks of a mod's version: one exact version, or a range
/// of acceptable ones. Which of the two a text is, is decided once, when the
/// value is made from it.
#[derive(Debug)]
pub enum VersionSpec {
    Exact(String),
    Range(String),
}

/// A `VersionSpec` as plain values.
pub enum VersionSpecView {
    Exact(Seq<char>),
    Range(Seq<char>),
}

impl VersionSpecView {
    /// The text that the specifier was made from.
    pub open spec fn raw(self) -> Seq<char> {
        match self {
            VersionSpecView::Exact(v) => v,
            VersionSpecView::Range(r) => r,
        }
    }

    /// The specifier that a raw text stands for: a range exactly when the text
    /// starts with one of `^ ~ > < *`.
    pub open spec fn of(raw: Seq<char>) -> VersionSpecView {
        if is_range_text(raw) {
            VersionSpecView::Range(raw)
        } else {
            VersionSpecView::Exact(raw)
        }
    }
}

impl View for VersionSpec {
    type V = VersionSpecView;

    open spec fn view(&self) -> VersionSpecView {
        match self {
            VersionSpec::Exact(v) => VersionSpecView::Exact(v@),
            VersionSpec::Range(r) => VersionSpecView::Range(r@),
        }
    }
}

impl Clone for VersionSpec {
    fn clone(&self) -> (r: Self)
        ensures
            r@ == self@,
    {
        match self {
            VersionSpec::Exact(v) => VersionSpec::Exact(v.clone()),
            VersionSpec::Range(r) => VersionSpec::Range(r.clone()),
        }
    }
}

impl VersionSpec {
    /// Classifies a raw text.
    pub fn classify(raw: String) -> (r: VersionSpec)
        ensures
            r@ == VersionSpecView::of(raw@),
    {
        if is_semver_range(raw.as_str()) {
            VersionSpec::Range(raw)
        } else {
            VersionSpec::Exact(raw)
        }
    }

    /// The raw text, without any mark of the kind.
    pub fn as_str(&self) -> (r: &str)
        ensures
            r@ == self@.raw(),
    {
        match self {
            VersionSpec::Exact(v) => v.as_str(),
            VersionSpec::Range(r) => r.as_str(),
        }
    }

    /// The raw text as an owned value.
    pub fn to_string(&self) -> (r: String)
        ensures
            r@ == self@.raw(),
    {
        match self {
            VersionSpec::Exact(v) => v.clone(),
            VersionSpec::Range(r) => r.clone(),
        }
    }

    /// Whether this is a range.
    pub fn is_semver_range(&self) -> (r: bool)
        ensures
            r == (self@ is Range),
    {
        match self {
            VersionSpec::Exact(_) => false,
            VersionSpec::Range(_) => true,
        }
    }
}

/// One mod that a manifest asks for.
#[derive(Debug)]
pub struct ModEntry {
    pub slug: String,
    pub version: VersionSpec,
    pub provider: Provider,
}

/// A `ModEntry` as plain values.
pub struct ModEntryView {
    pub slug: Seq<char>,
    pub version: VersionSpecView,
    pub provider: Provider,
}

impl ModEntryView {
    /// The key under which manifest and lock both file this mod: the
    /// provider's name, a colon and the slug, in lower case.
    pub open spec fn key(self) -> Seq<char> {
        entry_key(self.provider, self.slug)
    }
}

/// The key of the mod `slug` of `provider`.
pub open spec fn entry_key(provider: Provider, slug: Seq<char>) -> Seq<char> {
    lowercased(provider.name() + seq![':'] + slug)
}

impl View for ModEntry {
    type V = ModEntryView;

    open spec fn view(&self) -> ModEntryView {
        ModEntryView { slug: self.slug@, version: self.version@, provider: self.provider }
    }
}

impl Clone for ModEntry {
    fn clone(&self) -> (r: Self)
        ensures
            r@ == self@,
    {
        ModEntry {
            slug: self.slug.clone(),
            version: self.version.clone(),
            provider: self.provider,
        }
    }
}

/// The key of the mod `slug` of `provider`.
pub fn key_of(provider: Provider, slug: &str) -> (r: String)
    ensures
        r@ == entry_key(provider, slug@),
{
    proof {
        reveal_strlit(":");
    }
    let head = append(provider.as_str(), ":");
    let whole = append(head.as_str(), slug);
    assert(":"@ =~= seq![':']);
    whole.as_str().to_lowercase()
}

impl ModEntry {
    /// The key under which manifest and lock both file this mod.
    pub fn to_key(&self) -> (r: String)
        ensures
            r@ == self@.key(),
    {
        key_of(self.provider, self.slug.as_str())
    }
}

/// The text of an optional text.
pub open spec fn text_option(o: Option<String>) -> Option<Seq<char>> {
    match o {
        Some(s) => Some(s@),
        None => None,
    }
}

/// The texts of an optional list of texts.
pub open spec fn texts_option(o: Option<Vec<String>>) -> Option<Seq<Seq<char>>> {
    match o {
        Some(v) => Some(v.deep_view()),
        None => None,
    }
}

/// The declared state of a pack: what it is, and the mods it asks for, each
/// under its key with the version it may have.
#[derive(Debug)]
pub struct Manifest {
    pub name: String,
    pub version: String,
    pub description: Option<String>,
    pub author: Option<String>,
    pub side: Side,
    pub modloader: ModLoader,
    pub minecraft_version: String,
    pub default_provider: Provider,
    pub mods: Table<VersionSpec>,
    pub license: Option<String>,
    pub homepage: Option<String>,
    pub tags: Option<Vec<String>>,
}

/// A `Manifest` as plain values; `mods` in the order in which the keys came.
pub struct ManifestView {
    pub name: Seq<char>,
    pub version: Seq<char>,
    pub description: Option<Seq<char>>,
    pub author: Option<Seq<char>>,
    pub side: Side,
    pub modloader: ModLoader,
    pub minecraft_version: Seq<char>,
    pub default_provider: Provider,
    pub mods: Seq<(Seq<char>, VersionSpecView)>,
    pub license: Option<Seq<char>>,
    pub homepage: Option<Seq<char>>,
    pub tags: Option<Seq<Seq<char>>>,
}

impl View for Manifest {
    type V = ManifestView;

    open spec fn view(&self) -> ManifestView {
        ManifestView {
            name: self.name@,
            version: self.version@,
            description: text_option(self.description),
            author: text_option(self.author),
            side: self.side,
            modloader: self.modloader,
            minecraft_version: self.minecraft_version@,
            default_provider: self.default_provider,
            mods: pair_views(self.mods.pairs()),
            license: text_option(self.license),
            homepage: text_option(self.homepage),
            tags: texts_option(self.tags),
        }
    }
}

/// What a manifest holds for every field that a document leaves out.
pub open spec fn default_manifest() -> ManifestView {
    ManifestView {
        name: "My Modpack"@,
        version: "1.0.0"@,
        description: Some("A Minecraft modpack"@),
        author: None,
        side: Side::Both,
        modloader: ModLoader::Fabric,
        minecraft_version: "1.21.7"@,
        default_provider: Provider::Modrinth,
        mods: Seq::empty(),
        license: None,
        homepage: None,
        tags: None,
    }
}

impl Default for Manifest {
    fn default() -> (r: Self)
        ensures
            r@ == default_manifest(),
    {
        let r = Manifest {
            name: "My Modpack".to_string(),
            version: "1.0.0".to_string(),
            description: Some("A Minecraft modpack".to_string()),
            author: None,
            side: Side::Both,
            modloader: ModLoader::Fabric,
            minecraft_version: "1.21.7".to_string(),
            default_provider: Provider::Modrinth,
            mods: Table::new(),
            license: None,
            homepage: None,
            tags: None,
        };
        assert(r@.mods =~= Seq::empty());
        r
    }
}

/// The entry that a manifest key and its specifier stand for. The key is cut
/// at its first colon: what stands before names the provider, and where it
/// names none the pack's default provider is meant; what follows is the
/// slug. A key without a colon has an empty slug.
pub open spec fn entry_of(key: Seq<char>, spec: VersionSpecView, default_provider: Provider)
    -> ModEntryView {
    let colon = find_from(key, ':', 0);
    ModEntryView {
        slug: if colon < key.len() {
            key.skip(colon + 1)
        } else {
            Seq::empty()
        },
        version: spec,
        provider: match Provider::named(key.take(colon)) {
            Some(p) => p,
            None => default_provider,
        },
    }
}

/// The views of a list of entries, in order.
pub open spec fn entry_views(entries: Seq<ModEntry>) -> Seq<ModEntryView> {
    entries.map_values(|e: ModEntry| e@)
}

impl Manifest {
    /// The mods as entries, one for each key, in the order of the keys.
    pub fn mods_as_entries(&self) -> (r: Vec<ModEntry>)
        ensures
            r.len() == self@.mods.len(),
            forall|i: int|
                0 <= i < r.len() ==> (#[trigger] r@[i])@ == entry_of(
                    self@.mods[i].0,
                    self@.mods[i].1,
                    self.default_provider,
                ),
    {
        let mut entries: Vec<ModEntry> = Vec::new();
        let n = self.mods.len();
        let mut i: usize = 0;
        while i < n
            invariant
                i <= n,
                n == self.mods.pairs().len(),
                entries.len() == i,
                forall|k: int|
                    0 <= k < i ==> (#[trigger] entries@[k])@ == entry_of(
                        self@.mods[k].0,
                        self@.mods[k].1,
                        self.default_provider,
                    ),
            decreases n - i,
        {
            let key = chars_of(self.mods.key_at(i));
            let mut colon: usize = 0;
            while colon < key.len() && key[colon] != ':'
                invariant
                    colon <= key.len(),
                    find_from(key@, ':', colon as int) == find_from(key@, ':', 0),
                decreases key.len() - colon,
            {
                colon = colon + 1;
            }
            let head = text_of_range(&key, 0, colon);
            let slug = if colon < key.len() {
                text_of_range(&key, colon + 1, key.len())
            } else {
                String::new()
            };
            let provider = match Provider::from_name(head.as_str()) {
                Some(p) => p,
                None => self.default_provider,
            };
            let entry = ModEntry { slug, version: self.mods.value_at(i).clone(), provider };
            proof {
                assert(key@.subrange(0, colon as int) =~= key@.take(colon as int));
                if colon < key.len() {
                    assert(key@.subrange(colon + 1, key.len() as int) =~= key@.skip(colon + 1));
                }
                assert(entry@ == entry_of(
                    self@.mods[i as int].0,
                    self@.mods[i as int].1,
                    self.default_provider,
                ));
            }
            entries.push(entry);
            i = i + 1;
        }
        entries
    }

    /// Files the entry's specifier under the entry's key: in place of what
    /// the key held, or as a new last key.
    pub fn insert_mod_entry(&mut self, entry: &ModEntry)
        ensures
            final(self)@ == (ManifestView {
                mods: with_pair(old(self)@.mods, entry@.key(), entry@.version),
                ..old(self)@
            }),
    {
        let key = entry.to_key();
        let spec = entry.version.clone();
        proof {
            lemma_pair_views_with_pair(self.mods.pairs(), key@, spec);
        }
        self.mods.insert(key, spec);
    }

    /// Takes the mod `slug` of `provider` out of the manifest. Returns whether
    /// it was there.
    pub fn remove_mod_entry(&mut self, provider: &Provider, slug: &str) -> (r: bool)
        ensures
            r == old(self).mods.has(entry_key(*provider, slug@)),
            final(self)@ == (ManifestView {
                mods: without_key(old(self)@.mods, entry_key(*provider, slug@)),
                ..old(self)@
            }),
    {
        let key = key_of(*provider, slug);
        proof {
            lemma_pair_views(self.mods.pairs(), key@);
        }
        self.mods.remove(key.as_str()).is_some()
    }
}

/// What a document says of a manifest: each field where the document
/// holds a usable value for it, nothing where it does not.
#[derive(Debug)]
pub struct PartialManifest {
    pub name: Option<String>,
    pub version: Option<String>,
    pub description: Option<String>,
    pub author: Option<String>,
    pub side: Option<Side>,
    pub modloader: Option<ModLoader>,
    pub minecraft_version: Option<String>,
    pub default_provider: Option<Provider>,
    pub mods: Option<Table<VersionSpec>>,
    pub license: Option<String>,
    pub homepage: Option<String>,
    pub tags: Option<Vec<String>>,
}

/// A `PartialManifest` as plain values.
pub struct PartialManifestView {
    pub name: Option<Seq<char>>,
    pub version: Option<Seq<char>>,
    pub description: Option<Seq<char>>,
    pub author: Option<Seq<char>>,
    pub side: Option<Side>,
    pub modloader: Option<ModLoader>,
    pub minecraft_version: Option<Seq<char>>,
    pub default_provider: Option<Provider>,
    pub mods: Option<Seq<(Seq<char>, VersionSpecView)>>,
    pub license: Option<Seq<char>>,
    pub homepage: Option<Seq<char>>,
    pub tags: Option<Seq<Seq<char>>>,
}

/// The pairs of an optional table of specifiers.
pub open spec fn mods_option(o: Option<Table<VersionSpec>>) -> Option<
    Seq<(Seq<char>, VersionSpecView)>,
> {
    match o {
        Some(t) => Some(pair_views(t.pairs())),
        None => None,
    }
}

impl View for PartialManifest {
    type V = PartialManifestView;

    open spec fn view(&self) -> PartialManifestView {
        PartialManifestView {
            name: text_option(self.name),
            version: text_option(self.version),
            description: text_option(self.description),
            author: text_option(self.author),
            side: self.side,
            modloader: self.modloader,
            minecraft_version: text_option(self.minecraft_version),
            default_provider: self.default_provider,
            mods: mods_option(self.mods),
            license: text_option(self.license),
            homepage: text_option(self.homepage),
            tags: texts_option(self.tags),
        }
    }
}

/// `o`'s value, or `d` where it has none.
pub open spec fn value_or<T>(o: Option<T>, d: T) -> T {
    match o {
        Some(v) => v,
        None => d,
    }
}

/// `o`, or `d` where `o` has no value.
pub open spec fn option_or<T>(o: Option<T>, d: Option<T>) -> Option<T> {
    match o {
        Some(v) => Some(v),
        None => d,
    }
}

/// The mods that the members of a JSON object declare: every member must be
/// a text, which is classified as a specifier and filed under the member's
/// name. One member that is no text spoils the whole object.
pub open spec fn specs_from(members: Seq<(Seq<char>, JsonView)>) -> Option<
    Seq<(Seq<char>, VersionSpecView)>,
>
    decreases members.len(),
{
    if members.len() == 0 {
        Some(Seq::empty())
    } else {
        match (specs_from(members.drop_last()), members.last().1.text()) {
            (Some(before), Some(raw)) => Some(
                with_pair(before, members.last().0, VersionSpecView::of(raw)),
            ),
            _ => None,
        }
    }
}

/// The mods that a JSON value declares; nothing unless it is an object of texts.
pub open spec fn mods_of(value: JsonView) -> Option<Seq<(Seq<char>, VersionSpecView)>> {
    match value {
        JsonView::Object(members) => specs_from(members),
        _ => None,
    }
}

/// What a document says of a manifest, field by field. A field of the wrong
/// kind counts as missing, and so does a side, loader or provider of an
/// unknown name.
pub open spec fn partial_of(doc: JsonView) -> PartialManifestView {
    PartialManifestView {
        name: doc.text_member("name"@),
        version: doc.text_member("version"@),
        description: doc.text_member("description"@),
        author: doc.text_member("author"@),
        side: match doc.text_member("side"@) {
            Some(s) => Side::named(s),
            None => None,
        },
        modloader: match doc.text_member("modloader"@) {
            Some(s) => ModLoader::named(s),
            None => None,
        },
        minecraft_version: doc.text_member("minecraft_version"@),
        default_provider: match doc.text_member("default_provider"@) {
            Some(s) => Provider::named(s),
            None => None,
        },
        mods: match doc.member("mods"@) {
            Some(v) => mods_of(v),
            None => None,
        },
        license: doc.text_member("license"@),
        homepage: doc.text_member("homepage"@),
        tags: match doc.member("tags"@) {
            Some(v) => v.texts(),
            None => None,
        },
    }
}

/// The manifest that a partial one stands for: each field that it holds, and
/// the default for each that it lacks.
pub open spec fn merged(p: PartialManifestView) -> ManifestView {
    let d = default_manifest();
    ManifestView {
        name: value_or(p.name, d.name),
        version: value_or(p.version, d.version),
        description: option_or(p.description, d.description),
        author: option_or(p.author, d.author),
        side: value_or(p.side, d.side),
        modloader: value_or(p.modloader, d.modloader),
        minecraft_version: value_or(p.minecraft_version, d.minecraft_version),
        default_provider: value_or(p.default_provider, d.default_provider),
        mods: value_or(p.mods, d.mods),
        license: option_or(p.license, d.license),
        homepage: option_or(p.homepage, d.homepage),
        tags: option_or(p.tags, d.tags),
    }
}

/// Once a member is no text, no longer list of members declares mods.
pub proof fn lemma_specs_from_spoiled(members: Seq<(Seq<char>, JsonView)>, k: int)
    requires
        0 <= k <= members.len(),
        specs_from(members.take(k)) is None,
    ensures
        specs_from(members) is None,
    decreases members.len() - k,
{
    if k < members.len() {
        assert(members.take(k + 1).drop_last() =~= members.take(k));
        lemma_specs_from_spoiled(members, k + 1);
    } else {
        assert(members.take(k) =~= members);
    }
}

/// The mods that a JSON value declares.
fn mods_from_value(value: &JsonValue) -> (r: Option<Table<VersionSpec>>)
    ensures
        mods_option(r) == mods_of(value@),
{
    match value {
        JsonValue::Object(members) => {
            let ghost pairs = value@->Object_0;
            proof {
                lemma_view_unfolds(value);
                assert(pairs.take(0) =~= Seq::empty());
            }
            let mut table: Table<VersionSpec> = Table::new();
            let mut i: usize = 0;
            while i < members.len()
                invariant
                    i <= members.len(),
                    value@ == JsonView::Object(pairs),
                    pairs.len() == members.len(),
                    forall|k: int|
                        0 <= k < members.len() ==> #[trigger] pairs[k] == (
                            members@[k].0@,
                            members@[k].1@,
                        ),
                    specs_from(pairs.take(i as int)) == Some(pair_views(table.pairs())),
                decreases members.len() - i,
            {
                proof {
                    assert(pairs[i as int] == (members@[i as int].0@, members@[i as int].1@));
                    assert(pairs.take(i + 1).drop_last() =~= pairs.take(i as int));
                    assert(pairs.take(i + 1).last() == pairs[i as int]);
                }
                match members[i].1.as_str() {
                    Some(raw) => {
                        let spec = VersionSpec::classify(raw.to_string());
                        proof {
                            lemma_pair_views_with_pair(table.pairs(), members@[i as int].0@, spec);
                        }
                        table.insert(members[i].0.clone(), spec);
                    },
                    None => {
                        proof {
                            lemma_specs_from_spoiled(pairs, i + 1);
                        }
                        return None;
                    },
                }
                i = i + 1;
            }
            proof {
                assert(pairs.take(members.len() as int) =~= pairs);
            }
            Some(table)
        },
        _ => None,
    }
}

impl PartialManifest {
    /// Reads what a document says of a manifest. Any JSON value is taken:
    /// what is no object says nothing.
    pub fn from_value(value: &JsonValue) -> (r: PartialManifest)
        ensures
            r@ == partial_of(value@),
    {
        PartialManifest {
            name: value.get_text("name"),
            version: value.get_text("version"),
            description: value.get_text("description"),
            author: value.get_text("author"),
            side: match value.get_text("side") {
                Some(s) => Side::from_name(s.as_str()),
                None => None,
            },
            modloader: match value.get_text("modloader") {
                Some(s) => ModLoader::from_name(s.as_str()),
                None => None,
            },
            minecraft_version: value.get_text("minecraft_version"),
            default_provider: match value.get_text("default_provider") {
                Some(s) => Provider::from_name(s.as_str()),
                None => None,
            },
            mods: match value.get("mods") {
                Some(v) => mods_from_value(v),
                None => None,
            },
            license: value.get_text("license"),
            homepage: value.get_text("homepage"),
            tags: match value.get("tags") {
                Some(v) => v.as_texts(),
                None => None,
            },
        }
    }
}

impl Manifest {
    /// Fills a partial manifest up with the defaults.
    pub fn merge(partial: PartialManifest) -> (r: Manifest)
        ensures
            r@ == merged(partial@),
    {
        let defaults = Manifest::default();
        Manifest {
            name: match partial.name {
                Some(v) => v,
                None => defaults.name,
            },
            version: match partial.version {
                Some(v) => v,
                None => defaults.version,
            },
            description: match partial.description {
                Some(v) => Some(v),
                None => defaults.description,
            },
            author: match partial.author {
                Some(v) => Some(v),
                None => defaults.author,
            },
            side: match partial.side {
                Some(v) => v,
                None => defaults.side,
            },
            modloader: match partial.modloader {
                Some(v) => v,
                None => defaults.modloader,
            },
            minecraft_version: match partial.minecraft_version {
                Some(v) => v,
                None => defaults.minecraft_version,
            },
            default_provider: match partial.default_provider {
                Some(v) => v,
                None => defaults.default_provider,
            },
            mods: match partial.mods {
                Some(v) => v,
                None => defaults.mods,
            },
            license: match partial.license {
                Some(v) => Some(v),
                None => defaults.license,
            },
            homepage: match partial.homepage {
                Some(v) => Some(v),
                None => defaults.homepage,
            },
            tags: match partial.tags {
                Some(v) => Some(v),
                None => defaults.tags,
            },
        }
    }
}

/// Why a manifest could not be loaded.
#[derive(Clone, Copy, Debug, PartialEq, Eq, Structural)]
pub enum ManifestError {
    /// There is no manifest.
    NotFound,
    /// The manifest is no JSON document.
    InvalidData,
}

/// The manifest that a text holds: the document's fields over the defaults
/// where the text is JSON, nothing where it is not.
pub open spec fn manifest_of(content: Seq<char>) -> Option<ManifestView> {
    match json_document(content) {
        Some(doc) => Some(merged(partial_of(doc))),
        None => None,
    }
}

/// Reads and normalizes manifests.
#[derive(Clone, Copy, Debug)]
pub struct ManifestService;

impl ManifestService {
    /// The service. It holds nothing.
    pub fn new() -> Self {
        ManifestService
    }

    /// Loads the manifest from the content of its file, `None` standing for
    /// a file that is not there. A missing file and a text that is no JSON
    /// are errors, each of its own kind; any JSON document loads, with
    /// defaults for whatever it lacks.
    pub fn load(&self, content: Option<&str>) -> (r: Result<Manifest, ManifestError>)
        ensures
            match content {
                None => r == Err::<Manifest, ManifestError>(ManifestError::NotFound),
                Some(text) => match manifest_of(text@) {
                    Some(m) => r matches Ok(loaded) && loaded@ == m,
                    None => r == Err::<Manifest, ManifestError>(ManifestError::InvalidData),
                },
            },
    {
        match content {
            None => Err(ManifestError::NotFound),
            Some(text) => match JsonValue::parse(text) {
                Some(doc) => Ok(Manifest::merge(PartialManifest::from_value(&doc))),
                None => Err(ManifestError::InvalidData),
            },
        }
    }

    /// The manifest that normalizing a file's content leaves: what `load`
    /// gives for a JSON document, and the defaults for any other text.
    pub fn normalize(&self, content: &str) -> (r: Manifest)
        ensures
            r@ == match manifest_of(content@) {
                Some(m) => m,
                None => default_manifest(),
            },
    {
        match JsonValue::parse(content) {
            Some(doc) => Manifest::merge(PartialManifest::from_value(&doc)),
            None => Manifest::default(),
        }
    }

    /// The manifest that initializing a pack writes: the defaults where
    /// there is no manifest yet, the normalized one where there is.
    pub fn init(&self, existing: Option<&str>) -> (r: Manifest)
        ensures
            r@ == match existing {
                Some(text) => match manifest_of(text@) {
                    Some(m) => m,
                    None => default_manifest(),
                },
                None => default_manifest(),
            },
    {
        match existing {
            Some(text) => self.normalize(text),
            None => Manifest::default(),
        }
    }
}

/// The object in which mods are written: each key with the raw text of
/// its specifier, which bears no mark of the specifier's kind.
pub open spec fn specs_document(mods: Seq<(Seq<char>, VersionSpecView)>) -> JsonView {
    JsonView::Object(Seq::new(mods.len(), |i: int| (mods[i].0, JsonView::Text(mods[i].1.raw()))))
}

/// The document in which a manifest is written: every field, under its
/// name; an optional field that has no value as `null`.
pub open spec fn manifest_document(m: ManifestView) -> JsonView {
    JsonView::Object(
        seq![
            ("name"@, JsonView::Text(m.name)),
            ("version"@, JsonView::Text(m.version)),
            ("description"@, text_or_null(m.description)),
            ("author"@, text_or_null(m.author)),
            ("side"@, JsonView::Text(m.side.name())),
            ("modloader"@, JsonView::Text(m.modloader.name())),
            ("minecraft_version"@, JsonView::Text(m.minecraft_version)),
            ("default_provider"@, JsonView::Text(m.default_provider.name())),
            ("mods"@, specs_document(m.mods)),
            ("license"@, text_or_null(m.license)),
            ("homepage"@, text_or_null(m.homepage)),
            (
                "tags"@,
                match m.tags {
                    Some(tags) => array_of_texts(tags),
                    None => JsonView::Null,
                },
            ),
        ],
    )
}

/// Every specifier is of the kind that its raw text stands for.
pub open spec fn classified(mods: Seq<(Seq<char>, VersionSpecView)>) -> bool {
    forall|i: int|
        0 <= i < mods.len() ==> (#[trigger] mods[i]).1 == VersionSpecView::of(mods[i].1.raw())
}

/// The names of sides, loaders and providers are read back as what they name.
pub proof fn lemma_names_round_trip(side: Side, loader: ModLoader, provider: Provider)
    ensures
        Side::named(side.name()) == Some(side),
        ModLoader::named(loader.name()) == Some(loader),
        Provider::named(provider.name()) == Some(provider),
{
    reveal_strlit("client");
    reveal_strlit("server");
    reveal_strlit("both");
    reveal_strlit("unknown");
    reveal_strlit("forge");
    reveal_strlit("fabric");
    reveal_strlit("quilt");
    reveal_strlit("neoforge");
    reveal_strlit("modrinth");
    reveal_strlit("curseforge");
    reveal_strlit("github");
    reveal_strlit("maven");
    assert("client"@[0] == 'c' && "server"@[0] == 's' && "both"@[0] == 'b' && "unknown"@[0] == 'u');
    assert("forge"@[1] == 'o' && "fabric"@[1] == 'a');
    assert("quilt"@[0] == 'q' && "neoforge"@[0] == 'n');
    assert("modrinth"@[1] == 'o' && "curseforge"@[0] == 'c' && "github"@[0] == 'g' && "maven"@[1]
        == 'a');
}

/// The mods that were written are the mods that are read, where no key
/// occurs twice and every specifier is of the kind of its raw text.
pub proof fn lemma_specs_round_trip(mods: Seq<(Seq<char>, VersionSpecView)>)
    requires
        distinct_keys(mods),
        classified(mods),
    ensures
        mods_of(specs_document(mods)) == Some(mods),
    decreases mods.len(),
{
    let members = specs_document(mods)->Object_0;
    if mods.len() == 0 {
        assert(mods =~= Seq::empty());
    } else {
        let head = mods.drop_last();
        assert(distinct_keys(head)) by {
            assert forall|i: int, j: int|
                0 <= i < head.len() && 0 <= j < head.len() && i != j implies (#[trigger] head[i]).0
                != (#[trigger] head[j]).0 by {
                assert(mods[i].0 != mods[j].0);
            }
        }
        assert(classified(head)) by {
            assert forall|i: int| 0 <= i < head.len() implies (#[trigger] head[i]).1
                == VersionSpecView::of(head[i].1.raw()) by {
                assert(mods[i].1 == VersionSpecView::of(mods[i].1.raw()));
            }
        }
        lemma_specs_round_trip(head);
        assert(members.drop_last() =~= specs_document(head)->Object_0);
        assert(members.last() == (mods.last().0, JsonView::Text(mods.last().1.raw())));
        lemma_key_index_from(head, mods.last().0, 0);
        let at = key_index_from(head, mods.last().0, 0);
        if at < head.len() {
            assert(mods[at].0 != mods[mods.len() - 1].0);
        }
        assert(mods.last().1 == VersionSpecView::of(mods.last().1.raw()));
        assert(head.push((mods.last().0, mods.last().1)) =~= mods);
    }
}

/// What is written is what is read: the document of a manifest loads as
/// that manifest. This holds of a manifest in which no key occurs twice,
/// every specifier is of the kind of its raw text, and the description has
/// a value. (A manifest without description is written with `null` there,
/// and reads back with the default description.)
pub proof fn lemma_manifest_round_trip(m: ManifestView)
    requires
        distinct_keys(m.mods),
        classified(m.mods),
        m.description is Some,
    ensures
        merged(partial_of(manifest_document(m))) == m,
{
    let doc = manifest_document(m);
    let members = doc->Object_0;
    reveal_strlit("name");
    reveal_strlit("version");
    reveal_strlit("description");
    reveal_strlit("author");
    reveal_strlit("side");
    reveal_strlit("modloader");
    reveal_strlit("minecraft_version");
    reveal_strlit("default_provider");
    reveal_strlit("mods");
    reveal_strlit("license");
    reveal_strlit("homepage");
    reveal_strlit("tags");
    assert("name"@[0] == 'n' && "side"@[0] == 's' && "mods"@[0] == 'm' && "tags"@[0] == 't');
    assert("version"@[0] == 'v' && "license"@[0] == 'l');
    assert("modloader"@[2] == 'd' && "homepage"@[0] == 'h');
    assert(distinct_keys(members)) by {
        assert forall|i: int, j: int|
            0 <= i < members.len() && 0 <= j < members.len() && i != j implies (
        #[trigger] members[i]).0 != (#[trigger] members[j]).0 by {
            assert(members[i].0.len() != members[j].0.len() || members[i].0[0] != members[j].0[0]
                || members[i].0[2] != members[j].0[2]);
        }
    }
    lemma_key_index_is(members, "name"@, 0);
    lemma_key_index_is(members, "version"@, 1);
    lemma_key_index_is(members, "description"@, 2);
    lemma_key_index_is(members, "author"@, 3);
    lemma_key_index_is(members, "side"@, 4);
    lemma_key_index_is(members, "modloader"@, 5);
    lemma_key_index_is(members, "minecraft_version"@, 6);
    lemma_key_index_is(members, "default_provider"@, 7);
    lemma_key_index_is(members, "mods"@, 8);
    lemma_key_index_is(members, "license"@, 9);
    lemma_key_index_is(members, "homepage"@, 10);
    lemma_key_index_is(members, "tags"@, 11);
    lemma_names_round_trip(m.side, m.modloader, m.default_provider);
    lemma_specs_round_trip(m.mods);
    match m.tags {
        Some(tags) => {
            lemma_texts_of_array(tags);
        },
        None => {},
    }
    let back = merged(partial_of(doc));
    assert(back.mods == m.mods);
    assert(back.tags == m.tags);
}

/// The object in which mods are written.
fn mods_to_value(mods: &Table<VersionSpec>) -> (r: JsonValue)
    ensures
        r@ == specs_document(pair_views(mods.pairs())),
{
    let mut members: Vec<(String, JsonValue)> = Vec::new();
    let n = mods.len();
    let mut i: usize = 0;
    while i < n
        invariant
            i <= n,
            n == mods.pairs().len(),
            members.len() == i,
            forall|k: int|
                0 <= k < i ==> (#[trigger] members@[k]).0@ == mods.pairs()[k].0 && members@[k].1@
                    == JsonView::Text(mods.pairs()[k].1@.raw()),
        decreases n - i,
    {
        members.push((mods.key_at(i).to_string(), JsonValue::text(mods.value_at(i).as_str())));
        i = i + 1;
    }
    let r = JsonValue::object(members);
    proof {
        assert(r@->Object_0 =~= specs_document(pair_views(mods.pairs()))->Object_0);
    }
    r
}

impl Manifest {
    /// The document in which this manifest is written.
    pub fn to_value(&self) -> (r: JsonValue)
        ensures
            r@ == manifest_document(self@),
    {
        let mut members: Vec<(String, JsonValue)> = Vec::new();
        members.push(("name".to_string(), JsonValue::text(self.name.as_str())));
        members.push(("version".to_string(), JsonValue::text(self.version.as_str())));
        members.push(("description".to_string(), JsonValue::optional_text(&self.description)));
        members.push(("author".to_string(), JsonValue::optional_text(&self.author)));
        members.push(("side".to_string(), JsonValue::text(self.side.as_str())));
        members.push(("modloader".to_string(), JsonValue::text(self.modloader.as_str())));
        members.push(
            ("minecraft_version".to_string(), JsonValue::text(self.minecraft_version.as_str())),
        );
        members.push(
            ("default_provider".to_string(), JsonValue::text(self.default_provider.as_str())),
        );
        members.push(("mods".to_string(), mods_to_value(&self.mods)));
        members.push(("license".to_string(), JsonValue::optional_text(&self.license)));
        members.push(("homepage".to_string(), JsonValue::optional_text(&self.homepage)));
        let tags = match &self.tags {
            Some(tags) => JsonValue::texts(tags),
            None => JsonValue::Null,
        };
        members.push(("tags".to_string(), tags));
        let r = JsonValue::object(members);
        proof {
            assert(r@->Object_0 =~= manifest_document(self@)->Object_0);
        }
        r
    }
}

} // verus!
