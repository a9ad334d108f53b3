//! The lock: for each mod that was resolved, the exact version, where to
//! get it and the hash of what is to be got.

use vstd::prelude::*;
use crate::json::{
    JsonValue, JsonView, array_of_texts, json_document, lemma_texts_of_array, lemma_view_unfolds,
};
use crate::manifest::{
    Manifest, ManifestView, ModEntry, ModEntryView, VersionSpec, VersionSpecView, text_option,
};
use crate::repository::{VersionResult, VersionResultView, clone_texts, views_of};
use crate::resolver::{
    chosen, lemma_position_from, lemma_resolved_is_a_candidate, normalized_pick, resolve_spec,
    satisfied, satisfies, semver_pick,
};
use crate::table::{
    Table, distinct_keys, key_index_from, lemma_key_index_from, lemma_key_index_is,
    lemma_pair_views, lemma_pair_views_with_pair, lemma_with_pair, pair_views, value_of,
    with_pair,
};
use crate::text::append;

verus! {

/// One resolved mod.
#[derive(Debug)]
pub struct LockEntry {
    /// The catalog's identifier of the project, which outlives a renamed slug.
    pub id: String,
    /// The resolved version.
    pub version: String,
    pub minecraft_versions: Vec<String>,
    pub url: String,
    /// The hash that the file behind `url` must have.
    pub hash: String,
}

/// A `LockEntry` as plain values.
pub struct LockEntryView {
    pub id: Seq<char>,
    pub version: Seq<char>,
    pub minecraft_versions: Seq<Seq<char>>,
    pub url: Seq<char>,
    pub hash: Seq<char>,
}

impl View for LockEntry {
    type V = LockEntryView;

    open spec fn view(&self) -> LockEntryView {
        LockEntryView {
            id: self.id@,
            version: self.version@,
            minecraft_versions: self.minecraft_versions.deep_view(),
            url: self.url@,
            hash: self.hash@,
        }
    }
}

impl Clone for LockEntry {
    fn clone(&self) -> (r: Self)
        ensures
            r@ == self@,
    {
        LockEntry {
            id: self.id.clone(),
            version: self.version.clone(),
            minecraft_versions: clone_texts(&self.minecraft_versions),
            url: self.url.clone(),
            hash: self.hash.clone(),
        }
    }
}

/// The resolved state: one entry for each key that was resolved at least once.
#[derive(Debug)]
pub struct LockFile {
    pub mods: Table<LockEntry>,
}

impl View for LockFile {
    type V = Seq<(Seq<char>, LockEntryView)>;

    open spec fn view(&self) -> Seq<(Seq<char>, LockEntryView)> {
        pair_views(self.mods.pairs())
    }
}

/// The lock together with the operations that keep it.
#[derive(Debug)]
pub struct LockService {
    pub lock: LockFile,
}

impl View for LockService {
    type V = Seq<(Seq<char>, LockEntryView)>;

    open spec fn view(&self) -> Seq<(Seq<char>, LockEntryView)> {
        self.lock@
    }
}

/// What to ask a catalog for: the versions of one project that fit a game
/// version and a loader.
#[derive(Debug)]
pub struct VersionQuery {
    pub project_id: String,
    pub game_versions: Vec<String>,
    pub loaders: Vec<String>,
}

/// A `VersionQuery` as plain values.
pub struct VersionQueryView {
    pub project_id: Seq<char>,
    pub game_versions: Seq<Seq<char>>,
    pub loaders: Seq<Seq<char>>,
}

impl View for VersionQuery {
    type V = VersionQueryView;

    open spec fn view(&self) -> VersionQueryView {
        VersionQueryView {
            project_id: self.project_id@,
            game_versions: self.game_versions.deep_view(),
            loaders: self.loaders.deep_view(),
        }
    }
}

/// How the refresh of one entry went on.
#[derive(Debug)]
pub enum Refresh {
    /// The locked version still answers the specifier; the lock is as it was.
    Unchanged,
    /// The entry was resolved anew and the lock holds the result.
    Updated,
    /// The entry must be resolved and no candidates were given: they are to
    /// be fetched with this query and handed in.
    Fetch(VersionQuery),
}

/// Why the refresh of one entry failed. Each names the entry by its slug.
#[derive(Debug)]
pub enum RefreshError {
    /// The catalog offers no version at all.
    NoCandidates { slug: String },
    /// No candidate answers the specifier.
    Unresolved { slug: String, spec: VersionSpec },
}

/// A `Refresh` as plain values.
pub enum RefreshView {
    Unchanged,
    Updated,
    Fetch(VersionQueryView),
}

/// A `RefreshError` as plain values.
pub enum RefreshErrorView {
    NoCandidates { slug: Seq<char> },
    Unresolved { slug: Seq<char>, spec: VersionSpecView },
}

impl View for Refresh {
    type V = RefreshView;

    open spec fn view(&self) -> RefreshView {
        match self {
            Refresh::Unchanged => RefreshView::Unchanged,
            Refresh::Updated => RefreshView::Updated,
            Refresh::Fetch(q) => RefreshView::Fetch(q@),
        }
    }
}

impl View for RefreshError {
    type V = RefreshErrorView;

    open spec fn view(&self) -> RefreshErrorView {
        match self {
            RefreshError::NoCandidates { slug } => RefreshErrorView::NoCandidates { slug: slug@ },
            RefreshError::Unresolved { slug, spec } => RefreshErrorView::Unresolved {
                slug: slug@,
                spec: spec@,
            },
        }
    }
}

/// The view of the result of a refresh.
pub open spec fn refresh_view(r: Result<Refresh, RefreshError>) -> Result<
    RefreshView,
    RefreshErrorView,
> {
    match r {
        Ok(x) => Ok(x@),
        Err(e) => Err(e@),
    }
}

/// The views of optional candidates.
pub open spec fn candidate_views(available: Option<&[VersionResult]>) -> Option<
    Seq<VersionResultView>,
> {
    match available {
        Some(c) => Some(views_of(c@)),
        None => None,
    }
}

/// The version that the lock holds for `key`.
pub open spec fn locked_version(lock: Seq<(Seq<char>, LockEntryView)>, key: Seq<char>) -> Option<
    Seq<char>,
> {
    match value_of(lock, key) {
        Some(e) => Some(e.version),
        None => None,
    }
}

/// The lock holds a version for the entry, and that version answers the
/// entry's specifier.
pub open spec fn is_current(lock: Seq<(Seq<char>, LockEntryView)>, entry: ModEntryView) -> bool {
    match value_of(lock, entry.key()) {
        Some(e) => satisfied(entry.version, e.version),
        None => false,
    }
}

/// The query that fetches an entry's candidates: by the locked identifier
/// where the entry is locked, by the slug where it is not; for the pack's
/// game version and loader.
pub open spec fn query_for(
    lock: Seq<(Seq<char>, LockEntryView)>,
    entry: ModEntryView,
    manifest: ManifestView,
) -> VersionQueryView {
    VersionQueryView {
        project_id: match value_of(lock, entry.key()) {
            Some(e) => e.id,
            None => entry.slug,
        },
        game_versions: seq![manifest.minecraft_version],
        loaders: seq![manifest.modloader.name()],
    }
}

/// The lock entry that records a chosen candidate.
pub open spec fn lock_entry_of(c: VersionResultView) -> LockEntryView {
    LockEntryView {
        id: c.mod_id,
        version: c.version,
        minecraft_versions: c.minecraft_versions,
        url: c.url,
        hash: c.hash,
    }
}

/// How the refresh of `entry` goes on. Without `upgrade`, an entry that is
/// current is left alone. Otherwise candidates are needed: where none are
/// given they are asked for; an empty list is a failure; else the entry's
/// specifier is resolved among them, and finding none is a failure.
pub open spec fn refresh_outcome(
    lock: Seq<(Seq<char>, LockEntryView)>,
    entry: ModEntryView,
    manifest: ManifestView,
    available: Option<Seq<VersionResultView>>,
    upgrade: bool,
) -> Result<RefreshView, RefreshErrorView> {
    if !upgrade && is_current(lock, entry) {
        Ok(RefreshView::Unchanged)
    } else {
        match available {
            None => Ok(RefreshView::Fetch(query_for(lock, entry, manifest))),
            Some(candidates) => if candidates.len() == 0 {
                Err(RefreshErrorView::NoCandidates { slug: entry.slug })
            } else {
                match chosen(entry.version, candidates) {
                    Some(_c) => Ok(RefreshView::Updated),
                    None => Err(
                        RefreshErrorView::Unresolved { slug: entry.slug, spec: entry.version },
                    ),
                }
            },
        }
    }
}

/// The lock after the refresh of `entry`: with the chosen candidate written
/// under the entry's key where the refresh resolved one, unchanged in every
/// other case.
pub open spec fn refresh_lock(
    lock: Seq<(Seq<char>, LockEntryView)>,
    entry: ModEntryView,
    available: Option<Seq<VersionResultView>>,
    upgrade: bool,
) -> Seq<(Seq<char>, LockEntryView)> {
    if !upgrade && is_current(lock, entry) {
        lock
    } else {
        match available {
            None => lock,
            Some(candidates) => match chosen(entry.version, candidates) {
                Some(c) => with_pair(lock, entry.key(), lock_entry_of(c)),
                None => lock,
            },
        }
    }
}

impl RefreshError {
    /// The failure in words, naming the entry.
    pub fn message(&self) -> (r: String)
        ensures
            r@ == match self@ {
                RefreshErrorView::NoCandidates { slug } => "No compatible versions found for '"@
                    + slug + "'"@,
                RefreshErrorView::Unresolved { slug, spec } => "Failed to resolve '"@ + slug
                    + "' with version spec "@ + spec.raw(),
            },
    {
        match self {
            RefreshError::NoCandidates { slug } => {
                let head = append("No compatible versions found for '", slug.as_str());
                append(head.as_str(), "'")
            },
            RefreshError::Unresolved { slug, spec } => {
                let head = append("Failed to resolve '", slug.as_str());
                let middle = append(head.as_str(), "' with version spec ");
                append(middle.as_str(), spec.as_str())
            },
        }
    }
}

impl LockService {
    /// The version that the lock holds for the entry.
    pub fn get_version(&self, manifest_mod: &ModEntry) -> (r: Option<String>)
        ensures
            text_option(r) == locked_version(self@, manifest_mod@.key()),
    {
        let key = manifest_mod.to_key();
        proof {
            lemma_pair_views(self.lock.mods.pairs(), key@);
        }
        match self.lock.mods.get(key.as_str()) {
            Some(entry) => Some(entry.version.clone()),
            None => None,
        }
    }

    /// Refreshes one entry of the manifest in the lock.
    ///
    /// An entry whose locked version still answers its specifier is left
    /// alone unless `upgrade` is set. Otherwise the specifier is resolved
    /// among `available`, and the candidate chosen replaces the entry's
    /// record as a whole. Where `available` is `None` nothing is resolved:
    /// the query for the candidates is returned, and the caller calls again
    /// with what the catalog answered. A failure leaves the lock as it was.
    pub fn update_entry(
        &mut self,
        manifest_mod: &ModEntry,
        manifest: &Manifest,
        available: Option<&[VersionResult]>,
        upgrade: bool,
    ) -> (r: Result<Refresh, RefreshError>)
        ensures
            refresh_view(r) == refresh_outcome(
                old(self)@,
                manifest_mod@,
                manifest@,
                candidate_views(available),
                upgrade,
            ),
            final(self)@ == refresh_lock(
                old(self)@,
                manifest_mod@,
                candidate_views(available),
                upgrade,
            ),
    {
        let key = manifest_mod.to_key();
        proof {
            lemma_pair_views(self.lock.mods.pairs(), key@);
        }
        let mut version_outdated = true;
        let mut project_id = manifest_mod.slug.clone();
        match self.lock.mods.get(key.as_str()) {
            Some(entry) => {
                version_outdated = !satisfies(&manifest_mod.version, entry.version.as_str());
                project_id = entry.id.clone();
            },
            None => {},
        }
        if !upgrade && !version_outdated {
            return Ok(Refresh::Unchanged);
        }
        let versions = match available {
            Some(v) => v,
            None => {
                let mut game_versions: Vec<String> = Vec::new();
                game_versions.push(manifest.minecraft_version.clone());
                let mut loaders: Vec<String> = Vec::new();
                loaders.push(manifest.modloader.as_str().to_string());
                let query = VersionQuery { project_id, game_versions, loaders };
                proof {
                    assert(query.game_versions.deep_view() =~= seq![manifest@.minecraft_version]);
                    assert(query.loaders.deep_view() =~= seq![manifest@.modloader.name()]);
                }
                return Ok(Refresh::Fetch(query));
            },
        };
        if versions.len() == 0 {
            proof {
                assert(views_of(versions@).len() == 0);
            }
            return Err(RefreshError::NoCandidates { slug: manifest_mod.slug.clone() });
        }
        match resolve_spec(&manifest_mod.version, versions) {
            Some(resolved) => {
                let entry = LockEntry {
                    id: resolved.mod_id,
                    version: resolved.version,
                    minecraft_versions: resolved.minecraft_versions,
                    url: resolved.url,
                    hash: resolved.hash,
                };
                proof {
                    lemma_pair_views_with_pair(self.lock.mods.pairs(), key@, entry);
                }
                self.lock.mods.insert(key, entry);
                Ok(Refresh::Updated)
            },
            None => Err(
                RefreshError::Unresolved {
                    slug: manifest_mod.slug.clone(),
                    spec: manifest_mod.version.clone(),
                },
            ),
        }
    }
}

/// A refresh settles an entry: when it resolved the entry by an exact
/// specifier, by the semantic match or by the digit-normalized match, the
/// entry is current in the lock that it leaves, and the next refresh
/// without `upgrade` leaves that lock alone whatever candidates it is given.
/// (A version that only the exact fallback found need not answer the range
/// by its semantic version, and is resolved anew each time.)
pub proof fn lemma_refresh_settles(
    lock: Seq<(Seq<char>, LockEntryView)>,
    entry: ModEntryView,
    manifest: ManifestView,
    candidates: Seq<VersionResultView>,
    upgrade: bool,
    next: Option<Seq<VersionResultView>>,
)
    requires
        distinct_keys(lock),
        refresh_outcome(lock, entry, manifest, Some(candidates), upgrade) == Ok::<
            RefreshView,
            RefreshErrorView,
        >(RefreshView::Updated),
        entry.version matches VersionSpecView::Range(r) ==> (semver_pick(r, candidates) is Some
            || normalized_pick(r, candidates) is Some),
    ensures
        is_current(refresh_lock(lock, entry, Some(candidates), upgrade), entry),
        refresh_outcome(
            refresh_lock(lock, entry, Some(candidates), upgrade),
            entry,
            manifest,
            next,
            false,
        ) == Ok::<RefreshView, RefreshErrorView>(RefreshView::Unchanged),
        refresh_lock(refresh_lock(lock, entry, Some(candidates), upgrade), entry, next, false)
            == refresh_lock(lock, entry, Some(candidates), upgrade),
{
    let c = chosen(entry.version, candidates).unwrap();
    let after = refresh_lock(lock, entry, Some(candidates), upgrade);
    lemma_with_pair(lock, entry.key(), lock_entry_of(c));
    assert(value_of(after, entry.key()) == Some(lock_entry_of(c)));
    match entry.version {
        VersionSpecView::Exact(v) => {
            lemma_position_from(candidates, v, 0);
        },
        VersionSpecView::Range(r) => {
            lemma_resolved_is_a_candidate(r, candidates);
        },
    }
}

/// The lock entry that a JSON value records: an object with the texts `id`,
/// `version`, `url` and `hash` and the array of texts `minecraft_versions`.
/// Members beyond these are passed over; one of these missing or of another
/// kind makes the value no entry.
pub open spec fn lock_entry_from(value: JsonView) -> Option<LockEntryView> {
    match (
        value.text_member("id"@),
        value.text_member("version"@),
        match value.member("minecraft_versions"@) {
            Some(v) => v.texts(),
            None => None,
        },
        value.text_member("url"@),
        value.text_member("hash"@),
    ) {
        (Some(id), Some(version), Some(minecraft_versions), Some(url), Some(hash)) => Some(
            LockEntryView { id, version, minecraft_versions, url, hash },
        ),
        _ => None,
    }
}

/// The entries that the members of a JSON object record, each filed under
/// its member's name. One member that is no entry spoils the whole object.
pub open spec fn lock_entries_from(members: Seq<(Seq<char>, JsonView)>) -> Option<
    Seq<(Seq<char>, LockEntryView)>,
>
    decreases members.len(),
{
    if members.len() == 0 {
        Some(Seq::empty())
    } else {
        match (lock_entries_from(members.drop_last()), lock_entry_from(members.last().1)) {
            (Some(before), Some(entry)) => Some(with_pair(before, members.last().0, entry)),
            _ => None,
        }
    }
}

/// The lock that a document records: its member `mods`, an object of entries.
pub open spec fn lock_from(doc: JsonView) -> Option<Seq<(Seq<char>, LockEntryView)>> {
    match doc.member("mods"@) {
        Some(JsonView::Object(members)) => lock_entries_from(members),
        _ => None,
    }
}

/// The lock that the content of a lock file stands for. A file that is not
/// there, a text that is no JSON and a document that records no lock all
/// stand for the empty lock.
pub open spec fn lock_of(content: Option<Seq<char>>) -> Seq<(Seq<char>, LockEntryView)> {
    match content {
        Some(text) => match json_document(text) {
            Some(doc) => match lock_from(doc) {
                Some(lock) => lock,
                None => Seq::empty(),
            },
            None => Seq::empty(),
        },
        None => Seq::empty(),
    }
}

/// Once a member is no entry, no longer list of members records a lock.
pub proof fn lemma_lock_entries_spoiled(members: Seq<(Seq<char>, JsonView)>, k: int)
    requires
        0 <= k <= members.len(),
        lock_entries_from(members.take(k)) is None,
    ensures
        lock_entries_from(members) is None,
    decreases members.len() - k,
{
    if k < members.len() {
        assert(members.take(k + 1).drop_last() =~= members.take(k));
        lemma_lock_entries_spoiled(members, k + 1);
    } else {
        assert(members.take(k) =~= members);
    }
}

/// The view of an optional entry.
pub open spec fn entry_option(o: Option<LockEntry>) -> Option<LockEntryView> {
    match o {
        Some(e) => Some(e@),
        None => None,
    }
}

/// The view of an optional lock.
pub open spec fn lock_option(o: Option<LockFile>) -> Option<Seq<(Seq<char>, LockEntryView)>> {
    match o {
        Some(l) => Some(l@),
        None => None,
    }
}

impl LockEntry {
    /// Reads the entry that a JSON value records.
    pub fn from_value(value: &JsonValue) -> (r: Option<LockEntry>)
        ensures
            entry_option(r) == lock_entry_from(value@),
    {
        let id = value.get_text("id");
        let version = value.get_text("version");
        let minecraft_versions = match value.get("minecraft_versions") {
            Some(v) => v.as_texts(),
            None => None,
        };
        let url = value.get_text("url");
        let hash = value.get_text("hash");
        match (id, version, minecraft_versions, url, hash) {
            (Some(id), Some(version), Some(minecraft_versions), Some(url), Some(hash)) => Some(
                LockEntry { id, version, minecraft_versions, url, hash },
            ),
            _ => None,
        }
    }
}

impl LockFile {
    /// A lock without entries.
    pub fn new() -> (r: LockFile)
        ensures
            r@ == Seq::<(Seq<char>, LockEntryView)>::empty(),
    {
        let r = LockFile { mods: Table::new() };
        assert(r@ =~= Seq::<(Seq<char>, LockEntryView)>::empty());
        r
    }

    /// Reads the lock that a document records.
    pub fn from_value(doc: &JsonValue) -> (r: Option<LockFile>)
        ensures
            lock_option(r) == lock_from(doc@),
    {
        let value = match doc.get("mods") {
            Some(v) => v,
            None => {
                return None;
            },
        };
        match value {
            JsonValue::Object(members) => {
                let ghost pairs = value@->Object_0;
                proof {
                    lemma_view_unfolds(value);
                    assert(pairs.take(0) =~= Seq::empty());
                }
                let mut table: Table<LockEntry> = Table::new();
                let mut i: usize = 0;
                while i < members.len()
                    invariant
                        i <= members.len(),
                        doc@.member("mods"@) == Some(value@),
                        value@ == JsonView::Object(pairs),
                        pairs.len() == members.len(),
                        forall|k: int|
                            0 <= k < members.len() ==> #[trigger] pairs[k] == (
                                members@[k].0@,
                                members@[k].1@,
                            ),
                        lock_entries_from(pairs.take(i as int)) == Some(pair_views(table.pairs())),
                    decreases members.len() - i,
                {
                    proof {
                        assert(pairs[i as int] == (members@[i as int].0@, members@[i as int].1@));
                        assert(pairs.take(i + 1).drop_last() =~= pairs.take(i as int));
                        assert(pairs.take(i + 1).last() == pairs[i as int]);
                    }
                    match LockEntry::from_value(&members[i].1) {
                        Some(entry) => {
                            proof {
                                lemma_pair_views_with_pair(
                                    table.pairs(),
                                    members@[i as int].0@,
                                    entry,
                                );
                            }
                            table.insert(members[i].0.clone(), entry);
                        },
                        None => {
                            proof {
                                lemma_lock_entries_spoiled(pairs, i + 1);
                            }
                            return None;
                        },
                    }
                    i = i + 1;
                }
                proof {
                    assert(pairs.take(members.len() as int) =~= pairs);
                }
                Some(LockFile { mods: table })
            },
            _ => None,
        }
    }
}

/// Whether a text records a lock: it is a JSON document whose `mods` is an
/// object of entries.
pub open spec fn records_lock(content: Seq<char>) -> bool {
    match json_document(content) {
        Some(doc) => lock_from(doc) is Some,
        None => false,
    }
}

impl LockService {
    /// Whether the content of a lock file records a lock. Loading passes
    /// over a content that records none; with this a caller can tell, and
    /// say so.
    pub fn is_recorded(content: &str) -> (r: bool)
        ensures
            r == records_lock(content@),
    {
        match JsonValue::parse(content) {
            Some(doc) => LockFile::from_value(&doc).is_some(),
            None => false,
        }
    }

    /// Loads the lock from the content of its file, `None` standing for a
    /// file that is not there. Loading never fails: whatever records no lock
    /// gives the empty lock.
    pub fn load(content: Option<&str>) -> (r: LockService)
        ensures
            r@ == lock_of(
                match content {
                    Some(text) => Some(text@),
                    None => None,
                },
            ),
    {
        let lock = match content {
            Some(text) => match JsonValue::parse(text) {
                Some(doc) => match LockFile::from_value(&doc) {
                    Some(lock) => lock,
                    None => LockFile::new(),
                },
                None => LockFile::new(),
            },
            None => LockFile::new(),
        };
        LockService { lock }
    }
}

/// The object in which one entry is written.
pub open spec fn entry_document(e: LockEntryView) -> JsonView {
    JsonView::Object(
        seq![
            ("id"@, JsonView::Text(e.id)),
            ("version"@, JsonView::Text(e.version)),
            ("minecraft_versions"@, array_of_texts(e.minecraft_versions)),
            ("url"@, JsonView::Text(e.url)),
            ("hash"@, JsonView::Text(e.hash)),
        ],
    )
}

/// The object in which the entries are written, each under its key.
pub open spec fn entries_document(lock: Seq<(Seq<char>, LockEntryView)>) -> JsonView {
    JsonView::Object(Seq::new(lock.len(), |i: int| (lock[i].0, entry_document(lock[i].1))))
}

/// The document in which a lock is written: the entries under `mods`.
pub open spec fn lock_document(lock: Seq<(Seq<char>, LockEntryView)>) -> JsonView {
    JsonView::Object(seq![("mods"@, entries_document(lock))])
}

/// An entry that was written is read back as it was.
pub proof fn lemma_entry_round_trip(e: LockEntryView)
    ensures
        lock_entry_from(entry_document(e)) == Some(e),
{
    let members = entry_document(e)->Object_0;
    reveal_strlit("id");
    reveal_strlit("version");
    reveal_strlit("minecraft_versions");
    reveal_strlit("url");
    reveal_strlit("hash");
    assert(distinct_keys(members)) by {
        assert forall|i: int, j: int|
            0 <= i < members.len() && 0 <= j < members.len() && i != j implies (
        #[trigger] members[i]).0 != (#[trigger] members[j]).0 by {
            assert(members[i].0.len() != members[j].0.len());
        }
    }
    lemma_key_index_is(members, "id"@, 0);
    lemma_key_index_is(members, "version"@, 1);
    lemma_key_index_is(members, "minecraft_versions"@, 2);
    lemma_key_index_is(members, "url"@, 3);
    lemma_key_index_is(members, "hash"@, 4);
    lemma_texts_of_array(e.minecraft_versions);
}

/// The entries that were written are the entries that are read, where no
/// key occurs twice.
pub proof fn lemma_entries_round_trip(lock: Seq<(Seq<char>, LockEntryView)>)
    requires
        distinct_keys(lock),
    ensures
        lock_entries_from(entries_document(lock)->Object_0) == Some(lock),
    decreases lock.len(),
{
    let members = entries_document(lock)->Object_0;
    if lock.len() == 0 {
        assert(lock =~= Seq::empty());
    } else {
        let head = lock.drop_last();
        assert(distinct_keys(head)) by {
            assert forall|i: int, j: int|
                0 <= i < head.len() && 0 <= j < head.len() && i != j implies (#[trigger] head[i]).0
                != (#[trigger] head[j]).0 by {
                assert(lock[i].0 != lock[j].0);
            }
        }
        lemma_entries_round_trip(head);
        assert(members.drop_last() =~= entries_document(head)->Object_0);
        assert(members.last() == (lock.last().0, entry_document(lock.last().1)));
        lemma_entry_round_trip(lock.last().1);
        lemma_key_index_from(head, lock.last().0, 0);
        let at = key_index_from(head, lock.last().0, 0);
        if at < head.len() {
            assert(lock[at].0 != lock[lock.len() - 1].0);
        }
        assert(head.push((lock.last().0, lock.last().1)) =~= lock);
    }
}

/// What is written is what is read: the document of a lock in which no key
/// occurs twice records that lock.
pub proof fn lemma_lock_round_trip(lock: Seq<(Seq<char>, LockEntryView)>)
    requires
        distinct_keys(lock),
    ensures
        lock_from(lock_document(lock)) == Some(lock),
{
    let members = lock_document(lock)->Object_0;
    assert(members[0].0 == "mods"@);
    assert(key_index_from(members, "mods"@, 0) == 0);
    lemma_entries_round_trip(lock);
}

impl LockEntry {
    /// The object in which this entry is written.
    pub fn to_value(&self) -> (r: JsonValue)
        ensures
            r@ == entry_document(self@),
    {
        let mut members: Vec<(String, JsonValue)> = Vec::new();
        members.push(("id".to_string(), JsonValue::text(self.id.as_str())));
        members.push(("version".to_string(), JsonValue::text(self.version.as_str())));
        members.push(
            ("minecraft_versions".to_string(), JsonValue::texts(&self.minecraft_versions)),
        );
        members.push(("url".to_string(), JsonValue::text(self.url.as_str())));
        members.push(("hash".to_string(), JsonValue::text(self.hash.as_str())));
        let r = JsonValue::object(members);
        proof {
            assert(r@->Object_0 =~= entry_document(self@)->Object_0);
        }
        r
    }
}

impl LockFile {
    /// The document in which this lock is written.
    pub fn to_value(&self) -> (r: JsonValue)
        ensures
            r@ == lock_document(self@),
    {
        let mut entries: Vec<(String, JsonValue)> = Vec::new();
        let n = self.mods.len();
        let mut i: usize = 0;
        while i < n
            invariant
                i <= n,
                n == self.mods.pairs().len(),
                entries.len() == i,
                forall|k: int|
                    0 <= k < i ==> (#[trigger] entries@[k]).0@ == self.mods.pairs()[k].0
                        && entries@[k].1@ == entry_document(self.mods.pairs()[k].1@),
            decreases n - i,
        {
            entries.push((self.mods.key_at(i).to_string(), self.mods.value_at(i).to_value()));
            i = i + 1;
        }
        let mods = JsonValue::object(entries);
        proof {
            assert(mods@->Object_0 =~= entries_document(self@)->Object_0);
        }
        let mut members: Vec<(String, JsonValue)> = Vec::new();
        members.push(("mods".to_string(), mods));
        let r = JsonValue::object(members);
        proof {
            assert(r@->Object_0 =~= lock_document(self@)->Object_0);
        }
        r
    }
}

} // verus!
