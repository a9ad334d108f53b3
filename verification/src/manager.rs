//! The manifest, the lock and the registry of catalogs held together.

use vstd::prelude::*;
use crate::json::JsonValue;
use crate::lock::{
    LockEntryView, LockService, Refresh, RefreshErrorView, RefreshView, VersionQuery,
    VersionQueryView, lock_document, RefreshError, candidate_views, lock_of, refresh_lock,
    refresh_outcome, refresh_view,
};
use crate::manifest::{
    Manifest, ManifestError, ManifestService, ManifestView, ModEntry, ModEntryView, entry_views,
    manifest_document, manifest_of,
};
use crate::repository::{RepositoryService, VersionResult, VersionResultView};

verus! {

/// Everything that an operation on a pack works with. `R` is whatever
/// reaches a catalog.
pub struct ModManager<R> {
    pub manifest_service: ManifestService,
    pub manifest: Manifest,
    pub lock_service: LockService,
    pub repo_service: RepositoryService<R>,
}

/// Which of the two files could not be written.
#[derive(Clone, Copy, Debug, PartialEq, Eq, Structural)]
pub enum SaveError {
    Manifest,
    Lock,
}

/// How far the refresh of a list of entries has come.
#[derive(Debug)]
pub enum Progress {
    /// Every entry is refreshed.
    Finished,
    /// The entry at place `at` needs candidates: they are to be fetched with
    /// `query`, and the refresh is to go on at that place with them.
    Fetch { at: usize, query: VersionQuery },
    /// The entry at place `at` failed, and with it the whole refresh. The
    /// entries behind it were not looked at.
    Failed { at: usize, error: RefreshError },
}

/// A `Progress` as plain values.
pub enum ProgressView {
    Finished,
    Fetch { at: int, query: VersionQueryView },
    Failed { at: int, error: RefreshErrorView },
}

impl View for Progress {
    type V = ProgressView;

    open spec fn view(&self) -> ProgressView {
        match self {
            Progress::Finished => ProgressView::Finished,
            Progress::Fetch { at, query } => ProgressView::Fetch { at: *at as int, query: query@ },
            Progress::Failed { at, error } => ProgressView::Failed {
                at: *at as int,
                error: error@,
            },
        }
    }
}

/// The refresh of the entries from place `at` on, one after another, each
/// on the lock that the one before left; `fetched` are the candidates for
/// the entry at `at`, and no later entry has any. The refresh stops at the
/// first entry that needs candidates or fails; the lock then holds what
/// the entries before it brought.
pub open spec fn refresh_from(
    lock: Seq<(Seq<char>, LockEntryView)>,
    manifest: ManifestView,
    entries: Seq<ModEntryView>,
    at: int,
    fetched: Option<Seq<VersionResultView>>,
    upgrade: bool,
) -> (Seq<(Seq<char>, LockEntryView)>, ProgressView)
    decreases entries.len() - at,
{
    if at < 0 || at >= entries.len() {
        (lock, ProgressView::Finished)
    } else {
        match refresh_outcome(lock, entries[at], manifest, fetched, upgrade) {
            Ok(RefreshView::Fetch(query)) => (lock, ProgressView::Fetch { at, query }),
            Err(error) => (lock, ProgressView::Failed { at, error }),
            Ok(_) => refresh_from(
                refresh_lock(lock, entries[at], fetched, upgrade),
                manifest,
                entries,
                at + 1,
                None,
                upgrade,
            ),
        }
    }
}

/// The text of optional text.
pub open spec fn content_view(content: Option<&str>) -> Option<Seq<char>> {
    match content {
        Some(text) => Some(text@),
        None => None,
    }
}

impl<R> ModManager<R> {
    /// Loads manifest and lock from the contents of their files, `None`
    /// standing for a file that is not there. Only the manifest can make
    /// this fail: by missing or by being no JSON. Whatever the lock file
    /// holds, the lock loads: empty where the file records none.
    pub fn load(
        manifest_content: Option<&str>,
        lock_content: Option<&str>,
        repo_service: RepositoryService<R>,
    ) -> (r: Result<Self, ManifestError>)
        ensures
            match manifest_content {
                None => r matches Err(e) && e == ManifestError::NotFound,
                Some(text) => match manifest_of(text@) {
                    Some(m) => r matches Ok(manager) && manager.manifest@ == m
                        && manager.lock_service@ == lock_of(content_view(lock_content))
                        && manager.repo_service == repo_service,
                    None => r matches Err(e) && e == ManifestError::InvalidData,
                },
            },
    {
        let manifest_service = ManifestService::new();
        let manifest = match manifest_service.load(manifest_content) {
            Ok(m) => m,
            Err(e) => {
                return Err(e);
            },
        };
        let lock_service = LockService::load(lock_content);
        Ok(ModManager { manifest_service, manifest, lock_service, repo_service })
    }

    /// Refreshes one entry in the lock, as `LockService::update_entry` does
    /// with this pack's manifest. Nothing but the lock changes.
    pub fn refresh_mod(
        &mut self,
        entry: &ModEntry,
        available: Option<&[VersionResult]>,
        upgrade: bool,
    ) -> (r: Result<Refresh, RefreshError>)
        ensures
            refresh_view(r) == refresh_outcome(
                old(self).lock_service@,
                entry@,
                old(self).manifest@,
                candidate_views(available),
                upgrade,
            ),
            final(self).lock_service@ == refresh_lock(
                old(self).lock_service@,
                entry@,
                candidate_views(available),
                upgrade,
            ),
            final(self).manifest == old(self).manifest,
            final(self).repo_service == old(self).repo_service,
    {
        self.lock_service.update_entry(entry, &self.manifest, available, upgrade)
    }

    /// Refreshes the entries from place `at` on, in order, as far as it can
    /// without fetching: `fetched` are the candidates for the entry at `at`,
    /// if that entry was waited for. The first entry that fails ends the
    /// refresh, and so does the first that needs candidates: those are to be
    /// fetched, and the refresh called again at that place.
    pub fn refresh_all(
        &mut self,
        entries: &Vec<ModEntry>,
        at: usize,
        fetched: Option<&[VersionResult]>,
        upgrade: bool,
    ) -> (r: Progress)
        ensures
            (final(self).lock_service@, r@) == refresh_from(
                old(self).lock_service@,
                old(self).manifest@,
                entry_views(entries@),
                at as int,
                candidate_views(fetched),
                upgrade,
            ),
            final(self).manifest == old(self).manifest,
            final(self).repo_service == old(self).repo_service,
    {
        let ghost all = entry_views(entries@);
        let ghost start = self.lock_service@;
        let mut i: usize = at;
        let mut available = fetched;
        while i < entries.len()
            invariant
                at <= i,
                all == entry_views(entries@),
                start == old(self).lock_service@,
                self.manifest == old(self).manifest,
                self.repo_service == old(self).repo_service,
                refresh_from(
                    start,
                    self.manifest@,
                    all,
                    at as int,
                    candidate_views(fetched),
                    upgrade,
                ) == refresh_from(
                    self.lock_service@,
                    self.manifest@,
                    all,
                    i as int,
                    candidate_views(available),
                    upgrade,
                ),
            decreases entries.len() - i,
        {
            assert(all[i as int] == entries@[i as int]@);
            match self.refresh_mod(&entries[i], available, upgrade) {
                Ok(Refresh::Fetch(query)) => {
                    return Progress::Fetch { at: i, query };
                },
                Err(error) => {
                    return Progress::Failed { at: i, error };
                },
                Ok(_) => {},
            }
            available = None;
            i = i + 1;
        }
        Progress::Finished
    }

    /// Persists the manifest, then the lock: each is handed as its document
    /// to the writer given for it, and a writer returns whether it
    /// succeeded. The error names the file that could not be written. After
    /// the manifest has failed the lock is not attempted.
    pub fn save_all<M: FnOnce(&JsonValue) -> bool, L: FnOnce(&JsonValue) -> bool>(
        &self,
        write_manifest: M,
        write_lock: L,
    ) -> (r: Result<(), SaveError>)
        requires
            forall|doc: JsonValue|
                doc@ == manifest_document(self.manifest@) ==> call_requires(
                    write_manifest,
                    (&doc,),
                ),
            forall|doc: JsonValue|
                doc@ == lock_document(self.lock_service@) ==> call_requires(write_lock, (&doc,)),
        ensures
            match r {
                Ok(_) => exists|m: JsonValue, l: JsonValue|
                    m@ == manifest_document(self.manifest@) && l@ == lock_document(
                        self.lock_service@,
                    ) && call_ensures(write_manifest, (&m,), true) && call_ensures(
                        write_lock,
                        (&l,),
                        true,
                    ),
                Err(SaveError::Manifest) => exists|m: JsonValue|
                    m@ == manifest_document(self.manifest@) && call_ensures(
                        write_manifest,
                        (&m,),
                        false,
                    ),
                Err(SaveError::Lock) => exists|m: JsonValue, l: JsonValue|
                    m@ == manifest_document(self.manifest@) && l@ == lock_document(
                        self.lock_service@,
                    ) && call_ensures(write_manifest, (&m,), true) && call_ensures(
                        write_lock,
                        (&l,),
                        false,
                    ),
            },
    {
        let manifest = self.manifest.to_value();
        if !write_manifest(&manifest) {
            return Err(SaveError::Manifest);
        }
        let lock = self.lock_service.lock.to_value();
        if !write_lock(&lock) {
            return Err(SaveError::Lock);
        }
        Ok(())
    }
}

} // verus!
