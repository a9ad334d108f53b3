//! Adding a mod to a pack.

use vstd::prelude::*;
use crate::lock::{RefreshError, refresh_lock, refresh_outcome};
use crate::manager::ModManager;
use crate::manifest::{
    ManifestView, ModEntry, ModEntryView, ModLoader, Provider, VersionSpec, VersionSpecView,
    value_or,
};
use crate::repository::{ModResult, VersionResult, views_of};
use crate::resolver::{find_version, first_with_version, is_range_text, is_semver_range};
use crate::table::with_pair;
use crate::text::append;

verus! {

/// Adding a mod to a pack.
pub struct Add;

/// Why a mod could not be added.
#[derive(Debug)]
pub enum AddError {
    /// The catalog offers no version for the pack's game version and loader.
    NoCompatibleVersions { name: String, minecraft_version: String, modloader: ModLoader },
    /// The lock could not take the mod.
    Lock(RefreshError),
}

/// How the version to add is settled.
#[derive(Debug)]
pub enum VersionChoice {
    /// This candidate is to be added.
    Chosen(VersionResult),
    /// The requested version is not offered: one of the candidates is to be
    /// selected in its place.
    Ask,
    /// There is no candidate.
    Nothing,
}

/// The specifier under which a mod is filed. A requested range is kept as
/// it was written. Else the chosen version decides: as an exact specifier
/// where `exact` is set, and as the range `^` of it where not.
pub open spec fn spec_for(requested: Option<Seq<char>>, chosen: Seq<char>, exact: bool)
    -> VersionSpecView {
    match requested {
        Some(v) if is_range_text(v) => VersionSpecView::Range(v),
        _ => if exact {
            VersionSpecView::Exact(chosen)
        } else {
            VersionSpecView::Range(seq!['^'] + chosen)
        },
    }
}

/// The text of an optional text.
pub open spec fn requested_view(requested: Option<String>) -> Option<Seq<char>> {
    match requested {
        Some(s) => Some(s@),
        None => None,
    }
}

/// The specifier under which a mod is filed.
pub fn resolve_version_spec(requested: &Option<String>, chosen: &str, exact: bool) -> (r:
    VersionSpec)
    ensures
        r@ == spec_for(requested_view(*requested), chosen@, exact),
{
    let keep = match requested {
        Some(v) => is_semver_range(v.as_str()),
        None => false,
    };
    if keep {
        match requested {
            Some(v) => VersionSpec::Range(v.clone()),
            None => VersionSpec::Exact(chosen.to_string()),
        }
    } else if exact {
        VersionSpec::Exact(chosen.to_string())
    } else {
        proof {
            reveal_strlit("^");
            assert("^"@ =~= seq!['^']);
        }
        VersionSpec::Range(append("^", chosen))
    }
}

/// Settles the version to add: the candidate with the requested version
/// where one was requested and is offered; the first candidate where none
/// was requested. A requested version that is not offered leaves the choice
/// open.
pub fn pick_version(requested: &Option<String>, versions: &[VersionResult]) -> (r: VersionChoice)
    ensures
        match *requested {
            Some(wanted) => match first_with_version(views_of(versions@), wanted@) {
                Some(c) => r matches VersionChoice::Chosen(picked) && picked@ == c,
                None => if versions.len() == 0 {
                    r is Nothing
                } else {
                    r is Ask
                },
            },
            None => if versions.len() == 0 {
                r is Nothing
            } else {
                r matches VersionChoice::Chosen(picked) && picked@ == versions@[0]@
            },
        },
{
    match requested {
        Some(wanted) => match find_version(versions, wanted.as_str()) {
            Some(c) => VersionChoice::Chosen(c),
            None => if versions.len() == 0 {
                VersionChoice::Nothing
            } else {
                VersionChoice::Ask
            },
        },
        None => if versions.len() == 0 {
            VersionChoice::Nothing
        } else {
            VersionChoice::Chosen(versions[0].clone())
        },
    }
}

/// The candidate that a selection stands for. `None` says that nobody was
/// asked, and stands for the first candidate; a selection beyond the list
/// stands for nothing.
pub fn pick(items: &[VersionResult], selection: Option<usize>) -> (r: Option<VersionResult>)
    ensures
        match selection {
            None => if items.len() == 0 {
                r is None
            } else {
                r matches Some(c) && c@ == items@[0]@
            },
            Some(i) => if i < items.len() {
                r matches Some(c) && c@ == items@[i as int]@
            } else {
                r is None
            },
        },
{
    let i: usize = match selection {
        Some(i) => i,
        None => 0,
    };
    if i < items.len() {
        Some(items[i].clone())
    } else {
        None
    }
}

/// The entry that adding files: the project's slug with the specifier for
/// the chosen version, under the given provider or the pack's default.
pub open spec fn added_entry(
    manifest: ManifestView,
    project_slug: Seq<char>,
    requested: Option<Seq<char>>,
    provider: Option<Provider>,
    exact: bool,
    chosen: Seq<char>,
) -> ModEntryView {
    ModEntryView {
        slug: project_slug,
        version: spec_for(requested, chosen, exact),
        provider: value_or(provider, manifest.default_provider),
    }
}

impl Add {
    /// Settles the version to add among what the catalog offers for the
    /// project. No offer at all is an error that names the project, the game
    /// version and the loader.
    pub fn offer<R>(
        manager: &ModManager<R>,
        project: &ModResult,
        versions: &[VersionResult],
        requested: &Option<String>,
    ) -> (r: Result<VersionChoice, AddError>)
        ensures
            if versions.len() == 0 {
                r matches Err(AddError::NoCompatibleVersions { name, minecraft_version, modloader })
                    && name@ == project@.name && minecraft_version@
                    == manager.manifest@.minecraft_version && modloader
                    == manager.manifest.modloader
            } else {
                r matches Ok(choice) && match *requested {
                    Some(wanted) => match first_with_version(views_of(versions@), wanted@) {
                        Some(c) => choice matches VersionChoice::Chosen(picked) && picked@ == c,
                        None => choice is Ask,
                    },
                    None => choice matches VersionChoice::Chosen(picked) && picked@
                        == versions@[0]@,
                }
            },
    {
        if versions.len() == 0 {
            return Err(
                AddError::NoCompatibleVersions {
                    name: project.name.clone(),
                    minecraft_version: manager.manifest.minecraft_version.clone(),
                    modloader: manager.manifest.modloader,
                },
            );
        }
        Ok(pick_version(requested, versions))
    }

    /// Adds the project with the chosen version to the pack: files the entry
    /// in the manifest, and resolves it in the lock among `versions`. The
    /// entry stays in the manifest also where the lock could not take it;
    /// the failure is returned and the lock is as it was.
    pub fn run<R>(
        manager: &mut ModManager<R>,
        project: &ModResult,
        versions: &[VersionResult],
        requested: &Option<String>,
        provider: Option<Provider>,
        exact: bool,
        chosen: &VersionResult,
    ) -> (r: Result<ModEntry, AddError>)
        ensures
            ({
                let entry = added_entry(
                    old(manager).manifest@,
                    project@.slug,
                    requested_view(*requested),
                    provider,
                    exact,
                    chosen@.version,
                );
                let manifest = ManifestView {
                    mods: with_pair(old(manager).manifest@.mods, entry.key(), entry.version),
                    ..old(manager).manifest@
                };
                let outcome = refresh_outcome(
                    old(manager).lock_service@,
                    entry,
                    manifest,
                    Some(views_of(versions@)),
                    false,
                );
                &&& final(manager).manifest@ == manifest
                &&& final(manager).lock_service@ == refresh_lock(
                    old(manager).lock_service@,
                    entry,
                    Some(views_of(versions@)),
                    false,
                )
                &&& final(manager).repo_service == old(manager).repo_service
                &&& match outcome {
                    Ok(_) => r matches Ok(added) && added@ == entry,
                    Err(e) => r matches Err(AddError::Lock(failure)) && failure@ == e,
                }
            }),
    {
        let provider = match provider {
            Some(p) => p,
            None => manager.manifest.default_provider,
        };
        let version_spec = resolve_version_spec(requested, chosen.version.as_str(), exact);
        let entry = ModEntry { slug: project.slug.clone(), version: version_spec, provider };
        manager.manifest.insert_mod_entry(&entry);
        match manager.refresh_mod(&entry, Some(versions), false) {
            Ok(_) => Ok(entry),
            Err(e) => Err(AddError::Lock(e)),
        }
    }
}

} // verus!
