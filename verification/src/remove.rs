//! Taking a mod out of a pack.

use vstd::prelude::*;
use crate::manager::ModManager;
use crate::manifest::{ManifestView, Provider, entry_key, key_of, value_or};
use crate::table::{lemma_pair_views, without_key};
use crate::text::append;

verus! {

/// Taking a mod out of a pack.
pub struct Remove;

/// The warning for a mod that the manifest does not hold.
pub open spec fn not_found_warning(slug: Seq<char>) -> Seq<char> {
    "Mod '"@ + slug + "' not found in manifest"@
}

impl Remove {
    /// Takes the mod `slug` out of manifest and lock, under the given
    /// provider or the pack's default. Where the manifest does not hold it,
    /// nothing changes and a warning is returned.
    pub fn run<R>(manager: &mut ModManager<R>, slug: &str, provider: Option<Provider>) -> (r:
        Option<String>)
        ensures
            ({
                let key = entry_key(
                    value_or(provider, old(manager).manifest.default_provider),
                    slug@,
                );
                if old(manager).manifest.mods.has(key) {
                    &&& r is None
                    &&& final(manager).manifest@ == (ManifestView {
                        mods: without_key(old(manager).manifest@.mods, key),
                        ..old(manager).manifest@
                    })
                    &&& final(manager).lock_service@ == without_key(old(manager).lock_service@, key)
                } else {
                    &&& r matches Some(warning) && warning@ == not_found_warning(slug@)
                    &&& final(manager).manifest@ == old(manager).manifest@
                    &&& final(manager).lock_service@ == old(manager).lock_service@
                }
            }),
            final(manager).repo_service == old(manager).repo_service,
    {
        let provider = match provider {
            Some(p) => p,
            None => manager.manifest.default_provider,
        };
        proof {
            lemma_pair_views(manager.manifest.mods.pairs(), entry_key(provider, slug@));
        }
        if !manager.manifest.remove_mod_entry(&provider, slug) {
            let head = append("Mod '", slug);
            return Some(append(head.as_str(), "' not found in manifest"));
        }
        let key = key_of(provider, slug);
        proof {
            lemma_pair_views(manager.lock_service.lock.mods.pairs(), key@);
        }
        manager.lock_service.lock.mods.remove(key.as_str());
        None
    }
}

} // verus!
