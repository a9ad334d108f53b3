//! What an upgrade changed: the locked versions before and after, compared.

use vstd::prelude::*;
use crate::lock::{LockEntryView, LockService, locked_version};
use crate::manifest::{ModEntry, ModEntryView, entry_views, text_option};

verus! {

/// What an upgrade changed. `upgraded` lists, for each selected entry whose
/// locked version is another than before, the key with the version before
/// and after; `unchanged` counts the other selected entries.
#[derive(Debug)]
pub struct UpgradeResult {
    pub upgraded: Vec<(String, Option<String>, Option<String>)>,
    pub unchanged: usize,
}

/// The upgrade of selected entries.
pub struct Upgrade;

/// A key with the version locked for it before and after.
pub type Transition = (Seq<char>, Option<Seq<char>>, Option<Seq<char>>);

/// The views of a list of optional texts.
pub open spec fn option_views(items: Seq<Option<String>>) -> Seq<Option<Seq<char>>> {
    items.map_values(|o: Option<String>| text_option(o))
}

/// The views of a list of transitions.
pub open spec fn transition_views(items: Seq<(String, Option<String>, Option<String>)>) -> Seq<
    Transition,
> {
    items.map_values(
        |t: (String, Option<String>, Option<String>)| (t.0@, text_option(t.1), text_option(t.2)),
    )
}

/// For each entry, in order, what the lock holds for it.
pub open spec fn locked_versions(lock: Seq<(Seq<char>, LockEntryView)>, entries: Seq<ModEntryView>)
    -> Seq<Option<Seq<char>>> {
    Seq::new(entries.len(), |i: int| locked_version(lock, entries[i].key()))
}

/// The version kept for the entry at place `i`; none where nothing was kept
/// for that place.
pub open spec fn kept_at(before: Seq<Option<Seq<char>>>, i: int) -> Option<Seq<char>> {
    if 0 <= i < before.len() {
        before[i]
    } else {
        None
    }
}

/// For each entry, in order, its key with the version before and the
/// version that the lock holds now.
pub open spec fn transitions(
    entries: Seq<ModEntryView>,
    before: Seq<Option<Seq<char>>>,
    lock: Seq<(Seq<char>, LockEntryView)>,
) -> Seq<Transition> {
    Seq::new(
        entries.len(),
        |i: int| (entries[i].key(), kept_at(before, i), locked_version(lock, entries[i].key())),
    )
}

/// The transitions in which the version changed, in order.
pub open spec fn changes(all: Seq<Transition>) -> Seq<Transition> {
    all.filter(|t: Transition| t.1 != t.2)
}

impl Upgrade {
    /// The versions that the lock holds for the entries, to be kept until
    /// the upgrade is done.
    pub fn snapshot(lock: &LockService, entries: &Vec<ModEntry>) -> (r: Vec<Option<String>>)
        ensures
            option_views(r@) == locked_versions(lock@, entry_views(entries@)),
    {
        let mut before: Vec<Option<String>> = Vec::new();
        let mut i: usize = 0;
        while i < entries.len()
            invariant
                i <= entries.len(),
                before.len() == i,
                forall|k: int|
                    0 <= k < i ==> text_option(#[trigger] before@[k]) == locked_version(
                        lock@,
                        entries@[k]@.key(),
                    ),
            decreases entries.len() - i,
        {
            before.push(lock.get_version(&entries[i]));
            i = i + 1;
        }
        assert(option_views(before@) =~= locked_versions(lock@, entry_views(entries@)));
        before
    }

    /// Compares the versions kept before the upgrade, entry by entry, with
    /// what the lock holds now.
    pub fn compare(entries: &Vec<ModEntry>, before: &Vec<Option<String>>, lock: &LockService) -> (r:
        UpgradeResult)
        ensures
            transition_views(r.upgraded@) == changes(
                transitions(entry_views(entries@), option_views(before@), lock@),
            ),
            r.unchanged == entries.len() - r.upgraded.len(),
    {
        let ghost all = transitions(entry_views(entries@), option_views(before@), lock@);
        let ghost pred = |t: Transition| t.1 != t.2;
        let mut upgraded: Vec<(String, Option<String>, Option<String>)> = Vec::new();
        let mut unchanged: usize = 0;
        let mut i: usize = 0;
        proof {
            assert(all.take(0) =~= Seq::<Transition>::empty());
            assert(transition_views(upgraded@) =~= Seq::<Transition>::empty());
        }
        while i < entries.len()
            invariant
                i <= entries.len(),
                all == transitions(entry_views(entries@), option_views(before@), lock@),
                pred == (|t: Transition| t.1 != t.2),
                transition_views(upgraded@) == all.take(i as int).filter(pred),
                unchanged + upgraded.len() == i,
            decreases entries.len() - i,
        {
            let key = entries[i].to_key();
            let after = lock.get_version(&entries[i]);
            let was: Option<String> = if i < before.len() {
                match &before[i] {
                    Some(b) => Some(b.clone()),
                    None => None,
                }
            } else {
                None
            };
            let same = match (&was, &after) {
                (Some(b), Some(a)) => *b.as_str() == *a.as_str(),
                (None, None) => true,
                _ => false,
            };
            proof {
                if i < before.len() {
                    assert(option_views(before@)[i as int] == text_option(before@[i as int]));
                }
                assert(all[i as int] == (key@, text_option(was), text_option(after)));
                assert(all.take(i + 1).drop_last() =~= all.take(i as int));
                assert(all.take(i + 1).last() == all[i as int]);
                reveal(Seq::filter);
            }
            if !same {
                let ghost sofar = transition_views(upgraded@);
                upgraded.push((key, was, after));
                proof {
                    assert(transition_views(upgraded@) =~= sofar.push(all[i as int]));
                }
            } else {
                unchanged = unchanged + 1;
            }
            i = i + 1;
        }
        proof {
            assert(all.take(entries.len() as int) =~= all);
        }
        UpgradeResult { upgraded, unchanged }
    }
}

} // verus!
