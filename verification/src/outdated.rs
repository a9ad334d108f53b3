//! The scan for mods that could be newer than what the lock holds.

use vstd::prelude::*;
use crate::lock::{LockEntryView, LockService, VersionQuery, VersionQueryView};
use crate::manifest::{
    Manifest, ModEntry, ModEntryView, VersionSpecView, entry_views, text_option,
};
use crate::repository::{VersionResult, VersionResultView, views_of};
use crate::resolver::{chosen, latest_pick, latest_version, resolve_spec};
use crate::table::{lemma_pair_views, value_of};
use crate::text::{
    append, contains, lemma_text_le_antisymmetric, lemma_text_le_total, lemma_text_le_transitive,
    occurs_in, precedes, text_le,
};

verus! {

/// One mod that could be newer.
#[derive(Debug)]
pub struct OutdatedEntry {
    pub key: String,
    /// The locked version.
    pub current: String,
    /// The version that the specifier asks for among what is offered.
    pub wanted: Option<String>,
    /// The newest version of all.
    pub latest: Option<String>,
}

/// An `OutdatedEntry` as plain values.
pub struct OutdatedEntryView {
    pub key: Seq<char>,
    pub current: Seq<char>,
    pub wanted: Option<Seq<char>>,
    pub latest: Option<Seq<char>>,
}

impl View for OutdatedEntry {
    type V = OutdatedEntryView;

    open spec fn view(&self) -> OutdatedEntryView {
        OutdatedEntryView {
            key: self.key@,
            current: self.current@,
            wanted: text_option(self.wanted),
            latest: text_option(self.latest),
        }
    }
}

impl Clone for OutdatedEntry {
    fn clone(&self) -> (r: Self)
        ensures
            r@ == self@,
    {
        OutdatedEntry {
            key: self.key.clone(),
            current: self.current.clone(),
            wanted: match &self.wanted {
                Some(w) => Some(w.clone()),
                None => None,
            },
            latest: match &self.latest {
                Some(l) => Some(l.clone()),
                None => None,
            },
        }
    }
}

/// What a scan found: the mods that could be newer, ordered by key, and
/// the number of mods that were looked at.
#[derive(Debug)]
pub struct OutdatedResult {
    pub outdated: Vec<OutdatedEntry>,
    pub total_checked: usize,
}

/// A filter selected no mod at all.
#[derive(Clone, Copy, Debug, PartialEq, Eq, Structural)]
pub struct NoMatchingMods;

/// The scan for mods that could be newer.
pub struct Outdated;

/// The views of a list of findings, in order.
pub open spec fn finding_views(found: Seq<OutdatedEntry>) -> Seq<OutdatedEntryView> {
    found.map_values(|e: OutdatedEntry| e@)
}

/// Whether a filter selects an entry: the empty filter selects every entry,
/// any other the entries whose slug holds one of its texts.
pub open spec fn selects(filter: Seq<Seq<char>>, entry: ModEntryView) -> bool {
    filter.len() == 0 || exists|k: int|
        0 <= k < filter.len() && occurs_in(#[trigger] filter[k], entry.slug)
}

/// The entries that a filter selects, in their order.
pub open spec fn selection(entries: Seq<ModEntryView>, filter: Seq<Seq<char>>) -> Seq<
    ModEntryView,
> {
    entries.filter(|e: ModEntryView| selects(filter, e))
}

/// The version of an optional candidate.
pub open spec fn version_option(c: Option<VersionResultView>) -> Option<Seq<char>> {
    match c {
        Some(c) => Some(c.version),
        None => None,
    }
}

/// The version that an entry's specifier asks for among the candidates:
/// the version of the candidate that the specifier resolves to.
pub open spec fn wanted_version(spec: VersionSpecView, candidates: Seq<VersionResultView>)
    -> Option<Seq<char>> {
    version_option(chosen(spec, candidates))
}

/// What the scan reports of one entry. An entry that is not locked and one
/// without candidates are passed over. Of the others, one is reported when
/// the wanted version or the newest version is not the locked one.
pub open spec fn finding(
    lock: Seq<(Seq<char>, LockEntryView)>,
    entry: ModEntryView,
    candidates: Seq<VersionResultView>,
) -> Option<OutdatedEntryView> {
    match value_of(lock, entry.key()) {
        None => None,
        Some(locked) => if candidates.len() == 0 {
            None
        } else {
            let wanted = wanted_version(entry.version, candidates);
            let latest = version_option(latest_pick(candidates));
            if (wanted is Some && wanted != Some(locked.version)) || (latest is Some && latest
                != Some(locked.version)) {
                Some(
                    OutdatedEntryView { key: entry.key(), current: locked.version, wanted, latest },
                )
            } else {
                None
            }
        },
    }
}

/// `e` put into an ordered list: behind the last finding whose key comes
/// no later than its own.
pub open spec fn inserted(sorted: Seq<OutdatedEntryView>, e: OutdatedEntryView) -> Seq<
    OutdatedEntryView,
>
    decreases sorted.len(),
{
    if sorted.len() == 0 {
        seq![e]
    } else if text_le(sorted.last().key, e.key) {
        sorted.push(e)
    } else {
        inserted(sorted.drop_last(), e).push(sorted.last())
    }
}

/// The findings ordered by key. Findings with the same key keep the order
/// in which they came.
pub open spec fn sorted_by_key(found: Seq<OutdatedEntryView>) -> Seq<OutdatedEntryView>
    decreases found.len(),
{
    if found.len() == 0 {
        found
    } else {
        inserted(sorted_by_key(found.drop_last()), found.last())
    }
}

/// Each finding's key comes no later than the key of every finding behind it.
pub open spec fn ordered(found: Seq<OutdatedEntryView>) -> bool {
    forall|i: int, j: int|
        0 <= i < j < found.len() ==> text_le((#[trigger] found[i]).key, (#[trigger] found[j]).key)
}

/// Putting a finding into place is inserting it at one index: behind every
/// finding whose key comes no later, before all that come later.
pub proof fn lemma_inserted_at(sorted: Seq<OutdatedEntryView>, e: OutdatedEntryView, p: int)
    requires
        0 <= p <= sorted.len(),
        p > 0 ==> text_le(sorted[p - 1].key, e.key),
        forall|k: int| p <= k < sorted.len() ==> !text_le((#[trigger] sorted[k]).key, e.key),
    ensures
        inserted(sorted, e) == sorted.insert(p, e),
    decreases sorted.len(),
{
    if sorted.len() == 0 {
        assert(seq![e] =~= sorted.insert(0, e));
    } else if p == sorted.len() {
        assert(sorted.push(e) =~= sorted.insert(p, e));
    } else {
        assert(!text_le(sorted.last().key, e.key));
        lemma_inserted_at(sorted.drop_last(), e, p);
        assert(sorted.drop_last().insert(p, e).push(sorted.last()) =~= sorted.insert(p, e));
    }
}

/// Putting a finding into an ordered list leaves it ordered, and adds that
/// finding and nothing else.
pub proof fn lemma_inserted(sorted: Seq<OutdatedEntryView>, e: OutdatedEntryView)
    requires
        ordered(sorted),
    ensures
        ordered(inserted(sorted, e)),
        inserted(sorted, e).to_multiset() == sorted.to_multiset().insert(e),
        inserted(sorted, e).len() == sorted.len() + 1,
    decreases sorted.len(),
{
    broadcast use vstd::seq_lib::group_to_multiset_ensures;

    if sorted.len() == 0 {
        assert(seq![e] =~= Seq::<OutdatedEntryView>::empty().push(e));
        assert(sorted =~= Seq::<OutdatedEntryView>::empty());
    } else if text_le(sorted.last().key, e.key) {
        let out = sorted.push(e);
        assert forall|i: int, j: int| 0 <= i < j < out.len() implies text_le(
            (#[trigger] out[i]).key,
            (#[trigger] out[j]).key,
        ) by {
            if j == sorted.len() {
                if i < sorted.len() - 1 {
                    assert(text_le(sorted[i].key, sorted[sorted.len() - 1].key));
                    lemma_text_le_transitive(sorted[i].key, sorted.last().key, e.key);
                }
            } else {
                assert(text_le(sorted[i].key, sorted[j].key));
            }
        }
    } else {
        let head = sorted.drop_last();
        assert(ordered(head)) by {
            assert forall|i: int, j: int| 0 <= i < j < head.len() implies text_le(
                (#[trigger] head[i]).key,
                (#[trigger] head[j]).key,
            ) by {
                assert(text_le(sorted[i].key, sorted[j].key));
            }
        }
        lemma_inserted(head, e);
        let mid = inserted(head, e);
        let out = mid.push(sorted.last());
        lemma_text_le_total(sorted.last().key, e.key);
        assert forall|i: int| 0 <= i < mid.len() implies text_le(
            (#[trigger] mid[i]).key,
            sorted.last().key,
        ) by {
            assert(mid.to_multiset().count(mid[i]) > 0);
            if mid[i] != e {
                assert(head.to_multiset().count(mid[i]) > 0);
                let k = choose|k: int| 0 <= k < head.len() && head[k] == mid[i];
                assert(text_le(sorted[k].key, sorted[sorted.len() - 1].key));
            }
        }
        assert forall|i: int, j: int| 0 <= i < j < out.len() implies text_le(
            (#[trigger] out[i]).key,
            (#[trigger] out[j]).key,
        ) by {
            if j < mid.len() {
                assert(text_le(mid[i].key, mid[j].key));
            }
        }
        assert(sorted =~= head.push(sorted.last()));
        assert(out.to_multiset() =~= sorted.to_multiset().insert(e));
    }
}

/// Ordering by key yields an ordered list with the same findings, each as
/// often as it came.
pub proof fn lemma_sorted_by_key(found: Seq<OutdatedEntryView>)
    ensures
        ordered(sorted_by_key(found)),
        sorted_by_key(found).to_multiset() == found.to_multiset(),
        sorted_by_key(found).len() == found.len(),
    decreases found.len(),
{
    broadcast use vstd::seq_lib::group_to_multiset_ensures;

    if found.len() > 0 {
        lemma_sorted_by_key(found.drop_last());
        lemma_inserted(sorted_by_key(found.drop_last()), found.last());
        assert(found =~= found.drop_last().push(found.last()));
    }
}

/// No two findings have the same key.
pub open spec fn distinct_findings(found: Seq<OutdatedEntryView>) -> bool {
    forall|i: int, j: int|
        0 <= i < found.len() && 0 <= j < found.len() && i != j ==> (#[trigger] found[i]).key != (
        #[trigger] found[j]).key
}

/// Lists with the same findings have distinct keys together.
pub proof fn lemma_distinct_findings(a: Seq<OutdatedEntryView>, b: Seq<OutdatedEntryView>)
    requires
        a.to_multiset() == b.to_multiset(),
        distinct_findings(a),
    ensures
        distinct_findings(b),
        a.len() == b.len(),
{
    broadcast use vstd::seq_lib::group_to_multiset_ensures;

    assert(a.no_duplicates()) by {
        assert forall|i: int, j: int| 0 <= i < a.len() && 0 <= j < a.len() && i != j implies a[i]
            != a[j] by {
            assert(a[i].key != a[j].key);
        }
    }
    a.lemma_multiset_has_no_duplicates();
    assert forall|e: OutdatedEntryView| b.to_multiset().contains(e) implies b.to_multiset().count(
        e,
    ) == 1 by {}
    b.lemma_multiset_has_no_duplicates_conv();
    vstd::seq_lib::to_multiset_len(a);
    vstd::seq_lib::to_multiset_len(b);
    assert forall|i: int, j: int| 0 <= i < b.len() && 0 <= j < b.len() && i != j implies (
    #[trigger] b[i]).key != (#[trigger] b[j]).key by {
        assert(b[i] != b[j]);
        assert(a.to_multiset().count(b[i]) > 0);
        assert(a.to_multiset().count(b[j]) > 0);
        let p = choose|p: int| 0 <= p < a.len() && a[p] == b[i];
        let q = choose|q: int| 0 <= q < a.len() && a[q] == b[j];
        assert(a[p].key != a[q].key);
    }
}

/// Two ordered lists with the same findings, no two of them under one key,
/// are the same list.
pub proof fn lemma_ordered_unique(x: Seq<OutdatedEntryView>, y: Seq<OutdatedEntryView>)
    requires
        ordered(x),
        ordered(y),
        distinct_findings(x),
        x.to_multiset() == y.to_multiset(),
    ensures
        x == y,
    decreases x.len(),
{
    broadcast use vstd::seq_lib::group_to_multiset_ensures;

    lemma_distinct_findings(x, y);
    if x.len() == 0 {
        assert(x =~= y);
    } else {
        assert(x.to_multiset().count(y[0]) > 0);
        assert(y.to_multiset().count(x[0]) > 0);
        let i = choose|i: int| 0 <= i < x.len() && x[i] == y[0];
        let j = choose|j: int| 0 <= j < y.len() && y[j] == x[0];
        if i != 0 {
            assert(text_le(x[0].key, x[i].key));
            if j != 0 {
                assert(text_le(y[0].key, y[j].key));
            }
            lemma_text_le_antisymmetric(x[0].key, x[i].key);
            assert(x[0].key != x[i].key);
        }
        assert(x[0] == y[0]);
        let xs = x.drop_first();
        let ys = y.drop_first();
        assert(xs =~= x.remove(0));
        assert(ys =~= y.remove(0));
        vstd::seq_lib::to_multiset_remove(x, 0);
        vstd::seq_lib::to_multiset_remove(y, 0);
        assert(ordered(xs)) by {
            assert forall|a: int, b: int| 0 <= a < b < xs.len() implies text_le(
                (#[trigger] xs[a]).key,
                (#[trigger] xs[b]).key,
            ) by {
                assert(text_le(x[a + 1].key, x[b + 1].key));
            }
        }
        assert(ordered(ys)) by {
            assert forall|a: int, b: int| 0 <= a < b < ys.len() implies text_le(
                (#[trigger] ys[a]).key,
                (#[trigger] ys[b]).key,
            ) by {
                assert(text_le(y[a + 1].key, y[b + 1].key));
            }
        }
        assert(distinct_findings(xs)) by {
            assert forall|a: int, b: int|
                0 <= a < xs.len() && 0 <= b < xs.len() && a != b implies (#[trigger] xs[a]).key
                != (#[trigger] xs[b]).key by {
                assert(x[a + 1].key != x[b + 1].key);
            }
        }
        lemma_ordered_unique(xs, ys);
        assert(x =~= seq![x[0]] + xs);
        assert(y =~= seq![y[0]] + ys);
    }
}

/// The report does not depend on the order in which the findings came in:
/// the same findings, no two of them under one key, are reported in the
/// same order however they arrive.
pub proof fn lemma_report_ignores_arrival_order(
    a: Seq<OutdatedEntryView>,
    b: Seq<OutdatedEntryView>,
)
    requires
        a.to_multiset() == b.to_multiset(),
        distinct_findings(a),
    ensures
        sorted_by_key(a) == sorted_by_key(b),
{
    lemma_sorted_by_key(a);
    lemma_sorted_by_key(b);
    lemma_distinct_findings(a, sorted_by_key(a));
    lemma_ordered_unique(sorted_by_key(a), sorted_by_key(b));
}

/// The entries that a filter selects: all of them for the empty filter, else
/// those whose slug holds one of the filter's texts. Selecting nothing is an
/// error.
pub fn select_entries(entries: Vec<ModEntry>, filter: &Vec<String>) -> (r: Result<
    Vec<ModEntry>,
    NoMatchingMods,
>)
    ensures
        match r {
            Ok(chosen) => chosen.len() > 0 && entry_views(chosen@) == selection(
                entry_views(entries@),
                filter.deep_view(),
            ),
            Err(_) => selection(entry_views(entries@), filter.deep_view()).len() == 0,
        },
{
    let ghost all = entry_views(entries@);
    let ghost wanted = filter.deep_view();
    let ghost pred = |e: ModEntryView| selects(wanted, e);
    let mut chosen: Vec<ModEntry> = Vec::new();
    proof {
        assert(all.take(0) =~= Seq::<ModEntryView>::empty());
        assert(entry_views(chosen@) =~= Seq::<ModEntryView>::empty());
    }
    for entry in iter: entries
        invariant
            all == entry_views(iter.seq()),
            wanted == filter.deep_view(),
            pred == (|e: ModEntryView| selects(wanted, e)),
            entry_views(chosen@) == all.take(iter.index() as int).filter(pred),
    {
        let ghost i = iter.index() as int;
        let mut hit = filter.len() == 0;
        let mut k: usize = 0;
        while !hit && k < filter.len()
            invariant
                k <= filter.len(),
                wanted == filter.deep_view(),
                filter.len() > 0 || hit,
                hit ==> selects(wanted, entry@),
                !hit ==> forall|j: int|
                    0 <= j < k ==> !occurs_in(#[trigger] wanted[j], entry@.slug),
            decreases filter.len() - k + (if hit {
                0int
            } else {
                1int
            }),
        {
            assert(wanted[k as int] == filter@[k as int]@);
            if contains(entry.slug.as_str(), filter[k].as_str()) {
                hit = true;
            } else {
                k = k + 1;
            }
        }
        proof {
            assert(all[i] == entry@);
            assert(hit == selects(wanted, all[i]));
            assert(all.take(i + 1).drop_last() =~= all.take(i));
            assert(all.take(i + 1).last() == all[i]);
            reveal(Seq::filter);
        }
        if hit {
            let ghost before = entry_views(chosen@);
            chosen.push(entry);
            proof {
                assert(entry_views(chosen@) =~= before.push(all[i]));
            }
        }
    }
    proof {
        assert(all.take(all.len() as int) =~= all);
    }
    if chosen.len() == 0 {
        Err(NoMatchingMods)
    } else {
        Ok(chosen)
    }
}

impl Outdated {
    /// The query that fetches an entry's candidates for the scan: by the
    /// provider's name, a colon and the slug, which routes it to the entry's
    /// provider; for the pack's game version and loader.
    pub fn query(manifest: &Manifest, m: &ModEntry) -> (r: VersionQuery)
        ensures
            r@ == (VersionQueryView {
                project_id: m@.provider.name() + seq![':'] + m@.slug,
                game_versions: seq![manifest@.minecraft_version],
                loaders: seq![manifest@.modloader.name()],
            }),
    {
        proof {
            reveal_strlit(":");
            assert(":"@ =~= seq![':']);
        }
        let head = append(m.provider.as_str(), ":");
        let project_id = append(head.as_str(), m.slug.as_str());
        let mut game_versions: Vec<String> = Vec::new();
        game_versions.push(manifest.minecraft_version.clone());
        let mut loaders: Vec<String> = Vec::new();
        loaders.push(manifest.modloader.as_str().to_string());
        let query = VersionQuery { project_id, game_versions, loaders };
        proof {
            assert(query.game_versions.deep_view() =~= seq![manifest@.minecraft_version]);
            assert(query.loaders.deep_view() =~= seq![manifest@.modloader.name()]);
        }
        query
    }

    /// Looks at one entry with the candidates that its catalog offers.
    pub fn check_mod(lock: &LockService, m: &ModEntry, versions: &[VersionResult]) -> (r: Option<
        OutdatedEntry,
    >)
        ensures
            match r {
                Some(e) => finding(lock@, m@, views_of(versions@)) == Some(e@),
                None => finding(lock@, m@, views_of(versions@)) is None,
            },
    {
        let key = m.to_key();
        proof {
            lemma_pair_views(lock.lock.mods.pairs(), key@);
        }
        let lock_entry = match lock.lock.mods.get(key.as_str()) {
            Some(e) => e,
            None => {
                return None;
            },
        };
        if versions.len() == 0 {
            assert(views_of(versions@).len() == 0);
            return None;
        }
        let latest = match latest_version(versions) {
            Some(v) => Some(v.version),
            None => None,
        };
        let wanted = match resolve_spec(&m.version, versions) {
            Some(v) => Some(v.version),
            None => None,
        };
        let wanted_differs = match &wanted {
            Some(w) => *w.as_str() != *lock_entry.version.as_str(),
            None => false,
        };
        let latest_differs = match &latest {
            Some(l) => *l.as_str() != *lock_entry.version.as_str(),
            None => false,
        };
        if wanted_differs || latest_differs {
            Some(OutdatedEntry { key, current: lock_entry.version.clone(), wanted, latest })
        } else {
            None
        }
    }

    /// The result of a scan, from what was found entry by entry, in
    /// whatever order the findings came in: the findings ordered by key.
    pub fn report(total_checked: usize, found: Vec<OutdatedEntry>) -> (r: OutdatedResult)
        ensures
            r.total_checked == total_checked,
            finding_views(r.outdated@) == sorted_by_key(finding_views(found@)),
            ordered(finding_views(r.outdated@)),
            finding_views(r.outdated@).to_multiset() == finding_views(found@).to_multiset(),
    {
        let ghost all = finding_views(found@);
        let mut out: Vec<OutdatedEntry> = Vec::new();
        proof {
            assert(all.take(0) =~= Seq::<OutdatedEntryView>::empty());
            assert(finding_views(out@) =~= Seq::<OutdatedEntryView>::empty());
        }
        for entry in iter: found
            invariant
                all == finding_views(iter.seq()),
                finding_views(out@) == sorted_by_key(all.take(iter.index() as int)),
        {
            let ghost i = iter.index() as int;
            let ghost before = finding_views(out@);
            let mut p: usize = out.len();
            while p > 0 && !precedes(out[p - 1].key.as_str(), entry.key.as_str())
                invariant
                    p <= out.len(),
                    before == finding_views(out@),
                    forall|k: int|
                        p <= k < out.len() ==> !text_le((#[trigger] before[k]).key, entry@.key),
                decreases p,
            {
                p = p - 1;
                assert(before[p as int] == out@[p as int]@);
            }
            proof {
                if p > 0 {
                    assert(before[p - 1] == out@[p - 1]@);
                }
                lemma_inserted_at(before, entry@, p as int);
                assert(all.take(i + 1).drop_last() =~= all.take(i));
                assert(all.take(i + 1).last() == entry@);
            }
            let ghost placed = entry@;
            out.insert(p, entry);
            proof {
                assert(finding_views(out@) =~= before.insert(p as int, placed));
            }
        }
        proof {
            assert(all.take(all.len() as int) =~= all);
            lemma_sorted_by_key(all);
        }
        OutdatedResult { outdated: out, total_checked }
    }
}

} // verus!
