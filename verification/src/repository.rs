//! What a mod catalog answers: projects found by a search and the versions
//! that a project offers.

use vstd::prelude::*;
use crate::manifest::Side;
use crate::table::{Table, value_of, with_pair};
use crate::text::{chars_of, find_from, lowercased, text_of_range};

verus! {

/// One project as a catalog describes it.
#[derive(Debug)]
pub struct ModResult {
    pub id: String,
    pub slug: String,
    pub name: String,
    pub description: String,
    pub source: String,
    pub side: Side,
    pub url: String,
}

/// A `ModResult` as plain values.
pub struct ModResultView {
    pub id: Seq<char>,
    pub slug: Seq<char>,
    pub name: Seq<char>,
    pub description: Seq<char>,
    pub source: Seq<char>,
    pub side: Side,
    pub url: Seq<char>,
}

impl View for ModResult {
    type V = ModResultView;

    open spec fn view(&self) -> ModResultView {
        ModResultView {
            id: self.id@,
            slug: self.slug@,
            name: self.name@,
            description: self.description@,
            source: self.source@,
            side: self.side,
            url: self.url@,
        }
    }
}

impl Clone for ModResult {
    fn clone(&self) -> (r: Self)
        ensures
            r@ == self@,
    {
        ModResult {
            id: self.id.clone(),
            slug: self.slug.clone(),
            name: self.name.clone(),
            description: self.description.clone(),
            source: self.source.clone(),
            side: self.side,
            url: self.url.clone(),
        }
    }
}

/// One version of a project as a catalog lists it: a candidate for
/// resolution. Its `hash` is what a lock entry later records.
#[derive(Debug)]
pub struct VersionResult {
    pub mod_id: String,
    pub version: String,
    pub minecraft_versions: Vec<String>,
    pub url: String,
    pub hash: String,
}

/// A `VersionResult` as plain values.
pub struct VersionResultView {
    pub mod_id: Seq<char>,
    pub version: Seq<char>,
    pub minecraft_versions: Seq<Seq<char>>,
    pub url: Seq<char>,
    pub hash: Seq<char>,
}

impl View for VersionResult {
    type V = VersionResultView;

    open spec fn view(&self) -> VersionResultView {
        VersionResultView {
            mod_id: self.mod_id@,
            version: self.version@,
            minecraft_versions: self.minecraft_versions.deep_view(),
            url: self.url@,
            hash: self.hash@,
        }
    }
}

impl Clone for VersionResult {
    fn clone(&self) -> (r: Self)
        ensures
            r@ == self@,
    {
        VersionResult {
            mod_id: self.mod_id.clone(),
            version: self.version.clone(),
            minecraft_versions: clone_texts(&self.minecraft_versions),
            url: self.url.clone(),
            hash: self.hash.clone(),
        }
    }
}

/// A copy of a list of texts.
pub fn clone_texts(texts: &Vec<String>) -> (r: Vec<String>)
    ensures
        r.deep_view() == texts.deep_view(),
{
    let mut r: Vec<String> = Vec::new();
    let mut i: usize = 0;
    while i < texts.len()
        invariant
            i <= texts.len(),
            r.deep_view() == texts.deep_view().take(i as int),
        decreases texts.len() - i,
    {
        let ghost before = r.deep_view();
        r.push(texts[i].clone());
        i = i + 1;
        assert(r.deep_view() =~= before.push(texts@[i - 1]@));
        assert(texts.deep_view().take(i as int) =~= before.push(texts@[i - 1]@));
    }
    assert(texts.deep_view().take(texts.len() as int) =~= texts.deep_view());
    r
}

/// The views of a list of candidates, in order.
pub open spec fn views_of(candidates: Seq<VersionResult>) -> Seq<VersionResultView> {
    candidates.map_values(|c: VersionResult| c@)
}

/// The version texts of a list of candidates, in order.
pub open spec fn versions_of(candidates: Seq<VersionResultView>) -> Seq<Seq<char>> {
    candidates.map_values(|c: VersionResultView| c.version)
}

/// The number of results on one page of a search.
pub const PAGINATION_SIZE: usize = 20;

/// The provider that a project identifier without a prefix is routed to.
pub open spec fn default_route() -> Seq<char> {
    "modrinth"@
}

/// Where a project identifier is routed: an identifier `provider:id` goes to
/// the provider named before its first colon, in lower case, under the
/// identifier behind that colon; one without a colon goes to `modrinth`
/// as it is.
pub open spec fn routed(project_id: Seq<char>) -> (Seq<char>, Seq<char>) {
    let colon = find_from(project_id, ':', 0);
    if colon < project_id.len() {
        (lowercased(project_id.take(colon)), project_id.skip(colon + 1))
    } else {
        (default_route(), project_id)
    }
}

/// The provider name and the bare identifier that a project identifier is
/// routed to.
pub fn route(project_id: &str) -> (r: (String, String))
    ensures
        (r.0@, r.1@) == routed(project_id@),
{
    let chars = chars_of(project_id);
    let mut colon: usize = 0;
    while colon < chars.len() && chars[colon] != ':'
        invariant
            colon <= chars.len(),
            find_from(chars@, ':', colon as int) == find_from(chars@, ':', 0),
        decreases chars.len() - colon,
    {
        colon = colon + 1;
    }
    if colon < chars.len() {
        let head = text_of_range(&chars, 0, colon);
        let id = text_of_range(&chars, colon + 1, chars.len());
        proof {
            assert(chars@.subrange(0, colon as int) =~= chars@.take(colon as int));
            assert(chars@.subrange(colon + 1, chars.len() as int) =~= chars@.skip(colon + 1));
        }
        (head.as_str().to_lowercase(), id)
    } else {
        ("modrinth".to_string(), project_id.to_string())
    }
}

/// Whether a page of `count` results may be followed by another: a page
/// shorter than `PAGINATION_SIZE` is the last.
pub fn has_more(count: usize) -> (r: bool)
    ensures
        r == (count >= PAGINATION_SIZE),
{
    count >= PAGINATION_SIZE
}

/// The registry of catalogs, each under its name in lower case, in the order
/// in which they were registered. `R` is whatever reaches a catalog.
pub struct RepositoryService<R> {
    repositories: Table<R>,
}

impl<R> RepositoryService<R> {
    /// The registered catalogs under their names, in the order of registration.
    pub closed spec fn providers(&self) -> Seq<(Seq<char>, R)> {
        self.repositories.pairs()
    }

    /// A registry without catalogs.
    pub fn new() -> (r: Self)
        ensures
            r.providers() == Seq::<(Seq<char>, R)>::empty(),
    {
        RepositoryService { repositories: Table::new() }
    }

    /// Registers `provider` under `name` in lower case. A name that is
    /// registered already keeps its place and gets the new catalog.
    pub fn with_provider(self, name: &str, provider: R) -> (r: Self)
        ensures
            r.providers() == with_pair(self.providers(), lowercased(name@), provider),
    {
        let mut service = self;
        service.repositories.insert(name.to_lowercase(), provider);
        service
    }

    /// The catalog registered under `name` in lower case.
    pub fn get_provider(&self, name: &str) -> (r: Option<&R>)
        ensures
            match r {
                Some(p) => value_of(self.providers(), lowercased(name@)) == Some(*p),
                None => value_of(self.providers(), lowercased(name@)) is None,
            },
    {
        let key = name.to_lowercase();
        self.repositories.get(key.as_str())
    }

    /// The number of registered catalogs.
    pub fn len(&self) -> (n: usize)
        ensures
            n == self.providers().len(),
    {
        self.repositories.len()
    }

    /// The catalog registered at place `i`. A search asks each place in turn.
    pub fn provider_at(&self, i: usize) -> (r: &R)
        requires
            i < self.providers().len(),
        ensures
            *r == self.providers()[i as int].1,
    {
        self.repositories.value_at(i)
    }

    /// The catalog that `find` asks: the one registered first, and no other.
    pub fn first_provider(&self) -> (r: Option<&R>)
        ensures
            match r {
                Some(p) => self.providers().len() > 0 && *p == self.providers()[0].1,
                None => self.providers().len() == 0,
            },
    {
        if self.repositories.len() > 0 {
            Some(self.repositories.value_at(0))
        } else {
            None
        }
    }

    /// The catalog that the versions of `project_id` are asked of, and the
    /// identifier to ask it with; nothing where the provider that the
    /// identifier is routed to is not registered.
    pub fn versions_target(&self, project_id: &str) -> (r: Option<(&R, String)>)
        ensures
            match r {
                Some((p, id)) => value_of(
                    self.providers(),
                    lowercased(routed(project_id@).0),
                ) == Some(*p) && id@ == routed(project_id@).1,
                None => value_of(self.providers(), lowercased(routed(project_id@).0)) is None,
            },
    {
        let (name, id) = route(project_id);
        match self.get_provider(name.as_str()) {
            Some(p) => Some((p, id)),
            None => None,
        }
    }
}

/// The results of several catalogs one after another, in the order given:
/// nothing is dropped, merged or ranked.
pub fn gather(parts: Vec<Vec<ModResult>>) -> (r: Vec<ModResult>)
    ensures
        r@ == parts@.map_values(|p: Vec<ModResult>| p@).flatten(),
{
    let ghost lists = parts@.map_values(|p: Vec<ModResult>| p@);
    let mut out: Vec<ModResult> = Vec::new();
    proof {
        assert(lists.take(0) =~= Seq::<Seq<ModResult>>::empty());
    }
    for part in iter: parts
        invariant
            lists == iter.seq().map_values(|p: Vec<ModResult>| p@),
            out@ == lists.take(iter.index() as int).flatten(),
    {
        let mut piece = part;
        proof {
            let i = iter.index() as int;
            assert(piece@ == lists[i]);
            assert(lists.take(i + 1) =~= lists.take(i).push(lists[i]));
            lists.take(i).lemma_flatten_push(lists[i]);
        }
        out.append(&mut piece);
    }
    proof {
        assert(lists.take(lists.len() as int) =~= lists);
    }
    out
}

} // verus!
