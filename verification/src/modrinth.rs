//! The Modrinth catalog: what is asked of it and what its answers mean.
//!
//! Sending a request and decoding the answer is the caller's part. This
//! module builds the addresses and turns decoded answers into results.

use vstd::prelude::*;
use crate::manifest::Side;
use crate::repository::{ModResult, VersionResult, PAGINATION_SIZE};
use crate::table::{Table, value_of};
use crate::text::{append, decimal, decimal_text};

verus! {

/// The answer to a search.
#[derive(Debug)]
pub struct SearchResponse {
    pub hits: Vec<SearchItem>,
}

/// The answer to the question for one project.
#[derive(Debug)]
pub struct FindResponse {
    pub id: String,
    pub slug: String,
    pub title: String,
    pub description: String,
    pub client_side: String,
    pub server_side: String,
    pub game_versions: Vec<String>,
}

/// One hit of a search.
#[derive(Debug)]
pub struct SearchItem {
    pub author: String,
    pub categories: Vec<String>,
    pub client_side: String,
    pub color: Option<u32>,
    pub date_created: String,
    pub date_modified: String,
    pub description: String,
    pub display_categories: Vec<String>,
    pub downloads: u64,
    pub featured_gallery: Option<String>,
    pub follows: u64,
    pub gallery: Vec<String>,
    pub icon_url: Option<String>,
    pub latest_version: String,
    pub license: String,
    pub project_id: String,
    pub project_type: String,
    pub server_side: String,
    pub slug: String,
    pub title: String,
    pub versions: Vec<String>,
}

/// One version of a project.
#[derive(Debug)]
pub struct VersionItem {
    pub id: String,
    pub project_id: String,
    pub author_id: String,
    pub date_published: String,
    pub version_number: String,
    pub game_versions: Vec<String>,
    pub loaders: Vec<String>,
    pub files: Vec<VersionFile>,
    pub changelog: Option<String>,
    pub dependencies: Vec<VersionDependency>,
    pub status: String,
    pub requested_status: Option<String>,
}

/// One file of a version. `hashes` files each hash under the name of its
/// algorithm.
#[derive(Debug)]
pub struct VersionFile {
    pub url: String,
    pub filename: String,
    pub primary: bool,
    pub size: u64,
    pub hashes: Table<String>,
}

/// What a version depends on.
#[derive(Debug)]
pub struct VersionDependency {
    pub project_id: Option<String>,
    pub version_id: Option<String>,
    pub dependency_type: String,
}

/// The JSON text that `serde_json::to_string` writes for a list of texts: an
/// array of strings.
pub uninterp spec fn json_list_text(items: Seq<Seq<char>>) -> Seq<char>;

/// Writes a list of texts as JSON with `serde_json::to_string`, which does
/// not fail on texts.
#[verifier::external_body]
fn json_list(items: &Vec<String>) -> (r: String)
    ensures
        r@ == json_list_text(items.deep_view()),
{
    match ::serde_json::to_string(items) {
        Ok(text) => text,
        Err(_) => String::new(),
    }
}

/// Whether a catalog's word for one side says that the mod runs there.
pub open spec fn supported(word: Seq<char>) -> bool {
    word == "required"@ || word == "optional"@
}

/// The side of a mod, from what the catalog says of client and of server.
pub open spec fn side_of(client: Seq<char>, server: Seq<char>) -> Side {
    if supported(client) && supported(server) {
        Side::Both
    } else if supported(client) {
        Side::Client
    } else if supported(server) {
        Side::Server
    } else {
        Side::Unknown
    }
}

/// The side of a mod, from what the catalog says of client and of server.
pub fn get_side(client: &str, server: &str) -> (r: Side)
    ensures
        r == side_of(client@, server@),
{
    let client_supported = *client == *"required" || *client == *"optional";
    let server_supported = *server == *"required" || *server == *"optional";
    if client_supported && server_supported {
        Side::Both
    } else if client_supported {
        Side::Client
    } else if server_supported {
        Side::Server
    } else {
        Side::Unknown
    }
}

/// The part of a search address that selects page `page`: the offset of
/// its first result and the size of a page.
pub open spec fn pagination(page: nat) -> Seq<char> {
    "&offset="@ + decimal(page * PAGINATION_SIZE as nat) + "&limit="@ + decimal(
        PAGINATION_SIZE as nat,
    )
}

/// The part of a search address that selects page `page`, counted from 0.
pub fn with_pagination(page: usize) -> (r: String)
    requires
        page * PAGINATION_SIZE <= usize::MAX,
    ensures
        r@ == pagination(page as nat),
{
    let offset: usize = page * PAGINATION_SIZE;
    let a = append("&offset=", decimal_text(offset).as_str());
    let b = append(a.as_str(), "&limit=");
    append(b.as_str(), decimal_text(PAGINATION_SIZE).as_str())
}

/// The address of a search for `query`, page `page`.
pub fn search_url(query: &str, page: usize) -> (r: String)
    requires
        page * PAGINATION_SIZE <= usize::MAX,
    ensures
        r@ == "https://api.modrinth.com/v2/search?query="@ + query@ + pagination(page as nat),
{
    let head = append("https://api.modrinth.com/v2/search?query=", query);
    append(head.as_str(), with_pagination(page).as_str())
}

/// The address of the project `slug`.
pub fn find_url(slug: &str) -> (r: String)
    ensures
        r@ == "https://api.modrinth.com/v2/project/"@ + slug@,
{
    append("https://api.modrinth.com/v2/project/", slug)
}

/// The address of the versions of a project that fit the game versions and
/// the loaders, both written as JSON arrays.
pub fn versions_url(project_id: &str, game_versions: &Vec<String>, loaders: &Vec<String>) -> (r:
    String)
    ensures
        r@ == "https://api.modrinth.com/v2/project/"@ + project_id@ + "/version?game_versions="@
            + json_list_text(game_versions.deep_view()) + "&loaders="@ + json_list_text(
            loaders.deep_view(),
        ),
{
    let a = append("https://api.modrinth.com/v2/project/", project_id);
    let b = append(a.as_str(), "/version?game_versions=");
    let c = append(b.as_str(), json_list(game_versions).as_str());
    let d = append(c.as_str(), "&loaders=");
    append(d.as_str(), json_list(loaders).as_str())
}

/// The page of the project `slug` for a reader.
pub open spec fn page_of(slug: Seq<char>) -> Seq<char> {
    "https://modrinth.com/mod/"@ + slug
}

/// The result that a hit of a search stands for.
pub fn mod_from_hit(hit: &SearchItem) -> (r: ModResult)
    ensures
        r@.id == hit.project_id@,
        r@.slug == hit.slug@,
        r@.name == hit.title@,
        r@.description == hit.description@,
        r@.source == "Modrinth"@,
        r@.side == side_of(hit.client_side@, hit.server_side@),
        r@.url == page_of(hit.slug@),
{
    ModResult {
        id: hit.project_id.clone(),
        slug: hit.slug.clone(),
        name: hit.title.clone(),
        description: hit.description.clone(),
        source: "Modrinth".to_string(),
        side: get_side(hit.client_side.as_str(), hit.server_side.as_str()),
        url: append("https://modrinth.com/mod/", hit.slug.as_str()),
    }
}

/// The results of a search: one for each hit, in order; none where the
/// request or the decoding of its answer failed.
pub fn search_results(response: Option<SearchResponse>) -> (r: Vec<ModResult>)
    ensures
        match response {
            Some(answer) => r.len() == answer.hits.len() && forall|i: int|
                0 <= i < r.len() ==> {
                    &&& (#[trigger] r@[i])@.id == answer.hits@[i].project_id@
                    &&& r@[i]@.slug == answer.hits@[i].slug@
                    &&& r@[i]@.name == answer.hits@[i].title@
                    &&& r@[i]@.description == answer.hits@[i].description@
                    &&& r@[i]@.source == "Modrinth"@
                    &&& r@[i]@.side == side_of(
                        answer.hits@[i].client_side@,
                        answer.hits@[i].server_side@,
                    )
                    &&& r@[i]@.url == page_of(answer.hits@[i].slug@)
                },
            None => r.len() == 0,
        },
{
    let mut results: Vec<ModResult> = Vec::new();
    match response {
        Some(answer) => {
            let mut i: usize = 0;
            while i < answer.hits.len()
                invariant
                    i <= answer.hits.len(),
                    results.len() == i,
                    forall|k: int|
                        0 <= k < i ==> {
                            &&& (#[trigger] results@[k])@.id == answer.hits@[k].project_id@
                            &&& results@[k]@.slug == answer.hits@[k].slug@
                            &&& results@[k]@.name == answer.hits@[k].title@
                            &&& results@[k]@.description == answer.hits@[k].description@
                            &&& results@[k]@.source == "Modrinth"@
                            &&& results@[k]@.side == side_of(
                                answer.hits@[k].client_side@,
                                answer.hits@[k].server_side@,
                            )
                            &&& results@[k]@.url == page_of(answer.hits@[k].slug@)
                        },
                decreases answer.hits.len() - i,
            {
                results.push(mod_from_hit(&answer.hits[i]));
                i = i + 1;
            }
        },
        None => {},
    }
    results
}

/// The result for one project; none where the request or the decoding of
/// its answer failed.
pub fn find_result(response: Option<FindResponse>) -> (r: Option<ModResult>)
    ensures
        match response {
            Some(answer) => r matches Some(found) && {
                &&& found@.id == answer.id@
                &&& found@.slug == answer.slug@
                &&& found@.name == answer.title@
                &&& found@.description == answer.description@
                &&& found@.source == "Modrinth"@
                &&& found@.side == side_of(answer.client_side@, answer.server_side@)
                &&& found@.url == page_of(answer.slug@)
            },
            None => r is None,
        },
{
    match response {
        Some(answer) => {
            let side = get_side(answer.client_side.as_str(), answer.server_side.as_str());
            let url = append("https://modrinth.com/mod/", answer.slug.as_str());
            Some(
                ModResult {
                    id: answer.id,
                    slug: answer.slug,
                    name: answer.title,
                    description: answer.description,
                    source: "Modrinth".to_string(),
                    side,
                    url,
                },
            )
        },
        None => None,
    }
}

/// Index of the first primary file at or after `from`; the number of files
/// when none is primary.
pub open spec fn primary_from(files: Seq<VersionFile>, from: int) -> int
    decreases files.len() - from,
{
    if from >= files.len() {
        files.len() as int
    } else if files[from].primary {
        from
    } else {
        primary_from(files, from + 1)
    }
}

/// The address of the first primary file; empty where no file is primary.
pub open spec fn primary_url(files: Seq<VersionFile>) -> Seq<char> {
    let i = primary_from(files, 0);
    if i < files.len() {
        files[i].url@
    } else {
        Seq::empty()
    }
}

/// The hash of the first primary file: its `sha512` where it has one, else
/// its `sha1`; empty where it has neither or no file is primary.
pub open spec fn primary_hash(files: Seq<VersionFile>) -> Seq<char> {
    let i = primary_from(files, 0);
    if i < files.len() {
        match value_of(files[i].hashes.pairs(), "sha512"@) {
            Some(h) => h@,
            None => match value_of(files[i].hashes.pairs(), "sha1"@) {
                Some(h) => h@,
                None => Seq::empty(),
            },
        }
    } else {
        Seq::empty()
    }
}

/// The first primary file among `files`.
fn primary_file(files: &Vec<VersionFile>) -> (r: Option<usize>)
    ensures
        match r {
            Some(i) => i < files.len() && primary_from(files@, 0) == i,
            None => primary_from(files@, 0) == files.len(),
        },
{
    let mut i: usize = 0;
    while i < files.len()
        invariant
            i <= files.len(),
            primary_from(files@, i as int) == primary_from(files@, 0),
        decreases files.len() - i,
    {
        if files[i].primary {
            return Some(i);
        }
        i = i + 1;
    }
    None
}

/// The candidate that a version of the catalog stands for.
pub fn version_from_item(item: VersionItem) -> (r: VersionResult)
    ensures
        r@.mod_id == item.project_id@,
        r@.version == item.version_number@,
        r@.minecraft_versions == item.game_versions.deep_view(),
        r@.url == primary_url(item.files@),
        r@.hash == primary_hash(item.files@),
{
    let mut url = String::new();
    let mut hash = String::new();
    match primary_file(&item.files) {
        Some(i) => {
            url = item.files[i].url.clone();
            match item.files[i].hashes.get("sha512") {
                Some(h) => {
                    hash = h.clone();
                },
                None => match item.files[i].hashes.get("sha1") {
                    Some(h) => {
                        hash = h.clone();
                    },
                    None => {},
                },
            }
        },
        None => {},
    }
    VersionResult {
        mod_id: item.project_id,
        version: item.version_number,
        minecraft_versions: item.game_versions,
        url,
        hash,
    }
}

/// The candidates that a project offers: one for each version, in the
/// catalog's order; none where the request or the decoding of its answer
/// failed.
pub fn version_results(items: Option<Vec<VersionItem>>) -> (r: Vec<VersionResult>)
    ensures
        match items {
            Some(list) => r.len() == list.len() && forall|i: int|
                0 <= i < r.len() ==> {
                    &&& (#[trigger] r@[i])@.mod_id == list@[i].project_id@
                    &&& r@[i]@.version == list@[i].version_number@
                    &&& r@[i]@.minecraft_versions == list@[i].game_versions.deep_view()
                    &&& r@[i]@.url == primary_url(list@[i].files@)
                    &&& r@[i]@.hash == primary_hash(list@[i].files@)
                },
            None => r.len() == 0,
        },
{
    let mut results: Vec<VersionResult> = Vec::new();
    match items {
        Some(list) => {
            let ghost all = list@;
            for item in iter: list
                invariant
                    iter.seq() == all,
                    results.len() == iter.index(),
                    forall|k: int|
                        0 <= k < results.len() ==> {
                            &&& (#[trigger] results@[k])@.mod_id == all[k].project_id@
                            &&& results@[k]@.version == all[k].version_number@
                            &&& results@[k]@.minecraft_versions == all[k].game_versions.deep_view()
                            &&& results@[k]@.url == primary_url(all[k].files@)
                            &&& results@[k]@.hash == primary_hash(all[k].files@)
                        },
            {
                results.push(version_from_item(item));
            }
        },
        None => {},
    }
    results
}

} // verus!
