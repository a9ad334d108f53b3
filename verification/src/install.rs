//! Bringing a directory in line with the lock.
//!
//! The caller reads and writes the files and fetches what is to be
//! downloaded. What is decided here: whether the files that are there may
//! stay, what is to be downloaded and copied, whether a download is what
//! the lock recorded, and which files must go.

use vstd::prelude::*;
use sha2::Digest;
use crate::lock::{LockEntryView, LockFile};

use crate::text::append;

verus! {

/// The SHA-512 digest of `bytes`, written as lower-case hexadecimal digits,
/// as `sha2` computes and formats it.
pub uninterp spec fn sha512_hex_of(bytes: Seq<u8>) -> Seq<char>;

/// Computes the digest with `sha2::Sha512` (`Digest::digest`) and writes
/// it with the `{:x}` format of its output.
#[verifier::external_body]
fn digest_hex(bytes: &[u8]) -> (r: String)
    ensures
        r@ == sha512_hex_of(bytes@),
{
    format!("{:x}", ::sha2::Sha512::digest(bytes))
}

/// The SHA-512 digest of `bytes` in lower-case hexadecimal digits: the form
/// in which the lock records a hash.
pub fn sha512_hex(bytes: &[u8]) -> (r: String)
    ensures
        r@ == sha512_hex_of(bytes@),
{
    digest_hex(bytes)
}

/// The pipeline that materializes the lock in a directory.
pub struct Install;

/// Why an install was given up.
#[derive(Debug)]
pub enum InstallError {
    /// A file that was there before has another hash than the lock records
    /// for the entry `key`.
    HashMismatch { key: String },
    /// What was downloaded for `file` has another hash than the lock records.
    DownloadMismatch { file: String },
}

/// An `InstallError` as plain values.
pub enum InstallErrorView {
    HashMismatch { key: Seq<char> },
    DownloadMismatch { file: Seq<char> },
}

impl View for InstallError {
    type V = InstallErrorView;

    open spec fn view(&self) -> InstallErrorView {
        match self {
            InstallError::HashMismatch { key } => InstallErrorView::HashMismatch { key: key@ },
            InstallError::DownloadMismatch { file } => InstallErrorView::DownloadMismatch {
                file: file@,
            },
        }
    }
}

/// What is to be done for one entry of the lock.
#[derive(Debug)]
pub struct Step {
    pub key: String,
    /// The name of the entry's file, in the cache and in the output directory.
    pub file_name: String,
    pub url: String,
    /// The hash that the file must have.
    pub hash: String,
    /// Whether the file is to be downloaded from `url`, and checked.
    pub download: bool,
    /// Whether the cache is in use: then the download goes to the cache, and
    /// the file is copied from the cache to the output directory, over
    /// whatever is there. Else the download goes to the output directory.
    pub cached: bool,
}

/// A `Step` as plain values.
pub struct StepView {
    pub key: Seq<char>,
    pub file_name: Seq<char>,
    pub url: Seq<char>,
    pub hash: Seq<char>,
    pub download: bool,
    pub cached: bool,
}

impl View for Step {
    type V = StepView;

    open spec fn view(&self) -> StepView {
        StepView {
            key: self.key@,
            file_name: self.file_name@,
            url: self.url@,
            hash: self.hash@,
            download: self.download,
            cached: self.cached,
        }
    }
}

/// The views of a list of steps.
pub open spec fn step_views(steps: Seq<Step>) -> Seq<StepView> {
    steps.map_values(|s: Step| s@)
}

/// The name of the file of an entry: `{key}-{version}.jar`.
pub open spec fn file_name_of(key: Seq<char>, version: Seq<char>) -> Seq<char> {
    key + seq!['-'] + version + ".jar"@
}

/// The names of the files that the lock expects, entry by entry.
pub open spec fn expected_names(lock: Seq<(Seq<char>, LockEntryView)>) -> Seq<Seq<char>> {
    Seq::new(lock.len(), |i: int| file_name_of(lock[i].0, lock[i].1.version))
}

/// What was found at place `i` of a directory's view: the content of the
/// file of entry `i`, or nothing where that file is not there. Places
/// beyond the view count as not there.
pub open spec fn found_at(files: Seq<Option<Vec<u8>>>, i: int) -> Option<Seq<u8>> {
    if 0 <= i < files.len() {
        match files[i] {
            Some(bytes) => Some(bytes@),
            None => None,
        }
    } else {
        None
    }
}

/// What was found entry by entry, for `n` entries.
pub open spec fn found_view(files: Seq<Option<Vec<u8>>>, n: nat) -> Seq<Option<Seq<u8>>> {
    Seq::new(n, |i: int| found_at(files, i))
}

/// The digest at place `i` of a directory's digests: the digest of the file
/// of entry `i`, or nothing where that file is not there. Places beyond the
/// digests count as not there.
pub open spec fn digest_at(digests: Seq<Option<String>>, i: int) -> Option<Seq<char>> {
    if 0 <= i < digests.len() {
        match digests[i] {
            Some(digest) => Some(digest@),
            None => None,
        }
    } else {
        None
    }
}

/// The digests entry by entry, for `n` entries.
pub open spec fn digest_view(digests: Seq<Option<String>>, n: nat) -> Seq<Option<Seq<char>>> {
    Seq::new(n, |i: int| digest_at(digests, i))
}

/// The digest of what was found.
pub open spec fn digest_of(found: Option<Seq<u8>>) -> Option<Seq<char>> {
    match found {
        Some(bytes) => Some(sha512_hex_of(bytes)),
        None => None,
    }
}

/// The digests of what was found, entry by entry.
pub open spec fn digests_of(found: Seq<Option<Seq<u8>>>) -> Seq<Option<Seq<char>>> {
    Seq::new(found.len(), |i: int| digest_of(found[i]))
}

/// A file that is there has the digest `hash`. A file that is not there
/// has nothing wrong with it.
pub open spec fn sound(digest: Option<Seq<char>>, hash: Seq<char>) -> bool {
    match digest {
        Some(d) => d == hash,
        None => true,
    }
}

/// A file that is there has the hash `hash`. A file that is not there has
/// nothing wrong with it.
pub open spec fn intact(found: Option<Seq<u8>>, hash: Seq<char>) -> bool {
    sound(digest_of(found), hash)
}

/// Index of the first entry at or after `from` whose file, in the output
/// directory or in the cache, is there with another digest than recorded;
/// the number of entries when there is none.
pub open spec fn first_unsound_from(
    lock: Seq<(Seq<char>, LockEntryView)>,
    output: Seq<Option<Seq<char>>>,
    cache: Seq<Option<Seq<char>>>,
    from: int,
) -> int
    decreases lock.len() - from,
{
    if from >= lock.len() {
        lock.len() as int
    } else if !(sound(output[from], lock[from].1.hash) && sound(cache[from], lock[from].1.hash)) {
        from
    } else {
        first_unsound_from(lock, output, cache, from + 1)
    }
}

/// What the integrity gate says of the digests of the files that are there:
/// with the override nothing is looked at; without it the first entry with
/// a wrong file is named.
pub open spec fn gate_by(
    lock: Seq<(Seq<char>, LockEntryView)>,
    output: Seq<Option<Seq<char>>>,
    cache: Seq<Option<Seq<char>>>,
    force_rehash: bool,
) -> Result<(), InstallErrorView> {
    let i = first_unsound_from(lock, output, cache, 0);
    if !force_rehash && i < lock.len() {
        Err(InstallErrorView::HashMismatch { key: lock[i].0 })
    } else {
        Ok(())
    }
}

/// What the integrity gate says of the files that are there.
pub open spec fn gate(
    lock: Seq<(Seq<char>, LockEntryView)>,
    output: Seq<Option<Seq<u8>>>,
    cache: Seq<Option<Seq<u8>>>,
    force_rehash: bool,
) -> Result<(), InstallErrorView> {
    gate_by(lock, digests_of(output), digests_of(cache), force_rehash)
}

/// The step for one entry. The file that counts is the one in the cache,
/// or the one in the output directory where the cache is not in use. It is
/// downloaded where it is not there, and in any case under the override.
pub open spec fn step_for(
    key: Seq<char>,
    entry: LockEntryView,
    in_output: bool,
    in_cache: bool,
    no_cache: bool,
    force_rehash: bool,
) -> StepView {
    StepView {
        key,
        file_name: file_name_of(key, entry.version),
        url: entry.url,
        hash: entry.hash,
        download: force_rehash || !(if no_cache {
            in_output
        } else {
            in_cache
        }),
        cached: !no_cache,
    }
}

/// The steps for all entries, in the order of the lock, from the digests of
/// the files that are there. Only that a file is there counts here.
pub open spec fn plan_by(
    lock: Seq<(Seq<char>, LockEntryView)>,
    output: Seq<Option<Seq<char>>>,
    cache: Seq<Option<Seq<char>>>,
    no_cache: bool,
    force_rehash: bool,
) -> Seq<StepView> {
    Seq::new(
        lock.len(),
        |i: int|
            step_for(
                lock[i].0,
                lock[i].1,
                output[i] is Some,
                cache[i] is Some,
                no_cache,
                force_rehash,
            ),
    )
}

/// The steps for all entries, in the order of the lock, from the files that
/// are there.
pub open spec fn plan_for(
    lock: Seq<(Seq<char>, LockEntryView)>,
    output: Seq<Option<Seq<u8>>>,
    cache: Seq<Option<Seq<u8>>>,
    no_cache: bool,
    force_rehash: bool,
) -> Seq<StepView> {
    plan_by(lock, digests_of(output), digests_of(cache), no_cache, force_rehash)
}

/// The names of a listing that the lock does not expect, in the listing's order.
pub open spec fn stale_names(lock: Seq<(Seq<char>, LockEntryView)>, listing: Seq<Seq<char>>)
    -> Seq<Seq<char>> {
    listing.filter(|name: Seq<char>| !expected_names(lock).contains(name))
}

/// The name of the file of an entry.
pub fn file_name(key: &str, version: &str) -> (r: String)
    ensures
        r@ == file_name_of(key@, version@),
{
    proof {
        reveal_strlit("-");
        assert("-"@ =~= seq!['-']);
    }
    let a = append(key, "-");
    let b = append(a.as_str(), version);
    append(b.as_str(), ".jar")
}

/// Whether `bytes` have the hash `expected`.
pub fn hash_matches(bytes: &[u8], expected: &str) -> (r: bool)
    ensures
        r == (sha512_hex_of(bytes@) == expected@),
{
    let actual = sha512_hex(bytes);
    *actual.as_str() == *expected
}

/// Whether the digest at place `i` may stay under `expected`.
fn digest_sound(digests: &Vec<Option<String>>, i: usize, expected: &str) -> (r: bool)
    ensures
        r == sound(digest_at(digests@, i as int), expected@),
{
    if i < digests.len() {
        match &digests[i] {
            Some(digest) => *digest.as_str() == *expected,
            None => true,
        }
    } else {
        true
    }
}

/// Whether there is a digest at place `i`.
fn digest_some(digests: &Vec<Option<String>>, i: usize) -> (r: bool)
    ensures
        r == (digest_at(digests@, i as int) is Some),
{
    if i < digests.len() {
        digests[i].is_some()
    } else {
        false
    }
}

/// The digests of the files found are the digests found.
pub proof fn lemma_digest_view(files: Seq<Option<Vec<u8>>>, digests: Seq<Option<String>>, n: nat)
    requires
        digests.len() == files.len(),
        forall|i: int|
            0 <= i < files.len() ==> digest_at(digests, i) == digest_of(
                #[trigger] found_at(files, i),
            ),
    ensures
        digest_view(digests, n) == digests_of(found_view(files, n)),
{
    assert(digest_view(digests, n) =~= digests_of(found_view(files, n))) by {
        assert forall|i: int| 0 <= i < n implies #[trigger] digest_view(digests, n)[i]
            == digests_of(found_view(files, n))[i] by {
            if i < files.len() {
                assert(digest_at(digests, i) == digest_of(found_at(files, i)));
            }
        }
    }
}

impl InstallError {
    /// The failure in words.
    pub fn message(&self) -> (r: String)
        ensures
            r@ == match self@ {
                InstallErrorView::HashMismatch { key } => "Hash mismatch for "@ + key
                    + ". Re-run with --force-rehash to continue."@,
                InstallErrorView::DownloadMismatch { file } => "Hash mismatch for "@ + file,
            },
    {
        match self {
            InstallError::HashMismatch { key } => {
                let head = append("Hash mismatch for ", key.as_str());
                append(head.as_str(), ". Re-run with --force-rehash to continue.")
            },
            InstallError::DownloadMismatch { file } => append("Hash mismatch for ", file.as_str()),
        }
    }
}

impl Install {
    /// The names of the files that the lock expects, entry by entry. The
    /// caller looks each of them up in the output directory and in the
    /// cache, and hands in what it found.
    pub fn expected_files(lock: &LockFile) -> (r: Vec<String>)
        ensures
            r.deep_view() == expected_names(lock@),
    {
        let mut names: Vec<String> = Vec::new();
        let n = lock.mods.len();
        let mut i: usize = 0;
        while i < n
            invariant
                i <= n,
                n == lock.mods.pairs().len(),
                names.len() == i,
                forall|k: int| 0 <= k < i ==> (#[trigger] names@[k])@ == expected_names(lock@)[k],
            decreases n - i,
        {
            names.push(file_name(lock.mods.key_at(i), lock.mods.value_at(i).version.as_str()));
            i = i + 1;
        }
        assert(names.deep_view() =~= expected_names(lock@));
        names
    }

    /// The digests of the files found in a directory, place by place.
    pub fn digests(files: &Vec<Option<Vec<u8>>>) -> (r: Vec<Option<String>>)
        ensures
            r.len() == files.len(),
            forall|i: int|
                0 <= i < files.len() ==> digest_at(r@, i) == digest_of(
                    #[trigger] found_at(files@, i),
                ),
    {
        let mut digests: Vec<Option<String>> = Vec::new();
        let mut i: usize = 0;
        while i < files.len()
            invariant
                i <= files.len(),
                digests.len() == i,
                forall|k: int|
                    0 <= k < i ==> digest_at(digests@, k) == digest_of(
                        #[trigger] found_at(files@, k),
                    ),
            decreases files.len() - i,
        {
            let digest = match &files[i] {
                Some(bytes) => Some(sha512_hex(bytes.as_slice())),
                None => None,
            };
            digests.push(digest);
            i = i + 1;
        }
        digests
    }

    /// The integrity gate. `output` and `cache` hold, entry by entry, the
    /// digest of the entry's file in that directory, or `None` where it is
    /// not there. Unless `force_rehash` is set, every file that is there
    /// must have the hash that the lock records, and the first entry with
    /// a file that has not is named in the error.
    pub fn integrity_gate(
        lock: &LockFile,
        output: &Vec<Option<String>>,
        cache: &Vec<Option<String>>,
        force_rehash: bool,
    ) -> (r: Result<(), InstallError>)
        ensures
            match r {
                Ok(_) => gate_by(
                    lock@,
                    digest_view(output@, lock@.len()),
                    digest_view(cache@, lock@.len()),
                    force_rehash,
                ) is Ok,
                Err(e) => gate_by(
                    lock@,
                    digest_view(output@, lock@.len()),
                    digest_view(cache@, lock@.len()),
                    force_rehash,
                ) == Err::<(), InstallErrorView>(e@),
            },
    {
        if force_rehash {
            return Ok(());
        }
        let n = lock.mods.len();
        let ghost out = digest_view(output@, lock@.len());
        let ghost kept = digest_view(cache@, lock@.len());
        let mut i: usize = 0;
        while i < n
            invariant
                i <= n,
                !force_rehash,
                n == lock.mods.pairs().len(),
                out == digest_view(output@, lock@.len()),
                kept == digest_view(cache@, lock@.len()),
                first_unsound_from(lock@, out, kept, i as int) == first_unsound_from(
                    lock@,
                    out,
                    kept,
                    0,
                ),
            decreases n - i,
        {
            let entry = lock.mods.value_at(i);
            let hash = entry.hash.as_str();
            assert(lock@[i as int].1.hash == hash@);
            assert(out[i as int] == digest_at(output@, i as int));
            assert(kept[i as int] == digest_at(cache@, i as int));
            assert(lock@[i as int].0 == lock.mods.pairs()[i as int].0);
            if !digest_sound(output, i, hash) || !digest_sound(cache, i, hash) {
                return Err(InstallError::HashMismatch { key: lock.mods.key_at(i).to_string() });
            }
            i = i + 1;
        }
        Ok(())
    }

    /// The steps that materialize the lock, one for each entry in the
    /// lock's order, from the digests of what was found in the two
    /// directories.
    pub fn plan(
        lock: &LockFile,
        output: &Vec<Option<String>>,
        cache: &Vec<Option<String>>,
        no_cache: bool,
        force_rehash: bool,
    ) -> (r: Vec<Step>)
        ensures
            step_views(r@) == plan_by(
                lock@,
                digest_view(output@, lock@.len()),
                digest_view(cache@, lock@.len()),
                no_cache,
                force_rehash,
            ),
    {
        let ghost all = plan_by(
            lock@,
            digest_view(output@, lock@.len()),
            digest_view(cache@, lock@.len()),
            no_cache,
            force_rehash,
        );
        let mut steps: Vec<Step> = Vec::new();
        let n = lock.mods.len();
        let mut i: usize = 0;
        while i < n
            invariant
                i <= n,
                n == lock.mods.pairs().len(),
                all == plan_by(
                    lock@,
                    digest_view(output@, lock@.len()),
                    digest_view(cache@, lock@.len()),
                    no_cache,
                    force_rehash,
                ),
                steps.len() == i,
                forall|k: int| 0 <= k < i ==> (#[trigger] steps@[k])@ == all[k],
            decreases n - i,
        {
            let key = lock.mods.key_at(i);
            let entry = lock.mods.value_at(i);
            let there = if no_cache {
                digest_some(output, i)
            } else {
                digest_some(cache, i)
            };
            let step = Step {
                key: key.to_string(),
                file_name: file_name(key, entry.version.as_str()),
                url: entry.url.clone(),
                hash: entry.hash.clone(),
                download: force_rehash || !there,
                cached: !no_cache,
            };
            assert(step@ == all[i as int]);
            steps.push(step);
            i = i + 1;
        }
        assert(step_views(steps@) =~= all);
        steps
    }

    /// The decisions of an install before anything is written, from the
    /// files found in the two directories: the integrity gate on their
    /// digests, and, where it lets the install go on, the steps that
    /// materialize the lock.
    pub fn run(
        lock: &LockFile,
        output: &Vec<Option<Vec<u8>>>,
        cache: &Vec<Option<Vec<u8>>>,
        no_cache: bool,
        force_rehash: bool,
    ) -> (r: Result<Vec<Step>, InstallError>)
        ensures
            match r {
                Ok(steps) => gate(
                    lock@,
                    found_view(output@, lock@.len()),
                    found_view(cache@, lock@.len()),
                    force_rehash,
                ) is Ok && step_views(steps@) == plan_for(
                    lock@,
                    found_view(output@, lock@.len()),
                    found_view(cache@, lock@.len()),
                    no_cache,
                    force_rehash,
                ),
                Err(e) => gate(
                    lock@,
                    found_view(output@, lock@.len()),
                    found_view(cache@, lock@.len()),
                    force_rehash,
                ) == Err::<(), InstallErrorView>(e@),
            },
    {
        let in_output = Install::digests(output);
        let in_cache = Install::digests(cache);
        proof {
            lemma_digest_view(output@, in_output@, lock@.len());
            lemma_digest_view(cache@, in_cache@, lock@.len());
        }
        match Install::integrity_gate(lock, &in_output, &in_cache, force_rehash) {
            Ok(_) => Ok(Install::plan(lock, &in_output, &in_cache, no_cache, force_rehash)),
            Err(e) => Err(e),
        }
    }

    /// Checks what was downloaded for a step against the hash that the lock
    /// records. A download with another hash ends the install.
    pub fn check_download(step: &Step, bytes: &[u8]) -> (r: Result<(), InstallError>)
        ensures
            r is Ok <==> sha512_hex_of(bytes@) == step@.hash,
            r matches Err(e) ==> e@ == (InstallErrorView::DownloadMismatch {
                file: step@.file_name,
            }),
    {
        if hash_matches(bytes, step.hash.as_str()) {
            Ok(())
        } else {
            Err(InstallError::DownloadMismatch { file: step.file_name.clone() })
        }
    }

    /// The files of the output directory that must go: every name of the
    /// listing that the lock does not expect.
    pub fn stale_files(lock: &LockFile, listing: &Vec<String>) -> (r: Vec<String>)
        ensures
            r.deep_view() == stale_names(lock@, listing.deep_view()),
    {
        let expected = Install::expected_files(lock);
        let ghost names = expected_names(lock@);
        let ghost all = listing.deep_view();
        let ghost pred = |name: Seq<char>| !names.contains(name);
        let mut stale: Vec<String> = Vec::new();
        let mut i: usize = 0;
        proof {
            assert(all.take(0) =~= Seq::<Seq<char>>::empty());
            assert(stale.deep_view() =~= Seq::<Seq<char>>::empty());
        }
        while i < listing.len()
            invariant
                i <= listing.len(),
                names == expected_names(lock@),
                expected.deep_view() == names,
                all == listing.deep_view(),
                pred == (|name: Seq<char>| !names.contains(name)),
                stale.deep_view() == all.take(i as int).filter(pred),
            decreases listing.len() - i,
        {
            let mut known = false;
            let mut k: usize = 0;
            while !known && k < expected.len()
                invariant
                    k <= expected.len(),
                    i < listing.len(),
                    expected.deep_view() == names,
                    known ==> names.contains(listing@[i as int]@),
                    !known ==> forall|j: int| 0 <= j < k ==> names[j] != listing@[i as int]@,
                decreases expected.len() - k + (if known { 0int } else { 1int }),
            {
                assert(names[k as int] == expected@[k as int]@);
                if *expected[k].as_str() == *listing[i].as_str() {
                    known = true;
                } else {
                    k = k + 1;
                }
            }
            proof {
                assert(all[i as int] == listing@[i as int]@);
                assert(known == names.contains(all[i as int]));
                assert(all.take(i + 1).drop_last() =~= all.take(i as int));
                assert(all.take(i + 1).last() == all[i as int]);
                reveal(Seq::filter);
            }
            if !known {
                let ghost before = stale.deep_view();
                stale.push(listing[i].clone());
                proof {
                    assert(stale.deep_view() =~= before.push(all[i as int]));
                }
            }
            i = i + 1;
        }
        proof {
            assert(all.take(listing.len() as int) =~= all);
        }
        stale
    }
}

/// The two directories as the pipeline leaves and finds them: for each
/// name of a file its content.
pub struct Disk {
    pub output: Map<Seq<char>, Seq<u8>>,
    pub cache: Map<Seq<char>, Seq<u8>>,
}

/// A disk, and the error on which work on it stopped, if it did.
pub struct Outcome {
    pub disk: Disk,
    pub error: Option<InstallErrorView>,
}

/// What looking up the lock's files in a directory finds, entry by entry.
pub open spec fn found_in(dir: Map<Seq<char>, Seq<u8>>, lock: Seq<(Seq<char>, LockEntryView)>)
    -> Seq<Option<Seq<u8>>> {
    Seq::new(
        lock.len(),
        |i: int|
            if dir.dom().contains(expected_names(lock)[i]) {
                Some(dir[expected_names(lock)[i]])
            } else {
                None
            },
    )
}

/// The disk after one step was carried out, the download, where there was
/// one, having brought `fetched`. What was downloaded is written before it
/// is checked, and stays where it was written when the check fails.
pub open spec fn carried_out(disk: Disk, step: StepView, fetched: Seq<u8>) -> Outcome {
    let written = if !step.download {
        disk
    } else if step.cached {
        Disk { cache: disk.cache.insert(step.file_name, fetched), output: disk.output }
    } else {
        Disk { cache: disk.cache, output: disk.output.insert(step.file_name, fetched) }
    };
    if step.download && sha512_hex_of(fetched) != step.hash {
        Outcome {
            disk: written,
            error: Some(InstallErrorView::DownloadMismatch { file: step.file_name }),
        }
    } else if step.cached {
        Outcome {
            disk: Disk {
                cache: written.cache,
                output: written.output.insert(step.file_name, written.cache[step.file_name]),
            },
            error: None,
        }
    } else {
        Outcome { disk: written, error: None }
    }
}

/// The disk after the first `n` steps, each download `i` having brought
/// `fetched[i]`. Work stops at the first step that fails.
pub open spec fn run_to(disk: Disk, steps: Seq<StepView>, fetched: Seq<Seq<u8>>, n: nat) -> Outcome
    decreases n,
{
    if n == 0 {
        Outcome { disk, error: None }
    } else {
        let before = run_to(disk, steps, fetched, (n - 1) as nat);
        if before.error is Some {
            before
        } else {
            carried_out(before.disk, steps[n - 1], fetched[n - 1])
        }
    }
}

/// The set of the names that the lock expects.
pub open spec fn expected_set(lock: Seq<(Seq<char>, LockEntryView)>) -> Set<Seq<char>> {
    expected_names(lock).to_set()
}

/// A whole install on a disk: the integrity gate on what is there, the
/// steps of the plan, and then the removal from the output directory of
/// every file that the lock does not expect. `fetched[i]` is what the
/// download for entry `i` brings, where it is downloaded.
pub open spec fn installed(
    disk: Disk,
    lock: Seq<(Seq<char>, LockEntryView)>,
    fetched: Seq<Seq<u8>>,
    no_cache: bool,
    force_rehash: bool,
) -> Outcome {
    let in_output = found_in(disk.output, lock);
    let in_cache = found_in(disk.cache, lock);
    match gate(lock, in_output, in_cache, force_rehash) {
        Err(e) => Outcome { disk, error: Some(e) },
        Ok(_) => {
            let steps = plan_for(lock, in_output, in_cache, no_cache, force_rehash);
            let done = run_to(disk, steps, fetched, steps.len());
            if done.error is Some {
                done
            } else {
                Outcome {
                    disk: Disk {
                        output: done.disk.output.restrict(expected_set(lock)),
                        cache: done.disk.cache,
                    },
                    error: None,
                }
            }
        },
    }
}

/// No two entries of the lock have the same file name.
pub open spec fn distinct_files(lock: Seq<(Seq<char>, LockEntryView)>) -> bool {
    forall|i: int, j: int|
        0 <= i < lock.len() && 0 <= j < lock.len() && i != j ==> #[trigger] expected_names(
            lock,
        )[i] != #[trigger] expected_names(lock)[j]
}

/// Every file of the lock that is there, in either directory, has the hash
/// that the lock records for it.
pub open spec fn all_intact(disk: Disk, lock: Seq<(Seq<char>, LockEntryView)>) -> bool {
    forall|i: int|
        0 <= i < lock.len() ==> intact(#[trigger] found_in(disk.output, lock)[i], lock[i].1.hash)
            && intact(found_in(disk.cache, lock)[i], lock[i].1.hash)
}

/// The search for an entry with a wrong file stops on one or at the end,
/// and passes none.
pub proof fn lemma_first_unsound_from(
    lock: Seq<(Seq<char>, LockEntryView)>,
    output: Seq<Option<Seq<char>>>,
    cache: Seq<Option<Seq<char>>>,
    from: int,
)
    requires
        0 <= from <= lock.len(),
    ensures
        from <= first_unsound_from(lock, output, cache, from) <= lock.len(),
        first_unsound_from(lock, output, cache, from) < lock.len() ==> !(sound(
            output[first_unsound_from(lock, output, cache, from)],
            lock[first_unsound_from(lock, output, cache, from)].1.hash,
        ) && sound(
            cache[first_unsound_from(lock, output, cache, from)],
            lock[first_unsound_from(lock, output, cache, from)].1.hash,
        )),
        forall|k: int|
            from <= k < first_unsound_from(lock, output, cache, from) ==> sound(
                #[trigger] output[k],
                lock[k].1.hash,
            ) && sound(cache[k], lock[k].1.hash),
    decreases lock.len() - from,
{
    if from < lock.len() && sound(output[from], lock[from].1.hash) && sound(
        cache[from],
        lock[from].1.hash,
    ) {
        lemma_first_unsound_from(lock, output, cache, from + 1);
    }
}

/// The integrity gate admits a disk exactly when the override is set or
/// every file of the lock that is there has the recorded hash.
pub proof fn lemma_gate(disk: Disk, lock: Seq<(Seq<char>, LockEntryView)>, force_rehash: bool)
    ensures
        gate(lock, found_in(disk.output, lock), found_in(disk.cache, lock), force_rehash) is Ok
            <==> (force_rehash || all_intact(disk, lock)),
{
    let out = digests_of(found_in(disk.output, lock));
    let kept = digests_of(found_in(disk.cache, lock));
    lemma_first_unsound_from(lock, out, kept, 0);
    assert forall|i: int| 0 <= i < lock.len() implies #[trigger] out[i] == digest_of(
        found_in(disk.output, lock)[i],
    ) && kept[i] == digest_of(found_in(disk.cache, lock)[i]) by {}
    if all_intact(disk, lock) {
        let first = first_unsound_from(lock, out, kept, 0);
        if first < lock.len() {
            assert(intact(found_in(disk.output, lock)[first], lock[first].1.hash));
        }
    } else if !force_rehash {
        let i = choose|i: int|
            0 <= i < lock.len() && !(intact(
                #[trigger] found_in(disk.output, lock)[i],
                lock[i].1.hash,
            ) && intact(found_in(disk.cache, lock)[i], lock[i].1.hash));
        assert(out[i] == digest_of(found_in(disk.output, lock)[i]));
    }
}

/// The integrity gate: without the override, one file of the lock that is
/// there with another hash than recorded ends the install with a hash
/// mismatch, before anything is written. With the override nothing that is
/// there is trusted: every entry is downloaded, and an install that
/// succeeds has checked every download against the lock.
pub proof fn lemma_integrity_gate(
    disk: Disk,
    lock: Seq<(Seq<char>, LockEntryView)>,
    fetched: Seq<Seq<u8>>,
    no_cache: bool,
)
    ensures
        !all_intact(disk, lock) ==> (installed(disk, lock, fetched, no_cache, false).error matches Some(
            e,
        ) && e is HashMismatch),
        !all_intact(disk, lock) ==> installed(disk, lock, fetched, no_cache, false).disk == disk,
        forall|i: int|
            0 <= i < lock.len() ==> (#[trigger] plan_for(
                lock,
                found_in(disk.output, lock),
                found_in(disk.cache, lock),
                no_cache,
                true,
            )[i]).download,
        installed(disk, lock, fetched, no_cache, true).error is None ==> forall|i: int|
            0 <= i < lock.len() ==> sha512_hex_of(#[trigger] fetched[i]) == lock[i].1.hash,
{
    lemma_gate(disk, lock, false);
    lemma_gate(disk, lock, true);
    let steps = plan_for(
        lock,
        found_in(disk.output, lock),
        found_in(disk.cache, lock),
        no_cache,
        true,
    );
    if installed(disk, lock, fetched, no_cache, true).error is None {
        assert forall|i: int| 0 <= i < lock.len() implies sha512_hex_of(#[trigger] fetched[i])
            == lock[i].1.hash by {
            lemma_run_checks_downloads(disk, steps, fetched, steps.len(), i);
        }
    }
}

/// A run without error has checked each download that it made.
pub proof fn lemma_run_checks_downloads(
    disk: Disk,
    steps: Seq<StepView>,
    fetched: Seq<Seq<u8>>,
    n: nat,
    i: int,
)
    requires
        n <= steps.len(),
        run_to(disk, steps, fetched, n).error is None,
        0 <= i < n,
    ensures
        steps[i].download ==> sha512_hex_of(fetched[i]) == steps[i].hash,
        run_to(disk, steps, fetched, i as nat).error is None,
    decreases n,
{
    if i < n - 1 {
        lemma_run_checks_downloads(disk, steps, fetched, (n - 1) as nat, i);
    }
}

/// The file `name` is on the disk `after` as it was on `disk`: there with
/// the same content, or in neither.
pub open spec fn untouched(disk: Disk, after: Disk, name: Seq<char>) -> bool {
    &&& after.output.dom().contains(name) == disk.output.dom().contains(name)
    &&& after.output[name] == disk.output[name]
    &&& after.cache.dom().contains(name) == disk.cache.dom().contains(name)
    &&& after.cache[name] == disk.cache[name]
}

/// What a run without error leaves in the two directories. Nothing that
/// was there is gone. The file of every step done is in the output
/// directory, and, where the cache is in use, in the cache with the same
/// content. A file that no step done names is as it was.
pub proof fn lemma_run_to(
    disk: Disk,
    lock: Seq<(Seq<char>, LockEntryView)>,
    fetched: Seq<Seq<u8>>,
    no_cache: bool,
    force_rehash: bool,
    n: nat,
)
    requires
        n <= lock.len(),
        run_to(
            disk,
            plan_for(
                lock,
                found_in(disk.output, lock),
                found_in(disk.cache, lock),
                no_cache,
                force_rehash,
            ),
            fetched,
            n,
        ).error is None,
    ensures
        ({
            let steps = plan_for(
                lock,
                found_in(disk.output, lock),
                found_in(disk.cache, lock),
                no_cache,
                force_rehash,
            );
            let after = run_to(disk, steps, fetched, n).disk;
            &&& forall|name: Seq<char>|
                disk.output.dom().contains(name) ==> after.output.dom().contains(name)
            &&& forall|name: Seq<char>|
                disk.cache.dom().contains(name) ==> after.cache.dom().contains(name)
            &&& forall|k: int|
                0 <= k < n ==> after.output.dom().contains(#[trigger] expected_names(lock)[k])
            &&& !no_cache ==> forall|k: int|
                0 <= k < n ==> after.cache.dom().contains(#[trigger] expected_names(lock)[k])
            &&& forall|name: Seq<char>|
                (forall|k: int| 0 <= k < n ==> expected_names(lock)[k] != name)
                    ==> #[trigger] untouched(disk, after, name)
        }),
    decreases n,
{
    if n > 0 {
        let steps = plan_for(
            lock,
            found_in(disk.output, lock),
            found_in(disk.cache, lock),
            no_cache,
            force_rehash,
        );
        lemma_run_to(disk, lock, fetched, no_cache, force_rehash, (n - 1) as nat);
        let before = run_to(disk, steps, fetched, (n - 1) as nat).disk;
        let after = run_to(disk, steps, fetched, n).disk;
        let step = steps[n - 1];
        let name = expected_names(lock)[n - 1];
        assert(step.file_name == name);
        assert(after == carried_out(before, step, fetched[n - 1]).disk);
        if !step.download {
            if no_cache {
                assert(found_in(disk.output, lock)[n - 1] is Some);
                assert(disk.output.dom().contains(name));
            } else {
                assert(found_in(disk.cache, lock)[n - 1] is Some);
                assert(disk.cache.dom().contains(name));
            }
        }
        assert forall|k: int| 0 <= k < n implies after.output.dom().contains(
            #[trigger] expected_names(lock)[k],
        ) by {
            if k < n - 1 {
                assert(before.output.dom().contains(expected_names(lock)[k]));
            }
        }
        if !no_cache {
            assert forall|k: int| 0 <= k < n implies after.cache.dom().contains(
                #[trigger] expected_names(lock)[k],
            ) by {
                if k < n - 1 {
                    assert(before.cache.dom().contains(expected_names(lock)[k]));
                }
            }
        }
        assert forall|other: Seq<char>|
            (forall|k: int| 0 <= k < n ==> expected_names(lock)[k] != other)
                implies #[trigger] untouched(disk, after, other) by {
            assert(expected_names(lock)[n - 1] != other);
            assert(forall|k: int| 0 <= k < n - 1 ==> expected_names(lock)[k] != other);
            assert(untouched(disk, before, other));
        }
    }
}

/// The reconciliation invariant: after an install that succeeded, the
/// output directory holds a file for each entry of the lock and no other
/// file, whatever it held before.
pub proof fn lemma_install_mirrors_lock(
    disk: Disk,
    lock: Seq<(Seq<char>, LockEntryView)>,
    fetched: Seq<Seq<u8>>,
    no_cache: bool,
    force_rehash: bool,
)
    requires
        installed(disk, lock, fetched, no_cache, force_rehash).error is None,
    ensures
        installed(disk, lock, fetched, no_cache, force_rehash).disk.output.dom() == expected_set(
            lock,
        ),
{
    let steps = plan_for(
        lock,
        found_in(disk.output, lock),
        found_in(disk.cache, lock),
        no_cache,
        force_rehash,
    );
    lemma_run_to(disk, lock, fetched, no_cache, force_rehash, lock.len());
    let done = run_to(disk, steps, fetched, steps.len()).disk;
    let left = installed(disk, lock, fetched, no_cache, force_rehash).disk.output;
    assert forall|name: Seq<char>| expected_set(lock).contains(name) implies left.dom().contains(
        name,
    ) by {
        let k = choose|k: int| 0 <= k < lock.len() && expected_names(lock)[k] == name;
        assert(done.output.dom().contains(expected_names(lock)[k]));
    }
    assert(left.dom() =~= expected_set(lock));
}

/// Taking the stale files of a listing out of a directory leaves exactly
/// the files that the lock expects, where the listing names the files of
/// the directory.
pub proof fn lemma_stale_names(
    lock: Seq<(Seq<char>, LockEntryView)>,
    listing: Seq<Seq<char>>,
    output: Map<Seq<char>, Seq<u8>>,
)
    requires
        listing.to_set() == output.dom(),
    ensures
        output.remove_keys(stale_names(lock, listing).to_set()) == output.restrict(
            expected_set(lock),
        ),
        forall|name: Seq<char>|
            stale_names(lock, listing).contains(name) <==> listing.contains(name)
                && !expected_names(lock).contains(name),
{
    broadcast use vstd::seq_lib::group_filter_ensures;

    let names = expected_names(lock);
    let pred = |name: Seq<char>| !names.contains(name);
    let stale = listing.filter(pred);
    assert forall|name: Seq<char>| stale.contains(name) <==> listing.contains(name)
        && !names.contains(name) by {
        if stale.contains(name) {
            let i = choose|i: int| 0 <= i < stale.len() && stale[i] == name;
            assert(pred(stale[i]));
            listing.lemma_filter_contains_rev(pred, name);
        }
        if listing.contains(name) && !names.contains(name) {
            let i = choose|i: int| 0 <= i < listing.len() && listing[i] == name;
            assert(pred(listing[i]));
            assert(stale.contains(listing[i]));
        }
    }
    assert forall|name: Seq<char>| output.dom().contains(name) implies listing.contains(name) by {
        assert(listing.to_set().contains(name));
    }
    assert(output.remove_keys(stale.to_set()) =~= output.restrict(expected_set(lock)));
}

/// Idempotence: on the disk that an install without the override left,
/// an install of the same lock plans no download, succeeds, and leaves the
/// disk as it is. (The lock must give each entry a file name of its own:
/// two entries that share one cannot both find their hash in it.)
pub proof fn lemma_second_install_changes_nothing(
    disk: Disk,
    lock: Seq<(Seq<char>, LockEntryView)>,
    fetched: Seq<Seq<u8>>,
    no_cache: bool,
    again: Seq<Seq<u8>>,
)
    requires
        distinct_files(lock),
        installed(disk, lock, fetched, no_cache, false).error is None,
    ensures
        ({
            let first = installed(disk, lock, fetched, no_cache, false).disk;
            let steps = plan_for(
                lock,
                found_in(first.output, lock),
                found_in(first.cache, lock),
                no_cache,
                false,
            );
            &&& forall|i: int| 0 <= i < lock.len() ==> !(#[trigger] steps[i]).download
            &&& installed(first, lock, again, no_cache, false).error is None
            &&& installed(first, lock, again, no_cache, false).disk.output == first.output
            &&& installed(first, lock, again, no_cache, false).disk.cache == first.cache
        }),
{
    let names = expected_names(lock);
    let plan = plan_for(
        lock,
        found_in(disk.output, lock),
        found_in(disk.cache, lock),
        no_cache,
        false,
    );
    let done = run_to(disk, plan, fetched, plan.len()).disk;
    let first = installed(disk, lock, fetched, no_cache, false).disk;
    lemma_gate(disk, lock, false);
    lemma_run_to(disk, lock, fetched, no_cache, false, lock.len());
    lemma_install_mirrors_lock(disk, lock, fetched, no_cache, false);
    // What the first install left for each entry, and that it has the recorded hash.
    assert forall|i: int| 0 <= i < lock.len() implies first.output.dom().contains(
        #[trigger] names[i],
    ) && sha512_hex_of(first.output[names[i]]) == lock[i].1.hash && (first.cache.dom().contains(
        names[i],
    ) ==> sha512_hex_of(first.cache[names[i]]) == lock[i].1.hash) && (!no_cache
        ==> first.cache.dom().contains(names[i]) && first.cache[names[i]]
        == first.output[names[i]]) by {
        lemma_entry_after_run(disk, lock, fetched, no_cache, lock.len(), i);
        assert(expected_set(lock).contains(names[i]));
        assert(first.output[names[i]] == done.output[names[i]]);
    }
    let steps = plan_for(
        lock,
        found_in(first.output, lock),
        found_in(first.cache, lock),
        no_cache,
        false,
    );
    assert(all_intact(first, lock)) by {
        assert forall|i: int| 0 <= i < lock.len() implies intact(
            #[trigger] found_in(first.output, lock)[i],
            lock[i].1.hash,
        ) && intact(found_in(first.cache, lock)[i], lock[i].1.hash) by {
            assert(first.output.dom().contains(names[i]));
        }
    }
    lemma_gate(first, lock, false);
    assert forall|i: int| 0 <= i < lock.len() implies !(#[trigger] steps[i]).download by {
        assert(first.output.dom().contains(names[i]));
    }
    lemma_idle_run(first, lock, steps, again, no_cache, lock.len());
    let rerun = run_to(first, steps, again, steps.len());
    assert(rerun.disk.output.restrict(expected_set(lock)) =~= first.output);
}

/// What a run without error of the plan of an intact disk leaves for the
/// entry `i` that it has done, in a lock whose entries each have a file name
/// of their own: the entry's file is in the output directory with the
/// recorded hash; in the cache it has the recorded hash where it is there;
/// and where the cache is in use it is there, with the content of the
/// output file.
pub proof fn lemma_entry_after_run(
    disk: Disk,
    lock: Seq<(Seq<char>, LockEntryView)>,
    fetched: Seq<Seq<u8>>,
    no_cache: bool,
    n: nat,
    i: int,
)
    requires
        distinct_files(lock),
        all_intact(disk, lock),
        n <= lock.len(),
        0 <= i < lock.len(),
        run_to(
            disk,
            plan_for(
                lock,
                found_in(disk.output, lock),
                found_in(disk.cache, lock),
                no_cache,
                false,
            ),
            fetched,
            n,
        ).error is None,
    ensures
        ({
            let steps = plan_for(
                lock,
                found_in(disk.output, lock),
                found_in(disk.cache, lock),
                no_cache,
                false,
            );
            let after = run_to(disk, steps, fetched, n).disk;
            let name = expected_names(lock)[i];
            &&& after.cache.dom().contains(name) ==> sha512_hex_of(after.cache[name])
                == lock[i].1.hash
            &&& after.output.dom().contains(name) ==> sha512_hex_of(after.output[name])
                == lock[i].1.hash
            &&& i < n ==> after.output.dom().contains(name)
            &&& i < n && !no_cache ==> after.cache.dom().contains(name) && after.cache[name]
                == after.output[name]
        }),
    decreases n,
{
    let steps = plan_for(
        lock,
        found_in(disk.output, lock),
        found_in(disk.cache, lock),
        no_cache,
        false,
    );
    let name = expected_names(lock)[i];
    if n == 0 {
        assert(intact(found_in(disk.output, lock)[i], lock[i].1.hash));
        assert(intact(found_in(disk.cache, lock)[i], lock[i].1.hash));
    } else {
        lemma_entry_after_run(disk, lock, fetched, no_cache, (n - 1) as nat, i);
        let before = run_to(disk, steps, fetched, (n - 1) as nat).disk;
        let step = steps[n - 1];
        assert(step.file_name == expected_names(lock)[n - 1]);
        assert(step.hash == lock[n - 1].1.hash);
        if i == n - 1 {
            if !step.download {
                if no_cache {
                    assert(found_in(disk.output, lock)[i] is Some);
                    lemma_run_to(disk, lock, fetched, no_cache, false, (n - 1) as nat);
                } else {
                    assert(found_in(disk.cache, lock)[i] is Some);
                    lemma_run_to(disk, lock, fetched, no_cache, false, (n - 1) as nat);
                }
            }
        } else {
            assert(expected_names(lock)[n - 1] != expected_names(lock)[i]);
        }
    }
}

/// A run of steps none of which downloads, on a disk where each file of the
/// lock is in the output directory and, where the cache is in use, in the
/// cache with the same content, has no error and changes nothing.
pub proof fn lemma_idle_run(
    disk: Disk,
    lock: Seq<(Seq<char>, LockEntryView)>,
    steps: Seq<StepView>,
    fetched: Seq<Seq<u8>>,
    no_cache: bool,
    n: nat,
)
    requires
        n <= lock.len(),
        steps.len() == lock.len(),
        forall|i: int|
            0 <= i < lock.len() ==> !(#[trigger] steps[i]).download && steps[i].cached == !no_cache
                && steps[i].file_name == expected_names(lock)[i],
        forall|i: int|
            0 <= i < lock.len() ==> disk.output.dom().contains(#[trigger] expected_names(lock)[i])
                && (!no_cache ==> disk.cache.dom().contains(expected_names(lock)[i])
                && disk.cache[expected_names(lock)[i]] == disk.output[expected_names(lock)[i]]),
    ensures
        run_to(disk, steps, fetched, n).error is None,
        run_to(disk, steps, fetched, n).disk.output == disk.output,
        run_to(disk, steps, fetched, n).disk.cache == disk.cache,
    decreases n,
{
    if n > 0 {
        lemma_idle_run(disk, lock, steps, fetched, no_cache, (n - 1) as nat);
        let name = expected_names(lock)[n - 1];
        assert(steps[n - 1].file_name == name);
        assert(disk.output.dom().contains(name));
        if !no_cache {
            assert(disk.output.insert(name, disk.cache[name]) =~= disk.output);
        }
    }
}

} // verus!
