//! Version resolution: which of the versions that a catalog offers answers
//! a version specifier.
//!
//! Semantic versions are read, ranked and matched by the `semver` crate. This
//! module prepares the texts it is given, and chooses among the candidates
//! by what it answers.

use vstd::prelude::*;
use crate::manifest::{VersionSpec, VersionSpecView};
use crate::repository::{VersionResult, VersionResultView, versions_of, views_of};
use crate::text::{
    append, char_in, chars_of, first_digit, first_digit_from, first_outside_from, is_digit_char,
    join, join_with, split, split_on, text_of_range,
};

verus! {

/// Whether `semver::Version::parse` accepts `text` as a semantic version.
pub uninterp spec fn is_version(text: Seq<char>) -> bool;

/// Whether `semver::VersionReq::parse` accepts `text` as a version requirement.
pub uninterp spec fn is_requirement(text: Seq<char>) -> bool;

/// Whether the requirement that `requirement` parses to matches, by
/// `semver::VersionReq::matches`, the version that `version` parses to.
pub uninterp spec fn admits(requirement: Seq<char>, version: Seq<char>) -> bool;

/// Whether the version that `a` parses to is greater, in the total order of
/// `semver::Version`, than the version that `b` parses to.
pub uninterp spec fn outranks(a: Seq<char>, b: Seq<char>) -> bool;

/// Calls `semver::Version::parse` and tells whether it succeeded.
#[verifier::external_body]
fn version_parses(text: &str) -> (ok: bool)
    ensures
        ok == is_version(text@),
{
    ::semver::Version::parse(text).is_ok()
}

/// Calls `semver::VersionReq::parse` and tells whether it succeeded.
#[verifier::external_body]
fn requirement_parses(text: &str) -> (ok: bool)
    ensures
        ok == is_requirement(text@),
{
    ::semver::VersionReq::parse(text).is_ok()
}

/// Calls `semver::VersionReq::matches` on the requirement and the version
/// that the two texts parse to.
#[verifier::external_body]
fn requirement_matches(requirement: &str, version: &str) -> (ok: bool)
    requires
        is_requirement(requirement@),
        is_version(version@),
    ensures
        ok == admits(requirement@, version@),
{
    match (::semver::VersionReq::parse(requirement), ::semver::Version::parse(version)) {
        (Ok(r), Ok(v)) => r.matches(&v),
        _ => false,
    }
}

/// Compares, with `>` of `semver::Version`, the versions that the two texts
/// parse to. `semver` documents that order as total. Of that the contract
/// states what a search for the highest version needs: a version is not
/// outranked by one that it outranks; and a version that outranks `b`
/// outranks every version that does not outrank `b`, and is outranked by
/// none of them.
#[verifier::external_body]
fn version_exceeds(a: &str, b: &str) -> (r: bool)
    requires
        is_version(a@),
        is_version(b@),
    ensures
        r == outranks(a@, b@),
        r ==> !outranks(b@, a@),
        r ==> forall|c: Seq<char>|
            is_version(c) && !#[trigger] outranks(c, b@) ==> outranks(a@, c) && !outranks(c, a@),
{
    match (::semver::Version::parse(a), ::semver::Version::parse(b)) {
        (Ok(x), Ok(y)) => x > y,
        _ => false,
    }
}

/// The characters that may open a range: `^ ~ > < *`.
pub open spec fn opens_range(c: char) -> bool {
    c == '^' || c == '~' || c == '>' || c == '<' || c == '*'
}

/// A text is a range exactly when its first character opens one.
pub open spec fn is_range_text(s: Seq<char>) -> bool {
    s.len() > 0 && opens_range(s[0])
}

/// The comparator characters: `^ ~ > < = *`.
pub open spec fn comparator_chars() -> Seq<char> {
    seq!['^', '~', '>', '<', '=', '*']
}

/// The number of comparator characters that `s` starts with.
pub open spec fn comparator_run(s: Seq<char>) -> int {
    first_outside_from(s, comparator_chars(), 0)
}

/// The comparator that `s` starts with: its leading comparator characters.
pub open spec fn comparator_prefix(s: Seq<char>) -> Seq<char> {
    s.take(comparator_run(s))
}

/// `s` without its leading comparator characters.
pub open spec fn bare(s: Seq<char>) -> Seq<char> {
    s.skip(comparator_run(s))
}

/// `s` without everything before its first digit; empty when it has no digit.
pub open spec fn digit_normal(s: Seq<char>) -> Seq<char> {
    s.skip(first_digit(s))
}

/// Exactly three dotted components: the first three where there are more,
/// `0` added on the right where there are fewer.
pub open spec fn fit_three(parts: Seq<Seq<char>>) -> Seq<Seq<char>> {
    if parts.len() >= 3 {
        parts.take(3)
    } else if parts.len() == 2 {
        parts.push(seq!['0'])
    } else if parts.len() == 1 {
        parts.push(seq!['0']).push(seq!['0'])
    } else {
        seq![seq!['0'], seq!['0'], seq!['0']]
    }
}

/// The form in which a text is handed to `semver`. A leading comparator is
/// kept. Whatever else stands before the first digit is dropped. What
/// starts at the first digit is cut at the dots and brought to three
/// components: the fourth and later ones are dropped, missing ones are
/// filled with `0`.
pub open spec fn semver_normal(s: Seq<char>) -> Seq<char> {
    comparator_prefix(s) + join_with(fit_three(split_on(digit_normal(s), '.')), '.')
}

/// Whether a candidate's prepared text may be chosen: it is a semantic
/// version and, where a requirement is given, the requirement admits it.
pub open spec fn eligible(requirement: Option<Seq<char>>, text: Seq<char>) -> bool {
    is_version(text) && match requirement {
        Some(q) => admits(q, text),
        None => true,
    }
}

/// Candidate `i` is the choice among `texts`: it is eligible, it outranks
/// every eligible candidate before it, and no eligible candidate after it
/// outranks it. So the highest version wins, and among equals the first.
pub open spec fn is_best(requirement: Option<Seq<char>>, texts: Seq<Seq<char>>, i: int) -> bool {
    &&& 0 <= i < texts.len()
    &&& eligible(requirement, texts[i])
    &&& forall|j: int|
        0 <= j < i && eligible(requirement, #[trigger] texts[j]) ==> outranks(texts[i], texts[j])
    &&& forall|j: int|
        i < j < texts.len() && eligible(requirement, #[trigger] texts[j]) ==> !outranks(
            texts[j],
            texts[i],
        )
}

/// The index of the choice among `texts`, if there is one.
pub open spec fn best(requirement: Option<Seq<char>>, texts: Seq<Seq<char>>) -> Option<int> {
    if exists|i: int| is_best(requirement, texts, i) {
        Some(choose|i: int| is_best(requirement, texts, i))
    } else {
        None
    }
}

/// At most one candidate is the choice.
pub proof fn lemma_best_unique(
    requirement: Option<Seq<char>>,
    texts: Seq<Seq<char>>,
    i: int,
    j: int,
)
    requires
        is_best(requirement, texts, i),
        is_best(requirement, texts, j),
    ensures
        i == j,
{
    if i < j {
        assert(outranks(texts[j], texts[i]));
        assert(!outranks(texts[j], texts[i]));
    } else if j < i {
        assert(outranks(texts[i], texts[j]));
        assert(!outranks(texts[i], texts[j]));
    }
}

/// The text of an optional requirement.
pub open spec fn text_of_option(requirement: Option<&str>) -> Option<Seq<char>> {
    match requirement {
        Some(q) => Some(q@),
        None => None,
    }
}

/// Finds the choice among prepared texts: the highest eligible version,
/// the first of them where several are equal. With no requirement every
/// semantic version is eligible.
fn best_index(requirement: Option<&str>, texts: &Vec<String>) -> (r: Option<usize>)
    requires
        requirement matches Some(q) ==> is_requirement(q@),
    ensures
        match r {
            Some(i) => best(text_of_option(requirement), texts.deep_view()) == Some(i as int)
                && is_best(text_of_option(requirement), texts.deep_view(), i as int),
            None => best(text_of_option(requirement), texts.deep_view()) is None && forall|j: int|
                0 <= j < texts.len() ==> !eligible(
                    text_of_option(requirement),
                    #[trigger] texts.deep_view()[j],
                ),
        },
{
    let ghost q = text_of_option(requirement);
    let ghost t = texts.deep_view();
    let mut found: Option<usize> = None;
    let mut i: usize = 0;
    while i < texts.len()
        invariant
            i <= texts.len(),
            q == text_of_option(requirement),
            t == texts.deep_view(),
            requirement matches Some(rq) ==> is_requirement(rq@),
            match found {
                None => forall|j: int| 0 <= j < i ==> !eligible(q, #[trigger] t[j]),
                Some(b) => {
                    &&& b < i
                    &&& eligible(q, t[b as int])
                    &&& forall|j: int|
                        0 <= j < b && eligible(q, #[trigger] t[j]) ==> outranks(t[b as int], t[j])
                    &&& forall|j: int|
                        0 <= j < i && j != b && eligible(q, #[trigger] t[j]) ==> !outranks(
                            t[j],
                            t[b as int],
                        )
                },
            },
        decreases texts.len() - i,
    {
        let text = texts[i].as_str();
        assert(text@ == t[i as int]);
        let mut ok = version_parses(text);
        if ok {
            ok = match requirement {
                Some(rq) => requirement_matches(rq, text),
                None => true,
            };
        }
        assert(ok == eligible(q, t[i as int]));
        if ok {
            match found {
                None => {
                    found = Some(i);
                },
                Some(b) => {
                    assert(texts[b as int]@ == t[b as int]);
                    if version_exceeds(text, texts[b].as_str()) {
                        found = Some(i);
                    }
                },
            }
        }
        i = i + 1;
    }
    proof {
        match found {
            Some(b) => {
                assert(is_best(q, t, b as int));
                lemma_best_unique(q, t, b as int, choose|k: int| is_best(q, t, k));
            },
            None => {
                assert(forall|k: int| !is_best(q, t, k));
            },
        }
    }
    found
}

/// Whether the text is a range, that is, starts with one of `^ ~ > < *`.
pub fn is_semver_range(s: &str) -> (r: bool)
    ensures
        r == is_range_text(s@),
{
    let chars = chars_of(s);
    if chars.len() == 0 {
        false
    } else {
        let c = chars[0];
        c == '^' || c == '~' || c == '>' || c == '<' || c == '*'
    }
}

/// Index of the first digit among `chars`, or their number when none is a digit.
fn first_digit_index(chars: &Vec<char>) -> (k: usize)
    ensures
        k == first_digit(chars@),
        k <= chars.len(),
{
    let mut k: usize = 0;
    while k < chars.len() && !is_digit_char(chars[k])
        invariant
            k <= chars.len(),
            first_digit_from(chars@, k as int) == first_digit(chars@),
        decreases chars.len() - k,
    {
        k = k + 1;
    }
    k
}

/// The number of comparator characters that `chars` start with.
fn comparator_count(chars: &Vec<char>) -> (k: usize)
    ensures
        k == comparator_run(chars@),
        k <= chars.len(),
{
    let mut set: Vec<char> = Vec::new();
    set.push('^');
    set.push('~');
    set.push('>');
    set.push('<');
    set.push('=');
    set.push('*');
    assert(set@ =~= comparator_chars());
    let mut k: usize = 0;
    while k < chars.len() && char_in(&set, chars[k])
        invariant
            k <= chars.len(),
            set@ == comparator_chars(),
            first_outside_from(chars@, comparator_chars(), k as int) == comparator_run(chars@),
        decreases chars.len() - k,
    {
        k = k + 1;
    }
    k
}

/// Strips what stands before the first digit. `mc1.21.1-0.6.5` becomes
/// `1.21.1-0.6.5`.
pub fn normalize_version(s: &str) -> (r: String)
    ensures
        r@ == digit_normal(s@),
{
    let chars = chars_of(s);
    let k = first_digit_index(&chars);
    text_of_range(&chars, k, chars.len())
}

/// Strips the leading comparator characters.
pub fn strip_comparators(s: &str) -> (r: String)
    ensures
        r@ == bare(s@),
{
    let chars = chars_of(s);
    let k = comparator_count(&chars);
    text_of_range(&chars, k, chars.len())
}

/// Prepares a text for `semver`: keeps a leading comparator, drops what
/// else stands before the first digit, and brings the dotted rest to three
/// components.
pub fn normalize_semver_string(s: &str) -> (r: String)
    ensures
        r@ == semver_normal(s@),
{
    let chars = chars_of(s);
    let k = comparator_count(&chars);
    let d = first_digit_index(&chars);
    let prefix = text_of_range(&chars, 0, k);
    let core = text_of_range(&chars, d, chars.len());
    let mut parts = split(core.as_str(), '.');
    let ghost pieces = parts.deep_view();
    if parts.len() > 3 {
        parts.truncate(3);
        assert(parts.deep_view() =~= pieces.take(3));
    } else {
        proof {
            reveal_strlit("0");
            assert("0"@ =~= seq!['0']);
        }
        if parts.len() < 2 {
            parts.push("0".to_string());
            assert(parts.deep_view() =~= pieces.push(seq!['0']));
        }
        if parts.len() < 3 {
            let ghost sofar = parts.deep_view();
            parts.push("0".to_string());
            assert(parts.deep_view() =~= sofar.push(seq!['0']));
        }
    }
    assert(parts.deep_view() == fit_three(pieces));
    let joined = join(&parts, '.');
    append(prefix.as_str(), joined.as_str())
}

/// The view of an optional candidate.
pub open spec fn option_view(r: Option<VersionResult>) -> Option<VersionResultView> {
    match r {
        Some(c) => Some(c@),
        None => None,
    }
}

/// The texts that `semver` is asked about: each version prepared.
pub open spec fn prepared(versions: Seq<Seq<char>>) -> Seq<Seq<char>> {
    versions.map_values(|v: Seq<char>| semver_normal(v))
}

/// Each version without what stands before its first digit.
pub open spec fn stripped(versions: Seq<Seq<char>>) -> Seq<Seq<char>> {
    versions.map_values(|v: Seq<char>| digit_normal(v))
}

/// Some version can be chosen for `range` by its semantic version: the
/// prepared range is a requirement, and it admits at least one of the
/// prepared versions.
pub open spec fn some_eligible(range: Seq<char>, versions: Seq<Seq<char>>) -> bool {
    &&& is_requirement(semver_normal(range))
    &&& exists|i: int|
        0 <= i < versions.len() && eligible(
            Some(semver_normal(range)),
            semver_normal(#[trigger] versions[i]),
        )
}

/// The candidate that `range` chooses when the candidates are judged by
/// `versions`, a text for each of them in their order: the candidate whose
/// text is the highest version that `range` admits, the first of them where
/// several are equal; none where the prepared range is no requirement or
/// admits none of the texts.
pub open spec fn pick_by(
    range: Seq<char>,
    versions: Seq<Seq<char>>,
    candidates: Seq<VersionResultView>,
) -> Option<VersionResultView> {
    if !is_requirement(semver_normal(range)) {
        None
    } else {
        match best(Some(semver_normal(range)), prepared(versions)) {
            Some(i) => Some(candidates[i]),
            None => None,
        }
    }
}

/// The semantic match: the candidates judged by their versions.
pub open spec fn semver_pick(range: Seq<char>, candidates: Seq<VersionResultView>) -> Option<
    VersionResultView,
> {
    pick_by(range, versions_of(candidates), candidates)
}

/// The digit-normalized match: the range and every version are stripped
/// of what stands before their first digit, and the candidates are judged
/// again by what is left.
pub open spec fn normalized_pick(range: Seq<char>, candidates: Seq<VersionResultView>) -> Option<
    VersionResultView,
> {
    pick_by(digit_normal(range), stripped(versions_of(candidates)), candidates)
}

/// Index of the first candidate at or after `from` whose version is exactly
/// `wanted`; the number of candidates when there is none.
pub open spec fn position_from(
    candidates: Seq<VersionResultView>,
    wanted: Seq<char>,
    from: int,
) -> int
    decreases candidates.len() - from,
{
    if from >= candidates.len() {
        candidates.len() as int
    } else if candidates[from].version == wanted {
        from
    } else {
        position_from(candidates, wanted, from + 1)
    }
}

/// The first candidate whose version is exactly `wanted`.
pub open spec fn first_with_version(
    candidates: Seq<VersionResultView>,
    wanted: Seq<char>,
) -> Option<VersionResultView> {
    let i = position_from(candidates, wanted, 0);
    if i < candidates.len() {
        Some(candidates[i])
    } else {
        None
    }
}

/// The exact fallback: the first candidate whose version is the range
/// without its leading comparator characters.
pub open spec fn exact_pick(range: Seq<char>, candidates: Seq<VersionResultView>) -> Option<
    VersionResultView,
> {
    first_with_version(candidates, bare(range))
}

/// What a range resolves to: the semantic match; failing that the
/// digit-normalized match; failing that the exact fallback. Whichever
/// succeeds yields one of the candidates, as it was given.
pub open spec fn resolved(range: Seq<char>, candidates: Seq<VersionResultView>) -> Option<
    VersionResultView,
> {
    match semver_pick(range, candidates) {
        Some(c) => Some(c),
        None => match normalized_pick(range, candidates) {
            Some(c) => Some(c),
            None => exact_pick(range, candidates),
        },
    }
}

/// What a specifier resolves to: for an exact one the first candidate with
/// that very version, for a range what the range resolves to.
pub open spec fn chosen(spec: VersionSpecView, candidates: Seq<VersionResultView>) -> Option<
    VersionResultView,
> {
    match spec {
        VersionSpecView::Exact(v) => first_with_version(candidates, v),
        VersionSpecView::Range(r) => resolved(r, candidates),
    }
}

/// `range` admits `version` as a semantic version, both prepared.
pub open spec fn accepts(range: Seq<char>, version: Seq<char>) -> bool {
    is_requirement(semver_normal(range)) && eligible(
        Some(semver_normal(range)),
        semver_normal(version),
    )
}

/// Whether a version, such as a locked one, still answers a specifier:
/// an exact specifier by being the same text and in no other way; a range
/// by the semantic match or the digit-normalized match against that one
/// version, never by the exact fallback.
pub open spec fn satisfied(spec: VersionSpecView, version: Seq<char>) -> bool {
    match spec {
        VersionSpecView::Exact(v) => v == version,
        VersionSpecView::Range(r) => accepts(r, version) || accepts(
            digit_normal(r),
            digit_normal(version),
        ),
    }
}

/// The search for a version stops on it or at the end, and passes no match.
pub proof fn lemma_position_from(candidates: Seq<VersionResultView>, wanted: Seq<char>, from: int)
    requires
        0 <= from <= candidates.len(),
    ensures
        from <= position_from(candidates, wanted, from) <= candidates.len(),
        position_from(candidates, wanted, from) < candidates.len() ==> candidates[position_from(
            candidates,
            wanted,
            from,
        )].version == wanted,
        forall|k: int|
            from <= k < position_from(candidates, wanted, from) ==> (
            #[trigger] candidates[k]).version != wanted,
    decreases candidates.len() - from,
{
    if from < candidates.len() && candidates[from].version != wanted {
        lemma_position_from(candidates, wanted, from + 1);
    }
}

/// What a range picks by the candidates' texts is one of the candidates,
/// and the range accepts its text.
pub proof fn lemma_pick_by(
    range: Seq<char>,
    versions: Seq<Seq<char>>,
    candidates: Seq<VersionResultView>,
)
    requires
        versions.len() == candidates.len(),
        pick_by(range, versions, candidates) is Some,
    ensures
        ({
            let i = best(Some(semver_normal(range)), prepared(versions)).unwrap();
            &&& 0 <= i < candidates.len()
            &&& pick_by(range, versions, candidates) == Some(candidates[i])
            &&& accepts(range, versions[i])
        }),
{
    let q = Some(semver_normal(range));
    let texts = prepared(versions);
    let i = best(q, texts).unwrap();
    assert(is_best(q, texts, i));
    assert(texts[i] == semver_normal(versions[i]));
}

/// A range resolves to one of the candidates. Where the semantic or the
/// digit-normalized match resolved it, the candidate's version satisfies
/// the range.
pub proof fn lemma_resolved_is_a_candidate(range: Seq<char>, candidates: Seq<VersionResultView>)
    requires
        resolved(range, candidates) is Some,
    ensures
        candidates.contains(resolved(range, candidates).unwrap()),
        semver_pick(range, candidates) is Some || normalized_pick(range, candidates) is Some
            ==> satisfied(
            VersionSpecView::Range(range),
            resolved(range, candidates).unwrap().version,
        ),
{
    let versions = versions_of(candidates);
    if semver_pick(range, candidates) is Some {
        lemma_pick_by(range, versions, candidates);
    } else if normalized_pick(range, candidates) is Some {
        lemma_pick_by(digit_normal(range), stripped(versions), candidates);
    } else {
        lemma_position_from(candidates, bare(range), 0);
    }
}

/// A range is satisfied by a version exactly when the semantic or the
/// digit-normalized match against that version alone yields a candidate.
pub proof fn lemma_satisfied_is_resolution_of_one(range: Seq<char>, candidate: VersionResultView)
    ensures
        semver_pick(range, seq![candidate]) is Some <==> accepts(range, candidate.version),
        normalized_pick(range, seq![candidate]) is Some <==> accepts(
            digit_normal(range),
            digit_normal(candidate.version),
        ),
        satisfied(VersionSpecView::Range(range), candidate.version) <==> (semver_pick(
            range,
            seq![candidate],
        ) is Some || normalized_pick(range, seq![candidate]) is Some),
{
    let versions = versions_of(seq![candidate]);
    assert(versions =~= seq![candidate.version]);
    lemma_pick_of_one(range, candidate.version, candidate);
    assert(stripped(versions) =~= seq![digit_normal(candidate.version)]);
    lemma_pick_of_one(digit_normal(range), digit_normal(candidate.version), candidate);
}

/// Against a single text the range picks the candidate exactly when it
/// accepts the text.
pub proof fn lemma_pick_of_one(range: Seq<char>, version: Seq<char>, candidate: VersionResultView)
    ensures
        pick_by(range, seq![version], seq![candidate]) is Some <==> accepts(range, version),
{
    let q = Some(semver_normal(range));
    let texts = prepared(seq![version]);
    assert(texts =~= seq![semver_normal(version)]);
    if eligible(q, semver_normal(version)) {
        assert(is_best(q, texts, 0));
    }
}

/// Resolution is a function of the range and of what the candidates hold:
/// asked twice with the same values it names the same candidate.
pub proof fn lemma_resolution_is_deterministic(
    range: Seq<char>,
    first: Seq<VersionResult>,
    second: Seq<VersionResult>,
)
    requires
        views_of(first) == views_of(second),
    ensures
        resolved(range, views_of(first)) == resolved(range, views_of(second)),
        semver_pick(range, views_of(first)) == semver_pick(range, views_of(second)),
        normalized_pick(range, views_of(first)) == normalized_pick(range, views_of(second)),
        exact_pick(range, views_of(first)) == exact_pick(range, views_of(second)),
{
}

/// The first candidate whose version is exactly `wanted`.
pub fn find_version(available: &[VersionResult], wanted: &str) -> (r: Option<VersionResult>)
    ensures
        option_view(r) == first_with_version(views_of(available@), wanted@),
        r is Some <==> exists|i: int|
            0 <= i < available.len() && (#[trigger] available@[i]).version@ == wanted@,
{
    let ghost views = views_of(available@);
    let mut i: usize = 0;
    while i < available.len()
        invariant
            i <= available.len(),
            views == views_of(available@),
            position_from(views, wanted@, i as int) == position_from(views, wanted@, 0),
            forall|k: int| 0 <= k < i ==> (#[trigger] available@[k]).version@ != wanted@,
        decreases available.len() - i,
    {
        if *available[i].version.as_str() == *wanted {
            return Some(available[i].clone());
        }
        i = i + 1;
    }
    None
}

/// The candidate that the prepared range chooses when the candidates are
/// judged by `texts`, a prepared text for each of them in their order.
fn pick_prepared(requirement: &str, texts: &Vec<String>, available: &[VersionResult]) -> (r: Option<
    VersionResult,
>)
    requires
        texts.len() == available.len(),
    ensures
        match r {
            Some(c) => is_requirement(requirement@) && (best(
                Some(requirement@),
                texts.deep_view(),
            ) matches Some(i) && 0 <= i < available.len() && c@ == available@[i]@),
            None => !is_requirement(requirement@) || best(Some(requirement@), texts.deep_view())
                is None,
        },
        r is Some <==> is_requirement(requirement@) && exists|i: int|
            0 <= i < texts.len() && eligible(Some(requirement@), #[trigger] texts.deep_view()[i]),
{
    if !requirement_parses(requirement) {
        return None;
    }
    match best_index(Some(requirement), texts) {
        Some(b) => Some(available[b].clone()),
        None => None,
    }
}

/// The semantic match of `range` among `available`.
pub fn resolve_with_semver(range: &str, available: &[VersionResult]) -> (r: Option<VersionResult>)
    ensures
        option_view(r) == semver_pick(range@, views_of(available@)),
        r is Some <==> some_eligible(range@, versions_of(views_of(available@))),
{
    let ghost versions = versions_of(views_of(available@));
    let requirement = normalize_semver_string(range);
    let mut texts: Vec<String> = Vec::new();
    let mut i: usize = 0;
    while i < available.len()
        invariant
            i <= available.len(),
            versions == versions_of(views_of(available@)),
            texts.deep_view() == prepared(versions).take(i as int),
        decreases available.len() - i,
    {
        let ghost before = texts.deep_view();
        texts.push(normalize_semver_string(available[i].version.as_str()));
        i = i + 1;
        proof {
            assert(texts.deep_view() =~= before.push(semver_normal(available@[i - 1].version@)));
            assert(prepared(versions).take(i as int) =~= before.push(
                semver_normal(available@[i - 1].version@),
            ));
        }
    }
    proof {
        assert(prepared(versions).take(available.len() as int) =~= prepared(versions));
        assert forall|k: int| 0 <= k < versions.len() implies #[trigger] texts.deep_view()[k]
            == semver_normal(versions[k]) by {}
    }
    let r = pick_prepared(requirement.as_str(), &texts, available);
    proof {
        if r is Some {
            let b = best(Some(semver_normal(range@)), texts.deep_view()).unwrap();
            assert(views_of(available@)[b] == available@[b]@);
            assert(texts.deep_view()[b] == semver_normal(versions[b]));
        } else if is_requirement(semver_normal(range@)) {
            assert forall|k: int| 0 <= k < versions.len() implies !eligible(
                Some(semver_normal(range@)),
                semver_normal(#[trigger] versions[k]),
            ) by {
                assert(texts.deep_view()[k] == semver_normal(versions[k]));
            }
        }
    }
    r
}

/// The digit-normalized match of `range` among `available`.
pub fn resolve_with_normalized(range: &str, available: &[VersionResult]) -> (r: Option<
    VersionResult,
>)
    ensures
        option_view(r) == normalized_pick(range@, views_of(available@)),
        r is Some <==> some_eligible(
            digit_normal(range@),
            stripped(versions_of(views_of(available@))),
        ),
{
    let ghost versions = stripped(versions_of(views_of(available@)));
    let bare_range = normalize_version(range);
    let requirement = normalize_semver_string(bare_range.as_str());
    let mut texts: Vec<String> = Vec::new();
    let mut i: usize = 0;
    while i < available.len()
        invariant
            i <= available.len(),
            versions == stripped(versions_of(views_of(available@))),
            texts.deep_view() == prepared(versions).take(i as int),
        decreases available.len() - i,
    {
        let ghost before = texts.deep_view();
        let plain = normalize_version(available[i].version.as_str());
        texts.push(normalize_semver_string(plain.as_str()));
        i = i + 1;
        proof {
            let text = semver_normal(digit_normal(available@[i - 1].version@));
            assert(texts.deep_view() =~= before.push(text));
            assert(prepared(versions).take(i as int) =~= before.push(text));
        }
    }
    proof {
        assert(prepared(versions).take(available.len() as int) =~= prepared(versions));
        assert forall|k: int| 0 <= k < versions.len() implies #[trigger] texts.deep_view()[k]
            == semver_normal(versions[k]) by {}
    }
    let r = pick_prepared(requirement.as_str(), &texts, available);
    proof {
        if r is Some {
            let b = best(Some(semver_normal(digit_normal(range@))), texts.deep_view()).unwrap();
            assert(views_of(available@)[b] == available@[b]@);
            assert(texts.deep_view()[b] == semver_normal(versions[b]));
        } else if is_requirement(semver_normal(digit_normal(range@))) {
            assert forall|k: int| 0 <= k < versions.len() implies !eligible(
                Some(semver_normal(digit_normal(range@))),
                semver_normal(#[trigger] versions[k]),
            ) by {
                assert(texts.deep_view()[k] == semver_normal(versions[k]));
            }
        }
    }
    r
}

/// The exact fallback for `range` among `available`.
pub fn resolve_with_exact(range: &str, available: &[VersionResult]) -> (r: Option<VersionResult>)
    ensures
        option_view(r) == exact_pick(range@, views_of(available@)),
        r is Some <==> exists|i: int|
            0 <= i < available.len() && (#[trigger] available@[i]).version@ == bare(range@),
{
    let clean = strip_comparators(range);
    find_version(available, clean.as_str())
}

/// Resolves a range against the candidates: the semantic match, else the
/// digit-normalized match, else the exact fallback. The result is one of
/// the candidates, as it was given. An empty list yields nothing.
pub fn resolve_version(range: &str, available: &[VersionResult]) -> (r: Option<VersionResult>)
    ensures
        option_view(r) == resolved(range@, views_of(available@)),
        r is Some <==> {
            ||| some_eligible(range@, versions_of(views_of(available@)))
            ||| some_eligible(digit_normal(range@), stripped(versions_of(views_of(available@))))
            ||| exists|i: int|
                0 <= i < available.len() && (#[trigger] available@[i]).version@ == bare(range@)
        },
        available.len() == 0 ==> r is None,
{
    match resolve_with_semver(range, available) {
        Some(c) => Some(c),
        None => match resolve_with_normalized(range, available) {
            Some(c) => Some(c),
            None => resolve_with_exact(range, available),
        },
    }
}

/// Resolves a specifier against the candidates: an exact one to the first
/// candidate with that very version, a range as `resolve_version` does.
pub fn resolve_spec(spec: &VersionSpec, available: &[VersionResult]) -> (r: Option<VersionResult>)
    ensures
        option_view(r) == chosen(spec@, views_of(available@)),
        available.len() == 0 ==> r is None,
{
    match spec {
        VersionSpec::Exact(v) => find_version(available, v.as_str()),
        VersionSpec::Range(range) => resolve_version(range.as_str(), available),
    }
}

/// The newest candidate of all: the one with the highest semantic version,
/// the first of them where several are equal. Where no candidate's prepared
/// version is a semantic version, the candidate that the catalog lists
/// first stands for the newest.
pub open spec fn latest_pick(candidates: Seq<VersionResultView>) -> Option<VersionResultView> {
    match best(None, prepared(versions_of(candidates))) {
        Some(i) => Some(candidates[i]),
        None => if candidates.len() > 0 {
            Some(candidates[0])
        } else {
            None
        },
    }
}

/// The newest candidate of all, whatever any specifier asks.
pub fn latest_version(available: &[VersionResult]) -> (r: Option<VersionResult>)
    ensures
        option_view(r) == latest_pick(views_of(available@)),
        r is Some <==> available.len() > 0,
{
    let ghost views = views_of(available@);
    let mut texts: Vec<String> = Vec::new();
    let mut i: usize = 0;
    while i < available.len()
        invariant
            i <= available.len(),
            views == views_of(available@),
            texts.deep_view() == prepared(versions_of(views)).take(i as int),
        decreases available.len() - i,
    {
        let ghost before = texts.deep_view();
        texts.push(normalize_semver_string(available[i].version.as_str()));
        i = i + 1;
        proof {
            assert(texts.deep_view() =~= before.push(semver_normal(available@[i - 1].version@)));
            assert(prepared(versions_of(views)).take(i as int) =~= before.push(
                semver_normal(available@[i - 1].version@),
            ));
        }
    }
    proof {
        assert(prepared(versions_of(views)).take(available.len() as int) =~= prepared(
            versions_of(views),
        ));
    }
    match best_index(None, &texts) {
        Some(b) => {
            assert(views[b as int] == available@[b as int]@);
            Some(available[b].clone())
        },
        None => if available.len() > 0 {
            assert(views[0] == available@[0]@);
            Some(available[0].clone())
        } else {
            None
        },
    }
}

/// Whether the prepared range is a requirement that admits the prepared version.
fn range_accepts(range: &str, version: &str) -> (r: bool)
    ensures
        r == accepts(range@, version@),
{
    let requirement = normalize_semver_string(range);
    if !requirement_parses(requirement.as_str()) {
        return false;
    }
    let text = normalize_semver_string(version);
    if !version_parses(text.as_str()) {
        return false;
    }
    requirement_matches(requirement.as_str(), text.as_str())
}

/// Whether `version` answers `spec`: for an exact specifier only the same
/// text does; for a range the semantic match decides, then the
/// digit-normalized match.
pub fn satisfies(spec: &VersionSpec, version: &str) -> (r: bool)
    ensures
        r == satisfied(spec@, version@),
{
    match spec {
        VersionSpec::Exact(v) => *v.as_str() == *version,
        VersionSpec::Range(range) => {
            if range_accepts(range.as_str(), version) {
                true
            } else {
                let bare_range = normalize_version(range.as_str());
                let bare_version = normalize_version(version);
                range_accepts(bare_range.as_str(), bare_version.as_str())
            }
        },
    }
}

} // verus!
