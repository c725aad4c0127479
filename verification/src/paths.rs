//! Paths as text: joining and stepping up go through `std::path` (and, for a
//! manifest's directory, through camino, as cargo's metadata does), so that
//! each platform's separators and prefixes apply; on top of them, the
//! manifests that govern a directory and the choice of the nearest one.
use vstd::prelude::*;
use crate::error::PatchError;

verus! {

/// What `std::path::Path::join` gives for `rel` adjoined to `base`, by the
/// path rules of the platform the program is built for.
pub uninterp spec fn joined(base: Seq<char>, rel: Seq<char>) -> Seq<char>;

/// What `std::path::Path::parent` gives for `p`, by the path rules of the
/// platform the program is built for.
pub uninterp spec fn parent_of(p: Seq<char>) -> Option<Seq<char>>;

/// What camino's `Utf8Path::parent` gives for `p`, by the path rules of the
/// platform the program is built for.
pub uninterp spec fn utf8_parent_of(p: Seq<char>) -> Option<Seq<char>>;

/// `std::path::Path::join`: `rel` adjoined to `base`. The contract names the
/// result; it does not say how the platform places separators or treats an
/// absolute `rel`. The pieces are text, so the result is text too.
#[verifier::external_body]
pub(crate) fn join_path(base: &str, rel: &str) -> (r: String)
    ensures
        r@ == joined(base@, rel@),
{
    std::path::Path::new(base).join(rel).to_string_lossy().into_owned()
}

/// `std::path::Path::parent`: `p` without its final component. The contract
/// names the result and states what its documentation gives: the empty path
/// has no parent, and a parent is a part of `p`, so it is shorter.
#[verifier::external_body]
pub(crate) fn parent_path(p: &str) -> (r: Option<String>)
    ensures
        match r {
            Some(q) => parent_of(p@) == Some(q@) && q@.len() < p@.len(),
            None => parent_of(p@) is None,
        },
        p@.len() == 0 ==> r is None,
{
    match std::path::Path::new(p).parent() {
        Some(q) => Some(q.to_string_lossy().into_owned()),
        None => None,
    }
}

/// camino's `Utf8Path::parent`: `p` without its final component. The contract
/// names the result and states that a parent is a part of `p`, so shorter.
#[verifier::external_body]
pub(crate) fn utf8_parent_path(p: &str) -> (r: Option<String>)
    ensures
        match r {
            Some(q) => utf8_parent_of(p@) == Some(q@) && q@.len() < p@.len(),
            None => utf8_parent_of(p@) is None,
        },
{
    match cargo_metadata::camino::Utf8Path::new(p).parent() {
        Some(q) => Some(q.as_str().to_string()),
        None => None,
    }
}

/// `p` and the directories above it, nearest first, up to the one without a
/// parent. (A parent is always shorter; the length test only lets the
/// definition end.)
pub open spec fn ancestors(p: Seq<char>) -> Seq<Seq<char>>
    decreases p.len(),
{
    match parent_of(p) {
        Some(q) => if q.len() < p.len() {
            seq![p] + ancestors(q)
        } else {
            seq![p]
        },
        None => seq![p],
    }
}

/// The directories from `p` up: the first is `p` itself, each next one is the
/// parent of the one before, and the last has no parent.
pub proof fn lemma_ancestors(p: Seq<char>)
    ensures
        ancestors(p).len() >= 1,
        ancestors(p)[0] == p,
        forall|i: int|
            0 <= i < ancestors(p).len() - 1 ==> parent_of(#[trigger] ancestors(p)[i]) == Some(
                ancestors(p)[i + 1],
            ),
        parent_of(ancestors(p).last()) matches Some(q) ==> q.len() >= ancestors(p).last().len(),
    decreases p.len(),
{
    match parent_of(p) {
        Some(q) => {
            if q.len() < p.len() {
                lemma_ancestors(q);
                let a = ancestors(p);
                assert(a == seq![p] + ancestors(q));
                assert forall|i: int| 0 <= i < a.len() - 1 implies parent_of(#[trigger] a[i])
                    == Some(a[i + 1]) by {
                    if i > 0 {
                        assert(a[i] == ancestors(q)[i - 1]);
                        assert(a[i + 1] == ancestors(q)[i]);
                    }
                }
                assert(a.last() == ancestors(q).last());
            }
        },
        None => {},
    }
}

/// The manifest that cargo would look for in each directory from `dir` up to
/// the root, nearest first.
pub open spec fn manifest_candidates_of(dir: Seq<char>) -> Seq<Seq<char>> {
    ancestors(dir).map_values(|a: Seq<char>| joined(a, "Cargo.toml"@))
}

/// The manifest paths to try for the directory `dir`, nearest first: `dir`
/// and each directory above it, joined with `Cargo.toml`.
pub fn manifest_candidates(dir: &str) -> (r: Vec<String>)
    ensures
        r.deep_view() == manifest_candidates_of(dir@),
        r@.len() >= 1,
        r@[0]@ == joined(dir@, "Cargo.toml"@),
{
    proof {
        lemma_ancestors(dir@);
    }
    let ghost target = manifest_candidates_of(dir@);
    let mut out: Vec<String> = Vec::new();
    let mut cur = String::from_str(dir);
    loop
        invariant
            target == manifest_candidates_of(dir@),
            target.len() >= 1,
            target[0] == joined(dir@, "Cargo.toml"@),
            out.deep_view() + manifest_candidates_of(cur@) == target,
        decreases cur@.len(),
    {
        let candidate = join_path(cur.as_str(), "Cargo.toml");
        let ghost before = out.deep_view();
        out.push(candidate);
        proof {
            assert(out.deep_view() =~= before.push(candidate@));
        }
        let up = parent_path(cur.as_str());
        match up {
            None => {
                assert(ancestors(cur@) == seq![cur@]);
                assert(manifest_candidates_of(cur@) =~= seq![candidate@]);
                assert(out.deep_view() =~= target);
                assert(out.deep_view()[0] == out@[0]@);
                return out;
            },
            Some(q) => {
                assert(ancestors(cur@) == seq![cur@] + ancestors(q@));
                assert(manifest_candidates_of(cur@) =~= seq![candidate@] + manifest_candidates_of(
                    q@,
                ));
                assert(out.deep_view() + manifest_candidates_of(q@) =~= target);
                cur = q;
            },
        }
    }
}

/// Index of the first `true` in `flags`, if any.
pub open spec fn first_true(flags: Seq<bool>) -> Option<int>
    decreases flags.len(),
{
    if flags.len() == 0 {
        None
    } else if flags[0] {
        Some(0)
    } else {
        match first_true(flags.drop_first()) {
            Some(i) => Some(i + 1),
            None => None,
        }
    }
}

/// `first_true` gives the least index that holds `true`, and none exactly
/// when no index does.
pub proof fn lemma_first_true(flags: Seq<bool>)
    ensures
        match first_true(flags) {
            Some(i) => 0 <= i < flags.len() && flags[i] && forall|j: int| 0 <= j < i ==> !flags[j],
            None => forall|j: int| 0 <= j < flags.len() ==> !flags[j],
        },
        forall|i: int|
            0 <= i < flags.len() && flags[i] && (forall|j: int| 0 <= j < i ==> !flags[j])
                ==> first_true(flags) == Some(i),
        flags.len() > 0 && flags[0] ==> first_true(flags) == Some(0int),
    decreases flags.len(),
{
    if flags.len() > 0 && !flags[0] {
        let rest = flags.drop_first();
        lemma_first_true(rest);
        assert forall|j: int| 1 <= j < flags.len() implies flags[j] == rest[j - 1] by {}
        assert forall|i: int|
            0 <= i < flags.len() && flags[i] && (forall|j: int| 0 <= j < i ==> !flags[j])
                implies first_true(flags) == Some(i) by {
            assert(i >= 1);
            assert forall|j: int| 0 <= j < i - 1 implies !rest[j] by {
                assert(!flags[j + 1]);
            }
            assert(rest[i - 1]);
        }
    }
}

/// The nearest manifest that exists: `candidates[i]` for the first `i` with
/// `exists[i]`, or `ManifestNotFound` when none does.
pub fn select_manifest(candidates: &Vec<String>, exists: &Vec<bool>) -> (r: Result<
    String,
    PatchError,
>)
    requires
        candidates@.len() == exists@.len(),
    ensures
        match first_true(exists@) {
            Some(i) => r matches Ok(m) && m@ == candidates@[i]@,
            None => r == Err::<String, PatchError>(PatchError::ManifestNotFound),
        },
        r is Ok <==> exists|i: int| 0 <= i < exists@.len() && exists@[i],
        forall|i: int|
            0 <= i < exists@.len() && exists@[i] && (forall|j: int| 0 <= j < i ==> !exists@[j])
                ==> (r matches Ok(m) && m@ == candidates@[i]@),
        exists@.len() > 0 && exists@[0] ==> (r matches Ok(m) && m@ == candidates@[0]@),
{
    let mut i: usize = 0;
    assert(exists@.skip(0) =~= exists@);
    while i < exists.len()
        invariant
            candidates@.len() == exists@.len(),
            i <= exists@.len(),
            forall|j: int| 0 <= j < i ==> !exists@[j],
            match first_true(exists@.skip(i as int)) {
                Some(k) => first_true(exists@) == Some(k + i),
                None => first_true(exists@) is None,
            },
        decreases exists@.len() - i,
    {
        assert(exists@.skip(i as int).drop_first() =~= exists@.skip(i + 1));
        if exists[i] {
            proof {
                assert forall|k: int|
                    0 <= k < exists@.len() && exists@[k] && (forall|j: int| 0 <= j < k ==> !exists@[j])
                        implies k == i by {
                    if k < i {
                        assert(!exists@[k]);
                    }
                    if k > i {
                        assert(!exists@[i as int]);
                    }
                }
            }
            return Ok(candidates[i].clone());
        }
        i = i + 1;
    }
    assert(exists@.skip(i as int).len() == 0);
    Err(PatchError::ManifestNotFound)
}

} // verus!
