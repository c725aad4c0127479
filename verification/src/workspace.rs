//! A workspace as cargo describes it: its packages, its members and its
//! dependency graph, with the folders where patches live and where patched
//! sources are copied.
use vstd::prelude::*;
use crate::error::PatchError;
use crate::metadata::{patch_crates, patch_crates_of, MetaValue};
use crate::naming::{package_slug, slug_of};
use crate::paths::{first_true, join_path, joined, utf8_parent_of, utf8_parent_path};
use crate::text::str_eq;

verus! {

/// A package of the dependency graph.
pub struct PackageInfo {
    /// Cargo's opaque identifier of the package.
    pub id: String,
    pub name: String,
    pub version: String,
    /// The path of the package's `Cargo.toml`.
    pub manifest_path: String,
    /// The package's `[package.metadata]` table.
    pub metadata: MetaValue,
}

/// A workspace and its dependency graph.
pub struct WorkspaceInfo {
    /// The workspace's root directory.
    pub root: String,
    /// Every package of the dependency graph, in cargo's order.
    pub packages: Vec<PackageInfo>,
    /// The identifiers of the workspace's own packages.
    pub workspace_members: Vec<String>,
    /// The identifiers of the resolved graph's nodes, when cargo resolved it.
    pub resolve_nodes: Option<Vec<String>>,
}

/// What to do with a package's copy in a patch folder.
#[derive(Debug, PartialEq, Eq)]
pub enum CopyPlan {
    /// No copy exists yet: copy the sources.
    Copy,
    /// A copy exists and may be overwritten: remove it, then copy the sources.
    Replace,
    /// A copy exists and must be kept: leave it as it is.
    Keep,
}

/// Index of the last package named `name`: a later package of that name
/// hides an earlier one.
pub open spec fn last_with_name(packages: Seq<PackageInfo>, name: Seq<char>) -> Option<int>
    decreases packages.len(),
{
    if packages.len() == 0 {
        None
    } else if packages.last().name@ == name {
        Some(packages.len() - 1)
    } else {
        last_with_name(packages.drop_last(), name)
    }
}

/// Index of the first package whose identifier is `id`.
pub open spec fn first_with_id(packages: Seq<PackageInfo>, id: Seq<char>) -> Option<int>
    decreases packages.len(),
{
    if packages.len() == 0 {
        None
    } else if packages[0].id@ == id {
        Some(0)
    } else {
        match first_with_id(packages.drop_first(), id) {
            Some(i) => Some(i + 1),
            None => None,
        }
    }
}

/// The crates to patch that the workspace members name in their metadata,
/// member by member; a member that is not among the packages names none.
pub open spec fn crates_to_patch_of(packages: Seq<PackageInfo>, members: Seq<String>) -> Seq<
    Seq<char>,
>
    decreases members.len(),
{
    if members.len() == 0 {
        Seq::empty()
    } else {
        crates_to_patch_of(packages, members.drop_last()) + match first_with_id(
            packages,
            members.last()@,
        ) {
            Some(i) => patch_crates_of(packages[i].metadata),
            None => Seq::empty(),
        }
    }
}

pub proof fn lemma_last_with_name(packages: Seq<PackageInfo>, name: Seq<char>)
    ensures
        match last_with_name(packages, name) {
            Some(i) => 0 <= i < packages.len() && packages[i].name@ == name && forall|j: int|
                i < j < packages.len() ==> packages[j].name@ != name,
            None => forall|j: int| 0 <= j < packages.len() ==> packages[j].name@ != name,
        },
    decreases packages.len(),
{
    if packages.len() > 0 && packages.last().name@ != name {
        lemma_last_with_name(packages.drop_last(), name);
        assert forall|j: int| 0 <= j < packages.len() - 1 implies packages[j] == packages.drop_last()[j] by {}
    }
}

/// The packages by name, as inserting them one after another into a map
/// gives: a later package of a name replaces an earlier one.
pub open spec fn by_name(packages: Seq<PackageInfo>) -> Map<Seq<char>, PackageInfo>
    decreases packages.len(),
{
    if packages.len() == 0 {
        Map::empty()
    } else {
        by_name(packages.drop_last()).insert(packages.last().name@, packages.last())
    }
}

/// The map of packages by name has a key exactly for each name that some
/// package has, and under it the last package of that name.
pub proof fn lemma_by_name(packages: Seq<PackageInfo>)
    ensures
        forall|k: Seq<char>|
            #![trigger by_name(packages).contains_key(k)]
            by_name(packages).contains_key(k) <==> (exists|i: int|
                0 <= i < packages.len() && #[trigger] packages[i].name@ == k),
        forall|k: Seq<char>|
            #![trigger by_name(packages).contains_key(k)]
            by_name(packages).contains_key(k) ==> (last_with_name(packages, k) matches Some(i)
                && by_name(packages)[k] == packages[i]),
    decreases packages.len(),
{
    if packages.len() > 0 {
        let rest = packages.drop_last();
        lemma_by_name(rest);
        assert forall|k: Seq<char>|
            #![trigger by_name(packages).contains_key(k)]
            by_name(packages).contains_key(k) <==> (exists|i: int|
                0 <= i < packages.len() && #[trigger] packages[i].name@ == k) by {
            if by_name(packages).contains_key(k) {
                if k == packages.last().name@ {
                    assert(packages[packages.len() - 1].name@ == k);
                } else {
                    assert(by_name(rest).contains_key(k));
                    let i = choose|i: int| 0 <= i < rest.len() && #[trigger] rest[i].name@ == k;
                    assert(packages[i] == rest[i]);
                }
            }
            if exists|i: int| 0 <= i < packages.len() && #[trigger] packages[i].name@ == k {
                let i = choose|i: int| 0 <= i < packages.len() && #[trigger] packages[i].name@ == k;
                if i < packages.len() - 1 {
                    assert(rest[i] == packages[i]);
                    assert(by_name(rest).contains_key(k));
                }
            }
        }
        assert forall|k: Seq<char>|
            #![trigger by_name(packages).contains_key(k)]
            by_name(packages).contains_key(k) implies (last_with_name(packages, k) matches Some(i)
                && by_name(packages)[k] == packages[i]) by {
            if k != packages.last().name@ {
                assert(by_name(rest).contains_key(k));
                lemma_last_with_name(rest, k);
                let i = last_with_name(rest, k)->0;
                assert(packages[i] == rest[i]);
            }
        }
    }
}

/// `first_with_id` finds the first package with the identifier, and none
/// exactly when no package has it.
pub proof fn lemma_first_with_id(packages: Seq<PackageInfo>, id: Seq<char>)
    ensures
        match first_with_id(packages, id) {
            Some(i) => 0 <= i < packages.len() && packages[i].id@ == id && forall|j: int|
                0 <= j < i ==> packages[j].id@ != id,
            None => forall|j: int| 0 <= j < packages.len() ==> packages[j].id@ != id,
        },
    decreases packages.len(),
{
    if packages.len() > 0 && packages[0].id@ != id {
        let rest = packages.drop_first();
        lemma_first_with_id(rest, id);
        assert forall|j: int| 1 <= j < packages.len() implies packages[j] == rest[j - 1] by {}
    }
}

/// A package appended after the others does not change which package an
/// identifier that it does not have finds.
proof fn lemma_first_with_id_push(packages: Seq<PackageInfo>, extra: PackageInfo, id: Seq<char>)
    requires
        extra.id@ != id,
    ensures
        first_with_id(packages.push(extra), id) == first_with_id(packages, id),
    decreases packages.len(),
{
    assert(packages.push(extra).len() > 0);
    if packages.len() > 0 {
        assert(packages.push(extra)[0] == packages[0]);
        if packages[0].id@ != id {
            assert(packages.push(extra).drop_first() =~= packages.drop_first().push(extra));
            lemma_first_with_id_push(packages.drop_first(), extra, id);
        }
    } else {
        assert(packages.push(extra)[0] == extra);
        assert(packages.push(extra).drop_first() =~= Seq::<PackageInfo>::empty());
    }
}

/// A workspace without members names no crate to patch.
pub proof fn lemma_crates_to_patch_no_members(packages: Seq<PackageInfo>)
    ensures
        crates_to_patch_of(packages, Seq::empty()) == Seq::<Seq<char>>::empty(),
{
}

/// The crates to patch of a list of members are those of its first part,
/// then those of its second part: each member adds its own, in order.
pub proof fn lemma_crates_to_patch_append(
    packages: Seq<PackageInfo>,
    first: Seq<String>,
    second: Seq<String>,
)
    ensures
        crates_to_patch_of(packages, first + second) == crates_to_patch_of(packages, first)
            + crates_to_patch_of(packages, second),
    decreases second.len(),
{
    if second.len() == 0 {
        assert(first + second =~= first);
        assert(crates_to_patch_of(packages, first) + crates_to_patch_of(packages, second)
            =~= crates_to_patch_of(packages, first));
    } else {
        lemma_crates_to_patch_append(packages, first, second.drop_last());
        assert((first + second).drop_last() =~= first + second.drop_last());
        assert((first + second).last() == second.last());
    }
}

/// A single member names the crates that the metadata of the first package
/// with its identifier lists, and none when no package has its identifier.
pub proof fn lemma_crates_to_patch_one_member(packages: Seq<PackageInfo>, member: String)
    ensures
        forall|i: int|
            0 <= i < packages.len() && packages[i].id@ == member@ && (forall|j: int|
                0 <= j < i ==> packages[j].id@ != member@) ==> crates_to_patch_of(
                packages,
                seq![member],
            ) == patch_crates_of(packages[i].metadata),
        (forall|j: int| 0 <= j < packages.len() ==> packages[j].id@ != member@)
            ==> crates_to_patch_of(packages, seq![member]) == Seq::<Seq<char>>::empty(),
{
    let ms = seq![member];
    assert(ms.drop_last() =~= Seq::<String>::empty());
    lemma_first_with_id(packages, member@);
    assert(crates_to_patch_of(packages, ms.drop_last()) == Seq::<Seq<char>>::empty());
    assert forall|i: int|
        0 <= i < packages.len() && packages[i].id@ == member@ && (forall|j: int|
            0 <= j < i ==> packages[j].id@ != member@) implies crates_to_patch_of(
        packages,
        seq![member],
    ) == patch_crates_of(packages[i].metadata) by {
        match first_with_id(packages, member@) {
            Some(k) => {
                if k < i {
                    assert(packages[k].id@ != member@);
                }
                if k > i {
                    assert(packages[i].id@ != member@);
                }
                assert(Seq::<Seq<char>>::empty() + patch_crates_of(packages[i].metadata)
                    =~= patch_crates_of(packages[i].metadata));
            },
            None => {
                assert(packages[i].id@ != member@);
            },
        }
    }
    if forall|j: int| 0 <= j < packages.len() ==> packages[j].id@ != member@ {
        if first_with_id(packages, member@) is Some {
            let k = first_with_id(packages, member@)->0;
            assert(packages[k].id@ != member@);
        }
        assert(Seq::<Seq<char>>::empty() + Seq::<Seq<char>>::empty() =~= Seq::<
            Seq<char>,
        >::empty());
    }
}

/// Only the workspace members' metadata counts: a package whose identifier is
/// no member's adds nothing to the crates to patch.
pub proof fn lemma_crates_to_patch_ignores_non_members(
    packages: Seq<PackageInfo>,
    extra: PackageInfo,
    members: Seq<String>,
)
    requires
        forall|m: int| 0 <= m < members.len() ==> members[m]@ != extra.id@,
    ensures
        crates_to_patch_of(packages.push(extra), members) == crates_to_patch_of(packages, members),
    decreases members.len(),
{
    if members.len() > 0 {
        lemma_crates_to_patch_ignores_non_members(packages, extra, members.drop_last());
        lemma_first_with_id_push(packages, extra, members.last()@);
        lemma_first_with_id(packages, members.last()@);
        match first_with_id(packages, members.last()@) {
            Some(i) => {
                assert(packages.push(extra)[i] == packages[i]);
            },
            None => {},
        }
    }
}

/// Looking a name up in the map of packages by name finds the last package
/// of that name, and only a name that some package has.
pub proof fn lemma_by_name_lookup(packages: Seq<PackageInfo>, name: Seq<char>)
    ensures
        by_name(packages).contains_key(name) <==> last_with_name(packages, name) is Some,
        last_with_name(packages, name) matches Some(i) ==> by_name(packages)[name] == packages[i],
{
    lemma_by_name(packages);
    lemma_last_with_name(packages, name);
    if last_with_name(packages, name) is Some {
        let i = last_with_name(packages, name)->0;
        assert(packages[i].name@ == name);
        assert(by_name(packages).contains_key(name));
    } else {
        if by_name(packages).contains_key(name) {
            let j = choose|j: int| 0 <= j < packages.len() && #[trigger] packages[j].name@ == name;
            assert(packages[j].name@ != name);
        }
    }
}

/// The directory name of a package: its name, a hyphen and its version.
pub fn get_package_slug(package: &PackageInfo) -> (r: String)
    ensures
        r@ == slug_of(package.name@, package.version@),
{
    package_slug(package.name.as_str(), package.version.as_str())
}

/// Where a package's copy lives in the patch folder `folder`.
pub fn package_target_path(folder: &str, package: &PackageInfo) -> (r: String)
    ensures
        r@ == joined(folder@, slug_of(package.name@, package.version@)),
{
    let slug = get_package_slug(package);
    join_path(folder, slug.as_str())
}

/// The directory under a home directory where cargo unpacks registry sources.
pub fn registry_src_dir(home: &str) -> (r: String)
    ensures
        r@ == joined(home@, ".cargo/registry/src"@),
{
    join_path(home, ".cargo/registry/src")
}

/// Where a package's sources would be in one registry's source directory.
pub fn registry_package_dir(source_dir: &str, package: &PackageInfo) -> (r: String)
    ensures
        r@ == joined(source_dir@, slug_of(package.name@, package.version@)),
{
    package_target_path(source_dir, package)
}

/// Where a package's sources are copied from: its own directory when that is
/// known and exists; otherwise the first registry candidate that exists;
/// otherwise `SourceNotFound`.
pub fn select_source(
    package: &PackageInfo,
    local_dir: &Option<String>,
    local_exists: bool,
    registry_candidates: &Vec<String>,
    registry_exists: &Vec<bool>,
) -> (r: Result<String, PatchError>)
    requires
        registry_candidates@.len() == registry_exists@.len(),
    ensures
        (local_dir is Some && local_exists) ==> (r matches Ok(d) && d@ == local_dir->0@),
        !(local_dir is Some && local_exists) ==> match first_true(registry_exists@) {
            Some(i) => r matches Ok(d) && d@ == registry_candidates@[i]@,
            None => r matches Err(PatchError::SourceNotFound { name, version }) && name@
                == package.name@ && version@ == package.version@,
        },
        !(local_dir is Some && local_exists) ==> (r is Ok <==> exists|i: int|
            0 <= i < registry_exists@.len() && registry_exists@[i]),
        !(local_dir is Some && local_exists) ==> forall|i: int|
            0 <= i < registry_exists@.len() && registry_exists@[i] && (forall|j: int|
                0 <= j < i ==> !registry_exists@[j]) ==> (r matches Ok(d) && d@
                == registry_candidates@[i]@),
{
    if local_exists {
        if let Some(dir) = local_dir {
            return Ok(dir.clone());
        }
    }
    let mut i: usize = 0;
    assert(registry_exists@.skip(0) =~= registry_exists@);
    while i < registry_exists.len()
        invariant
            registry_candidates@.len() == registry_exists@.len(),
            !(local_dir is Some && local_exists),
            i <= registry_exists@.len(),
            forall|j: int| 0 <= j < i ==> !registry_exists@[j],
            match first_true(registry_exists@.skip(i as int)) {
                Some(k) => first_true(registry_exists@) == Some(k + i),
                None => first_true(registry_exists@) is None,
            },
        decreases registry_exists@.len() - i,
    {
        assert(registry_exists@.skip(i as int).drop_first() =~= registry_exists@.skip(i + 1));
        if registry_exists[i] {
            proof {
                assert forall|k: int|
                    0 <= k < registry_exists@.len() && registry_exists@[k] && (forall|j: int|
                        0 <= j < k ==> !registry_exists@[j]) implies k == i by {
                    if k < i {
                        assert(!registry_exists@[k]);
                    }
                    if k > i {
                        assert(!registry_exists@[i as int]);
                    }
                }
            }
            return Ok(registry_candidates[i].clone());
        }
        i = i + 1;
    }
    assert(registry_exists@.skip(i as int).len() == 0);
    Err(source_not_found(package))
}

/// The error that reports a package whose sources were not found.
fn source_not_found(package: &PackageInfo) -> (r: PatchError)
    ensures
        r matches PatchError::SourceNotFound { name, version } && name@ == package.name@
            && version@ == package.version@,
{
    PatchError::SourceNotFound { name: package.name.clone(), version: package.version.clone() }
}

/// What to do with a package's copy in a patch folder: an existing copy is
/// replaced when `overwrite` is set and kept otherwise.
pub open spec fn copy_plan_of(target_exists: bool, overwrite: bool) -> CopyPlan {
    if !target_exists {
        CopyPlan::Copy
    } else if overwrite {
        CopyPlan::Replace
    } else {
        CopyPlan::Keep
    }
}

/// What to do with a package's copy in a patch folder (see `copy_plan_of`).
pub fn copy_plan(target_exists: bool, overwrite: bool) -> (r: CopyPlan)
    ensures
        r == copy_plan_of(target_exists, overwrite),
        !target_exists ==> r == CopyPlan::Copy,
        target_exists && overwrite ==> r == CopyPlan::Replace,
        target_exists && !overwrite ==> r == CopyPlan::Keep,
{
    if !target_exists {
        CopyPlan::Copy
    } else if overwrite {
        CopyPlan::Replace
    } else {
        CopyPlan::Keep
    }
}

impl WorkspaceInfo {
    /// The workspace's packages by name; a later package of a name hides an
    /// earlier one.
    pub open spec fn packages_by_name(self) -> Map<Seq<char>, PackageInfo> {
        by_name(self.packages@)
    }

    /// A workspace with the given root, packages, members and resolved graph.
    /// Its packages by name have a key exactly for each package name, and
    /// under it the last package of that name.
    pub fn new(
        root: String,
        packages: Vec<PackageInfo>,
        workspace_members: Vec<String>,
        resolve_nodes: Option<Vec<String>>,
    ) -> (ws: Self)
        ensures
            ws.root == root,
            ws.packages == packages,
            ws.workspace_members == workspace_members,
            ws.resolve_nodes == resolve_nodes,
            forall|k: Seq<char>|
                #![trigger ws.packages_by_name().contains_key(k)]
                ws.packages_by_name().contains_key(k) <==> (exists|i: int|
                    0 <= i < packages@.len() && #[trigger] packages@[i].name@ == k),
            forall|k: Seq<char>|
                #![trigger ws.packages_by_name().contains_key(k)]
                ws.packages_by_name().contains_key(k) ==> {
                    let p = ws.packages_by_name()[k];
                    &&& p.name@ == k
                    &&& packages@.contains(p)
                    &&& (last_with_name(packages@, k) matches Some(i) && p == packages@[i])
                },
    {
        proof {
            lemma_by_name(packages@);
            assert forall|k: Seq<char>|
                #![trigger by_name(packages@).contains_key(k)]
                by_name(packages@).contains_key(k) implies by_name(packages@)[k].name@ == k
                && packages@.contains(by_name(packages@)[k]) by {
                lemma_last_with_name(packages@, k);
                let i = last_with_name(packages@, k)->0;
                assert(packages@[i] == by_name(packages@)[k]);
            }
        }
        WorkspaceInfo { root, packages, workspace_members, resolve_nodes }
    }

    /// Where patch files are kept: `patches/` under the workspace root.
    pub fn patches_folder(&self) -> (r: String)
        ensures
            r@ == joined(self.root@, "patches/"@),
    {
        join_path(self.root.as_str(), "patches/")
    }

    /// Where patched copies of packages live: `target/patch/` under the root.
    pub fn patch_target_folder(&self) -> (r: String)
        ensures
            r@ == joined(self.root@, "target/patch/"@),
    {
        join_path(self.root.as_str(), "target/patch/")
    }

    /// Where pristine copies are made while a patch is created:
    /// `target/patch-tmp/` under the root.
    pub fn patch_target_tmp_folder(&self) -> (r: String)
        ensures
            r@ == joined(self.root@, "target/patch-tmp/"@),
    {
        join_path(self.root.as_str(), "target/patch-tmp/")
    }

    /// The package named `name`: the last one of that name in the graph, or
    /// `PackageNotFound` when there is none.
    pub fn get_package(&self, name: &str) -> (r: Result<&PackageInfo, PatchError>)
        ensures
            match last_with_name(self.packages@, name@) {
                Some(i) => r matches Ok(p) && *p == self.packages@[i],
                None => r matches Err(PatchError::PackageNotFound { name: n }) && n@ == name@,
            },
            r is Ok <==> self.packages_by_name().contains_key(name@),
            r matches Ok(p) ==> *p == self.packages_by_name()[name@],
    {
        let mut i: usize = self.packages.len();
        assert(self.packages@.take(i as int) =~= self.packages@);
        while i > 0
            invariant
                i <= self.packages@.len(),
                last_with_name(self.packages@, name@) == last_with_name(
                    self.packages@.take(i as int),
                    name@,
                ),
            decreases i,
        {
            let ghost prefix = self.packages@.take(i as int);
            assert(prefix.drop_last() =~= self.packages@.take(i - 1));
            assert(prefix.last() == self.packages@[i - 1]);
            let package = &self.packages[i - 1];
            if str_eq(package.name.as_str(), name) {
                proof {
                    lemma_by_name_lookup(self.packages@, name@);
                }
                return Ok(package);
            }
            i = i - 1;
        }
        proof {
            lemma_by_name_lookup(self.packages@, name@);
        }
        Err(PatchError::PackageNotFound { name: String::from_str(name) })
    }

    /// Index of the first package whose identifier is `id`.
    pub fn position_of_id(&self, id: &str) -> (r: Option<usize>)
        ensures
            match r {
                Some(k) => first_with_id(self.packages@, id@) == Some(k as int),
                None => first_with_id(self.packages@, id@) is None,
            },
    {
        let mut k: usize = 0;
        assert(self.packages@.skip(0) =~= self.packages@);
        while k < self.packages.len()
            invariant
                k <= self.packages@.len(),
                match first_with_id(self.packages@.skip(k as int), id@) {
                    Some(j) => first_with_id(self.packages@, id@) == Some(j + k),
                    None => first_with_id(self.packages@, id@) is None,
                },
            decreases self.packages@.len() - k,
        {
            assert(self.packages@.skip(k as int).drop_first() =~= self.packages@.skip(k + 1));
            assert(self.packages@.skip(k as int)[0] == self.packages@[k as int]);
            if str_eq(self.packages[k].id.as_str(), id) {
                return Some(k);
            }
            k = k + 1;
        }
        assert(self.packages@.skip(k as int).len() == 0);
        None
    }

    /// The crates that the workspace members name under
    /// `[package.metadata.patch] crates`, member by member, in order.
    pub fn get_crates_to_patch(&self) -> (r: Vec<String>)
        ensures
            r.deep_view() == crates_to_patch_of(self.packages@, self.workspace_members@),
    {
        let mut out: Vec<String> = Vec::new();
        let members = &self.workspace_members;
        let mut m: usize = 0;
        while m < members.len()
            invariant
                m <= members@.len(),
                members == &self.workspace_members,
                out.deep_view() == crates_to_patch_of(self.packages@, members@.take(m as int)),
            decreases members@.len() - m,
        {
            let id = members[m].as_str();
            let ghost before = out.deep_view();
            assert(members@.take(m + 1).drop_last() =~= members@.take(m as int));
            assert(members@.take(m + 1).last() == members@[m as int]);
            let found = self.position_of_id(id);
            proof {
                lemma_first_with_id(self.packages@, id@);
            }
            match found {
                Some(j) => {
                    let mut crates = patch_crates(&self.packages[j].metadata);
                    let ghost added = crates.deep_view();
                    out.append(&mut crates);
                    assert(out.deep_view() =~= before + added);
                    assert(crates_to_patch_of(self.packages@, members@.take(m + 1)) == before
                        + added);
                },
                None => {
                    assert(out.deep_view() =~= before + Seq::<Seq<char>>::empty());
                },
            }
            m = m + 1;
        }
        assert(members@.take(members@.len() as int) =~= members@);
        out
    }

    /// The directory beside the manifest of a package that belongs to the
    /// resolved graph, where its sources would be on disk already; `None` for a
    /// package that is not in the graph or whose manifest has no directory.
    pub fn local_source_dir(&self, package: &PackageInfo) -> (r: Option<String>)
        requires
            self.resolve_nodes is Some,
        ensures
            (exists|i: int|
                0 <= i < self.resolve_nodes->0@.len() && #[trigger] self.resolve_nodes->0@[i]@
                    == package.id@) ==> match r {
                Some(d) => utf8_parent_of(package.manifest_path@) == Some(d@),
                None => utf8_parent_of(package.manifest_path@) is None,
            },
            !(exists|i: int|
                0 <= i < self.resolve_nodes->0@.len() && #[trigger] self.resolve_nodes->0@[i]@
                    == package.id@) ==> r is None,
    {
        let nodes = match &self.resolve_nodes {
            Some(nodes) => nodes,
            None => {
                return None;
            },
        };
        let mut i: usize = 0;
        while i < nodes.len()
            invariant
                i <= nodes@.len(),
                self.resolve_nodes == Some(*nodes),
                forall|j: int| 0 <= j < i ==> nodes@[j]@ != package.id@,
            decreases nodes@.len() - i,
        {
            if str_eq(nodes[i].as_str(), package.id.as_str()) {
                assert(self.resolve_nodes->0@[i as int]@ == package.id@);
                return utf8_parent_path(package.manifest_path.as_str());
            }
            i = i + 1;
        }
        None
    }
}

} // verus!
