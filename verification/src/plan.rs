//! The decisions of a run: whether patches are created or applied, what
//! creating a crate's patch involves, and what a file of the patches folder
//! asks for.
use vstd::prelude::*;
use crate::error::PatchError;
use crate::naming::{
    lemma_patch_file_name_round_trip, parse_patch_file_name, patch_file_name, patch_file_name_of,
    patch_file_parts, slug_of,
};
use crate::paths::{join_path, joined};
use crate::session::{lemma_claims_partition, waiting_after, ApplySession};
use crate::text::str_eq;
use crate::workspace::{
    copy_plan_of, last_with_name, package_target_path, CopyPlan, PackageInfo, WorkspaceInfo,
};

verus! {

/// The word that cargo places before the arguments when it runs this tool as
/// its `patch-crate` subcommand.
pub open spec fn subcommand_word() -> Seq<char> {
    "patch-crate"@
}

/// Index of the first occurrence of `word` among `args`.
pub open spec fn position_of(args: Seq<Seq<char>>, word: Seq<char>) -> Option<int>
    decreases args.len(),
{
    if args.len() == 0 {
        None
    } else if args[0] == word {
        Some(0)
    } else {
        match position_of(args.drop_first(), word) {
            Some(i) => Some(i + 1),
            None => None,
        }
    }
}

/// `position_of` finds the first occurrence of the word, and none exactly
/// when the word does not occur.
pub proof fn lemma_position_of(args: Seq<Seq<char>>, word: Seq<char>)
    ensures
        match position_of(args, word) {
            Some(i) => 0 <= i < args.len() && args[i] == word && forall|j: int|
                0 <= j < i ==> args[j] != word,
            None => forall|j: int| 0 <= j < args.len() ==> args[j] != word,
        },
    decreases args.len(),
{
    if args.len() > 0 && args[0] != word {
        let rest = args.drop_first();
        lemma_position_of(rest, word);
        assert forall|j: int| 1 <= j < args.len() implies args[j] == rest[j - 1] by {}
    }
}

/// The crates named on the command line: the arguments without the first
/// occurrence of the subcommand word.
pub open spec fn requested_crates_of(args: Seq<Seq<char>>) -> Seq<Seq<char>> {
    match position_of(args, subcommand_word()) {
        Some(i) => args.remove(i),
        None => args,
    }
}

/// What a run does.
pub enum Mode {
    /// Create a patch for each of these crates from its edited copy.
    Create(Vec<String>),
    /// Apply the patch files, and copy the listed crates that have none.
    Apply,
}

/// The mode of a run whose command line names `crates`: patches are created
/// for the crates named, other than the subcommand word, and applied when no
/// crate is named.
pub fn select_mode(crates: Vec<String>) -> (m: Mode)
    ensures
        match m {
            Mode::Create(c) => c.deep_view() == requested_crates_of(crates.deep_view())
                && c@.len() > 0,
            Mode::Apply => requested_crates_of(crates.deep_view()).len() == 0,
        },
{
    let mut crates = crates;
    let ghost args = crates.deep_view();
    let word = "patch-crate";
    proof {
        reveal_strlit("patch-crate");
    }
    let found = find_word(&crates, word);
    proof {
        lemma_position_of(args, word@);
    }
    match found {
        Some(i) => {
            crates.remove(i);
            assert(crates.deep_view() =~= args.remove(i as int));
        },
        None => {},
    }
    if crates.len() == 0 {
        Mode::Apply
    } else {
        Mode::Create(crates)
    }
}

/// Index of the first occurrence of `word` among `args`.
fn find_word(args: &Vec<String>, word: &str) -> (r: Option<usize>)
    ensures
        match r {
            Some(k) => position_of(args.deep_view(), word@) == Some(k as int),
            None => position_of(args.deep_view(), word@) is None,
        },
{
    let ghost all = args.deep_view();
    let mut i: usize = 0;
    assert(all.skip(0) =~= all);
    while i < args.len()
        invariant
            i <= args@.len(),
            all == args.deep_view(),
            match position_of(all.skip(i as int), word@) {
                Some(k) => position_of(all, word@) == Some(k + i),
                None => position_of(all, word@) is None,
            },
        decreases args@.len() - i,
    {
        assert(all.skip(i as int).drop_first() =~= all.skip(i + 1));
        assert(all.skip(i as int)[0] == args@[i as int]@);
        if str_eq(args[i].as_str(), word) {
            return Some(i);
        }
        i = i + 1;
    }
    assert(all.skip(i as int).len() == 0);
    None
}

/// What creating the patch of one crate involves.
pub struct CreateStep<'a> {
    /// The crate's package.
    pub package: &'a PackageInfo,
    /// The edited copy, in the patch folder.
    pub target: String,
    /// Where a pristine copy is made to compare the edited one against.
    pub scratch: String,
    /// Where the patch is written.
    pub patch_file: String,
}

/// What a file of the patches folder asks for.
pub enum PatchFileStep<'a> {
    /// The file is no patch: its extension differs, or its stem names no crate.
    NotAPatch,
    /// The file patches a crate that the workspace does not list for patching.
    Unlisted { name: String },
    /// The file patches this listed package, whose copy goes to `target`.
    Apply { package: &'a PackageInfo, target: String },
}

impl WorkspaceInfo {
    /// The package, copies and patch file for creating the patch of the crate
    /// `crate_name`, or `PackageNotFound`.
    pub fn create_step(&self, crate_name: &str) -> (r: Result<CreateStep<'_>, PatchError>)
        ensures
            match last_with_name(self.packages@, crate_name@) {
                Some(i) => r matches Ok(step) && {
                    let p = self.packages@[i];
                    &&& *step.package == p
                    &&& step.target@ == joined(
                        joined(self.root@, "target/patch/"@),
                        slug_of(p.name@, p.version@),
                    )
                    &&& step.scratch@ == joined(
                        joined(self.root@, "target/patch-tmp/"@),
                        slug_of(p.name@, p.version@),
                    )
                    &&& step.patch_file@ == joined(
                        joined(self.root@, "patches/"@),
                        patch_file_name_of(p.name@, p.version@),
                    )
                },
                None => r matches Err(PatchError::PackageNotFound { name: n }) && n@
                    == crate_name@,
            },
    {
        let package = match self.get_package(crate_name) {
            Ok(p) => p,
            Err(e) => {
                return Err(e);
            },
        };
        let target = package_target_path(self.patch_target_folder().as_str(), package);
        let scratch = package_target_path(self.patch_target_tmp_folder().as_str(), package);
        let file_name = patch_file_name(package.name.as_str(), package.version.as_str());
        let patch_file = join_path(self.patches_folder().as_str(), file_name.as_str());
        Ok(CreateStep { package, target, scratch, patch_file })
    }

    /// What the file `file_name` of the patches folder asks for. A patch of a
    /// listed crate claims that crate in `session`; a patch of an unknown
    /// crate is `PackageNotFound`.
    pub fn plan_patch_file(&self, file_name: &str, session: &mut ApplySession) -> (r: Result<
        PatchFileStep<'_>,
        PatchError,
    >)
        ensures
            match patch_file_parts(file_name@) {
                None => r matches Ok(PatchFileStep::NotAPatch) && final(session)@ == old(
                    session,
                )@,
                Some((name, _version)) => match last_with_name(self.packages@, name) {
                    None => r matches Err(PatchError::PackageNotFound { name: n }) && n@ == name
                        && final(session)@ == old(session)@,
                    Some(i) => if old(session)@.contains(name) {
                        &&& r matches Ok(PatchFileStep::Apply { package, target }) && *package
                            == self.packages@[i] && target@ == joined(
                            joined(self.root@, "target/patch/"@),
                            slug_of(self.packages@[i].name@, self.packages@[i].version@),
                        )
                        &&& final(session)@ == old(session)@.remove(name)
                    } else {
                        &&& r matches Ok(PatchFileStep::Unlisted { name: n }) && n@ == name
                        &&& final(session)@ == old(session)@
                    },
                },
            },
    {
        let parts = parse_patch_file_name(file_name);
        match parts {
            None => Ok(PatchFileStep::NotAPatch),
            Some((name, _version)) => {
                let package = match self.get_package(name.as_str()) {
                    Ok(p) => p,
                    Err(e) => {
                        return Err(e);
                    },
                };
                if !session.claim(name.as_str()) {
                    return Ok(PatchFileStep::Unlisted { name });
                }
                let target = package_target_path(self.patch_target_folder().as_str(), package);
                Ok(PatchFileStep::Apply { package, target })
            },
        }
    }
}

/// What applying a patch file does with its package's copy.
#[derive(Debug, PartialEq, Eq)]
pub enum PatchTargetAction {
    /// No copy exists: copy the package's sources and apply the patch to them.
    CopyAndApply,
    /// A copy exists already (perhaps edited): leave it as it is.
    KeepExisting,
}

/// What applying a patch file does with its package's copy: an existing copy
/// is kept, whether `--force` was given or not (with it, the patch folder was
/// emptied before).
pub open spec fn patch_target_action_of(target_exists: bool) -> PatchTargetAction {
    if target_exists {
        PatchTargetAction::KeepExisting
    } else {
        PatchTargetAction::CopyAndApply
    }
}

/// What applying a patch file does with its package's copy.
pub fn patch_target_action(target_exists: bool) -> (a: PatchTargetAction)
    ensures
        a == patch_target_action_of(target_exists),
        target_exists ==> a == PatchTargetAction::KeepExisting,
        !target_exists ==> a == PatchTargetAction::CopyAndApply,
{
    if target_exists {
        PatchTargetAction::KeepExisting
    } else {
        PatchTargetAction::CopyAndApply
    }
}

/// A run without `--force` in which every copy that it would make exists
/// already (as after an earlier successful run) changes nothing: each patch
/// file keeps its package's copy, and each listed crate without a patch file
/// keeps its copy.
pub proof fn lemma_rerun_without_force_keeps_copies(
    patch_targets_exist: Seq<bool>,
    plain_targets_exist: Seq<bool>,
)
    requires
        forall|i: int| 0 <= i < patch_targets_exist.len() ==> #[trigger] patch_targets_exist[i],
        forall|j: int| 0 <= j < plain_targets_exist.len() ==> #[trigger] plain_targets_exist[j],
    ensures
        forall|i: int|
            0 <= i < patch_targets_exist.len() ==> #[trigger] patch_target_action_of(
                patch_targets_exist[i],
            ) == PatchTargetAction::KeepExisting,
        forall|j: int|
            0 <= j < plain_targets_exist.len() ==> #[trigger] copy_plan_of(
                plain_targets_exist[j],
                false,
            ) == CopyPlan::Keep,
{
}

/// A run with `--force` empties the patch folder first, so no copy exists:
/// each listed crate that a patch file claims is copied and patched, each
/// other listed crate is copied plainly, and together these are exactly the
/// listed crates, none twice.
pub proof fn lemma_forced_run_rebuilds(start: Set<Seq<char>>, claims: Seq<Seq<char>>)
    ensures
        patch_target_action_of(false) == PatchTargetAction::CopyAndApply,
        copy_plan_of(false, true) == CopyPlan::Copy,
        start.intersect(claims.to_set()) + waiting_after(start, claims) == start,
        start.intersect(claims.to_set()).disjoint(waiting_after(start, claims)),
{
    lemma_claims_partition(start, claims);
    assert(start.intersect(claims.to_set()) + waiting_after(start, claims) =~= start);
}

/// The patch that creating writes for a crate is, when applying, read as a
/// patch of that same crate's package, for every crate name without a plus
/// sign.
pub proof fn lemma_created_patch_applies(packages: Seq<PackageInfo>, crate_name: Seq<char>)
    requires
        last_with_name(packages, crate_name) is Some,
        !crate_name.contains('+'),
    ensures
        ({
            let i = last_with_name(packages, crate_name)->0;
            let p = packages[i];
            patch_file_parts(patch_file_name_of(p.name@, p.version@)) == Some((p.name@, p.version@))
                && last_with_name(packages, p.name@) == Some(i)
        }),
{
    crate::workspace::lemma_last_with_name(packages, crate_name);
    let i = last_with_name(packages, crate_name)->0;
    lemma_patch_file_name_round_trip(packages[i].name@, packages[i].version@);
}

} // verus!
