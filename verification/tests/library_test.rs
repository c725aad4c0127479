//! Tests of the workspace, path, session and planning logic on concrete values.

use patch_crate::error::PatchError;
use patch_crate::metadata::{patch_crates, MetaValue};
use patch_crate::naming::{package_slug, parse_patch_file_name, patch_file_name, PATCH_EXT};
use patch_crate::paths::{manifest_candidates, select_manifest};
use patch_crate::plan::{
    patch_target_action, select_mode, Mode, PatchFileStep, PatchTargetAction,
};
use patch_crate::session::ApplySession;
use patch_crate::workspace::{
    copy_plan, package_target_path, registry_package_dir, registry_src_dir, select_source,
    CopyPlan, PackageInfo, WorkspaceInfo,
};

fn s(x: &str) -> String {
    x.to_string()
}

fn patch_meta(crates: &[&str]) -> MetaValue {
    MetaValue::Object(vec![(
        s("patch"),
        MetaValue::Object(vec![(
            s("crates"),
            MetaValue::Array(crates.iter().map(|c| MetaValue::Str(s(c))).collect()),
        )]),
    )])
}

fn package(id: &str, name: &str, version: &str, metadata: MetaValue) -> PackageInfo {
    PackageInfo {
        id: s(id),
        name: s(name),
        version: s(version),
        manifest_path: format!("/home/me/.cargo/registry/src/idx/{}-{}/Cargo.toml", name, version),
        metadata,
    }
}

fn workspace() -> WorkspaceInfo {
    workspace_at("/work/app")
}

fn workspace_at(root: &str) -> WorkspaceInfo {
    WorkspaceInfo::new(
        s(root),
        vec![
            package("app 0.1.0", "app", "0.1.0", patch_meta(&["serde", "clap"])),
            package("serde 1.0.0", "serde", "1.0.0", MetaValue::Null),
            package("clap 4.4.7", "clap", "4.4.7", MetaValue::Null),
            package("serde 1.0.193", "serde", "1.0.193", MetaValue::Null),
            package("tool 0.2.0", "tool", "0.2.0", patch_meta(&["log"])),
        ],
        vec![s("app 0.1.0"), s("missing 0.0.0"), s("tool 0.2.0")],
        Some(vec![s("app 0.1.0"), s("serde 1.0.193")]),
    )
}

#[test]
fn patch_file_name_round_trip() {
    for (name, version) in [("serde", "1.0.193"), ("a.b", "1.0.0+build.5"), ("x", "")] {
        let file = patch_file_name(name, version);
        assert_eq!(parse_patch_file_name(&file), Some((s(name), s(version))));
    }
}

#[test]
fn patch_file_name_uses_extension() {
    assert_eq!(PATCH_EXT, "patch");
    assert_eq!(patch_file_name("log", "0.4.20"), "log+0.4.20.patch");
    assert_eq!(package_slug("log", "0.4.20"), "log-0.4.20");
}

#[test]
fn parse_rejects_other_files() {
    assert_eq!(parse_patch_file_name("serde+1.0.193.diff"), None);
    assert_eq!(parse_patch_file_name("serde-1.0.193.patch"), None);
    assert_eq!(parse_patch_file_name(".patch"), None);
    assert_eq!(parse_patch_file_name("patch"), None);
    assert_eq!(parse_patch_file_name(".."), None);
    assert_eq!(parse_patch_file_name(""), None);
    assert_eq!(parse_patch_file_name("serde+1.0.193.patch.orig"), None);
}

#[test]
fn parse_splits_at_first_plus_and_last_dot() {
    assert_eq!(
        parse_patch_file_name("a+b+c.d.patch"),
        Some((s("a"), s("b+c.d")))
    );
    assert_eq!(parse_patch_file_name("+.patch"), Some((s(""), s(""))));
}

#[test]
fn folders_join_onto_any_root() {
    let ws = workspace_at("/work/app/");
    assert_eq!(ws.patches_folder(), "/work/app/patches/");
    assert_eq!(ws.patch_target_tmp_folder(), "/work/app/target/patch-tmp/");
    let ws = workspace_at("");
    assert_eq!(ws.patches_folder(), "patches/");
    assert_eq!(ws.patch_target_folder(), "target/patch/");
    let ws = workspace_at("rel");
    assert_eq!(ws.patch_target_folder(), "rel/target/patch/");
}

#[test]
fn manifest_candidates_of_relative_paths() {
    assert_eq!(manifest_candidates("a/b"), vec![s("a/b/Cargo.toml"), s("a/Cargo.toml"), s("Cargo.toml")]);
    assert_eq!(manifest_candidates(""), vec![s("Cargo.toml")]);
}

#[test]
fn manifest_candidates_nearest_first() {
    assert_eq!(
        manifest_candidates("/work/app/src"),
        vec![
            s("/work/app/src/Cargo.toml"),
            s("/work/app/Cargo.toml"),
            s("/work/Cargo.toml"),
            s("/Cargo.toml"),
        ]
    );
    assert_eq!(manifest_candidates("/"), vec![s("/Cargo.toml")]);
}

#[test]
fn select_manifest_takes_nearest_existing() {
    let candidates = manifest_candidates("/work/app/src");
    assert_eq!(
        select_manifest(&candidates, &vec![false, true, true, false]),
        Ok(s("/work/app/Cargo.toml"))
    );
    assert_eq!(
        select_manifest(&candidates, &vec![false, false, false, false]),
        Err(PatchError::ManifestNotFound)
    );
}

#[test]
fn error_messages() {
    assert_eq!(
        PatchError::PackageNotFound { name: s("serde") }.message(),
        "Package 'serde' not found in dependencies"
    );
    assert_eq!(
        PatchError::SourceNotFound { name: s("serde"), version: s("1.0.0") }.message(),
        "Could not find source for package serde version 1.0.0. Try running 'cargo build' first."
    );
    assert_eq!(
        PatchError::ManifestNotFound.message(),
        "Could not find Cargo.toml in current directory or any parent directory"
    );
    assert_eq!(
        PatchError::PatchFileWithoutName.message(),
        "Patch file does not have a name"
    );
}

#[test]
fn workspace_folders() {
    let ws = workspace();
    assert_eq!(ws.patches_folder(), "/work/app/patches/");
    assert_eq!(ws.patch_target_folder(), "/work/app/target/patch/");
    assert_eq!(ws.patch_target_tmp_folder(), "/work/app/target/patch-tmp/");
}

#[test]
fn get_package_prefers_last_of_a_name() {
    let ws = workspace();
    let serde = ws.get_package("serde").unwrap();
    assert_eq!(serde.version, "1.0.193");
    assert_eq!(ws.get_package("clap").unwrap().id, "clap 4.4.7");
    assert_eq!(
        ws.get_package("rand").err(),
        Some(PatchError::PackageNotFound { name: s("rand") })
    );
}

#[test]
fn crates_to_patch_follow_members() {
    let ws = workspace();
    assert_eq!(ws.get_crates_to_patch(), vec![s("serde"), s("clap"), s("log")]);
}

#[test]
fn patch_crates_skip_non_strings_and_other_shapes() {
    let meta = MetaValue::Object(vec![(
        s("patch"),
        MetaValue::Object(vec![
            (s("other"), MetaValue::Bool(true)),
            (
                s("crates"),
                MetaValue::Array(vec![
                    MetaValue::Str(s("a")),
                    MetaValue::Number(s("3")),
                    MetaValue::Null,
                    MetaValue::Str(s("b")),
                ]),
            ),
        ]),
    )]);
    assert_eq!(patch_crates(&meta), vec![s("a"), s("b")]);
    let not_array = MetaValue::Object(vec![(
        s("patch"),
        MetaValue::Object(vec![(s("crates"), MetaValue::Str(s("a")))]),
    )]);
    assert!(patch_crates(&not_array).is_empty());
    assert!(patch_crates(&MetaValue::Null).is_empty());
    assert!(patch_crates(&MetaValue::Array(vec![])).is_empty());
}

#[test]
fn metadata_lookup() {
    let meta = patch_meta(&["x"]);
    assert!(meta.get("patch").is_some());
    assert!(meta.get("crates").is_none());
    assert!(MetaValue::Str(s("patch")).get("patch").is_none());
    assert_eq!(MetaValue::Str(s("v")).as_str(), Some("v"));
    assert!(MetaValue::Null.as_array().is_none());
}

#[test]
fn package_paths() {
    let ws = workspace();
    let serde = ws.get_package("serde").unwrap();
    assert_eq!(
        package_target_path("/work/app/target/patch/", serde),
        "/work/app/target/patch/serde-1.0.193"
    );
    assert_eq!(registry_src_dir("/home/me"), "/home/me/.cargo/registry/src");
    assert_eq!(
        registry_package_dir("/home/me/.cargo/registry/src/idx", serde),
        "/home/me/.cargo/registry/src/idx/serde-1.0.193"
    );
}

#[test]
fn sources_prefer_own_directory_then_first_registry_hit() {
    let ws = workspace();
    let serde = ws.get_package("serde").unwrap();
    let local = Some(s("/src/serde"));
    let registry = vec![s("/r/a/serde-1.0.193"), s("/r/b/serde-1.0.193"), s("/r/c/serde-1.0.193")];
    assert_eq!(
        select_source(serde, &local, true, &registry, &vec![false, true, true]),
        Ok(s("/src/serde"))
    );
    assert_eq!(
        select_source(serde, &local, false, &registry, &vec![false, true, true]),
        Ok(s("/r/b/serde-1.0.193"))
    );
    assert_eq!(
        select_source(serde, &None, true, &registry, &vec![false, false, true]),
        Ok(s("/r/c/serde-1.0.193"))
    );
    assert_eq!(
        select_source(serde, &None, false, &vec![], &vec![]),
        Err(PatchError::SourceNotFound { name: s("serde"), version: s("1.0.193") })
    );
}

#[test]
fn existing_copies_are_kept_when_applying() {
    assert_eq!(patch_target_action(true), PatchTargetAction::KeepExisting);
    assert_eq!(patch_target_action(false), PatchTargetAction::CopyAndApply);
}

#[test]
fn new_workspace_keeps_its_parts() {
    let ws = workspace();
    assert_eq!(ws.root, "/work/app");
    assert_eq!(ws.packages.len(), 5);
    assert_eq!(ws.workspace_members.len(), 3);
    assert_eq!(ws.resolve_nodes.as_ref().map(|n| n.len()), Some(2));
}

#[test]
fn local_source_only_for_resolved_packages() {
    let ws = workspace();
    let serde = ws.get_package("serde").unwrap();
    assert_eq!(
        ws.local_source_dir(serde),
        Some(s("/home/me/.cargo/registry/src/idx/serde-1.0.193"))
    );
    let clap = ws.get_package("clap").unwrap();
    assert_eq!(ws.local_source_dir(clap), None);
}

#[test]
fn copy_plans() {
    assert_eq!(copy_plan(false, false), CopyPlan::Copy);
    assert_eq!(copy_plan(false, true), CopyPlan::Copy);
    assert_eq!(copy_plan(true, true), CopyPlan::Replace);
    assert_eq!(copy_plan(true, false), CopyPlan::Keep);
}

#[test]
fn mode_strips_only_first_subcommand_word() {
    match select_mode(vec![s("patch-crate"), s("serde"), s("patch-crate")]) {
        Mode::Create(c) => assert_eq!(c, vec![s("serde"), s("patch-crate")]),
        Mode::Apply => panic!("crates were named"),
    }
    assert!(matches!(select_mode(vec![s("patch-crate")]), Mode::Apply));
}

#[test]
fn session_claims_each_listed_crate_once() {
    let mut session = ApplySession::new(&vec![s("serde"), s("clap"), s("serde")]);
    assert_eq!(session.remaining().len(), 2);
    assert!(session.claim("serde"));
    assert!(!session.claim("serde"));
    assert!(!session.claim("rand"));
    assert_eq!(session.remaining(), vec![s("clap")]);
    assert!(session.claim("clap"));
    assert!(session.remaining().is_empty());
}

#[test]
fn create_step_paths() {
    let ws = workspace();
    let step = ws.create_step("serde").unwrap();
    assert_eq!(step.package.version, "1.0.193");
    assert_eq!(step.target, "/work/app/target/patch/serde-1.0.193");
    assert_eq!(step.scratch, "/work/app/target/patch-tmp/serde-1.0.193");
    assert_eq!(step.patch_file, "/work/app/patches/serde+1.0.193.patch");
    assert_eq!(
        ws.create_step("rand").err(),
        Some(PatchError::PackageNotFound { name: s("rand") })
    );
}

#[test]
fn plan_each_kind_of_patch_file() {
    let ws = workspace();
    let mut session = ApplySession::new(&ws.get_crates_to_patch());
    assert!(matches!(
        ws.plan_patch_file("README.md", &mut session),
        Ok(PatchFileStep::NotAPatch)
    ));
    match ws.plan_patch_file("serde+1.0.193.patch", &mut session) {
        Ok(PatchFileStep::Apply { package, target }) => {
            assert_eq!(package.name, "serde");
            assert_eq!(target, "/work/app/target/patch/serde-1.0.193");
        }
        _ => panic!("serde is listed"),
    }
    match ws.plan_patch_file("serde+1.0.193.patch", &mut session) {
        Ok(PatchFileStep::Unlisted { name }) => assert_eq!(name, "serde"),
        _ => panic!("serde was claimed already"),
    }
    match ws.plan_patch_file("app+0.1.0.patch", &mut session) {
        Ok(PatchFileStep::Unlisted { name }) => assert_eq!(name, "app"),
        _ => panic!("app is not listed"),
    }
    assert_eq!(
        ws.plan_patch_file("rand+0.8.0.patch", &mut session).err(),
        Some(PatchError::PackageNotFound { name: s("rand") })
    );
    assert_eq!(session.remaining(), vec![s("clap"), s("log")]);
}

#[test]
fn created_patch_is_applied_to_same_crate() {
    let ws = workspace();
    let step = ws.create_step("clap").unwrap();
    let file_name = step.patch_file.rsplit('/').next().unwrap().to_string();
    let mut session = ApplySession::new(&ws.get_crates_to_patch());
    match ws.plan_patch_file(&file_name, &mut session) {
        Ok(PatchFileStep::Apply { package, target }) => {
            assert_eq!(package.id, step.package.id);
            assert_eq!(target, step.target);
        }
        _ => panic!("the created patch names a listed crate"),
    }
}
