//! Unit tests of the naming, argument and metadata logic.

use patch_crate::metadata::{patch_crates, MetaValue};
use patch_crate::naming::{package_slug, parse_patch_file_name, patch_file_name};
use patch_crate::plan::{select_mode, Mode};

#[test]
fn test_patch_file_naming() {
    // Patch files follow the name+version.patch format
    let crate_name = "serde";
    let version = "1.0.193";
    let expected = patch_file_name(crate_name, version);

    assert_eq!(expected, "serde+1.0.193.patch");
}

#[test]
fn test_slug_format() {
    // The slug format (name-version)
    let name = "serde";
    let version = "1.0.193";
    let slug = package_slug(name, version);

    assert_eq!(slug, "serde-1.0.193");
}

#[test]
fn test_parse_patch_filename() {
    // Parsing a patch filename gives the crate name and version
    let filename = "serde+1.0.193.patch";

    let (name, version) = parse_patch_file_name(filename).unwrap();
    let parts: Vec<String> = vec![name, version];

    assert_eq!(parts.len(), 2);
    assert_eq!(parts[0], "serde");
    assert_eq!(parts[1], "1.0.193");
}

fn to_meta(value: &toml::Value) -> MetaValue {
    match value {
        toml::Value::String(s) => MetaValue::Str(s.clone()),
        toml::Value::Integer(i) => MetaValue::Number(i.to_string()),
        toml::Value::Float(f) => MetaValue::Number(f.to_string()),
        toml::Value::Boolean(b) => MetaValue::Bool(*b),
        toml::Value::Datetime(d) => MetaValue::Str(d.to_string()),
        toml::Value::Array(items) => MetaValue::Array(items.iter().map(to_meta).collect()),
        toml::Value::Table(table) => MetaValue::Object(
            table.iter().map(|(k, v)| (k.clone(), to_meta(v))).collect(),
        ),
    }
}

#[test]
fn test_metadata_patch_format() {
    // The TOML format for package.metadata.patch
    let toml_str = r#"
[package]
name = "test"
version = "0.1.0"

[package.metadata.patch]
crates = ["serde", "clap"]
"#;

    let parsed: toml::Value = toml::from_str(toml_str).unwrap();

    // Verify structure
    assert!(parsed.get("package").is_some());
    assert!(parsed
        .get("package")
        .and_then(|p| p.get("metadata"))
        .and_then(|m| m.get("patch"))
        .is_some());

    // The package's metadata table, as cargo hands it over, names the crates
    let metadata = to_meta(parsed.get("package").and_then(|p| p.get("metadata")).unwrap());
    let crates = patch_crates(&metadata);

    assert_eq!(crates.len(), 2);
    assert_eq!(crates[0].as_str(), "serde");
    assert_eq!(crates[1].as_str(), "clap");
}

fn strings(args: &[&str]) -> Vec<String> {
    args.iter().map(|s| s.to_string()).collect()
}

#[test]
fn test_cli_args_parsing() {
    // The command line as the program receives it, program name first

    // No args: patches are applied
    let args = vec!["cargo-patch-crate"];
    assert!(args.len() >= 1);
    assert!(matches!(select_mode(strings(&args[1..])), Mode::Apply));

    // With a crate name: a patch is created for it
    let args = vec!["cargo-patch-crate", "serde"];
    assert_eq!(args.len(), 2);
    assert_eq!(args[1], "serde");
    match select_mode(strings(&args[1..])) {
        Mode::Create(crates) => assert_eq!(crates, vec!["serde".to_string()]),
        Mode::Apply => panic!("a crate was named"),
    }

    // With the force flag (taken by the option parser): patches are applied
    let args = vec!["cargo-patch-crate", "--force"];
    assert_eq!(args.len(), 2);
    assert_eq!(args[1], "--force");
    assert!(matches!(select_mode(Vec::new()), Mode::Apply));

    // With multiple crates
    let args = vec!["cargo-patch-crate", "serde", "clap"];
    assert_eq!(args.len(), 3);
    match select_mode(strings(&args[1..])) {
        Mode::Create(crates) => {
            assert_eq!(crates, vec!["serde".to_string(), "clap".to_string()])
        }
        Mode::Apply => panic!("crates were named"),
    }
}
