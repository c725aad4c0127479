//! Naming of package directories.

use patch_crate::metadata::MetaValue;
use patch_crate::workspace::{get_package_slug, PackageInfo};

fn package(name: &str, version: &str) -> PackageInfo {
    PackageInfo {
        id: format!("{} {}", name, version),
        name: name.to_string(),
        version: version.to_string(),
        manifest_path: format!("/src/{}-{}/Cargo.toml", name, version),
        metadata: MetaValue::Null,
    }
}

#[test]
fn test_package_slug_format() {
    // Package slugs are formatted as name-version
    let slug = get_package_slug(&package("serde", "1.0.0"));
    assert_eq!(slug, "serde-1.0.0");

    let slug = get_package_slug(&package("clap", "4.4.7"));
    assert_eq!(slug, "clap-4.4.7");
}
