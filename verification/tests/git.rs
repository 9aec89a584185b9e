use package_manager::git::{parse_version, resolve_commit, to_tag, ResolveError, TagError};
use package_manager::version::{SemanticVersion, Version, VersionRequirement};

#[test]
fn tags_of_references() {
    assert_eq!(to_tag("refs/tags/v1.2.0"), Some("v1.2.0"));
    assert_eq!(to_tag("refs/heads/main"), None);
    assert_eq!(to_tag("HEAD"), None);
}

#[test]
fn versions_of_tags() {
    assert_eq!(parse_version("v1.2.0").map(|v| v.string), Ok(String::from("1.2.0")));
    assert_eq!(parse_version("release-1").map(|v| v.string), Err(TagError::NotVersionTag));
}

#[test]
fn commit_of_the_best_tag() {
    let references = vec![
        (String::from("refs/heads/main"), 1u32),
        (String::from("refs/tags/v1.0.0"), 2u32),
        (String::from("refs/tags/v1.4.0"), 3u32),
        (String::from("refs/tags/v2.0.0"), 4u32),
        (String::from("refs/tags/nightly"), 5u32),
        (String::from("refs/tags/v1.3.9"), 6u32),
    ];
    let compatible = VersionRequirement::Semantic(SemanticVersion { major: 1, minor: 0, patch: 0 });
    assert_eq!(resolve_commit(&references, &compatible), Ok(3));
    let exact = VersionRequirement::Exact(Version::from_text("2.0.0"));
    assert_eq!(resolve_commit(&references, &exact), Ok(4));
    let missing = VersionRequirement::Exact(Version::from_text("9"));
    assert_eq!(resolve_commit(&references, &missing), Err(ResolveError::NoMatchingTag));
}

#[test]
fn tag_names_round_trip() {
    for version in ["1.2.3", "", "v2", "2024-01-01"] {
        let reference = format!("refs/tags/v{version}");
        let tag = to_tag(&reference).unwrap();
        assert_eq!(parse_version(tag).map(|v| v.string), Ok(String::from(version)));
    }
}
