use package_manager::resolver::Resolver;
use package_manager::version::{
    SemanticVersion, SemanticVersionError, Version, VersionRequirement,
};
use package_manager::version_order::VersionOrder;

fn version(text: &str) -> Version {
    Version::from_text(text)
}

fn semantic(major: u64, minor: u64, patch: u64) -> SemanticVersion {
    SemanticVersion { major, minor, patch }
}

#[test]
fn semantic_version_parses_all_segments() {
    assert_eq!(SemanticVersion::from_str("1.2.3"), Ok(semantic(1, 2, 3)));
    assert_eq!(SemanticVersion::from_str("0.4.5"), Ok(semantic(0, 4, 5)));
    assert_eq!(SemanticVersion::from_str("+7.0.1"), Ok(semantic(7, 0, 1)));
}

#[test]
fn semantic_version_fills_missing_segments_from_one_on() {
    assert_eq!(SemanticVersion::from_str("2"), Ok(semantic(2, 0, 0)));
    assert_eq!(SemanticVersion::from_str("3.1"), Ok(semantic(3, 1, 0)));
}

#[test]
fn semantic_version_errors() {
    assert_eq!(SemanticVersion::from_str("x.1.2"), Err(SemanticVersionError::InvalidMajor));
    assert_eq!(SemanticVersion::from_str(""), Err(SemanticVersionError::InvalidMajor));
    assert_eq!(SemanticVersion::from_str("1.y.2"), Err(SemanticVersionError::InvalidMinor));
    assert_eq!(SemanticVersion::from_str("1.2.z"), Err(SemanticVersionError::InvalidPatch));
    assert_eq!(SemanticVersion::from_str("0"), Err(SemanticVersionError::MissingMinor));
    assert_eq!(SemanticVersion::from_str("0.3"), Err(SemanticVersionError::MissingPatch));
    assert_eq!(SemanticVersion::from_str("1.2.3.4"), Err(SemanticVersionError::TooManySegments));
    assert_eq!(
        SemanticVersion::from_str("18446744073709551616"),
        Err(SemanticVersionError::InvalidMajor)
    );
    assert_eq!(SemanticVersionError::TooManySegments.message(), "too many segments");
    assert_eq!(SemanticVersionError::InvalidMajor.message(), "parsing the major version");
}

#[test]
fn semantic_version_display_round_trips() {
    let v = semantic(10, 0, 42);
    assert_eq!(v.to_display_string(), "10.0.42");
    assert_eq!(SemanticVersion::from_str(&v.to_display_string()), Ok(v));
}

#[test]
fn semantic_satisfaction() {
    // Below 1.0 only the very same version is compatible.
    assert!(semantic(0, 3, 1).satisfies(semantic(0, 3, 1)));
    assert!(!semantic(0, 3, 2).satisfies(semantic(0, 3, 1)));
    // From 1.0 on, the same major version with at least the minor version.
    assert!(semantic(1, 4, 0).satisfies(semantic(1, 2, 9)));
    assert!(!semantic(1, 1, 9).satisfies(semantic(1, 2, 0)));
    assert!(!semantic(2, 0, 0).satisfies(semantic(1, 0, 0)));
}

#[test]
fn semantic_satisfaction_is_reflexive_and_transitive() {
    let a = semantic(2, 5, 1);
    let b = semantic(2, 3, 0);
    let c = semantic(2, 1, 7);
    assert!(a.satisfies(a));
    assert!(a.satisfies(b) && b.satisfies(c) && a.satisfies(c));
}

#[test]
fn version_satisfies_requirements() {
    let v = version("1.3.0");
    assert!(v.satisfies(&VersionRequirement::Any));
    assert!(v.satisfies(&VersionRequirement::Exact(version("1.3.0"))));
    assert!(!v.satisfies(&VersionRequirement::Exact(version("1.3"))));
    assert!(v.satisfies(&VersionRequirement::Semantic(semantic(1, 2, 0))));
    assert!(!version("not-a-version").satisfies(&VersionRequirement::Semantic(semantic(1, 0, 0))));
}

#[test]
fn version_basics() {
    assert!(Version::empty().is_empty());
    assert!(!version("1").is_empty());
    assert!(version("1.0").equals(&version("1.0")));
    assert!(!version("1.0").equals(&version("1.0.0")));
    assert_eq!(version("2.1").to_display_string(), "`2.1`");
    assert_eq!(
        VersionRequirement::Exact(version("2.1")).to_display_string(),
        "`2.1`"
    );
    assert_eq!(
        VersionRequirement::Semantic(semantic(1, 2, 3)).to_display_string(),
        "1.2.3"
    );
    assert_eq!(VersionRequirement::Any.to_display_string(), "\"any\"");
}

#[test]
fn version_ordering_follows_version_compare() {
    assert_eq!(version("1.2.3").partial_cmp(&version("1.10.0")), Some(VersionOrder::Less));
    assert_eq!(version("2.0").partial_cmp(&version("1.9.9")), Some(VersionOrder::Greater));
    assert_eq!(version("1.0.0").partial_cmp(&version("1.0.0")), Some(VersionOrder::Equal));
}

#[test]
fn always_satisfies_cases() {
    let exact = VersionRequirement::Exact(version("1.4.2"));
    assert!(exact.always_satisfies(&VersionRequirement::Any));
    assert!(exact.always_satisfies(&VersionRequirement::Exact(version("1.4.2"))));
    assert!(exact.always_satisfies(&VersionRequirement::Semantic(semantic(1, 3, 0))));
    assert!(!exact.always_satisfies(&VersionRequirement::Semantic(semantic(2, 0, 0))));
    let compatible = VersionRequirement::Semantic(semantic(1, 5, 0));
    assert!(compatible.always_satisfies(&VersionRequirement::Semantic(semantic(1, 2, 0))));
    assert!(!compatible.always_satisfies(&VersionRequirement::Exact(version("1.5.0"))));
    assert!(!VersionRequirement::Any.always_satisfies(&VersionRequirement::Exact(version("1"))));
    assert!(VersionRequirement::Any.always_satisfies(&VersionRequirement::Any));
}

#[test]
fn always_satisfies_is_sound_on_an_example() {
    // A version that meets a requirement that always satisfies another meets the other.
    let requirement = VersionRequirement::Exact(version("1.4.2"));
    let other = VersionRequirement::Semantic(semantic(1, 3, 0));
    assert!(requirement.always_satisfies(&other));
    let v = version("1.4.2");
    assert!(v.satisfies(&requirement) && v.satisfies(&other));
}

#[test]
fn resolver_picks_the_greatest_matching_version() {
    let requirement = VersionRequirement::Semantic(semantic(1, 0, 0));
    let mut resolver = Resolver::from_requirement(&requirement);
    resolver.add_option("a", version("1.2.0"));
    resolver.add_option("b", version("2.0.0"));
    resolver.add_option("c", version("1.10.1"));
    resolver.add_option("d", version("1.3.0"));
    resolver.add_option("e", version("1.10.1"));
    assert_eq!(resolver.best(), Some("c"));
}

#[test]
fn resolver_without_match() {
    let requirement = VersionRequirement::Exact(version("3.0"));
    let mut resolver = Resolver::from_requirement(&requirement);
    resolver.add_option(1u32, version("2.0"));
    assert_eq!(resolver.best(), None);
}

#[test]
fn requirement_duplicate_keeps_value() {
    let requirement = VersionRequirement::Exact(version("0.1"));
    let copy = requirement.duplicate();
    assert_eq!(copy.to_display_string(), "`0.1`");
}

#[test]
fn resolver_finds_something_exactly_when_a_candidate_matches() {
    let requirement = VersionRequirement::Semantic(semantic(2, 0, 0));
    let mut resolver = Resolver::from_requirement(&requirement);
    resolver.add_option(1, version("1.9.0"));
    resolver.add_option(2, version("3.0.0"));
    assert_eq!(resolver.best(), None);
    let mut resolver = Resolver::from_requirement(&requirement);
    resolver.add_option(1, version("1.9.0"));
    resolver.add_option(2, version("2.4.0"));
    resolver.add_option(3, version("3.0.0"));
    assert_eq!(resolver.best(), Some(2));
}
