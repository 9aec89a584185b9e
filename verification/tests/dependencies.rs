use package_manager::building::{Build, BuildSystem};
use package_manager::dependencies::{
    check_runtime_dependencies, parse_node, parse_so_provision, parse_so_requirement, ElfNode,
    RuntimeDependencyError, SoNameError,
};
use package_manager::download::Download;
use package_manager::path::HostPath;
use package_manager::recipe::{Dependencies, Recipe};
use package_manager::version::{SemanticVersion, Version, VersionRequirement};

fn recipe(dependencies: Vec<(&str, VersionRequirement)>) -> Recipe {
    Recipe {
        name: String::from("tool"),
        path: HostPath::new("/recipes/tool.toml").unwrap(),
        version: Version::from_text("1.0.0"),
        download: Download::Nothing,
        build: Build {
            dependencies: Dependencies::new(),
            directory: None,
            environment_variables: Vec::new(),
            system: BuildSystem::Nothing,
        },
        dependencies: Dependencies {
            versions: dependencies.into_iter().map(|(n, r)| (String::from(n), r)).collect(),
        },
    }
}

fn node(file: &str, soname: Option<&str>, needs: &[&str]) -> ElfNode {
    ElfNode::from_names(
        String::from(file),
        soname,
        &needs.iter().map(|name| String::from(*name)).collect(),
    )
}

#[test]
fn shared_object_names() {
    assert_eq!(
        parse_so_provision("libz.so.1.3").map(|(n, v)| (n, v.string)),
        Ok((String::from("libz"), String::from("1.3")))
    );
    assert_eq!(
        parse_so_provision("libfoo.so").map(|(n, v)| (n, v.string)),
        Ok((String::from("libfoo"), String::new()))
    );
    assert_eq!(parse_so_provision("libfoo.a").err(), Some(SoNameError::NoSoExtension));
    assert_eq!(parse_so_provision("libfoo.so1").err(), Some(SoNameError::BadVersionSuffix));
}

#[test]
fn shared_object_requirements() {
    match parse_so_requirement("libc.so.6") {
        Ok((name, VersionRequirement::Exact(version))) => {
            assert_eq!(name, "libc");
            assert_eq!(version.string, "6");
        }
        other => panic!("unexpected outcome {other:?}"),
    }
    assert!(matches!(parse_so_requirement("libm.so"), Ok((_, VersionRequirement::Any))));
    assert_eq!(parse_so_requirement("libm").err(), Some(SoNameError::NoSoExtension));
}

#[test]
fn needs_met_inside_the_package() {
    let elves = vec![
        node("bin/tool", None, &["libtool.so.1"]),
        node("lib/libtool.so.1", Some("libtool.so.1"), &[]),
    ];
    assert!(check_runtime_dependencies(&elves, &recipe(Vec::new())).is_ok());
}

#[test]
fn needs_met_by_declared_dependencies() {
    let elves = vec![node("bin/tool", None, &["libz.so.1.3.1", "libc.so"])];
    let declared = vec![
        ("libz", VersionRequirement::Exact(Version::from_text("1.3.1"))),
        ("libc", VersionRequirement::Any),
    ];
    assert!(check_runtime_dependencies(&elves, &recipe(declared)).is_ok());
}

#[test]
fn undeclared_needs_are_reported() {
    let elves = vec![node("bin/tool", None, &["libssl.so.3"])];
    match check_runtime_dependencies(&elves, &recipe(Vec::new())) {
        Err(RuntimeDependencyError::Undeclared { file_name, library, needed }) => {
            assert_eq!(file_name, "bin/tool");
            assert_eq!(library, "libssl");
            assert_eq!(needed.to_display_string(), "`3`");
        }
        other => panic!("unexpected outcome {other:?}"),
    }
}

#[test]
fn incompatible_declarations_are_reported() {
    let elves = vec![node("bin/tool", None, &["libssl.so.3"])];
    let declared = vec![(
        "libssl",
        VersionRequirement::Semantic(SemanticVersion { major: 1, minor: 1, patch: 0 }),
    )];
    match check_runtime_dependencies(&elves, &recipe(declared)) {
        Err(RuntimeDependencyError::Incompatible { library, declared, .. }) => {
            assert_eq!(library, "libssl");
            assert_eq!(declared.to_display_string(), "1.1.0");
        }
        other => panic!("unexpected outcome {other:?}"),
    }
}

#[test]
fn files_that_are_not_elf_give_no_node() {
    assert!(parse_node(b"#!/bin/sh\necho hi\n", String::from("bin/script")).is_none());
    assert!(parse_node(b"\x7fEL", String::from("short")).is_none());
    assert!(parse_node(b"\x7fELF garbage that is no header", String::from("broken")).is_none());
}

/// A minimal shared object: its `SONAME` is `libtool.so.1` and it needs `libc.so.6`.
const SHARED_OBJECT: [u8; 280] = [
    0x7f, 0x45, 0x4c, 0x46, 0x02, 0x01, 0x01, 0x00, 0x00, 0x00, 0x00, 0x00, 0x00, 0x00, 0x00,
    0x00, 0x03, 0x00, 0x3e, 0x00, 0x01, 0x00, 0x00, 0x00, 0x00, 0x00, 0x00, 0x00, 0x00, 0x00,
    0x00, 0x00, 0x40, 0x00, 0x00, 0x00, 0x00, 0x00, 0x00, 0x00, 0x00, 0x00, 0x00, 0x00, 0x00,
    0x00, 0x00, 0x00, 0x00, 0x00, 0x00, 0x00, 0x40, 0x00, 0x38, 0x00, 0x02, 0x00, 0x40, 0x00,
    0x00, 0x00, 0x00, 0x00, 0x01, 0x00, 0x00, 0x00, 0x05, 0x00, 0x00, 0x00, 0x00, 0x00, 0x00,
    0x00, 0x00, 0x00, 0x00, 0x00, 0x00, 0x00, 0x00, 0x00, 0x00, 0x00, 0x00, 0x00, 0x00, 0x00,
    0x00, 0x00, 0x00, 0x00, 0x00, 0x00, 0x18, 0x01, 0x00, 0x00, 0x00, 0x00, 0x00, 0x00, 0x18,
    0x01, 0x00, 0x00, 0x00, 0x00, 0x00, 0x00, 0x00, 0x10, 0x00, 0x00, 0x00, 0x00, 0x00, 0x00,
    0x02, 0x00, 0x00, 0x00, 0x06, 0x00, 0x00, 0x00, 0xb0, 0x00, 0x00, 0x00, 0x00, 0x00, 0x00,
    0x00, 0xb0, 0x00, 0x00, 0x00, 0x00, 0x00, 0x00, 0x00, 0xb0, 0x00, 0x00, 0x00, 0x00, 0x00,
    0x00, 0x00, 0x50, 0x00, 0x00, 0x00, 0x00, 0x00, 0x00, 0x00, 0x50, 0x00, 0x00, 0x00, 0x00,
    0x00, 0x00, 0x00, 0x08, 0x00, 0x00, 0x00, 0x00, 0x00, 0x00, 0x00, 0x01, 0x00, 0x00, 0x00,
    0x00, 0x00, 0x00, 0x00, 0x01, 0x00, 0x00, 0x00, 0x00, 0x00, 0x00, 0x00, 0x0e, 0x00, 0x00,
    0x00, 0x00, 0x00, 0x00, 0x00, 0x0b, 0x00, 0x00, 0x00, 0x00, 0x00, 0x00, 0x00, 0x05, 0x00,
    0x00, 0x00, 0x00, 0x00, 0x00, 0x00, 0x00, 0x01, 0x00, 0x00, 0x00, 0x00, 0x00, 0x00, 0x0a,
    0x00, 0x00, 0x00, 0x00, 0x00, 0x00, 0x00, 0x18, 0x00, 0x00, 0x00, 0x00, 0x00, 0x00, 0x00,
    0x00, 0x00, 0x00, 0x00, 0x00, 0x00, 0x00, 0x00, 0x00, 0x00, 0x00, 0x00, 0x00, 0x00, 0x00,
    0x00, 0x00, 0x6c, 0x69, 0x62, 0x63, 0x2e, 0x73, 0x6f, 0x2e, 0x36, 0x00, 0x6c, 0x69, 0x62,
    0x74, 0x6f, 0x6f, 0x6c, 0x2e, 0x73, 0x6f, 0x2e, 0x31, 0x00,
];

#[test]
fn shared_objects_are_read_from_their_dynamic_section() {
    let library = parse_node(&SHARED_OBJECT, String::from("lib/libtool.so.1")).unwrap();
    let program = node("bin/tool", None, &["libtool.so.1"]);
    let elves = vec![program, library];
    // The library provides what the program needs; the library's own need is libc.
    match check_runtime_dependencies(&elves, &recipe(Vec::new())) {
        Err(RuntimeDependencyError::Undeclared { file_name, library, needed }) => {
            assert_eq!(file_name, "lib/libtool.so.1");
            assert_eq!(library, "libc");
            assert_eq!(needed.to_display_string(), "`6`");
        }
        other => panic!("unexpected outcome {other:?}"),
    }
    let declared = vec![("libc", VersionRequirement::Exact(Version::from_text("6")))];
    assert!(check_runtime_dependencies(&elves, &recipe(declared)).is_ok());
}
