use package_manager::building::{generate_commands, generate_commands_for, Build, BuildSystem};
use package_manager::directories::TargetDirectories;
use package_manager::path::HostPath;
use package_manager::recipe::Dependencies;

fn build(system: BuildSystem, environment: &[(&str, &str)]) -> Build {
    Build {
        dependencies: Dependencies::new(),
        directory: None,
        environment_variables: environment
            .iter()
            .map(|(k, v)| (String::from(*k), String::from(*v)))
            .collect(),
        system,
    }
}

fn paths() -> (HostPath, HostPath, HostPath) {
    (
        HostPath::new("/cache/images/tool").unwrap(),
        HostPath::new("/cache/sources/tool-1.0").unwrap(),
        HostPath::new("/cache/build/tool").unwrap(),
    )
}

#[test]
fn nothing_to_build() {
    let (image, root, working) = paths();
    let (commands, transfers) = generate_commands_for(
        &build(BuildSystem::Nothing, &[("A", "1")]),
        &image,
        &root,
        &working,
        &TargetDirectories::fhs_usr(),
        4,
    );
    assert!(commands.is_empty());
    assert!(transfers.is_empty());
}

#[test]
fn cargo_builds_one_binary() {
    let (image, root, working) = paths();
    let system = BuildSystem::Cargo {
        binary: String::from("bat"),
        features: vec![String::from("regex-onig"), String::from("git")],
        target: Some(String::from("x86_64-unknown-linux-musl")),
    };
    let (commands, transfers) = generate_commands_for(
        &build(system, &[("RUSTFLAGS", "-Copt-level=3")]),
        &image,
        &root,
        &working,
        &TargetDirectories::fhs_usr(),
        8,
    );
    assert_eq!(commands.len(), 1);
    assert_eq!(commands[0].program, "cargo");
    assert_eq!(
        commands[0].arguments,
        vec![
            "build",
            "--bin",
            "bat",
            "--locked",
            "--release",
            "--manifest-path",
            "/cache/sources/tool-1.0/Cargo.toml",
            "--target-dir",
            "/cache/build/tool/target",
            "--features",
            "regex-onig git",
            "--target",
            "x86_64-unknown-linux-musl",
        ]
    );
    assert_eq!(
        commands[0].environment,
        vec![(String::from("RUSTFLAGS"), String::from("-Copt-level=3"))]
    );
    assert_eq!(transfers.len(), 1);
    assert_eq!(transfers[0].from.as_str(), "/cache/build/tool/target/release/bat");
    assert_eq!(transfers[0].to.as_str(), "/usr/bin/bat");
}

#[test]
fn cargo_without_features_or_target() {
    let (image, root, working) = paths();
    let system = BuildSystem::Cargo {
        binary: String::from("fd"),
        features: Vec::new(),
        target: None,
    };
    let (commands, _) = generate_commands_for(
        &build(system, &[]),
        &image,
        &root,
        &working,
        &TargetDirectories::fhs_usr(),
        1,
    );
    assert_eq!(commands[0].arguments.len(), 9);
    assert!(!commands[0].arguments.iter().any(|a| a == "--features" || a == "--target"));
    assert!(commands[0].environment.is_empty());
}

#[test]
fn configure_make_installs_into_the_image() {
    let (image, root, working) = paths();
    let system = BuildSystem::ConfigureMake {
        configure_flags: vec![String::from("--disable-nls")],
    };
    let (commands, transfers) = generate_commands_for(
        &build(system, &[("CC", "cc")]),
        &image,
        &root,
        &working,
        &TargetDirectories::fhs_usr(),
        12,
    );
    assert!(transfers.is_empty());
    assert_eq!(commands.len(), 3);
    assert_eq!(commands[0].program, "/cache/sources/tool-1.0/configure");
    assert_eq!(
        commands[0].arguments,
        vec![
            "--prefix=/usr",
            "--bindir=/usr/bin",
            "--sbindir=/usr/sbin",
            "--libexecdir=/usr/libexec",
            "--datarootdir=/usr/share",
            "--datadir=/usr/share",
            "--sysconfdir=/etc",
            "--sharedstatedir=/var/lib",
            "--localstatedir=/var/lib",
            "--runstatedir=/run",
            "--includedir=/usr/include",
            "--libdir=/usr/lib",
            "--disable-nls",
        ]
    );
    assert_eq!(commands[1].program, "make");
    assert_eq!(commands[1].arguments, vec!["-j12"]);
    assert_eq!(commands[2].program, "make");
    assert_eq!(commands[2].arguments, vec!["install"]);
    assert_eq!(
        commands[2].environment,
        vec![
            (String::from("DESTDIR"), String::from("/cache/images/tool")),
            (String::from("CC"), String::from("cc")),
        ]
    );
    assert_eq!(commands[0].environment, vec![(String::from("CC"), String::from("cc"))]);
}

#[test]
fn parallel_jobs_follow_the_cpu_count() {
    let (image, root, working) = paths();
    let system = BuildSystem::ConfigureMake { configure_flags: Vec::new() };
    let (commands, _) = generate_commands(
        &build(system, &[]),
        &image,
        &root,
        &working,
        &TargetDirectories::fhs_usr(),
    );
    let jobs = &commands[1].arguments[0];
    let count: usize = jobs.strip_prefix("-j").unwrap().parse().unwrap();
    assert!(count >= 1);
}
