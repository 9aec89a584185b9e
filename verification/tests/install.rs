use package_manager::building::{Build, BuildSystem};
use package_manager::directories::{HostDirectories, TargetDirectories};
use package_manager::download::Download;
use package_manager::install::{
    backup_copies, backup_removals, check_conflict, handle_conflict, ledger_install,
    plan_install_operations, staging_copies, temporary_file_copies, temporary_file_moves,
    ConflictCheckResult, FileObservation, InstallError, InstallOperation, BACKUP_EXTENSION,
    TEMPORARY_EXTENSION,
};
use package_manager::ledger::{ImageLedger, SystemLedger};
use package_manager::path::{HostPath, TargetPath};
use package_manager::recipe::{Dependencies, Recipe};
use package_manager::version::{Version, VersionRequirement};

fn target(path: &str) -> TargetPath {
    TargetPath::new(path).unwrap()
}

fn image(name: &str, version: &str, files: &[(&str, u64)]) -> ImageLedger {
    ImageLedger::from_parts(
        String::from(name),
        Version::from_text(version),
        files.iter().map(|(path, hash)| (target(path), *hash)).collect(),
    )
}

fn seen(existing_hash: u64) -> FileObservation {
    FileObservation { exists: true, existing_hash: Some(existing_hash) }
}

fn absent() -> FileObservation {
    FileObservation { exists: false, existing_hash: None }
}

fn host() -> HostDirectories {
    HostDirectories::new(
        &TargetDirectories::fhs_usr(),
        HostPath::new("/").unwrap(),
        &Some(HostPath::new("/var/cache").unwrap()),
    )
    .unwrap()
}

#[test]
fn extensions() {
    assert_eq!(TEMPORARY_EXTENSION, "package-manager-temporary");
    assert_eq!(BACKUP_EXTENSION, "package-manager-backup");
}

#[test]
fn conflicts_with_the_system() {
    let target_directories = TargetDirectories::fhs_usr();
    let old = SystemLedger::from_packages(
        &target_directories,
        vec![image("bat", "1.0", &[("/usr/bin/bat", 10)])],
    );
    let bat = target("/usr/bin/bat");
    let other = target("/usr/bin/other");
    assert_eq!(check_conflict(&other, 5, &old, absent()), ConflictCheckResult::New);
    assert_eq!(
        check_conflict(&other, 5, &old, FileObservation { exists: true, existing_hash: None }),
        ConflictCheckResult::Unmanaged
    );
    assert_eq!(check_conflict(&bat, 10, &old, seen(10)), ConflictCheckResult::RemainsSame);
    assert_eq!(check_conflict(&bat, 11, &old, seen(10)), ConflictCheckResult::Updated);
    assert_eq!(check_conflict(&bat, 11, &old, seen(12)), ConflictCheckResult::Modified);
    assert_eq!(check_conflict(&bat, 10, &old, absent()), ConflictCheckResult::New);
}

#[test]
fn operations_for_conflicts() {
    let file = target("/usr/bin/bat");
    let mut operations = Vec::new();
    handle_conflict(&ConflictCheckResult::New, "bat", &file, &mut operations).unwrap();
    handle_conflict(&ConflictCheckResult::Updated, "bat", &file, &mut operations).unwrap();
    handle_conflict(&ConflictCheckResult::RemainsSame, "bat", &file, &mut operations).unwrap();
    assert_eq!(operations.len(), 2);
    assert_eq!(operations[0].file.as_str(), "/usr/bin/bat");
    assert_eq!(operations[0].temporary.as_str(), "/usr/bin/bat.package-manager-temporary");
    assert!(operations[0].backup.is_none());
    assert_eq!(
        operations[1].backup.as_ref().map(|path| path.as_str()),
        Some("/usr/bin/bat.package-manager-backup")
    );
    match handle_conflict(&ConflictCheckResult::Unmanaged, "bat", &file, &mut operations) {
        Err(InstallError::UnmanagedFile { recipe, file }) => {
            assert_eq!(recipe, "bat");
            assert_eq!(file.as_str(), "/usr/bin/bat");
        }
        other => panic!("unexpected outcome {other:?}"),
    }
    assert!(matches!(
        handle_conflict(&ConflictCheckResult::Modified, "bat", &file, &mut operations),
        Err(InstallError::ModifiedFile { .. })
    ));
    assert_eq!(operations.len(), 2);
}

#[test]
fn extensions_replace_the_last_one() {
    let file = target("/usr/lib/libz.so.1");
    let mut operations = Vec::new();
    handle_conflict(&ConflictCheckResult::Updated, "zlib", &file, &mut operations).unwrap();
    assert_eq!(operations[0].temporary.as_str(), "/usr/lib/libz.so.package-manager-temporary");
    assert_eq!(
        operations[0].backup.as_ref().unwrap().as_str(),
        "/usr/lib/libz.so.package-manager-backup"
    );
}

#[test]
fn installing_a_ledger_over_the_old_one() {
    let target_directories = TargetDirectories::fhs_usr();
    let old = SystemLedger::from_packages(
        &target_directories,
        vec![image("bat", "1.0", &[("/usr/bin/bat", 10), ("/usr/share/bat/a", 1)])],
    );
    let new = SystemLedger::from_packages(
        &target_directories,
        vec![image("bat", "1.1", &[("/usr/bin/bat", 20), ("/usr/share/bat/a", 1), ("/usr/share/bat/b", 2)])],
    );
    let observations = vec![seen(10), seen(1), absent()];
    let operations = plan_install_operations(&new, &old, &observations, true).unwrap();
    let files: Vec<&str> = operations.iter().map(|op| op.file.as_str()).collect();
    assert_eq!(
        files,
        vec!["/usr/bin/bat", "/usr/share/bat/b", "/usr/share/package-manager/ledger.toml"]
    );
    assert!(operations[0].backup.is_some());
    assert!(operations[1].backup.is_none());
    assert_eq!(
        operations[2].backup.as_ref().unwrap().as_str(),
        "/usr/share/package-manager/ledger.package-manager-backup"
    );

    let modified = vec![seen(11), seen(1), absent()];
    match plan_install_operations(&new, &old, &modified, true) {
        Err(InstallError::ModifiedFile { recipe, file }) => {
            assert_eq!(recipe, "bat");
            assert_eq!(file.as_str(), "/usr/bin/bat");
        }
        other => panic!("unexpected outcome {other:?}"),
    }
}

#[test]
fn the_ledger_is_installed_with_a_backup_when_it_exists() {
    let ledger = SystemLedger::new(&TargetDirectories::fhs_usr());
    let first = ledger_install(&ledger, false);
    assert_eq!(first.file.as_str(), "/usr/share/package-manager/ledger.toml");
    assert_eq!(
        first.temporary.as_str(),
        "/usr/share/package-manager/ledger.package-manager-temporary"
    );
    assert!(first.backup.is_none());
    assert!(ledger_install(&ledger, true).backup.is_some());
}

#[test]
fn file_moves_below_the_installation_root() {
    let host = HostDirectories::new(
        &TargetDirectories::fhs_usr(),
        HostPath::new("/mnt/root").unwrap(),
        &Some(HostPath::new("/var/cache").unwrap()),
    )
    .unwrap();
    let operations = vec![
        InstallOperation {
            file: target("/usr/bin/bat"),
            temporary: target("/usr/bin/bat.t"),
            backup: Some(target("/usr/bin/bat.b")),
        },
        InstallOperation {
            file: target("/usr/bin/new"),
            temporary: target("/usr/bin/new.t"),
            backup: None,
        },
    ];
    let copies = temporary_file_copies(&operations, &host);
    assert_eq!(copies[0].0.as_str(), "/mnt/root/usr/share/package-manager/staging/usr/bin/bat");
    assert_eq!(copies[0].1.as_str(), "/mnt/root/usr/bin/bat.t");
    let moves = temporary_file_moves(&operations, &host);
    assert_eq!(moves[1].0.as_str(), "/mnt/root/usr/bin/new.t");
    assert_eq!(moves[1].1.as_str(), "/mnt/root/usr/bin/new");
    let backups = backup_copies(&operations, &host);
    assert_eq!(backups.len(), 1);
    assert_eq!(backups[0].0.as_str(), "/mnt/root/usr/bin/bat");
    assert_eq!(backups[0].1.as_str(), "/mnt/root/usr/bin/bat.b");
    let removals = backup_removals(&operations, &host);
    assert_eq!(removals.iter().map(|path| path.as_str()).collect::<Vec<_>>(), vec!["/mnt/root/usr/bin/bat.b"]);
}

#[test]
fn staging_copies_every_file_of_an_image() {
    let ledger = image("bat", "1.0", &[("/usr/bin/bat", 1), ("/usr/share/man/bat.1", 2)]);
    let copies = staging_copies(
        &ledger,
        &HostPath::new("/cache/images/bat").unwrap(),
        &HostPath::new("/stage").unwrap(),
    );
    let pairs: Vec<(&str, &str)> = copies.iter().map(|(a, b)| (a.as_str(), b.as_str())).collect();
    assert_eq!(
        pairs,
        vec![
            ("/cache/images/bat/usr/bin/bat", "/stage/usr/bin/bat"),
            ("/cache/images/bat/usr/share/man/bat.1", "/stage/usr/share/man/bat.1"),
        ]
    );
    let _ = host();
}

#[test]
fn ledgers_record_files_and_packages() {
    let target_directories = TargetDirectories::fhs_usr();
    let mut ledger = SystemLedger::new(&target_directories);
    assert_eq!(ledger.path().as_str(), "/usr/share/package-manager/ledger.toml");
    assert!(ledger.packages().is_empty());
    let later_wins = image("zlib", "1.3.1", &[("/usr/lib/libz.so", 1), ("/usr/lib/libz.so", 2)]);
    assert_eq!(later_wins.files().len(), 1);
    assert_eq!(later_wins.files()[0].1, 2);
    ledger.add_image(later_wins);
    ledger.add_image(image("bat", "0.24.0", &[("/usr/bin/bat", 3)]));
    assert!(ledger.contains("zlib", &VersionRequirement::Any));
    assert!(ledger.contains("bat", &VersionRequirement::Exact(Version::from_text("0.24.0"))));
    assert!(!ledger.contains("bat", &VersionRequirement::Exact(Version::from_text("0.25.0"))));
    assert!(!ledger.contains("pcre", &VersionRequirement::Any));
    assert_eq!(ledger.hash(&target("/usr/bin/bat")), Some(3));
    assert_eq!(ledger.hash(&target("/usr/bin/cat")), None);
    let files: Vec<(&str, &str, u64)> =
        ledger.files().into_iter().map(|(name, path, hash)| (name, path.as_str(), hash)).collect();
    assert_eq!(files, vec![("zlib", "/usr/lib/libz.so", 2), ("bat", "/usr/bin/bat", 3)]);
}

#[test]
fn image_ledgers_start_empty_and_replace_hashes() {
    let recipe = Recipe {
        name: String::from("bat"),
        path: HostPath::new("/recipes/bat.toml").unwrap(),
        version: Version::from_text("0.24.0"),
        download: Download::Nothing,
        build: Build {
            dependencies: Dependencies::new(),
            directory: None,
            environment_variables: Vec::new(),
            system: BuildSystem::Nothing,
        },
        dependencies: Dependencies::new(),
    };
    let mut ledger = ImageLedger::empty(&recipe);
    assert!(ledger.files().is_empty());
    ledger.insert(target("/usr/bin/bat"), 1);
    ledger.insert(target("/usr/bin/bat"), 9);
    ledger.insert(target("/usr/share/doc/bat"), 4);
    let files: Vec<(&str, u64)> = ledger.files().into_iter().map(|(p, h)| (p.as_str(), h)).collect();
    assert_eq!(files, vec![("/usr/bin/bat", 9), ("/usr/share/doc/bat", 4)]);
}

#[test]
fn image_ledgers_know_their_package() {
    let ledger = image("zlib", "1.3.1", &[]);
    assert_eq!(ledger.name(), "zlib");
    assert_eq!(ledger.version().string, "1.3.1");
}
