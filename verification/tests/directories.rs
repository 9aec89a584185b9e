use package_manager::directories::{
    parse_xdg_variable_or_else, parse_xdg_variable_or_home, parse_xdg_variable_or_prefix,
    DirectoriesError, HostDirectories, TargetDirectories, XdgDirectories, XdgVariables,
    PACKAGE_NAME,
};
use package_manager::path::HostPath;

fn variables(home: Option<&str>) -> XdgVariables {
    XdgVariables {
        home: home.map(String::from),
        prefix_home: None,
        cache_home: None,
        config_home: None,
        data_home: None,
        bin_home: None,
        include_home: None,
        lib_home: None,
        state_home: None,
        runtime_dir: None,
    }
}

fn text(path: &Option<HostPath>) -> Option<&str> {
    path.as_ref().map(|path| path.as_str())
}

#[test]
fn package_name() {
    assert_eq!(PACKAGE_NAME, "package-manager");
}

#[test]
fn xdg_variables_fall_back_as_specified() {
    let home = Some(HostPath::new("/home/ada").unwrap());
    assert_eq!(text(&parse_xdg_variable_or_home(None, &home, ".cache")), Some("/home/ada/.cache"));
    assert_eq!(
        text(&parse_xdg_variable_or_home(Some("/var/cache"), &home, ".cache")),
        Some("/var/cache")
    );
    // An empty or relative value names no directory.
    assert_eq!(text(&parse_xdg_variable_or_home(Some(""), &home, ".cache")), None);
    assert_eq!(text(&parse_xdg_variable_or_home(Some("cache"), &home, ".cache")), None);
    assert_eq!(text(&parse_xdg_variable_or_home(None, &None, ".cache")), None);
    let prefix = Some(HostPath::new("/home/ada/.local").unwrap());
    assert_eq!(
        text(&parse_xdg_variable_or_prefix(None, &prefix, "share")),
        Some("/home/ada/.local/share")
    );
    assert_eq!(text(&parse_xdg_variable_or_else(None, None)), None);
}

#[test]
fn xdg_directories_from_the_environment() {
    let xdg = XdgDirectories::from_variables(&variables(Some("/home/ada")));
    assert_eq!(text(&xdg.home), Some("/home/ada"));
    assert_eq!(text(&xdg.prefix_home), Some("/home/ada/.local"));
    assert_eq!(text(&xdg.cache_home), Some("/home/ada/.cache"));
    assert_eq!(text(&xdg.config_home), Some("/home/ada/.config"));
    assert_eq!(text(&xdg.data_home), Some("/home/ada/.local/share"));
    assert_eq!(text(&xdg.bin_home), Some("/home/ada/.local/bin"));
    assert_eq!(text(&xdg.include_home), Some("/home/ada/.local/include"));
    assert_eq!(text(&xdg.lib_home), Some("/home/ada/.local/lib"));
    assert_eq!(text(&xdg.state_home), Some("/home/ada/.local/state"));
    assert_eq!(text(&xdg.runtime_dir), Some("/home/ada/.local/state/run"));

    let mut overridden = variables(Some("/home/ada"));
    overridden.prefix_home = Some(String::from("/opt/ada"));
    overridden.cache_home = Some(String::from("/tmp/cache"));
    let xdg = XdgDirectories::from_variables(&overridden);
    assert_eq!(text(&xdg.bin_home), Some("/opt/ada/bin"));
    assert_eq!(text(&xdg.cache_home), Some("/tmp/cache"));

    let homeless = XdgDirectories::from_variables(&variables(Some("relative/home")));
    assert_eq!(text(&homeless.home), None);
    assert_eq!(text(&homeless.data_home), None);
}

#[test]
fn target_directories_of_a_user() {
    let xdg = XdgDirectories::from_variables(&variables(Some("/home/ada")));
    let target = TargetDirectories::user(&xdg).unwrap();
    assert_eq!(target.prefix().as_str(), "/home/ada/.local");
    assert_eq!(target.configuration().as_str(), "/home/ada/.config");
    assert_eq!(target.data().as_str(), "/home/ada/.local/share");
    assert_eq!(target.executables().as_str(), "/home/ada/.local/bin");
    assert_eq!(target.system_executables().as_str(), "/home/ada/.local/bin");
    assert_eq!(target.headers().as_str(), "/home/ada/.local/include");
    assert_eq!(target.libraries().as_str(), "/home/ada/.local/lib");
    assert_eq!(target.internal_executables().as_str(), "/home/ada/.local/lib");
    assert_eq!(target.state().as_str(), "/home/ada/.local/state");
    assert_eq!(target.runtime().as_str(), "/home/ada/.local/state/run");

    let homeless = XdgDirectories::from_variables(&variables(None));
    assert!(matches!(
        TargetDirectories::user(&homeless),
        Err(DirectoriesError::TargetDirectories)
    ));
}

#[test]
fn target_directories_of_the_file_hierarchy_standard() {
    let target = TargetDirectories::fhs_usr();
    assert_eq!(target.prefix().as_str(), "/usr");
    assert_eq!(target.configuration().as_str(), "/etc");
    assert_eq!(target.data().as_str(), "/usr/share");
    assert_eq!(target.executables().as_str(), "/usr/bin");
    assert_eq!(target.headers().as_str(), "/usr/include");
    assert_eq!(target.internal_executables().as_str(), "/usr/libexec");
    assert_eq!(target.libraries().as_str(), "/usr/lib");
    assert_eq!(target.runtime().as_str(), "/run");
    assert_eq!(target.state().as_str(), "/var/lib");
    assert_eq!(target.system_executables().as_str(), "/usr/sbin");
}

#[test]
fn host_directories() {
    let target = TargetDirectories::fhs_usr();
    let host = HostDirectories::new(
        &target,
        HostPath::new("/mnt/image").unwrap(),
        &Some(HostPath::new("/home/ada/.cache").unwrap()),
    )
    .unwrap();
    assert_eq!(host.download_locks.as_str(), "/home/ada/.cache/package-manager/download-locks");
    assert_eq!(host.repositories.as_str(), "/home/ada/.cache/package-manager/repositories");
    assert_eq!(host.sources.as_str(), "/home/ada/.cache/package-manager/sources");
    assert_eq!(host.working.as_str(), "/home/ada/.cache/package-manager/build");
    assert_eq!(host.images.as_str(), "/home/ada/.cache/package-manager/images");
    assert_eq!(host.staging.as_str(), "/mnt/image/usr/share/package-manager/staging");
    assert_eq!(host.lock_file.as_str(), "/mnt/image/usr/share/package-manager/install-lock.toml");
    assert_eq!(
        host.journal_file.as_str(),
        "/mnt/image/usr/share/package-manager/install-journal.toml"
    );
    assert_eq!(host.journal_directory.as_str(), "/mnt/image/usr/share/package-manager");
    assert_eq!(host.installation_root.as_str(), "/mnt/image");

    let missing = HostDirectories::new(&target, HostPath::new("/").unwrap(), &None);
    assert!(matches!(missing, Err(DirectoriesError::HostDirectories)));
}
