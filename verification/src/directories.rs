//! Where packages are installed to (the target directories) and where the package
//! manager keeps its own files (the host directories).
use crate::path::{is_absolute, path_strip_prefix, push_path, HostPath, TargetPath};
use vstd::prelude::*;

verus! {

/// The name of this package manager, under which it keeps its files.
pub const PACKAGE_NAME: &'static str = "package-manager";

/// The environment that the XDG base directories are read from: the home directory
/// and the values of the `XDG_*` variables, each `None` when it is not set.
pub struct XdgVariables {
    pub home: Option<String>,
    pub prefix_home: Option<String>,
    pub cache_home: Option<String>,
    pub config_home: Option<String>,
    pub data_home: Option<String>,
    pub bin_home: Option<String>,
    pub include_home: Option<String>,
    pub lib_home: Option<String>,
    pub state_home: Option<String>,
    pub runtime_dir: Option<String>,
}

/// The XDG base directories, each `None` when it could not be determined.
pub struct XdgDirectories {
    pub home: Option<HostPath>,
    pub prefix_home: Option<HostPath>,
    pub cache_home: Option<HostPath>,
    pub config_home: Option<HostPath>,
    pub data_home: Option<HostPath>,
    pub bin_home: Option<HostPath>,
    pub include_home: Option<HostPath>,
    pub lib_home: Option<HostPath>,
    pub state_home: Option<HostPath>,
    pub runtime_dir: Option<HostPath>,
}

pub open spec fn text_view(value: Option<String>) -> Option<Seq<char>> {
    match value {
        Some(text) => Some(text@),
        None => None,
    }
}

pub open spec fn path_view(path: Option<HostPath>) -> Option<Seq<char>> {
    match path {
        Some(path) => Some(path@),
        None => None,
    }
}

/// The directory that an XDG variable with the value `value` names: the fallback
/// when it is unset, nothing when it is empty or not an absolute path, and the value
/// itself otherwise.
pub open spec fn xdg_directory(value: Option<Seq<char>>, fallback: Option<Seq<char>>) -> Option<
    Seq<char>,
> {
    match value {
        None => fallback,
        Some(text) => if text.len() == 0 {
            None
        } else if is_absolute(text) {
            Some(text)
        } else {
            None
        },
    }
}

/// `base` with `suffix` joined on, when there is a base.
pub open spec fn joined(base: Option<Seq<char>>, suffix: Seq<char>) -> Option<Seq<char>> {
    match base {
        Some(base) => Some(push_path(base, suffix)),
        None => None,
    }
}

/// The home directory: the detected one when it is absolute.
pub open spec fn home_directory(home: Option<Seq<char>>) -> Option<Seq<char>> {
    match home {
        Some(home) => if is_absolute(home) {
            Some(home)
        } else {
            None
        },
        None => None,
    }
}

/// Resolves the value of an XDG variable, with `fallback` for when it is unset.
pub fn parse_xdg_variable_or_else(value: Option<&str>, fallback: Option<HostPath>) -> (r: Option<
    HostPath,
>)
    ensures
        path_view(r) == xdg_directory(
            match value {
                Some(text) => Some(text@),
                None => None,
            },
            path_view(fallback),
        ),
{
    match value {
        None => fallback,
        Some(text) => {
            if text.is_empty() {
                None
            } else {
                HostPath::new(text)
            }
        },
    }
}

/// Resolves an XDG variable that defaults to `fallback` below the home directory.
pub fn parse_xdg_variable_or_home(
    value: Option<&str>,
    home: &Option<HostPath>,
    fallback: &str,
) -> (r: Option<HostPath>)
    ensures
        path_view(r) == xdg_directory(
            match value {
                Some(text) => Some(text@),
                None => None,
            },
            joined(path_view(*home), fallback@),
        ),
{
    let default = match home {
        Some(home) => Some(home.with_suffix(fallback)),
        None => None,
    };
    parse_xdg_variable_or_else(value, default)
}

/// Resolves an XDG variable that defaults to `fallback` below `$XDG_PREFIX_HOME`.
pub fn parse_xdg_variable_or_prefix(
    value: Option<&str>,
    prefix: &Option<HostPath>,
    fallback: &str,
) -> (r: Option<HostPath>)
    ensures
        path_view(r) == xdg_directory(
            match value {
                Some(text) => Some(text@),
                None => None,
            },
            joined(path_view(*prefix), fallback@),
        ),
{
    parse_xdg_variable_or_home(value, prefix, fallback)
}

fn as_text(value: &Option<String>) -> (r: Option<&str>)
    ensures
        match r {
            Some(text) => text_view(*value) == Some(text@),
            None => value is None,
        },
{
    match value {
        Some(text) => Some(text.as_str()),
        None => None,
    }
}

impl XdgDirectories {
    /// The directories that `variables` describe, each falling back as the XDG base
    /// directory specification (with its `XDG_PREFIX_HOME` extension) says.
    pub open spec fn resolved(variables: XdgVariables) -> XdgLayout {
        let home = home_directory(text_view(variables.home));
        let prefix = xdg_directory(text_view(variables.prefix_home), joined(home, ".local"@));
        let state = xdg_directory(text_view(variables.state_home), joined(prefix, "state"@));
        XdgLayout {
            home,
            prefix_home: prefix,
            cache_home: xdg_directory(text_view(variables.cache_home), joined(home, ".cache"@)),
            config_home: xdg_directory(text_view(variables.config_home), joined(home, ".config"@)),
            data_home: xdg_directory(text_view(variables.data_home), joined(prefix, "share"@)),
            bin_home: xdg_directory(text_view(variables.bin_home), joined(prefix, "bin"@)),
            include_home: xdg_directory(
                text_view(variables.include_home),
                joined(prefix, "include"@),
            ),
            lib_home: xdg_directory(text_view(variables.lib_home), joined(prefix, "lib"@)),
            state_home: state,
            runtime_dir: xdg_directory(text_view(variables.runtime_dir), joined(state, "run"@)),
        }
    }

    pub open spec fn layout(self) -> XdgLayout {
        XdgLayout {
            home: path_view(self.home),
            prefix_home: path_view(self.prefix_home),
            cache_home: path_view(self.cache_home),
            config_home: path_view(self.config_home),
            data_home: path_view(self.data_home),
            bin_home: path_view(self.bin_home),
            include_home: path_view(self.include_home),
            lib_home: path_view(self.lib_home),
            state_home: path_view(self.state_home),
            runtime_dir: path_view(self.runtime_dir),
        }
    }

    /// Resolves the XDG base directories from the environment `variables`.
    pub fn from_variables(variables: &XdgVariables) -> (r: XdgDirectories)
        ensures
            r.layout() == XdgDirectories::resolved(*variables),
    {
        let home = match &variables.home {
            Some(home) => match HostPath::new(home.as_str()) {
                Some(path) => Some(path),
                None => None,
            },
            None => None,
        };
        let prefix_home = parse_xdg_variable_or_home(as_text(&variables.prefix_home), &home, ".local");
        let cache_home = parse_xdg_variable_or_home(as_text(&variables.cache_home), &home, ".cache");
        let config_home = parse_xdg_variable_or_home(
            as_text(&variables.config_home),
            &home,
            ".config",
        );
        let data_home = parse_xdg_variable_or_prefix(
            as_text(&variables.data_home),
            &prefix_home,
            "share",
        );
        let bin_home = parse_xdg_variable_or_prefix(as_text(&variables.bin_home), &prefix_home, "bin");
        let include_home = parse_xdg_variable_or_prefix(
            as_text(&variables.include_home),
            &prefix_home,
            "include",
        );
        let lib_home = parse_xdg_variable_or_prefix(as_text(&variables.lib_home), &prefix_home, "lib");
        let state_home = parse_xdg_variable_or_prefix(
            as_text(&variables.state_home),
            &prefix_home,
            "state",
        );
        let runtime_dir = parse_xdg_variable_or_home(
            as_text(&variables.runtime_dir),
            &state_home,
            "run",
        );
        XdgDirectories {
            home,
            prefix_home,
            cache_home,
            config_home,
            data_home,
            bin_home,
            include_home,
            lib_home,
            state_home,
            runtime_dir,
        }
    }
}

/// The texts of the XDG base directories.
pub struct XdgLayout {
    pub home: Option<Seq<char>>,
    pub prefix_home: Option<Seq<char>>,
    pub cache_home: Option<Seq<char>>,
    pub config_home: Option<Seq<char>>,
    pub data_home: Option<Seq<char>>,
    pub bin_home: Option<Seq<char>>,
    pub include_home: Option<Seq<char>>,
    pub lib_home: Option<Seq<char>>,
    pub state_home: Option<Seq<char>>,
    pub runtime_dir: Option<Seq<char>>,
}

/// The texts of the target directories.
pub struct TargetLayout {
    pub prefix: Seq<char>,
    pub configuration: Seq<char>,
    pub data: Seq<char>,
    pub executables: Seq<char>,
    pub headers: Seq<char>,
    pub internal_executables: Seq<char>,
    pub libraries: Seq<char>,
    pub runtime: Seq<char>,
    pub state: Seq<char>,
    pub system_executables: Seq<char>,
}

/// Where the parts of a package go on the target system.
pub struct TargetDirectories {
    prefix: TargetPath,
    configuration: TargetPath,
    data: TargetPath,
    executables: TargetPath,
    headers: TargetPath,
    internal_executables: TargetPath,
    libraries: TargetPath,
    runtime: TargetPath,
    state: TargetPath,
    system_executables: TargetPath,
}

/// Why the directories could not be determined.
#[derive(Clone, Copy, Debug, PartialEq, Eq, Structural)]
pub enum DirectoriesError {
    /// Some XDG base directory that the target directories need is unknown.
    TargetDirectories,
    /// The cache directory that the host directories need is unknown.
    HostDirectories,
}

impl View for TargetDirectories {
    type V = TargetLayout;

    closed spec fn view(&self) -> TargetLayout {
        TargetLayout {
            prefix: self.prefix@,
            configuration: self.configuration@,
            data: self.data@,
            executables: self.executables@,
            headers: self.headers@,
            internal_executables: self.internal_executables@,
            libraries: self.libraries@,
            runtime: self.runtime@,
            state: self.state@,
            system_executables: self.system_executables@,
        }
    }
}

fn host_to_target(path: &Option<HostPath>) -> (r: Option<TargetPath>)
    ensures
        match r {
            Some(target) => path_view(*path) == Some(target@),
            None => path is None,
        },
{
    match path {
        Some(host) => Some(TargetPath { absolute: host.absolute.duplicate() }),
        None => None,
    }
}

fn target_path(text: &str) -> (r: TargetPath)
    requires
        is_absolute(text@),
    ensures
        r@ == text@,
{
    match TargetPath::new(text) {
        Some(path) => path,
        None => {
            proof {
                assert(false);
            }
            TargetPath::root()
        },
    }
}

impl TargetDirectories {
    /// The target directories of a user installation: the XDG base directories, with
    /// libraries doubling as internal executables and executables as system ones.
    pub open spec fn user_layout(xdg: XdgLayout) -> Option<TargetLayout> {
        if xdg.prefix_home is Some && xdg.config_home is Some && xdg.data_home is Some
            && xdg.bin_home is Some && xdg.include_home is Some && xdg.lib_home is Some
            && xdg.state_home is Some && xdg.runtime_dir is Some {
            Some(
                TargetLayout {
                    prefix: xdg.prefix_home.unwrap(),
                    configuration: xdg.config_home.unwrap(),
                    data: xdg.data_home.unwrap(),
                    executables: xdg.bin_home.unwrap(),
                    headers: xdg.include_home.unwrap(),
                    internal_executables: xdg.lib_home.unwrap(),
                    libraries: xdg.lib_home.unwrap(),
                    runtime: xdg.runtime_dir.unwrap(),
                    state: xdg.state_home.unwrap(),
                    system_executables: xdg.bin_home.unwrap(),
                },
            )
        } else {
            None
        }
    }

    /// The target directories of a user installation, or an error when an XDG base
    /// directory is unknown.
    pub fn user(xdg: &XdgDirectories) -> (r: Result<TargetDirectories, DirectoriesError>)
        ensures
            match r {
                Ok(directories) => TargetDirectories::user_layout(xdg.layout()) == Some(
                    directories@,
                ),
                Err(error) => TargetDirectories::user_layout(xdg.layout()) is None && error
                    == DirectoriesError::TargetDirectories,
            },
    {
        match TargetDirectories::user_inner(xdg) {
            Some(directories) => Ok(directories),
            None => Err(DirectoriesError::TargetDirectories),
        }
    }

    pub fn user_inner(xdg: &XdgDirectories) -> (r: Option<TargetDirectories>)
        ensures
            match r {
                Some(directories) => TargetDirectories::user_layout(xdg.layout()) == Some(
                    directories@,
                ),
                None => TargetDirectories::user_layout(xdg.layout()) is None,
            },
    {
        let prefix = match host_to_target(&xdg.prefix_home) {
            Some(path) => path,
            None => return None,
        };
        let configuration = match host_to_target(&xdg.config_home) {
            Some(path) => path,
            None => return None,
        };
        let data = match host_to_target(&xdg.data_home) {
            Some(path) => path,
            None => return None,
        };
        let executables = match host_to_target(&xdg.bin_home) {
            Some(path) => path,
            None => return None,
        };
        let headers = match host_to_target(&xdg.include_home) {
            Some(path) => path,
            None => return None,
        };
        let libraries = match host_to_target(&xdg.lib_home) {
            Some(path) => path,
            None => return None,
        };
        let state = match host_to_target(&xdg.state_home) {
            Some(path) => path,
            None => return None,
        };
        let runtime = match host_to_target(&xdg.runtime_dir) {
            Some(path) => path,
            None => return None,
        };
        Some(
            TargetDirectories {
                prefix,
                configuration,
                data,
                internal_executables: libraries.duplicate(),
                system_executables: executables.duplicate(),
                executables,
                headers,
                libraries,
                runtime,
                state,
            },
        )
    }

    /// The layout of the file hierarchy standard below `/usr`.
    pub open spec fn fhs_usr_layout() -> TargetLayout {
        TargetLayout {
                prefix: "/usr"@,
                configuration: "/etc"@,
                data: "/usr/share"@,
                executables: "/usr/bin"@,
                headers: "/usr/include"@,
                internal_executables: "/usr/libexec"@,
                libraries: "/usr/lib"@,
                runtime: "/run"@,
                state: "/var/lib"@,
                system_executables: "/usr/sbin"@,
            }
    }

    /// The target directories of the file hierarchy standard below `/usr`.
    pub fn fhs_usr() -> (r: TargetDirectories)
        ensures
            r@ == TargetDirectories::fhs_usr_layout(),
    {
        proof {
            reveal_strlit("/usr");
            reveal_strlit("/etc");
            reveal_strlit("/usr/share");
            reveal_strlit("/usr/bin");
            reveal_strlit("/usr/include");
            reveal_strlit("/usr/libexec");
            reveal_strlit("/usr/lib");
            reveal_strlit("/run");
            reveal_strlit("/var/lib");
            reveal_strlit("/usr/sbin");
        }
        TargetDirectories {
            prefix: target_path("/usr"),
            configuration: target_path("/etc"),
            data: target_path("/usr/share"),
            executables: target_path("/usr/bin"),
            headers: target_path("/usr/include"),
            internal_executables: target_path("/usr/libexec"),
            libraries: target_path("/usr/lib"),
            runtime: target_path("/run"),
            state: target_path("/var/lib"),
            system_executables: target_path("/usr/sbin"),
        }
    }

    pub fn prefix(&self) -> (r: &TargetPath)
        ensures
            r@ == self@.prefix,
    {
        &self.prefix
    }

    pub fn configuration(&self) -> (r: &TargetPath)
        ensures
            r@ == self@.configuration,
    {
        &self.configuration
    }

    pub fn data(&self) -> (r: &TargetPath)
        ensures
            r@ == self@.data,
    {
        &self.data
    }

    pub fn executables(&self) -> (r: &TargetPath)
        ensures
            r@ == self@.executables,
    {
        &self.executables
    }

    pub fn headers(&self) -> (r: &TargetPath)
        ensures
            r@ == self@.headers,
    {
        &self.headers
    }

    pub fn internal_executables(&self) -> (r: &TargetPath)
        ensures
            r@ == self@.internal_executables,
    {
        &self.internal_executables
    }

    pub fn libraries(&self) -> (r: &TargetPath)
        ensures
            r@ == self@.libraries,
    {
        &self.libraries
    }

    pub fn runtime(&self) -> (r: &TargetPath)
        ensures
            r@ == self@.runtime,
    {
        &self.runtime
    }

    pub fn state(&self) -> (r: &TargetPath)
        ensures
            r@ == self@.state,
    {
        &self.state
    }

    pub fn system_executables(&self) -> (r: &TargetPath)
        ensures
            r@ == self@.system_executables,
    {
        &self.system_executables
    }
}

/// Where the package manager keeps its own files on the host.
pub struct HostDirectories {
    pub download_locks: HostPath,
    pub repositories: HostPath,
    pub sources: HostPath,
    pub working: HostPath,
    pub images: HostPath,
    pub staging: HostPath,
    pub lock_file: HostPath,
    pub journal_file: HostPath,
    /// The directory containing the journal file.
    pub journal_directory: HostPath,
    pub installation_root: HostPath,
}

/// The data directory of the target, on the host below `root`.
pub open spec fn host_data_directory(target: TargetLayout, root: Seq<char>) -> Seq<char> {
    push_path(root, path_strip_prefix(target.data, seq!['/']).unwrap())
}

impl HostDirectories {
    /// The host directories: caches below the cache directory, and the staging
    /// area, lock file and journal below the target's data directory inside the
    /// installation root.
    pub open spec fn layout_ok(
        self,
        target: TargetLayout,
        root: Seq<char>,
        cache: Seq<char>,
    ) -> bool {
        let data = host_data_directory(target, root);
        &&& self.download_locks@ == push_path(cache, "package-manager/download-locks"@)
        &&& self.repositories@ == push_path(cache, "package-manager/repositories"@)
        &&& self.sources@ == push_path(cache, "package-manager/sources"@)
        &&& self.working@ == push_path(cache, "package-manager/build"@)
        &&& self.images@ == push_path(cache, "package-manager/images"@)
        &&& self.staging@ == push_path(data, "package-manager/staging"@)
        &&& self.lock_file@ == push_path(data, "package-manager/install-lock.toml"@)
        &&& self.journal_file@ == push_path(data, "package-manager/install-journal.toml"@)
        &&& self.journal_directory@ == push_path(data, "package-manager"@)
        &&& self.installation_root@ == root
    }

    /// The host directories for installing into `installation_root`, or an error
    /// when the cache directory is unknown.
    pub fn new(
        target: &TargetDirectories,
        installation_root: HostPath,
        cache_home: &Option<HostPath>,
    ) -> (r: Result<HostDirectories, DirectoriesError>)
        ensures
            match r {
                Ok(directories) => cache_home matches Some(cache) && path_strip_prefix(
                    target@.data,
                    seq!['/'],
                ) is Some && directories.layout_ok(target@, installation_root@, cache@),
                Err(error) => cache_home is None && error == DirectoriesError::HostDirectories,
            },
    {
        match HostDirectories::new_inner(target, installation_root, cache_home) {
            Some(directories) => Ok(directories),
            None => Err(DirectoriesError::HostDirectories),
        }
    }

    pub fn new_inner(
        target: &TargetDirectories,
        installation_root: HostPath,
        cache_home: &Option<HostPath>,
    ) -> (r: Option<HostDirectories>)
        ensures
            match r {
                Some(directories) => cache_home matches Some(cache) && path_strip_prefix(
                    target@.data,
                    seq!['/'],
                ) is Some && directories.layout_ok(target@, installation_root@, cache@),
                None => cache_home is None,
            },
    {
        let cache_directory = match cache_home {
            Some(cache) => cache,
            None => return None,
        };
        let data_directory = target.data().with_root(&installation_root);
        Some(
            HostDirectories {
                download_locks: cache_directory.with_suffix("package-manager/download-locks"),
                repositories: cache_directory.with_suffix("package-manager/repositories"),
                sources: cache_directory.with_suffix("package-manager/sources"),
                working: cache_directory.with_suffix("package-manager/build"),
                images: cache_directory.with_suffix("package-manager/images"),
                staging: data_directory.with_suffix("package-manager/staging"),
                lock_file: data_directory.with_suffix("package-manager/install-lock.toml"),
                journal_file: data_directory.with_suffix("package-manager/install-journal.toml"),
                journal_directory: data_directory.with_suffix("package-manager"),
                installation_root,
            },
        )
    }
}

/// Whether a variable set to `value` names the directory `resolved` itself: an
/// absolute path names that directory, anything else names none.
pub open spec fn names_own_directory(value: Option<Seq<char>>, resolved: Option<Seq<char>>) -> bool {
    match value {
        Some(text) => resolved == if is_absolute(text) {
            Some(text)
        } else {
            None
        },
        None => true,
    }
}

/// An XDG variable that is set to an absolute path names its directory itself,
/// whatever the directory would fall back to; one that is set to anything else names
/// no directory. The home directory is taken when it is absolute.
pub proof fn lemma_set_variables_name_their_directories(variables: XdgVariables)
    ensures
        ({
            let layout = XdgDirectories::resolved(variables);
            &&& names_own_directory(text_view(variables.home), layout.home)
            &&& names_own_directory(text_view(variables.prefix_home), layout.prefix_home)
            &&& names_own_directory(text_view(variables.cache_home), layout.cache_home)
            &&& names_own_directory(text_view(variables.config_home), layout.config_home)
            &&& names_own_directory(text_view(variables.data_home), layout.data_home)
            &&& names_own_directory(text_view(variables.bin_home), layout.bin_home)
            &&& names_own_directory(text_view(variables.include_home), layout.include_home)
            &&& names_own_directory(text_view(variables.lib_home), layout.lib_home)
            &&& names_own_directory(text_view(variables.state_home), layout.state_home)
            &&& names_own_directory(text_view(variables.runtime_dir), layout.runtime_dir)
        }),
{
}

} // verus!
