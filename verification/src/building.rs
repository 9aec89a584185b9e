//! How a recipe is built: the build system it names, and the commands and file
//! transfers that building it takes.
use crate::directories::{TargetDirectories, TargetLayout};
use crate::path::{push_path, HostPath, TargetPath};
use crate::recipe::Dependencies;
use crate::text::{decimal_string, decimal_text};
use vstd::prelude::*;

verus! {

/// The build system of a recipe.
#[derive(Debug, Hash)]
pub enum BuildSystem {
    /// Nothing is built.
    Nothing,
    /// A Cargo project, of which one binary is built and installed.
    Cargo { binary: String, features: Vec<String>, target: Option<String> },
    /// A `configure` script followed by `make` and `make install`.
    ConfigureMake { configure_flags: Vec<String> },
}

/// How to build a recipe.
#[derive(Debug, Hash)]
pub struct Build {
    /// The packages needed to build it.
    pub dependencies: Dependencies,
    /// The directory of the source tree to build in, relative to the tree.
    pub directory: Option<String>,
    /// The environment variables set for every command, in order of their names.
    pub environment_variables: Vec<(String, String)>,
    pub system: BuildSystem,
}

/// A command to run: the program, its arguments, and the environment variables that
/// it gets, in the order in which they are set (a later one overrides an earlier one
/// of the same name).
#[derive(Debug)]
pub struct CommandLine {
    pub program: String,
    pub arguments: Vec<String>,
    pub environment: Vec<(String, String)>,
}

/// A file that building leaves on the host and that goes into the image at a path of
/// the target.
#[derive(Debug)]
pub struct FileTransfer {
    pub from: HostPath,
    pub to: TargetPath,
}

pub open spec fn texts_view(texts: Seq<String>) -> Seq<Seq<char>> {
    texts.map_values(|text: String| text@)
}

pub open spec fn pairs_view(pairs: Seq<(String, String)>) -> Seq<(Seq<char>, Seq<char>)> {
    pairs.map_values(|pair: (String, String)| (pair.0@, pair.1@))
}

proof fn lemma_texts_view_push(texts: Seq<String>, text: String)
    ensures
        texts_view(texts.push(text)) == texts_view(texts).push(text@),
{
    assert(texts_view(texts.push(text)) =~= texts_view(texts).push(text@));
}

proof fn lemma_texts_view_take_next(texts: Seq<String>, k: int)
    requires
        0 <= k < texts.len(),
    ensures
        texts_view(texts.take(k + 1)) == texts_view(texts.take(k)).push(texts[k]@),
{
    assert(texts_view(texts.take(k + 1)) =~= texts_view(texts.take(k)).push(texts[k]@));
}

proof fn lemma_pairs_view_push(pairs: Seq<(String, String)>, pair: (String, String))
    ensures
        pairs_view(pairs.push(pair)) == pairs_view(pairs).push((pair.0@, pair.1@)),
{
    assert(pairs_view(pairs.push(pair)) =~= pairs_view(pairs).push((pair.0@, pair.1@)));
}

proof fn lemma_pairs_view_take_next(pairs: Seq<(String, String)>, k: int)
    requires
        0 <= k < pairs.len(),
    ensures
        pairs_view(pairs.take(k + 1)) == pairs_view(pairs.take(k)).push(
            (pairs[k].0@, pairs[k].1@),
        ),
{
    assert(pairs_view(pairs.take(k + 1)) =~= pairs_view(pairs.take(k)).push(
        (pairs[k].0@, pairs[k].1@),
    ));
}

/// A command as plain text: program, arguments and environment.
pub type CommandView = (Seq<char>, Seq<Seq<char>>, Seq<(Seq<char>, Seq<char>)>);

impl View for CommandLine {
    type V = CommandView;

    open spec fn view(&self) -> CommandView {
        (self.program@, texts_view(self.arguments@), pairs_view(self.environment@))
    }
}

impl View for FileTransfer {
    type V = (Seq<char>, Seq<char>);

    open spec fn view(&self) -> (Seq<char>, Seq<char>) {
        (self.from@, self.to@)
    }
}

/// Words joined with single spaces between them.
pub open spec fn join_words(words: Seq<Seq<char>>) -> Seq<char>
    decreases words.len(),
{
    if words.len() == 0 {
        seq![]
    } else if words.len() == 1 {
        words[0]
    } else {
        join_words(words.drop_last()) + seq![' '] + words.last()
    }
}

/// The arguments of `cargo` that build `binary` in release mode with the locked
/// dependencies, from the manifest `manifest_path` into `target_directory`, with the
/// features (joined with spaces) and the target platform where there are any.
pub open spec fn cargo_arguments(
    binary: Seq<char>,
    features: Seq<Seq<char>>,
    target: Option<Seq<char>>,
    manifest_path: Seq<char>,
    target_directory: Seq<char>,
) -> Seq<Seq<char>> {
    seq![
        "build"@,
        "--bin"@,
        binary,
        "--locked"@,
        "--release"@,
        "--manifest-path"@,
        manifest_path,
        "--target-dir"@,
        target_directory,
    ] + (if features.len() > 0 {
        seq!["--features"@, join_words(features)]
    } else {
        seq![]
    }) + match target {
        Some(target) => seq!["--target"@, target],
        None => seq![],
    }
}

/// A `configure` option `--<name>=<path>`.
pub open spec fn configure_flag(name: Seq<char>, path: Seq<char>) -> Seq<char> {
    "--"@ + name + "="@ + path
}

/// The arguments of `configure`: the installation directories of the target, then the
/// recipe's own flags.
pub open spec fn configure_arguments(target: TargetLayout, flags: Seq<Seq<char>>) -> Seq<
    Seq<char>,
> {
    seq![
        configure_flag("prefix"@, target.prefix),
        configure_flag("bindir"@, target.executables),
        configure_flag("sbindir"@, target.system_executables),
        configure_flag("libexecdir"@, target.internal_executables),
        configure_flag("datarootdir"@, target.data),
        configure_flag("datadir"@, target.data),
        configure_flag("sysconfdir"@, target.configuration),
        configure_flag("sharedstatedir"@, target.state),
        configure_flag("localstatedir"@, target.state),
        configure_flag("runstatedir"@, target.runtime),
        configure_flag("includedir"@, target.headers),
        configure_flag("libdir"@, target.libraries),
    ] + flags
}

/// The commands of a build system, each with the environment that it sets itself, for
/// the build root `build_root`, the working directory `working`, the image `image`, the
/// target layout `target` and `cpu_count` parallel jobs.
pub open spec fn system_commands(
    system: BuildSystem,
    image: Seq<char>,
    build_root: Seq<char>,
    working: Seq<char>,
    target: TargetLayout,
    cpu_count: nat,
) -> Seq<CommandView> {
    match system {
        BuildSystem::Nothing => seq![],
        BuildSystem::Cargo { binary, features, target: platform } => seq![
            (
                "cargo"@,
                cargo_arguments(
                    binary@,
                    texts_view(features@),
                    match platform {
                        Some(platform) => Some(platform@),
                        None => None,
                    },
                    push_path(build_root, "Cargo.toml"@),
                    push_path(working, "target"@),
                ),
                seq![],
            ),
        ],
        BuildSystem::ConfigureMake { configure_flags } => seq![
            (
                push_path(build_root, "configure"@),
                configure_arguments(target, texts_view(configure_flags@)),
                seq![],
            ),
            ("make"@, seq!["-j"@ + decimal_string(cpu_count)], seq![]),
            ("make"@, seq!["install"@], seq![("DESTDIR"@, image)]),
        ],
    }
}

/// The commands that build a recipe: those of its build system, each with the build's
/// environment variables set after its own.
pub open spec fn build_commands(
    build: Build,
    image: Seq<char>,
    build_root: Seq<char>,
    working: Seq<char>,
    target: TargetLayout,
    cpu_count: nat,
) -> Seq<CommandView> {
    system_commands(build.system, image, build_root, working, target, cpu_count).map_values(
        |command: CommandView|
            (command.0, command.1, command.2 + pairs_view(build.environment_variables@)),
    )
}

/// The files that a build leaves to be copied into the image: for Cargo, the built
/// binary, which goes into the target's executables directory.
pub open spec fn build_transfers(build: Build, working: Seq<char>, target: TargetLayout) -> Seq<
    (Seq<char>, Seq<char>),
> {
    match build.system {
        BuildSystem::Cargo { binary, features: _, target: _ } => seq![
            (
                push_path(push_path(push_path(working, "target"@), "release"@), binary@),
                push_path(target.executables, binary@),
            ),
        ],
        _ => seq![],
    }
}

fn words_joined(words: &Vec<String>) -> (r: String)
    ensures
        r@ == join_words(texts_view(words@)),
{
    let mut text = String::new();
    let mut k: usize = 0;
    while k < words.len()
        invariant
            k <= words.len(),
            text@ == join_words(texts_view(words@.take(k as int))),
        decreases words.len() - k,
    {
        proof {
            assert(texts_view(words@.take(k + 1)).drop_last() =~= texts_view(
                words@.take(k as int),
            ));
            assert(texts_view(words@.take(k + 1)).last() == words@[k as int]@);
        }
        if k > 0 {
            text.append(" ");
            proof {
                reveal_strlit(" ");
            }
        } else {
            assert(texts_view(words@.take(1)) =~= seq![words@[0]@]);
        }
        text.append(words[k].as_str());
        k = k + 1;
    }
    proof {
        assert(words@.take(words.len() as int) =~= words@);
    }
    text
}

fn texts_cloned(texts: &Vec<String>) -> (r: Vec<String>)
    ensures
        texts_view(r@) == texts_view(texts@),
{
    let mut out: Vec<String> = Vec::new();
    let mut k: usize = 0;
    while k < texts.len()
        invariant
            k <= texts.len(),
            texts_view(out@) == texts_view(texts@.take(k as int)),
        decreases texts.len() - k,
    {
        proof {
            assert(texts_view(texts@.take(k + 1)) =~= texts_view(texts@.take(k as int)).push(
                texts@[k as int]@,
            ));
        }
        out.push(texts[k].clone());
        proof {
            assert(texts_view(out@) =~= texts_view(texts@.take(k + 1)));
        }
        k = k + 1;
    }
    proof {
        assert(texts@.take(texts.len() as int) =~= texts@);
    }
    out
}

fn flag(name: &str, path: &TargetPath) -> (r: String)
    ensures
        r@ == configure_flag(name@, path@),
{
    let mut text = String::from_str("--");
    text.append(name);
    text.append("=");
    text.append(path.as_str());
    text
}

fn configure_command(
    configure: &HostPath,
    target: &TargetDirectories,
    configure_flags: &Vec<String>,
) -> (r: CommandLine)
    ensures
        r@ == (configure@, configure_arguments(target@, texts_view(configure_flags@)), Seq::<
            (Seq<char>, Seq<char>),
        >::empty()),
{
    let mut arguments: Vec<String> = Vec::new();
    arguments.push(flag("prefix", target.prefix()));
    arguments.push(flag("bindir", target.executables()));
    arguments.push(flag("sbindir", target.system_executables()));
    arguments.push(flag("libexecdir", target.internal_executables()));
    arguments.push(flag("datarootdir", target.data()));
    arguments.push(flag("datadir", target.data()));
    arguments.push(flag("sysconfdir", target.configuration()));
    arguments.push(flag("sharedstatedir", target.state()));
    arguments.push(flag("localstatedir", target.state()));
    arguments.push(flag("runstatedir", target.runtime()));
    arguments.push(flag("includedir", target.headers()));
    arguments.push(flag("libdir", target.libraries()));
    let ghost fixed = texts_view(arguments@);
    let mut k: usize = 0;
    while k < configure_flags.len()
        invariant
            k <= configure_flags.len(),
            texts_view(arguments@) == fixed + texts_view(configure_flags@.take(k as int)),
        decreases configure_flags.len() - k,
    {
        let ghost previous = arguments@;
        arguments.push(configure_flags[k].clone());
        proof {
            lemma_texts_view_push(previous, configure_flags@[k as int]);
            lemma_texts_view_take_next(configure_flags@, k as int);
            assert(texts_view(arguments@) =~= fixed + texts_view(configure_flags@.take(k + 1)));
        }
        k = k + 1;
    }
    proof {
        assert(configure_flags@.take(configure_flags.len() as int) =~= configure_flags@);
        assert(texts_view(arguments@) =~= configure_arguments(
            target@,
            texts_view(configure_flags@),
        ));
    }
    CommandLine {
        program: String::from_str(configure.as_str()),
        arguments,
        environment: Vec::new(),
    }
}

fn cargo_command(
    binary: &String,
    features: &Vec<String>,
    platform: &Option<String>,
    manifest_path: &HostPath,
    target_directory: &HostPath,
) -> (r: CommandLine)
    ensures
        r@ == ("cargo"@, cargo_arguments(
            binary@,
            texts_view(features@),
            match platform {
                Some(platform) => Some(platform@),
                None => None,
            },
            manifest_path@,
            target_directory@,
        ), Seq::<(Seq<char>, Seq<char>)>::empty()),
{
    let mut arguments: Vec<String> = Vec::new();
    arguments.push(String::from_str("build"));
    arguments.push(String::from_str("--bin"));
    arguments.push(binary.clone());
    arguments.push(String::from_str("--locked"));
    arguments.push(String::from_str("--release"));
    arguments.push(String::from_str("--manifest-path"));
    arguments.push(String::from_str(manifest_path.as_str()));
    arguments.push(String::from_str("--target-dir"));
    arguments.push(String::from_str(target_directory.as_str()));
    if features.len() > 0 {
        arguments.push(String::from_str("--features"));
        arguments.push(words_joined(features));
    }
    match platform {
        Some(platform) => {
            arguments.push(String::from_str("--target"));
            arguments.push(platform.clone());
        },
        None => {},
    }
    proof {
        assert(texts_view(arguments@) =~= cargo_arguments(
            binary@,
            texts_view(features@),
            match platform {
                Some(platform) => Some(platform@),
                None => None,
            },
            manifest_path@,
            target_directory@,
        ));
    }
    CommandLine { program: String::from_str("cargo"), arguments, environment: Vec::new() }
}

fn pairs_cloned(pairs: &Vec<(String, String)>) -> (r: Vec<(String, String)>)
    ensures
        pairs_view(r@) == pairs_view(pairs@),
{
    let mut out: Vec<(String, String)> = Vec::new();
    let mut k: usize = 0;
    while k < pairs.len()
        invariant
            k <= pairs.len(),
            pairs_view(out@) == pairs_view(pairs@.take(k as int)),
        decreases pairs.len() - k,
    {
        let ghost previous = out@;
        out.push((pairs[k].0.clone(), pairs[k].1.clone()));
        proof {
            lemma_pairs_view_push(previous, (pairs@[k as int].0, pairs@[k as int].1));
            lemma_pairs_view_take_next(pairs@, k as int);
            assert(pairs_view(out@) =~= pairs_view(pairs@.take(k + 1)));
        }
        k = k + 1;
    }
    proof {
        assert(pairs@.take(pairs.len() as int) =~= pairs@);
    }
    out
}

/// The commands that build a recipe, and the files to copy into its image afterwards,
/// for `cpu_count` parallel jobs (see [`build_commands`] and [`build_transfers`]).
pub fn generate_commands_for(
    build: &Build,
    image: &HostPath,
    build_root: &HostPath,
    working_directory: &HostPath,
    target: &TargetDirectories,
    cpu_count: usize,
) -> (r: (Vec<CommandLine>, Vec<FileTransfer>))
    ensures
        r.0@.map_values(|command: CommandLine| command@) == build_commands(
            *build,
            image@,
            build_root@,
            working_directory@,
            target@,
            cpu_count as nat,
        ),
        r.1@.map_values(|transfer: FileTransfer| transfer@) == build_transfers(
            *build,
            working_directory@,
            target@,
        ),
{
    let mut commands: Vec<CommandLine> = Vec::new();
    let mut transfers: Vec<FileTransfer> = Vec::new();
    match &build.system {
        BuildSystem::Nothing => {},
        BuildSystem::Cargo { binary, features, target: platform } => {
            let manifest_path = build_root.with_suffix("Cargo.toml");
            let target_directory = working_directory.with_suffix("target");
            commands.push(
                cargo_command(binary, features, platform, &manifest_path, &target_directory),
            );
            let artefact = target_directory.with_suffix("release").with_suffix(binary.as_str());
            let destination = target.executables().with_suffix(binary.as_str());
            transfers.push(FileTransfer { from: artefact, to: destination });
        },
        BuildSystem::ConfigureMake { configure_flags } => {
            let configure = build_root.with_suffix("configure");
            commands.push(configure_command(&configure, target, configure_flags));
            let mut jobs = String::from_str("-j");
            jobs.append(decimal_text(cpu_count as u64).as_str());
            let mut compile_arguments: Vec<String> = Vec::new();
            compile_arguments.push(jobs);
            let compile = CommandLine {
                program: String::from_str("make"),
                arguments: compile_arguments,
                environment: Vec::new(),
            };
            proof {
                assert(compile@.1 =~= seq!["-j"@ + decimal_string(cpu_count as nat)]);
                assert(compile@.2 =~= Seq::<(Seq<char>, Seq<char>)>::empty());
            }
            commands.push(compile);
            let mut install_arguments: Vec<String> = Vec::new();
            install_arguments.push(String::from_str("install"));
            let mut install_environment: Vec<(String, String)> = Vec::new();
            install_environment.push(
                (String::from_str("DESTDIR"), String::from_str(image.as_str())),
            );
            let install = CommandLine {
                program: String::from_str("make"),
                arguments: install_arguments,
                environment: install_environment,
            };
            proof {
                assert(install@.1 =~= seq!["install"@]);
                assert(install@.2 =~= seq![("DESTDIR"@, image@)]);
            }
            commands.push(install);
        },
    }
    let ghost own = commands@.map_values(|command: CommandLine| command@);
    proof {
        assert(own =~= system_commands(
            build.system,
            image@,
            build_root@,
            working_directory@,
            target@,
            cpu_count as nat,
        ));
        assert(transfers@.map_values(|transfer: FileTransfer| transfer@) =~= build_transfers(
            *build,
            working_directory@,
            target@,
        ));
    }
    let ghost extra = pairs_view(build.environment_variables@);
    let mut finished: Vec<CommandLine> = Vec::new();
    let mut k: usize = 0;
    while k < commands.len()
        invariant
            k <= commands.len(),
            own == commands@.map_values(|command: CommandLine| command@),
            extra == pairs_view(build.environment_variables@),
            finished@.len() == k,
            forall|j: int|
                0 <= j < k ==> #[trigger] finished@[j]@ == (own[j].0, own[j].1, own[j].2 + extra),
        decreases commands.len() - k,
    {
        let mut environment = pairs_cloned(&commands[k].environment);
        let ghost before = pairs_view(environment@);
        let mut m: usize = 0;
        while m < build.environment_variables.len()
            invariant
                m <= build.environment_variables.len(),
                extra == pairs_view(build.environment_variables@),
                pairs_view(environment@) == before + extra.take(m as int),
            decreases build.environment_variables.len() - m,
        {
            let pair = (
                build.environment_variables[m].0.clone(),
                build.environment_variables[m].1.clone(),
            );
            let ghost previous = environment@;
            environment.push(pair);
            proof {
                lemma_pairs_view_push(previous, pair);
                lemma_pairs_view_take_next(build.environment_variables@, m as int);
                assert(pairs_view(build.environment_variables@.take(m + 1)) == extra.take(m + 1))
                    by {
                    assert(pairs_view(build.environment_variables@.take(m + 1)) =~= extra.take(
                        m + 1,
                    ));
                }
                assert(pairs_view(build.environment_variables@.take(m as int)) =~= extra.take(
                    m as int,
                ));
                assert(pairs_view(environment@) =~= before + extra.take(m + 1));
            }
            m = m + 1;
        }
        proof {
            assert(extra.take(extra.len() as int) =~= extra);
        }
        finished.push(
            CommandLine {
                program: commands[k].program.clone(),
                arguments: texts_cloned(&commands[k].arguments),
                environment,
            },
        );
        k = k + 1;
    }
    proof {
        assert(finished@.map_values(|command: CommandLine| command@) =~= build_commands(
            *build,
            image@,
            build_root@,
            working_directory@,
            target@,
            cpu_count as nat,
        ));
    }
    (finished, transfers)
}

/// Calls `num_cpus::get`, which gives the number of CPUs available to this process
/// and, as its documentation says, always at least one.
#[verifier::external_body]
fn available_cpus() -> (r: usize)
    ensures
        r >= 1,
{
    num_cpus::get()
}

/// The commands that build a recipe and the files to copy into its image afterwards,
/// with as many parallel jobs as there are CPUs available.
pub fn generate_commands(
    build: &Build,
    image: &HostPath,
    build_root: &HostPath,
    working_directory: &HostPath,
    target: &TargetDirectories,
) -> (r: (Vec<CommandLine>, Vec<FileTransfer>))
    ensures
        exists|cpu_count: nat|
            cpu_count >= 1 && r.0@.map_values(|command: CommandLine| command@) == build_commands(
                *build,
                image@,
                build_root@,
                working_directory@,
                target@,
                cpu_count,
            ),
        r.1@.map_values(|transfer: FileTransfer| transfer@) == build_transfers(
            *build,
            working_directory@,
            target@,
        ),
{
    let cpu_count = available_cpus();
    generate_commands_for(build, image, build_root, working_directory, target, cpu_count)
}

/// Naming a target platform adds exactly `--target` and the platform at the end of the
/// cargo arguments, whatever features are named; without one, the arguments are the
/// nine fixed ones followed by `--features` and the joined features where there are
/// any, and nothing else.
pub proof fn lemma_cargo_target_platform(
    binary: Seq<char>,
    features: Seq<Seq<char>>,
    platform: Seq<char>,
    manifest_path: Seq<char>,
    target_directory: Seq<char>,
)
    ensures
        cargo_arguments(binary, features, Some(platform), manifest_path, target_directory)
            == cargo_arguments(binary, features, None, manifest_path, target_directory).push(
            "--target"@,
        ).push(platform),
        cargo_arguments(binary, features, None, manifest_path, target_directory).len() == if features.len()
            > 0 {
            11int
        } else {
            9int
        },
        features.len() > 0 ==> cargo_arguments(binary, features, None, manifest_path, target_directory)[9]
            == "--features"@,
{
    let base = cargo_arguments(binary, features, None, manifest_path, target_directory);
    assert(cargo_arguments(binary, features, Some(platform), manifest_path, target_directory)
        =~= base.push("--target"@).push(platform));
}

} // verus!
