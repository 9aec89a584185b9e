# package-manager

A source-based package manager for Linux. A manifest names the packages to
install; recipes say where each package's source comes from (a GitHub
repository, a tarball, or a web server's index of tarballs), how it is built
(Cargo or `configure` and `make`) and what it needs at run time. The program
locks each download, fetches and builds the sources (optionally inside a
Landlock sandbox), checks that every shared library a package needs is met,
stages the images and installs them with a journal and backups.

## Layout

- `src/` is the library, verified with Verus: versions and requirements,
  paths, directory layouts, recipes and the dependency plan, locking
  downloads (tags of git repositories, tarball indexes), cache paths, build
  commands, run-time dependency checks, ledgers, installation decisions and
  the course of a run.
- `app/` is the program around it: the command line, files, the network, git,
  running the build commands and the sandbox.
- `tests/` exercises the library.

Calls into other crates (`url`, `tl`, `goblin`, `version-compare`,
`rapidhash`, `lzma-rs`, `daggy`, `num_cpus`) go through small trusted
functions whose contracts say what the library relies on.
