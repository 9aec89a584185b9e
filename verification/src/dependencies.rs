//! Checking that the shared libraries a built package needs are provided by the
//! package itself or declared as its dependencies.
use crate::recipe::{lookup_requirement, Recipe};
use crate::text::{split_once, strip_prefix, strip_text_prefix, text_split_once};
use crate::version::{always_satisfies, version_satisfies, RequirementView, Version, VersionRequirement};
use vstd::prelude::*;

verus! {

/// Why a shared object file name could not be read.
#[derive(Clone, Copy, Debug, PartialEq, Eq, Structural)]
pub enum SoNameError {
    /// The name holds no `.so`.
    NoSoExtension,
    /// What follows `.so` does not start with a `.`.
    BadVersionSuffix,
}

pub open spec fn so_extension() -> Seq<char> {
    seq!['.', 's', 'o']
}

/// The library name and version that a shared object file name such as
/// `libz.so.1.3` gives: the text before the first `.so`, and what follows `.so.`.
pub open spec fn so_provision(file_name: Seq<char>) -> Result<(Seq<char>, Seq<char>), SoNameError> {
    match split_once(file_name, so_extension()) {
        None => Err(SoNameError::NoSoExtension),
        Some((name, suffix)) => if suffix.len() == 0 {
            Ok((name, Seq::<char>::empty()))
        } else {
            match strip_prefix(suffix, seq!['.']) {
                Some(version) => Ok((name, version)),
                None => Err(SoNameError::BadVersionSuffix),
            }
        },
    }
}

/// The requirement that a needed shared object file name states: any version when it
/// gives none, otherwise exactly the version it gives.
pub open spec fn so_requirement(file_name: Seq<char>) -> Result<(Seq<char>, RequirementView), SoNameError> {
    match so_provision(file_name) {
        Err(error) => Err(error),
        Ok((name, version)) => if version.len() == 0 {
            Ok((name, RequirementView::Any))
        } else {
            Ok((name, RequirementView::Exact(version)))
        },
    }
}

/// Reads the library name and version from a shared object file name.
pub fn parse_so_provision(file_name: &str) -> (r: Result<(String, Version), SoNameError>)
    ensures
        match r {
            Ok((name, version)) => so_provision(file_name@) == Ok::<
                (Seq<char>, Seq<char>),
                SoNameError,
            >((name@, version@)),
            Err(error) => so_provision(file_name@) == Err::<(Seq<char>, Seq<char>), SoNameError>(
                error,
            ),
        },
{
    let so = ".so";
    proof {
        reveal_strlit(".so");
        assert(so@ =~= so_extension());
    }
    let (name, suffix) = match text_split_once(file_name, so) {
        Some(parts) => parts,
        None => return Err(SoNameError::NoSoExtension),
    };
    if suffix.is_empty() {
        return Ok((String::from_str(name), Version::empty()));
    }
    let dot = ".";
    proof {
        reveal_strlit(".");
        assert(dot@ =~= seq!['.']);
    }
    match strip_text_prefix(suffix, dot) {
        Some(version) => Ok((String::from_str(name), Version::from_text(version))),
        None => Err(SoNameError::BadVersionSuffix),
    }
}

/// Reads a library name and version requirement from a needed shared object file name.
pub fn parse_so_requirement(file_name: &str) -> (r: Result<(String, VersionRequirement), SoNameError>)
    ensures
        match r {
            Ok((name, requirement)) => so_requirement(file_name@) == Ok::<
                (Seq<char>, RequirementView),
                SoNameError,
            >((name@, requirement@)),
            Err(error) => so_requirement(file_name@) == Err::<
                (Seq<char>, RequirementView),
                SoNameError,
            >(error),
        },
{
    let (name, version) = match parse_so_provision(file_name) {
        Ok(parts) => parts,
        Err(error) => return Err(error),
    };
    let requirement = if version.is_empty() {
        VersionRequirement::Any
    } else {
        VersionRequirement::Exact(version)
    };
    Ok((name, requirement))
}

/// The map that inserting `entries` one after another makes: a later entry for a name
/// replaces an earlier one.
pub open spec fn entries_map(entries: Seq<(Seq<char>, RequirementView)>) -> Map<
    Seq<char>,
    RequirementView,
>
    decreases entries.len(),
{
    if entries.len() == 0 {
        Map::empty()
    } else {
        entries_map(entries.drop_last()).insert(entries.last().0, entries.last().1)
    }
}

pub open spec fn entry_views(entries: Seq<(String, VersionRequirement)>) -> Seq<
    (Seq<char>, RequirementView),
> {
    entries.map_values(|entry: (String, VersionRequirement)| (entry.0@, entry.1@))
}

pub open spec fn unique_names(entries: Seq<(Seq<char>, RequirementView)>) -> bool {
    forall|i: int, j: int| 0 <= i < j < entries.len() ==> entries[i].0 != entries[j].0
}

/// In a list without repeated names, the map has exactly the listed names, each with
/// its listed requirement.
pub proof fn lemma_unique_entries_map(entries: Seq<(Seq<char>, RequirementView)>)
    requires
        unique_names(entries),
    ensures
        forall|i: int|
            0 <= i < entries.len() ==> #[trigger] entries_map(entries).contains_key(entries[i].0)
                && entries_map(entries)[entries[i].0] == entries[i].1,
        forall|name: Seq<char>|
            #[trigger] entries_map(entries).contains_key(name) ==> exists|i: int|
                0 <= i < entries.len() && entries[i].0 == name,
    decreases entries.len(),
{
    if entries.len() > 0 {
        let front = entries.drop_last();
        let last = entries.last();
        assert(unique_names(front));
        lemma_unique_entries_map(front);
        assert forall|i: int| 0 <= i < entries.len() implies #[trigger] entries_map(
            entries,
        ).contains_key(entries[i].0) && entries_map(entries)[entries[i].0] == entries[i].1 by {
            if i < entries.len() - 1 {
                assert(front[i] == entries[i]);
                assert(entries[i].0 != last.0);
                assert(entries_map(front).contains_key(front[i].0));
            }
        }
        assert forall|name: Seq<char>| #[trigger]
            entries_map(entries).contains_key(name) implies exists|i: int|
            0 <= i < entries.len() && entries[i].0 == name by {
            if name != last.0 {
                assert(entries_map(front).contains_key(name));
                let i = choose|i: int| 0 <= i < front.len() && front[i].0 == name;
                assert(entries[i] == front[i]);
            } else {
                assert(entries[entries.len() - 1].0 == name);
            }
        }
    }
}

/// A shared object found in a package image, with the library it provides (if it
/// has a `SONAME`) and the libraries it needs.
#[derive(Debug)]
pub struct ElfNode {
    file_name: String,
    provides: Option<(String, Version)>,
    needs: Vec<(String, VersionRequirement)>,
}

impl ElfNode {
    #[verifier::type_invariant]
    closed spec fn needs_unique(self) -> bool {
        unique_names(entry_views(self.needs@))
    }

    pub closed spec fn file_name_spec(&self) -> Seq<char> {
        self.file_name@
    }

    /// The library name and version that the file provides.
    pub closed spec fn provides_spec(&self) -> Option<(Seq<char>, Seq<char>)> {
        match self.provides {
            Some((name, version)) => Some((name@, version@)),
            None => None,
        }
    }

    /// The libraries that the file needs, with their requirements.
    pub closed spec fn needs_spec(&self) -> Map<Seq<char>, RequirementView> {
        entries_map(entry_views(self.needs@))
    }

    /// The node for the file `file_name` with the `SONAME` `soname` that needs the
    /// shared objects `libraries`; names that cannot be read are left out, and a later
    /// need for a library replaces an earlier one.
    pub fn from_names(file_name: String, soname: Option<&str>, libraries: &Vec<String>) -> (r:
        ElfNode)
        ensures
            r.file_name_spec() == file_name@,
            r.provides_spec() == match soname {
                Some(soname) => match so_provision(soname@) {
                    Ok(provision) => Some(provision),
                    Err(_) => None,
                },
                None => None,
            },
            r.needs_spec() == entries_map(needed_libraries(libraries@)),
    {
        let provides = match soname {
            Some(soname) => match parse_so_provision(soname) {
                Ok(provision) => Some(provision),
                Err(_) => None,
            },
            None => None,
        };
        let mut needs: Vec<(String, VersionRequirement)> = Vec::new();
        let mut i: usize = 0;
        while i < libraries.len()
            invariant
                i <= libraries@.len(),
                unique_names(entry_views(needs@)),
                entries_map(entry_views(needs@)) == entries_map(
                    needed_libraries(libraries@.take(i as int)),
                ),
            decreases libraries@.len() - i,
        {
            proof {
                assert(libraries@.take(i + 1).drop_last() =~= libraries@.take(i as int));
            }
            match parse_so_requirement(libraries[i].as_str()) {
                Ok((name, requirement)) => {
                    proof {
                        assert(needed_libraries(libraries@.take(i + 1)) == needed_libraries(
                            libraries@.take(i as int),
                        ).push((name@, requirement@)));
                    }
                    let ghost entry = (name@, requirement@);
                    insert_need(&mut needs, name, requirement);
                    proof {
                        let pushed = needed_libraries(libraries@.take(i as int)).push(entry);
                        assert(pushed.drop_last() =~= needed_libraries(libraries@.take(i as int)));
                    }
                },
                Err(_) => {
                    proof {
                        assert(needed_libraries(libraries@.take(i + 1)) == needed_libraries(
                            libraries@.take(i as int),
                        ));
                    }
                },
            }
            i = i + 1;
        }
        proof {
            assert(libraries@.take(libraries@.len() as int) =~= libraries@);
        }
        ElfNode { file_name, provides, needs }
    }
}

/// The needs that the shared object file names `libraries` state, in order, leaving
/// out the names that cannot be read.
pub open spec fn needed_libraries(libraries: Seq<String>) -> Seq<(Seq<char>, RequirementView)>
    decreases libraries.len(),
{
    if libraries.len() == 0 {
        Seq::empty()
    } else {
        let front = needed_libraries(libraries.drop_last());
        match so_provision(libraries.last()@) {
            Err(_) => front,
            Ok((name, version)) => front.push(
                (
                    name,
                    if version.len() == 0 {
                        RequirementView::Any
                    } else {
                        RequirementView::Exact(version)
                    },
                ),
            ),
        }
    }
}

fn insert_need(needs: &mut Vec<(String, VersionRequirement)>, name: String, requirement: VersionRequirement)
    requires
        unique_names(entry_views(old(needs)@)),
    ensures
        unique_names(entry_views(final(needs)@)),
        entries_map(entry_views(final(needs)@)) == entries_map(entry_views(old(needs)@)).insert(
            name@,
            requirement@,
        ),
{
    let ghost before = entry_views(needs@);
    proof {
        lemma_unique_entries_map(before);
    }
    let mut i: usize = 0;
    while i < needs.len()
        invariant
            i <= needs@.len(),
            needs@ == old(needs)@,
            before == entry_views(needs@),
            unique_names(before),
            forall|j: int| 0 <= j < i ==> needs@[j].0@ != name@,
        decreases needs@.len() - i,
    {
        if needs[i].0 == name {
            proof {
                lemma_unique_entries_map(before);
                assert(before[i as int] == (needs@[i as int].0@, needs@[i as int].1@));
                assert(before[i as int].0 == name@);
            }
            let ghost name_view = name@;
            let ghost requirement_view = requirement@;
            needs.set(i, (name, requirement));
            proof {
                let after = entry_views(needs@);
                assert(after =~= before.update(i as int, (name_view, requirement_view)));
                assert(unique_names(after)) by {
                    assert forall|a: int, b: int| 0 <= a < b < after.len() implies after[a].0
                        != after[b].0 by {
                        assert(after[a].0 == before[a].0);
                        assert(after[b].0 == before[b].0);
                    }
                }
                lemma_unique_entries_map(after);
                assert(entries_map(after) =~= entries_map(before).insert(
                    name_view,
                    requirement_view,
                )) by {
                    assert forall|key: Seq<char>| #[trigger]
                        entries_map(after).contains_key(key) <==> entries_map(before).insert(
                            name_view,
                            requirement_view,
                        ).contains_key(key) by {
                        if entries_map(after).contains_key(key) {
                            let j = choose|j: int| 0 <= j < after.len() && after[j].0 == key;
                            assert(before[j].0 == key);
                            assert(entries_map(before).contains_key(before[j].0));
                        }
                        if entries_map(before).contains_key(key) {
                            let j = choose|j: int| 0 <= j < before.len() && before[j].0 == key;
                            assert(after[j].0 == key);
                            assert(entries_map(after).contains_key(after[j].0));
                        }
                        if key == name_view {
                            assert(after[i as int].0 == key);
                            assert(entries_map(after).contains_key(after[i as int].0));
                        }
                    }
                    assert forall|key: Seq<char>| #[trigger]
                        entries_map(after).contains_key(key) implies entries_map(after)[key]
                        == entries_map(before).insert(name_view, requirement_view)[key] by {
                        let j = choose|j: int| 0 <= j < after.len() && after[j].0 == key;
                        assert(entries_map(after).contains_key(after[j].0));
                        if j != i {
                            assert(after[j] == before[j]);
                            assert(entries_map(before).contains_key(before[j].0));
                        }
                    }
                }
            }
            return;
        }
        i = i + 1;
    }
    needs.push((name, requirement));
    proof {
        let after = entry_views(needs@);
        assert(after =~= before.push((name@, requirement@)));
        assert(after.drop_last() =~= before);
        assert(unique_names(after)) by {
            assert forall|a: int, b: int| 0 <= a < b < after.len() implies after[a].0
                != after[b].0 by {
                if b < before.len() {
                    assert(after[a] == before[a] && after[b] == before[b]);
                } else {
                    assert(after[a] == before[a]);
                    assert(before[a].0 == needs@[a].0@);
                }
            }
        }
    }
}

/// The version of `name` that the shared objects `elves` provide: that of the last
/// one providing it.
pub open spec fn last_provided(elves: Seq<ElfNode>, name: Seq<char>) -> Option<Seq<char>>
    decreases elves.len(),
{
    if elves.len() == 0 {
        None
    } else {
        match elves.last().provides_spec() {
            Some((provided, version)) => if provided == name {
                Some(version)
            } else {
                last_provided(elves.drop_last(), name)
            },
            None => last_provided(elves.drop_last(), name),
        }
    }
}

/// Whether the need for `name` with `needed` is met: a shared object of the package
/// provides a version that meets it, or the recipe declares a dependency on `name`
/// whose requirement always satisfies it.
pub open spec fn need_met(
    elves: Seq<ElfNode>,
    declared: Seq<(String, VersionRequirement)>,
    name: Seq<char>,
    needed: RequirementView,
) -> bool {
    ||| last_provided(elves, name) matches Some(version) && version_satisfies(version, needed)
    ||| lookup_requirement(declared, name) matches Some(requirement) && always_satisfies(
        requirement@,
        needed,
    )
}

/// Whether every need of every shared object in `elves` is met.
pub open spec fn all_needs_met(elves: Seq<ElfNode>, declared: Seq<(String, VersionRequirement)>) -> bool {
    forall|e: int, name: Seq<char>|
        0 <= e < elves.len() && #[trigger] elves[e].needs_spec().contains_key(name) ==> need_met(
            elves,
            declared,
            name,
            elves[e].needs_spec()[name],
        )
}

/// A library need that the package does not meet.
#[derive(Debug)]
pub enum RuntimeDependencyError {
    /// The library is neither provided by the package nor declared as a dependency.
    Undeclared { file_name: String, library: String, needed: VersionRequirement },
    /// The declared dependency on the library does not always satisfy the need.
    Incompatible {
        file_name: String,
        library: String,
        needed: VersionRequirement,
        declared: VersionRequirement,
    },
}

impl RuntimeDependencyError {
    pub open spec fn file_name_view(&self) -> Seq<char> {
        match *self {
            RuntimeDependencyError::Undeclared { file_name, .. } => file_name@,
            RuntimeDependencyError::Incompatible { file_name, .. } => file_name@,
        }
    }

    pub open spec fn library_view(&self) -> Seq<char> {
        match *self {
            RuntimeDependencyError::Undeclared { library, .. } => library@,
            RuntimeDependencyError::Incompatible { library, .. } => library@,
        }
    }

    pub open spec fn needed_view(&self) -> RequirementView {
        match *self {
            RuntimeDependencyError::Undeclared { needed, .. } => needed@,
            RuntimeDependencyError::Incompatible { needed, .. } => needed@,
        }
    }

    /// Whether this error reports a need of `elves` that is not met.
    pub open spec fn reports_unmet_need(
        &self,
        elves: Seq<ElfNode>,
        declared: Seq<(String, VersionRequirement)>,
    ) -> bool {
        &&& exists|e: int|
            0 <= e < elves.len() && elves[e].file_name_spec() == self.file_name_view()
                && #[trigger] elves[e].needs_spec().contains_key(self.library_view())
                && elves[e].needs_spec()[self.library_view()] == self.needed_view()
        &&& !need_met(elves, declared, self.library_view(), self.needed_view())
        &&& match *self {
            RuntimeDependencyError::Undeclared { .. } => lookup_requirement(
                declared,
                self.library_view(),
            ) is None,
            RuntimeDependencyError::Incompatible { declared: requirement, .. } => lookup_requirement(
                declared,
                self.library_view(),
            ) == Some(requirement),
        }
    }
}

fn find_provided<'a>(elves: &'a Vec<ElfNode>, name: &str) -> (r: Option<&'a Version>)
    ensures
        match r {
            Some(version) => last_provided(elves@, name@) == Some(version@),
            None => last_provided(elves@, name@) is None,
        },
{
    let mut i: usize = elves.len();
    assert(elves@.take(elves@.len() as int) =~= elves@);
    while i > 0
        invariant
            i <= elves@.len(),
            last_provided(elves@, name@) == last_provided(elves@.take(i as int), name@),
        decreases i,
    {
        let ghost front = elves@.take(i as int);
        assert(front.drop_last() =~= elves@.take(i - 1));
        assert(front.last() == elves@[i - 1]);
        i = i - 1;
        match &elves[i].provides {
            Some((provided, version)) => {
                if *provided == String::from_str(name) {
                    return Some(version);
                }
            },
            None => {},
        }
    }
    None
}

/// Checks that every library that a shared object of the package needs is provided
/// by the package or declared, in a compatible version, as a dependency of `recipe`.
pub fn check_runtime_dependencies(elves: &Vec<ElfNode>, recipe: &Recipe) -> (r: Result<
    (),
    RuntimeDependencyError,
>)
    ensures
        match r {
            Ok(()) => all_needs_met(elves@, recipe.dependencies.versions@),
            Err(error) => error.reports_unmet_need(elves@, recipe.dependencies.versions@),
        },
{
    let ghost declared = recipe.dependencies.versions@;
    let mut e: usize = 0;
    while e < elves.len()
        invariant
            e <= elves@.len(),
            declared == recipe.dependencies.versions@,
            forall|f: int, name: Seq<char>|
                0 <= f < e && #[trigger] elves@[f].needs_spec().contains_key(name) ==> need_met(
                    elves@,
                    declared,
                    name,
                    elves@[f].needs_spec()[name],
                ),
        decreases elves@.len() - e,
    {
        let elf = &elves[e];
        proof {
            use_type_invariant(elf);
            lemma_unique_entries_map(entry_views(elf.needs@));
        }
        let mut n: usize = 0;
        while n < elf.needs.len()
            invariant
                e < elves@.len(),
                *elf == elves@[e as int],
                n <= elf.needs@.len(),
                declared == recipe.dependencies.versions@,
                unique_names(entry_views(elf.needs@)),
                forall|j: int|
                    0 <= j < entry_views(elf.needs@).len() ==> #[trigger] entries_map(
                        entry_views(elf.needs@),
                    ).contains_key(entry_views(elf.needs@)[j].0) && entries_map(
                        entry_views(elf.needs@),
                    )[entry_views(elf.needs@)[j].0] == entry_views(elf.needs@)[j].1,
                forall|j: int|
                    0 <= j < n ==> need_met(
                        elves@,
                        declared,
                        #[trigger] elf.needs@[j].0@,
                        elf.needs@[j].1@,
                    ),
            decreases elf.needs@.len() - n,
        {
            let (name, needed) = (&elf.needs[n].0, &elf.needs[n].1);
            proof {
                assert(entry_views(elf.needs@)[n as int] == (name@, needed@));
            }
            let internally = match find_provided(elves, name.as_str()) {
                Some(version) => version.satisfies(needed),
                None => false,
            };
            proof {
                let views = entry_views(elf.needs@);
                assert(views[n as int] == (name@, needed@));
                assert(entries_map(views).contains_key(views[n as int].0));
                assert(elves@[e as int].needs_spec() == entries_map(views));
                assert(elves@[e as int].file_name_spec() == elf.file_name@);
                assert(elves@[e as int].needs_spec().contains_key(name@));
                assert(elves@[e as int].needs_spec()[name@] == needed@);
            }
            if !internally {
                match recipe.dependencies.get(name.as_str()) {
                    None => {
                        let error = RuntimeDependencyError::Undeclared {
                            file_name: elf.file_name.clone(),
                            library: name.clone(),
                            needed: needed.duplicate(),
                        };
                        proof {
                            assert(!need_met(elves@, declared, name@, needed@));
                            assert(error.library_view() == name@);
                            assert(error.file_name_view() == elf.file_name@);
                            assert(error.needed_view() == needed@);
                            let ee = e as int;
                            assert(0 <= ee < elves@.len() && elves@[ee].file_name_spec()
                                == elf.file_name@ && elves@[ee].needs_spec().contains_key(name@)
                                && elves@[ee].needs_spec()[name@] == needed@);
                            assert(error.reports_unmet_need(elves@, declared));
                        }
                        return Err(error);
                    },
                    Some(declared_requirement) => {
                        if !declared_requirement.always_satisfies(needed) {
                            return Err(
                                RuntimeDependencyError::Incompatible {
                                    file_name: elf.file_name.clone(),
                                    library: name.clone(),
                                    needed: needed.duplicate(),
                                    declared: declared_requirement.duplicate(),
                                },
                            );
                        }
                    },
                }
            }
            n = n + 1;
        }
        proof {
            assert forall|name: Seq<char>| #[trigger]
                elves@[e as int].needs_spec().contains_key(name) implies need_met(
                elves@,
                declared,
                name,
                elves@[e as int].needs_spec()[name],
            ) by {
                let views = entry_views(elf.needs@);
                let j = choose|j: int| 0 <= j < views.len() && views[j].0 == name;
                assert(views[j] == (elf.needs@[j].0@, elf.needs@[j].1@));
            }
        }
        e = e + 1;
    }
    Ok(())
}

/// What `goblin::elf::Elf::parse` finds in the bytes of a file: `None` when they are
/// not an ELF file it can read, otherwise the file's `SONAME` and the shared object
/// names that its dynamic section needs, in order.
pub uninterp spec fn elf_dynamic_names(bytes: Seq<u8>) -> Option<(Option<Seq<char>>, Seq<Seq<char>>)>;

/// Calls `goblin::elf::Elf::parse` and hands out the `soname` and `libraries` fields.
/// The contract claims only that these are the values `elf_dynamic_names` names.
#[verifier::external_body]
fn read_elf_names(bytes: &[u8]) -> (r: Option<(Option<String>, Vec<String>)>)
    ensures
        match r {
            Some((soname, libraries)) => elf_dynamic_names(bytes@) == Some(
                (
                    match soname {
                        Some(name) => Some(name@),
                        None => None,
                    },
                    libraries@.map_values(|library: String| library@),
                ),
            ),
            None => elf_dynamic_names(bytes@) is None,
        },
{
    match goblin::elf::Elf::parse(bytes) {
        Ok(elf) => Some((
            elf.soname.map(|name| name.to_string()),
            elf.libraries.iter().map(|library| library.to_string()).collect(),
        )),
        Err(_) => None,
    }
}

/// Whether `bytes` start with the ELF magic number `\x7fELF`.
pub open spec fn has_elf_magic(bytes: Seq<u8>) -> bool {
    bytes.len() >= 4 && bytes[0] == 0x7f && bytes[1] == 0x45 && bytes[2] == 0x4c && bytes[3]
        == 0x46
}

/// The node for the file `file_name` with the contents `bytes`, or `None` when the
/// file is not an ELF file.
pub fn parse_node(bytes: &[u8], file_name: String) -> (r: Option<ElfNode>)
    ensures
        match r {
            Some(node) => {
                &&& has_elf_magic(bytes@)
                &&& elf_dynamic_names(bytes@) matches Some((soname, libraries))
                &&& node.file_name_spec() == file_name@
                &&& node.provides_spec() == match soname {
                    Some(soname) => match so_provision(soname) {
                        Ok(provision) => Some(provision),
                        Err(_) => None,
                    },
                    None => None,
                }
                &&& node.needs_spec() == entries_map(needed_names(libraries))
            },
            None => !has_elf_magic(bytes@) || elf_dynamic_names(bytes@) is None,
        },
{
    if bytes.len() < 4 || bytes[0] != 0x7f || bytes[1] != 0x45 || bytes[2] != 0x4c || bytes[3]
        != 0x46 {
        return None;
    }
    match read_elf_names(bytes) {
        None => None,
        Some((soname, libraries)) => {
            let soname_text: Option<&str> = match &soname {
                Some(name) => Some(name.as_str()),
                None => None,
            };
            let node = ElfNode::from_names(file_name, soname_text, &libraries);
            proof {
                lemma_needed_names(libraries@);
            }
            Some(node)
        },
    }
}

/// The needs that shared object names state, in order, leaving out unreadable names.
pub open spec fn needed_names(libraries: Seq<Seq<char>>) -> Seq<(Seq<char>, RequirementView)>
    decreases libraries.len(),
{
    if libraries.len() == 0 {
        Seq::empty()
    } else {
        let front = needed_names(libraries.drop_last());
        match so_provision(libraries.last()) {
            Err(_) => front,
            Ok((name, version)) => front.push(
                (
                    name,
                    if version.len() == 0 {
                        RequirementView::Any
                    } else {
                        RequirementView::Exact(version)
                    },
                ),
            ),
        }
    }
}

proof fn lemma_needed_names(libraries: Seq<String>)
    ensures
        needed_libraries(libraries) == needed_names(
            libraries.map_values(|library: String| library@),
        ),
    decreases libraries.len(),
{
    if libraries.len() > 0 {
        lemma_needed_names(libraries.drop_last());
        assert(libraries.drop_last().map_values(|library: String| library@) =~= libraries.map_values(
            |library: String| library@,
        ).drop_last());
    }
}

/// The version that `last_provided` finds is the version that one of the shared
/// objects provides for that library.
proof fn lemma_last_provided_is_provided(elves: Seq<ElfNode>, name: Seq<char>)
    ensures
        last_provided(elves, name) matches Some(version) ==> exists|j: int|
            0 <= j < elves.len() && #[trigger] elves[j].provides_spec() == Some((name, version)),
    decreases elves.len(),
{
    if elves.len() > 0 {
        let front = elves.drop_last();
        lemma_last_provided_is_provided(front, name);
        if let Some(version) = last_provided(elves, name) {
            if elves.last().provides_spec() == Some((name, version)) {
                assert(elves[elves.len() - 1] == elves.last());
            } else {
                let j = choose|j: int|
                    0 <= j < front.len() && #[trigger] front[j].provides_spec() == Some(
                        (name, version),
                    );
                assert(elves[j] == front[j]);
            }
        }
    }
}

/// A library that a shared object of the package needs, that the recipe declares no
/// dependency on, and that no shared object of the package provides in a version
/// meeting the need, is an unmet need: the package's needs are not all met, so
/// `check_runtime_dependencies` refuses the package. A library of the same name inside
/// the package in a version that does not meet the need does not help.
pub proof fn lemma_unsatisfying_provision_is_unmet(
    elves: Seq<ElfNode>,
    declared: Seq<(String, VersionRequirement)>,
    e: int,
    name: Seq<char>,
)
    requires
        0 <= e < elves.len(),
        elves[e].needs_spec().contains_key(name),
        lookup_requirement(declared, name) is None,
        forall|j: int|
            0 <= j < elves.len() && (#[trigger] elves[j].provides_spec()) is Some
                && elves[j].provides_spec().unwrap().0 == name ==> !version_satisfies(
                elves[j].provides_spec().unwrap().1,
                elves[e].needs_spec()[name],
            ),
    ensures
        !all_needs_met(elves, declared),
{
    lemma_last_provided_is_provided(elves, name);
    let needed = elves[e].needs_spec()[name];
    if let Some(version) = last_provided(elves, name) {
        let j = choose|j: int|
            0 <= j < elves.len() && #[trigger] elves[j].provides_spec() == Some((name, version));
        assert(!version_satisfies(version, needed));
    }
    assert(!need_met(elves, declared, name, needed));
}

/// A need that the last shared object of the package providing the library meets in
/// version is met, whatever the recipe declares.
pub proof fn lemma_satisfying_provision_meets_need(
    elves: Seq<ElfNode>,
    declared: Seq<(String, VersionRequirement)>,
    j: int,
    name: Seq<char>,
    needed: RequirementView,
)
    requires
        0 <= j < elves.len(),
        elves[j].provides_spec() is Some,
        elves[j].provides_spec().unwrap().0 == name,
        version_satisfies(elves[j].provides_spec().unwrap().1, needed),
        forall|k: int|
            j < k < elves.len() && (#[trigger] elves[k].provides_spec()) is Some
                ==> elves[k].provides_spec().unwrap().0 != name,
    ensures
        need_met(elves, declared, name, needed),
    decreases elves.len(),
{
    if j < elves.len() - 1 {
        let front = elves.drop_last();
        assert(elves.last() == elves[elves.len() - 1]);
        assert forall|k: int|
            j < k < front.len() && (#[trigger] front[k].provides_spec()) is Some implies front[k].provides_spec().unwrap().0
                != name by {
            assert(front[k] == elves[k]);
        }
        assert(front[j] == elves[j]);
        lemma_satisfying_provision_meets_need(front, declared, j, name, needed);
        assert(last_provided(elves, name) == last_provided(front, name));
    } else {
        assert(elves.last() == elves[j]);
    }
}

} // verus!
