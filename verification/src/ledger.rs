//! Ledgers: which files each installed package owns, with the hash of each file.
use crate::directories::TargetDirectories;
use crate::path::{push_path, TargetPath};
use crate::recipe::Recipe;
use crate::version::{version_satisfies, Version, VersionRequirement};
use vstd::prelude::*;

verus! {

/// The files of one package's image, each with its hash.
#[derive(Debug)]
pub struct ImageLedger {
    /// The name of the package.
    name: String,
    /// The version of the package.
    version: Version,
    hashes: Vec<(TargetPath, u64)>,
}

pub open spec fn hash_views(hashes: Seq<(TargetPath, u64)>) -> Seq<(Seq<char>, u64)> {
    hashes.map_values(|entry: (TargetPath, u64)| (entry.0@, entry.1))
}

/// Whether no path occurs twice among `entries`.
pub open spec fn unique_paths(entries: Seq<(Seq<char>, u64)>) -> bool {
    forall|i: int, j: int| 0 <= i < j < entries.len() ==> entries[i].0 != entries[j].0
}

/// The hash of `path` among `entries`, if it is there.
pub open spec fn hash_of(entries: Seq<(Seq<char>, u64)>, path: Seq<char>) -> Option<u64>
    decreases entries.len(),
{
    if entries.len() == 0 {
        None
    } else if entries[0].0 == path {
        Some(entries[0].1)
    } else {
        hash_of(entries.drop_first(), path)
    }
}

proof fn lemma_hash_of_found(entries: Seq<(Seq<char>, u64)>, i: int)
    requires
        unique_paths(entries),
        0 <= i < entries.len(),
    ensures
        hash_of(entries, entries[i].0) == Some(entries[i].1),
    decreases entries.len(),
{
    if i > 0 {
        assert(entries[0].0 != entries[i].0);
        assert(unique_paths(entries.drop_first()));
        lemma_hash_of_found(entries.drop_first(), i - 1);
    }
}

proof fn lemma_hash_of_absent(entries: Seq<(Seq<char>, u64)>, path: Seq<char>)
    requires
        forall|i: int| 0 <= i < entries.len() ==> entries[i].0 != path,
    ensures
        hash_of(entries, path) is None,
    decreases entries.len(),
{
    if entries.len() > 0 {
        lemma_hash_of_absent(entries.drop_first(), path);
    }
}

impl ImageLedger {
    #[verifier::type_invariant]
    closed spec fn paths_unique(self) -> bool {
        unique_paths(hash_views(self.hashes@))
    }

    pub closed spec fn name_spec(&self) -> Seq<char> {
        self.name@
    }

    pub closed spec fn version_spec(&self) -> Seq<char> {
        self.version@
    }

    /// The files with their hashes, each file once, in the order they were added.
    pub closed spec fn hashes_spec(&self) -> Seq<(Seq<char>, u64)> {
        hash_views(self.hashes@)
    }

    /// The ledger of `recipe`'s package before any file is added.
    pub fn empty(recipe: &Recipe) -> (r: ImageLedger)
        ensures
            r.name_spec() == recipe.name@,
            r.version_spec() == recipe.version@,
            r.hashes_spec().len() == 0,
    {
        let ledger = ImageLedger {
            name: recipe.name.clone(),
            version: recipe.version.clone(),
            hashes: Vec::new(),
        };
        proof {
            assert(hash_views(ledger.hashes@) =~= Seq::<(Seq<char>, u64)>::empty());
        }
        ledger
    }

    /// A ledger for the package `name` in version `version` with the files `hashes`,
    /// where a later hash for a file replaces an earlier one.
    pub fn from_parts(name: String, version: Version, hashes: Vec<(TargetPath, u64)>) -> (r:
        ImageLedger)
        ensures
            r.name_spec() == name@,
            r.version_spec() == version@,
            forall|path: Seq<char>|
                #[trigger] hash_of(r.hashes_spec(), path) == last_hash(hash_views(hashes@), path),
    {
        let mut ledger = ImageLedger { name, version, hashes: Vec::new() };
        proof {
            assert(hash_views(ledger.hashes@) =~= Seq::<(Seq<char>, u64)>::empty());
        }
        let ghost all = hash_views(hashes@);
        let mut i: usize = 0;
        while i < hashes.len()
            invariant
                all == hash_views(hashes@),
                i <= hashes@.len(),
                ledger.name_spec() == name@,
                ledger.version_spec() == version@,
                forall|path: Seq<char>|
                    #[trigger] hash_of(ledger.hashes_spec(), path) == last_hash(
                        all.take(i as int),
                        path,
                    ),
            decreases hashes@.len() - i,
        {
            let file = hashes[i].0.duplicate();
            let hash = hashes[i].1;
            proof {
                assert(all.take(i + 1).drop_last() =~= all.take(i as int));
                assert(all.take(i + 1).last() == (file@, hash));
            }
            ledger.insert(file, hash);
            i = i + 1;
        }
        proof {
            assert(all.take(hashes@.len() as int) =~= all);
        }
        ledger
    }

    /// The name of the package.
    pub fn name(&self) -> (r: &str)
        ensures
            r@ == self.name_spec(),
    {
        self.name.as_str()
    }

    /// The version of the package.
    pub fn version(&self) -> (r: &Version)
        ensures
            r@ == self.version_spec(),
    {
        &self.version
    }

    /// The files with their hashes, each path once.
    pub fn files(&self) -> (r: Vec<(&TargetPath, u64)>)
        ensures
            unique_paths(self.hashes_spec()),
            forall|i: int, j: int| 0 <= i < j < r@.len() ==> (#[trigger] r@[i]).0@ != (#[trigger] r@[j]).0@,
            r@.len() == self.hashes_spec().len(),
            forall|j: int|
                0 <= j < r@.len() ==> ((#[trigger] r@[j]).0@, r@[j].1) == self.hashes_spec()[j],
    {
        proof {
            use_type_invariant(self);
        }
        let mut files: Vec<(&TargetPath, u64)> = Vec::new();
        let mut i: usize = 0;
        while i < self.hashes.len()
            invariant
                i <= self.hashes@.len(),
                files@.len() == i,
                forall|j: int|
                    0 <= j < i ==> ((#[trigger] files@[j]).0@, files@[j].1) == hash_views(
                        self.hashes@,
                    )[j],
            decreases self.hashes@.len() - i,
        {
            let entry = &self.hashes[i];
            files.push((&entry.0, entry.1));
            i = i + 1;
        }
        files
    }

    /// Records `hash` as the hash of `file`, replacing any earlier hash of it.
    pub fn insert(&mut self, file: TargetPath, hash: u64)
        ensures
            final(self).name_spec() == old(self).name_spec(),
            final(self).version_spec() == old(self).version_spec(),
            forall|path: Seq<char>|
                #[trigger] hash_of(final(self).hashes_spec(), path) == if path == file@ {
                    Some(hash)
                } else {
                    hash_of(old(self).hashes_spec(), path)
                },
    {
        proof {
            use_type_invariant(&*self);
        }
        let ghost before = self.hashes_spec();
        let mut hashes: Vec<(TargetPath, u64)> = Vec::new();
        std::mem::swap(&mut hashes, &mut self.hashes);
        let ghost file_view = file@;
        let mut i: usize = 0;
        let mut found: Option<usize> = None;
        while i < hashes.len()
            invariant_except_break
                found is None,
            invariant
                i <= hashes@.len(),
                before == hash_views(hashes@),
                unique_paths(before),
                file_view == file@,
                forall|j: int| 0 <= j < i ==> before[j].0 != file_view,
            ensures
                match found {
                    Some(index) => index < hashes@.len() && before[index as int].0 == file_view,
                    None => forall|j: int| 0 <= j < before.len() ==> before[j].0 != file_view,
                },
            decreases hashes@.len() - i,
        {
            if hashes[i].0.equals(&file) {
                found = Some(i);
                break;
            }
            i = i + 1;
        }
        match found {
            Some(index) => {
                hashes.set(index, (file, hash));
                proof {
                    let after = hash_views(hashes@);
                    let index = index as int;
                    assert(after =~= before.update(index, (file_view, hash)));
                    assert(unique_paths(after)) by {
                        assert forall|a: int, b: int| 0 <= a < b < after.len() implies after[a].0
                            != after[b].0 by {
                            assert(after[a].0 == before[a].0);
                            assert(after[b].0 == before[b].0);
                        }
                    }
                    assert forall|path: Seq<char>| #[trigger]
                        hash_of(after, path) == if path == file_view {
                            Some(hash)
                        } else {
                            hash_of(before, path)
                        } by {
                        if path == file_view {
                            lemma_hash_of_found(after, index);
                        } else if exists|j: int| 0 <= j < before.len() && before[j].0 == path {
                            let j = choose|j: int| 0 <= j < before.len() && before[j].0 == path;
                            lemma_hash_of_found(before, j);
                            lemma_hash_of_found(after, j);
                        } else {
                            lemma_hash_of_absent(before, path);
                            lemma_hash_of_absent(after, path);
                        }
                    }
                }
            },
            None => {
                hashes.push((file, hash));
                proof {
                    let after = hash_views(hashes@);
                    assert(after =~= before.push((file_view, hash)));
                    assert(unique_paths(after));
                    assert forall|path: Seq<char>| #[trigger]
                        hash_of(after, path) == if path == file_view {
                            Some(hash)
                        } else {
                            hash_of(before, path)
                        } by {
                        if path == file_view {
                            lemma_hash_of_found(after, before.len() as int);
                        } else if exists|j: int| 0 <= j < before.len() && before[j].0 == path {
                            let j = choose|j: int| 0 <= j < before.len() && before[j].0 == path;
                            lemma_hash_of_found(before, j);
                            lemma_hash_of_found(after, j);
                        } else {
                            lemma_hash_of_absent(before, path);
                            lemma_hash_of_absent(after, path);
                        }
                    }
                }
            },
        }
        self.hashes = hashes;
    }
}

/// The files of `image`, each with the name of its package and its hash.
pub open spec fn image_files(image: ImageLedger) -> Seq<(Seq<char>, Seq<char>, u64)> {
    image.hashes_spec().map_values(|entry: (Seq<char>, u64)| (image.name_spec(), entry.0, entry.1))
}

/// The files of all `packages`, package after package.
pub open spec fn ledger_files(packages: Seq<ImageLedger>) -> Seq<(Seq<char>, Seq<char>, u64)>
    decreases packages.len(),
{
    if packages.len() == 0 {
        Seq::empty()
    } else {
        ledger_files(packages.drop_last()) + image_files(packages.last())
    }
}

/// The hash of the first of `files` that is `path`.
pub open spec fn first_file_hash(files: Seq<(Seq<char>, Seq<char>, u64)>, path: Seq<char>) -> Option<
    u64,
>
    decreases files.len(),
{
    if files.len() == 0 {
        None
    } else if files[0].1 == path {
        Some(files[0].2)
    } else {
        first_file_hash(files.drop_first(), path)
    }
}

/// The ledger of everything installed on a system: the packages with their files.
#[derive(Debug)]
pub struct SystemLedger {
    path: TargetPath,
    packages: Vec<ImageLedger>,
}

pub open spec fn ledger_path(target: crate::directories::TargetLayout) -> Seq<char> {
    push_path(target.data, "package-manager/ledger.toml"@)
}

impl SystemLedger {
    pub closed spec fn path_spec(&self) -> Seq<char> {
        self.path@
    }

    pub closed spec fn packages_spec(&self) -> Seq<ImageLedger> {
        self.packages@
    }

    /// An empty ledger kept in the target's data directory.
    pub fn new(target: &TargetDirectories) -> (r: SystemLedger)
        ensures
            r.path_spec() == ledger_path(target@),
            r.packages_spec().len() == 0,
    {
        SystemLedger {
            path: target.data().with_suffix("package-manager/ledger.toml"),
            packages: Vec::new(),
        }
    }

    /// The ledger kept in the target's data directory, holding `packages`.
    pub fn from_packages(target: &TargetDirectories, packages: Vec<ImageLedger>) -> (r:
        SystemLedger)
        ensures
            r.path_spec() == ledger_path(target@),
            r.packages_spec() == packages@,
    {
        SystemLedger {
            path: target.data().with_suffix("package-manager/ledger.toml"),
            packages,
        }
    }

    /// Where the ledger is kept on the target.
    pub fn path(&self) -> (r: &TargetPath)
        ensures
            r@ == self.path_spec(),
    {
        &self.path
    }

    pub fn packages(&self) -> (r: &Vec<ImageLedger>)
        ensures
            r@ == self.packages_spec(),
    {
        &self.packages
    }

    /// Whether a package `package_name` in a version that meets `version_requirement`
    /// is installed.
    pub fn contains(&self, package_name: &str, version_requirement: &VersionRequirement) -> (r:
        bool)
        ensures
            r == exists|i: int|
                0 <= i < self.packages_spec().len() && (#[trigger] self.packages_spec()[i]).name_spec()
                    == package_name@ && version_satisfies(
                    self.packages_spec()[i].version_spec(),
                    version_requirement@,
                ),
    {
        let mut i: usize = 0;
        while i < self.packages.len()
            invariant
                i <= self.packages@.len(),
                forall|j: int|
                    0 <= j < i ==> !((#[trigger] self.packages@[j]).name_spec() == package_name@
                        && version_satisfies(self.packages@[j].version_spec(), version_requirement@)),
            decreases self.packages@.len() - i,
        {
            let package = &self.packages[i];
            if package.name == String::from_str(package_name) && package.version.satisfies(
                version_requirement,
            ) {
                proof {
                    assert(self.packages@[i as int].name_spec() == package_name@);
                    assert(self.packages_spec()[i as int] == self.packages@[i as int]);
                    assert(version_satisfies(
                        self.packages@[i as int].version_spec(),
                        version_requirement@,
                    ));
                }
                return true;
            }
            i = i + 1;
        }
        false
    }

    /// Adds the ledger of a package's image.
    pub fn add_image(&mut self, image: ImageLedger)
        ensures
            final(self).path_spec() == old(self).path_spec(),
            final(self).packages_spec() == old(self).packages_spec().push(image),
    {
        self.packages.push(image);
    }

    /// Every file of every package, with the name of its package and its hash.
    pub fn files(&self) -> (r: Vec<(&str, &TargetPath, u64)>)
        ensures
            r@.len() == ledger_files(self.packages_spec()).len(),
            forall|j: int|
                0 <= j < r@.len() ==> ((#[trigger] r@[j]).0@, r@[j].1@, r@[j].2) == ledger_files(
                    self.packages_spec(),
                )[j],
    {
        let mut files: Vec<(&str, &TargetPath, u64)> = Vec::new();
        let mut p: usize = 0;
        let ghost packages = self.packages@;
        assert(packages.take(0) =~= Seq::<ImageLedger>::empty());
        while p < self.packages.len()
            invariant
                packages == self.packages@,
                p <= packages.len(),
                files@.len() == ledger_files(packages.take(p as int)).len(),
                forall|j: int|
                    0 <= j < files@.len() ==> ((#[trigger] files@[j]).0@, files@[j].1@, files@[j].2)
                        == ledger_files(packages.take(p as int))[j],
            decreases packages.len() - p,
        {
            let package = &self.packages[p];
            let entries = package.files();
            let ghost prefix = ledger_files(packages.take(p as int));
            let mut k: usize = 0;
            while k < entries.len()
                invariant
                    packages == self.packages@,
                    p < packages.len(),
                    *package == packages[p as int],
                    entries@.len() == package.hashes_spec().len(),
                    forall|j: int|
                        0 <= j < entries@.len() ==> ((#[trigger] entries@[j]).0@, entries@[j].1)
                            == package.hashes_spec()[j],
                    prefix == ledger_files(packages.take(p as int)),
                    k <= entries@.len(),
                    files@.len() == prefix.len() + k,
                    forall|j: int|
                        0 <= j < files@.len() ==> ((#[trigger] files@[j]).0@, files@[j].1@, files@[j].2)
                            == (prefix + image_files(*package))[j],
                decreases entries@.len() - k,
            {
                files.push((package.name.as_str(), entries[k].0, entries[k].1));
                proof {
                    let j = files@.len() - 1;
                    assert(files@[j].0@ == package.name@);
                    assert(files@[j].1 == entries@[k as int].0);
                    assert(files@[j].2 == entries@[k as int].1);
                    assert((prefix + image_files(*package))[j] == image_files(*package)[k as int]);
                }
                k = k + 1;
            }
            proof {
                assert(packages.take(p + 1).drop_last() =~= packages.take(p as int));
                assert(packages.take(p + 1).last() == *package);
                assert(ledger_files(packages.take(p + 1)) == prefix + image_files(*package));
            }
            p = p + 1;
        }
        proof {
            assert(packages.take(packages.len() as int) =~= packages);
        }
        files
    }

    /// The hash that the ledger records for `file`: that of the first entry for it.
    pub fn hash(&self, file: &TargetPath) -> (r: Option<u64>)
        ensures
            r == first_file_hash(ledger_files(self.packages_spec()), file@),
    {
        let files = self.files();
        let ghost all = ledger_files(self.packages_spec());
        let mut i: usize = 0;
        assert(all.skip(0) =~= all);
        while i < files.len()
            invariant
                all == ledger_files(self.packages_spec()),
                i <= files@.len(),
                files@.len() == all.len(),
                forall|j: int|
                    0 <= j < files@.len() ==> ((#[trigger] files@[j]).0@, files@[j].1@, files@[j].2)
                        == all[j],
                first_file_hash(all, file@) == first_file_hash(all.skip(i as int), file@),
            decreases files@.len() - i,
        {
            proof {
                assert(all.skip(i as int).drop_first() =~= all.skip(i + 1));
                assert(all.skip(i as int)[0] == all[i as int]);
                assert(files@[i as int].1@ == all[i as int].1);
            }
            if files[i].1.equals(file) {
                proof {
                    assert(all.skip(i as int)[0].1 == file@);
                    assert(first_file_hash(all.skip(i as int), file@) == Some(all[i as int].2));
                    assert(files@[i as int].2 == all[i as int].2);
                    assert(all == ledger_files(self.packages_spec()));
                }
                return Some(files[i].2);
            }
            i = i + 1;
        }
        None
    }
}

/// The hash of `path` in `entries` where a later entry for a path replaces an earlier.
pub open spec fn last_hash(entries: Seq<(Seq<char>, u64)>, path: Seq<char>) -> Option<u64>
    decreases entries.len(),
{
    if entries.len() == 0 {
        None
    } else if entries.last().0 == path {
        Some(entries.last().1)
    } else {
        last_hash(entries.drop_last(), path)
    }
}

proof fn lemma_first_file_hash_concat(
    front: Seq<(Seq<char>, Seq<char>, u64)>,
    back: Seq<(Seq<char>, Seq<char>, u64)>,
    path: Seq<char>,
)
    ensures
        first_file_hash(front + back, path) == match first_file_hash(front, path) {
            Some(hash) => Some(hash),
            None => first_file_hash(back, path),
        },
    decreases front.len(),
{
    if front.len() > 0 {
        assert((front + back).drop_first() =~= front.drop_first() + back);
        assert((front + back)[0] == front[0]);
        lemma_first_file_hash_concat(front.drop_first(), back, path);
    } else {
        assert(front + back =~= back);
    }
}

proof fn lemma_first_file_hash_of_entries(
    name: Seq<char>,
    entries: Seq<(Seq<char>, u64)>,
    path: Seq<char>,
)
    ensures
        first_file_hash(
            entries.map_values(|entry: (Seq<char>, u64)| (name, entry.0, entry.1)),
            path,
        ) == hash_of(entries, path),
    decreases entries.len(),
{
    let files = entries.map_values(|entry: (Seq<char>, u64)| (name, entry.0, entry.1));
    if entries.len() > 0 {
        assert(files.drop_first() =~= entries.drop_first().map_values(
            |entry: (Seq<char>, u64)| (name, entry.0, entry.1),
        ));
        lemma_first_file_hash_of_entries(name, entries.drop_first(), path);
    }
}

/// Reading back what was recorded: once an image is added to a ledger, the ledger
/// gives for a file the hash that an earlier package records for it, if one does, and
/// otherwise the hash that the new image records.
pub proof fn lemma_hash_after_add_image(
    packages: Seq<ImageLedger>,
    image: ImageLedger,
    path: Seq<char>,
)
    ensures
        first_file_hash(ledger_files(packages.push(image)), path) == match first_file_hash(
            ledger_files(packages),
            path,
        ) {
            Some(hash) => Some(hash),
            None => hash_of(image.hashes_spec(), path),
        },
{
    let added = packages.push(image);
    assert(added.drop_last() =~= packages);
    assert(ledger_files(added) == ledger_files(packages) + image_files(image));
    lemma_first_file_hash_concat(ledger_files(packages), image_files(image), path);
    lemma_first_file_hash_of_entries(image.name_spec(), image.hashes_spec(), path);
}

} // verus!
