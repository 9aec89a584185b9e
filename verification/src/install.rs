//! The decisions taken when installing staged files: which files may be written,
//! which need a backup, and which installation is refused.
use crate::directories::HostDirectories;
use crate::ledger::{first_file_hash, ledger_files, ImageLedger, SystemLedger};
use crate::text::contains_char;
use crate::path::{path_strip_prefix, path_with_extension, push_path, HostPath, TargetPath};
use vstd::prelude::*;

verus! {

/// The extension of the temporary copy of a file being installed.
pub const TEMPORARY_EXTENSION: &'static str = "package-manager-temporary";

/// The extension of the backup of a file being replaced.
pub const BACKUP_EXTENSION: &'static str = "package-manager-backup";

pub open spec fn temporary_extension() -> Seq<char> {
    "package-manager-temporary"@
}

pub open spec fn backup_extension() -> Seq<char> {
    "package-manager-backup"@
}

/// Neither extension holds a path separator.
proof fn lemma_extensions_without_separator()
    ensures
        !contains_char(temporary_extension(), '/'),
        !contains_char(backup_extension(), '/'),
{
    reveal_strlit("package-manager-temporary");
    reveal_strlit("package-manager-backup");
    assert forall|i: int| 0 <= i < temporary_extension().len() implies temporary_extension()[i]
        != '/' by {}
    assert forall|i: int| 0 <= i < backup_extension().len() implies backup_extension()[i] != '/' by {}
}

/// How a file to install relates to what is already on the system.
#[derive(Clone, Copy, Debug, PartialEq, Eq, Structural)]
pub enum ConflictCheckResult {
    /// The file did not exist in the last generation.
    New,
    /// The file existed in the last generation and has not been modified.
    Updated,
    /// The file existed on the system but was not managed by the package manager.
    Unmanaged,
    /// The file is managed but was modified since the last generation.
    Modified,
    /// The file was the same in the last generation.
    RemainsSame,
}

/// How a file relates to the system: `exists` tells whether it is on the system,
/// `old_hash` is the hash the old ledger records for it, `existing_hash` the hash of
/// the file on the system, and `new_hash` the hash of the file to install.
pub open spec fn conflict_spec(
    exists: bool,
    old_hash: Option<u64>,
    existing_hash: Option<u64>,
    new_hash: u64,
) -> ConflictCheckResult {
    if !exists {
        ConflictCheckResult::New
    } else {
        match old_hash {
            None => ConflictCheckResult::Unmanaged,
            Some(old) => if existing_hash == Some(old) {
                if old == new_hash {
                    ConflictCheckResult::RemainsSame
                } else {
                    ConflictCheckResult::Updated
                }
            } else {
                ConflictCheckResult::Modified
            },
        }
    }
}

/// What is known of a file to install on the system: whether it exists there and,
/// when it does and the old ledger records it, the hash of its contents.
#[derive(Clone, Copy, Debug)]
pub struct FileObservation {
    pub exists: bool,
    pub existing_hash: Option<u64>,
}

/// Whether `observation` of `file` holds the hash that a conflict check needs.
pub open spec fn observation_complete(
    observation: FileObservation,
    old_ledger: SystemLedger,
    file: Seq<char>,
) -> bool {
    observation.exists && first_file_hash(ledger_files(old_ledger.packages_spec()), file) is Some
        ==> observation.existing_hash is Some
}

/// Classifies `file`, whose new contents hash to `new_hash`, against the old ledger
/// and what is on the system.
pub fn check_conflict(
    file: &TargetPath,
    new_hash: u64,
    old_ledger: &SystemLedger,
    observation: FileObservation,
) -> (r: ConflictCheckResult)
    requires
        observation_complete(observation, *old_ledger, file@),
    ensures
        r == conflict_spec(
            observation.exists,
            first_file_hash(ledger_files(old_ledger.packages_spec()), file@),
            observation.existing_hash,
            new_hash,
        ),
{
    if observation.exists {
        match old_ledger.hash(file) {
            Some(old_hash) => {
                let existing_hash = match observation.existing_hash {
                    Some(hash) => hash,
                    None => {
                        proof {
                            assert(false);
                        }
                        0
                    },
                };
                if old_hash == existing_hash {
                    if old_hash == new_hash {
                        ConflictCheckResult::RemainsSame
                    } else {
                        ConflictCheckResult::Updated
                    }
                } else {
                    ConflictCheckResult::Modified
                }
            },
            None => ConflictCheckResult::Unmanaged,
        }
    } else {
        ConflictCheckResult::New
    }
}

/// Installing a file: copy it to `temporary`, back the old file up to `backup` if
/// there is one to keep, then move the temporary copy to `file`.
#[derive(Debug)]
pub struct InstallOperation {
    pub file: TargetPath,
    pub temporary: TargetPath,
    pub backup: Option<TargetPath>,
}

/// The texts of an operation's paths.
pub open spec fn operation_view(operation: InstallOperation) -> (Seq<char>, Seq<char>, Option<
    Seq<char>,
>) {
    (
        operation.file@,
        operation.temporary@,
        match operation.backup {
            Some(backup) => Some(backup@),
            None => None,
        },
    )
}

/// The operation that installing `file` takes, given how it relates to the system.
pub open spec fn operation_for(conflict: ConflictCheckResult, file: Seq<char>) -> Option<
    (Seq<char>, Seq<char>, Option<Seq<char>>),
> {
    match conflict {
        ConflictCheckResult::New => Some(
            (file, path_with_extension(file, temporary_extension()), None),
        ),
        ConflictCheckResult::Updated => Some(
            (
                file,
                path_with_extension(file, temporary_extension()),
                Some(path_with_extension(file, backup_extension())),
            ),
        ),
        _ => None,
    }
}

/// Whether a file in this relation to the system may not be overwritten.
pub open spec fn is_refused(conflict: ConflictCheckResult) -> bool {
    conflict == ConflictCheckResult::Unmanaged || conflict == ConflictCheckResult::Modified
}

/// Why an installation is refused.
#[derive(Debug)]
pub enum InstallError {
    /// Installing the package `recipe` would overwrite the unmanaged file `file`.
    UnmanagedFile { recipe: String, file: TargetPath },
    /// The file `file` of the package `recipe` was modified since the last installation.
    ModifiedFile { recipe: String, file: TargetPath },
}

impl InstallError {
    pub open spec fn file_view(&self) -> Seq<char> {
        match *self {
            InstallError::UnmanagedFile { file, .. } => file@,
            InstallError::ModifiedFile { file, .. } => file@,
        }
    }

    pub open spec fn conflict_view(&self) -> ConflictCheckResult {
        match *self {
            InstallError::UnmanagedFile { .. } => ConflictCheckResult::Unmanaged,
            InstallError::ModifiedFile { .. } => ConflictCheckResult::Modified,
        }
    }
}

/// Records the operation that `conflict` calls for on `file`, or refuses it.
pub fn handle_conflict(
    conflict: &ConflictCheckResult,
    recipe: &str,
    file: &TargetPath,
    operations: &mut Vec<InstallOperation>,
) -> (r: Result<(), InstallError>)
    ensures
        match r {
            Ok(()) => !is_refused(*conflict) && final(operations)@.map_values(
                |operation: InstallOperation| operation_view(operation),
            ) == match operation_for(*conflict, file@) {
                Some(operation) => old(operations)@.map_values(
                    |operation: InstallOperation| operation_view(operation),
                ).push(operation),
                None => old(operations)@.map_values(
                    |operation: InstallOperation| operation_view(operation),
                ),
            },
            Err(error) => is_refused(*conflict) && error.conflict_view() == *conflict
                && error.file_view() == file@ && final(operations)@ == old(operations)@,
        },
{
    let ghost before = operations@;
    proof {
        lemma_extensions_without_separator();
        reveal_strlit("package-manager-temporary");
        reveal_strlit("package-manager-backup");
    }
    match conflict {
        ConflictCheckResult::New => {
            operations.push(
                InstallOperation {
                    file: file.duplicate(),
                    temporary: file.with_extension(TEMPORARY_EXTENSION),
                    backup: None,
                },
            );
            proof {
                reveal_strlit("package-manager-temporary");
                assert(operations@.map_values(|operation: InstallOperation| operation_view(operation))
                    =~= before.map_values(|operation: InstallOperation| operation_view(operation)).push(
                    operation_for(*conflict, file@).unwrap(),
                ));
            }
        },
        ConflictCheckResult::Updated => {
            operations.push(
                InstallOperation {
                    file: file.duplicate(),
                    temporary: file.with_extension(TEMPORARY_EXTENSION),
                    backup: Some(file.with_extension(BACKUP_EXTENSION)),
                },
            );
            proof {
                reveal_strlit("package-manager-temporary");
                reveal_strlit("package-manager-backup");
                assert(operations@.map_values(|operation: InstallOperation| operation_view(operation))
                    =~= before.map_values(|operation: InstallOperation| operation_view(operation)).push(
                    operation_for(*conflict, file@).unwrap(),
                ));
            }
        },
        ConflictCheckResult::Unmanaged => {
            return Err(
                InstallError::UnmanagedFile { recipe: String::from_str(recipe), file: file.duplicate() },
            );
        },
        ConflictCheckResult::Modified => {
            return Err(
                InstallError::ModifiedFile { recipe: String::from_str(recipe), file: file.duplicate() },
            );
        },
        ConflictCheckResult::RemainsSame => {},
    }
    Ok(())
}

/// The operation that installs the ledger itself; it is backed up when it exists.
pub fn ledger_install(ledger: &SystemLedger, ledger_exists: bool) -> (r: InstallOperation)
    ensures
        operation_view(r) == (
            ledger.path_spec(),
            path_with_extension(ledger.path_spec(), temporary_extension()),
            if ledger_exists {
                Some(path_with_extension(ledger.path_spec(), backup_extension()))
            } else {
                None
            },
        ),
{
    proof {
        lemma_extensions_without_separator();
        reveal_strlit("package-manager-temporary");
        reveal_strlit("package-manager-backup");
    }
    InstallOperation {
        file: ledger.path().duplicate(),
        temporary: ledger.path().with_extension(TEMPORARY_EXTENSION),
        backup: if ledger_exists {
            Some(ledger.path().with_extension(BACKUP_EXTENSION))
        } else {
            None
        },
    }
}

/// How each file of the new ledger relates to the system, given what was observed
/// of each.
pub open spec fn conflicts_of(
    files: Seq<(Seq<char>, Seq<char>, u64)>,
    old_ledger: SystemLedger,
    observations: Seq<FileObservation>,
) -> Seq<ConflictCheckResult> {
    Seq::new(
        files.len(),
        |i: int|
            conflict_spec(
                observations[i].exists,
                first_file_hash(ledger_files(old_ledger.packages_spec()), files[i].1),
                observations[i].existing_hash,
                files[i].2,
            ),
    )
}

/// The operations for the first `count` files, in order, skipping those that need none.
pub open spec fn planned_operations(
    files: Seq<(Seq<char>, Seq<char>, u64)>,
    conflicts: Seq<ConflictCheckResult>,
    count: int,
) -> Seq<(Seq<char>, Seq<char>, Option<Seq<char>>)>
    decreases count,
{
    if count <= 0 {
        Seq::empty()
    } else {
        let front = planned_operations(files, conflicts, count - 1);
        match operation_for(conflicts[count - 1], files[count - 1].1) {
            Some(operation) => front.push(operation),
            None => front,
        }
    }
}

/// The operations that install `ledger` over `old_ledger`: one for each new or
/// updated file, in the order of the ledger's files, and last one for the ledger
/// itself. The installation is refused at the first file that is unmanaged or was
/// modified.
pub fn plan_install_operations(
    ledger: &SystemLedger,
    old_ledger: &SystemLedger,
    observations: &Vec<FileObservation>,
    ledger_exists: bool,
) -> (r: Result<Vec<InstallOperation>, InstallError>)
    requires
        observations@.len() == ledger_files(ledger.packages_spec()).len(),
        forall|i: int|
            0 <= i < observations@.len() ==> #[trigger] observation_complete(
                observations@[i],
                *old_ledger,
                ledger_files(ledger.packages_spec())[i].1,
            ),
    ensures
        ({
            let files = ledger_files(ledger.packages_spec());
            let conflicts = conflicts_of(files, *old_ledger, observations@);
            match r {
                Ok(operations) => {
                    &&& forall|i: int| 0 <= i < files.len() ==> !is_refused(#[trigger] conflicts[i])
                    &&& operations@.map_values(|operation: InstallOperation| operation_view(operation))
                        == planned_operations(files, conflicts, files.len() as int).push(
                        (
                            ledger.path_spec(),
                            path_with_extension(ledger.path_spec(), temporary_extension()),
                            if ledger_exists {
                                Some(path_with_extension(ledger.path_spec(), backup_extension()))
                            } else {
                                None
                            },
                        ),
                    )
                },
                Err(error) => exists|i: int|
                    0 <= i < files.len() && is_refused(#[trigger] conflicts[i]) && error.conflict_view()
                        == conflicts[i] && error.file_view() == files[i].1 && forall|j: int|
                        0 <= j < i ==> !is_refused(#[trigger] conflicts[j]),
            }
        }),
{
    let files = ledger.files();
    let ghost all = ledger_files(ledger.packages_spec());
    let ghost conflicts = conflicts_of(all, *old_ledger, observations@);
    let mut operations: Vec<InstallOperation> = Vec::new();
    let mut i: usize = 0;
    while i < files.len()
        invariant
            all == ledger_files(ledger.packages_spec()),
            conflicts == conflicts_of(all, *old_ledger, observations@),
            files@.len() == all.len(),
            observations@.len() == all.len(),
            forall|j: int|
                0 <= j < files@.len() ==> ((#[trigger] files@[j]).0@, files@[j].1@, files@[j].2)
                    == all[j],
            forall|j: int|
                0 <= j < observations@.len() ==> #[trigger] observation_complete(
                    observations@[j],
                    *old_ledger,
                    all[j].1,
                ),
            i <= files@.len(),
            forall|j: int| 0 <= j < i ==> !is_refused(#[trigger] conflicts[j]),
            operations@.map_values(|operation: InstallOperation| operation_view(operation))
                == planned_operations(all, conflicts, i as int),
        decreases files@.len() - i,
    {
        let (recipe, file, hash) = files[i];
        proof {
            assert(observation_complete(observations@[i as int], *old_ledger, all[i as int].1));
            assert(file@ == all[i as int].1);
        }
        let conflict = check_conflict(file, hash, old_ledger, observations[i]);
        proof {
            assert(conflict == conflicts[i as int]);
        }
        match handle_conflict(&conflict, recipe, file, &mut operations) {
            Ok(()) => {},
            Err(error) => {
                return Err(error);
            },
        }
        i = i + 1;
    }
    let ledger_operation = ledger_install(ledger, ledger_exists);
    let ghost before = operations@;
    operations.push(ledger_operation);
    proof {
        assert(operations@.map_values(|operation: InstallOperation| operation_view(operation))
            =~= before.map_values(|operation: InstallOperation| operation_view(operation)).push(
            operation_view(ledger_operation),
        ));
    }
    Ok(operations)
}

/// Where the target path `path` lies on the host in a tree rooted at `root`.
pub open spec fn on_host(path: Seq<char>, root: Seq<char>) -> Seq<char> {
    push_path(root, path_strip_prefix(path, seq!['/']).unwrap())
}

/// The copies that put staged files in place next to their destinations: for each
/// operation, from the file in the staging area to its temporary path below the
/// installation root.
pub fn temporary_file_copies(operations: &Vec<InstallOperation>, host: &HostDirectories) -> (r:
    Vec<(HostPath, HostPath)>)
    ensures
        r@.len() == operations@.len(),
        forall|j: int|
            0 <= j < r@.len() ==> (#[trigger] r@[j]).0@ == on_host(
                operations@[j].file@,
                host.staging@,
            ) && r@[j].1@ == on_host(operations@[j].temporary@, host.installation_root@),
{
    let mut copies: Vec<(HostPath, HostPath)> = Vec::new();
    let mut k: usize = 0;
    while k < operations.len()
        invariant
            k <= operations@.len(),
            copies@.len() == k,
            forall|j: int|
                0 <= j < k ==> (#[trigger] copies@[j]).0@ == on_host(
                    operations@[j].file@,
                    host.staging@,
                ) && copies@[j].1@ == on_host(operations@[j].temporary@, host.installation_root@),
        decreases operations@.len() - k,
    {
        let staged = operations[k].file.with_root(&host.staging);
        let temporary = operations[k].temporary.with_root(&host.installation_root);
        copies.push((staged, temporary));
        k = k + 1;
    }
    copies
}

/// The moves that replace the installed files: for each operation, from its temporary
/// path to its file, both below the installation root.
pub fn temporary_file_moves(operations: &Vec<InstallOperation>, host: &HostDirectories) -> (r:
    Vec<(HostPath, HostPath)>)
    ensures
        r@.len() == operations@.len(),
        forall|j: int|
            0 <= j < r@.len() ==> (#[trigger] r@[j]).0@ == on_host(
                operations@[j].temporary@,
                host.installation_root@,
            ) && r@[j].1@ == on_host(operations@[j].file@, host.installation_root@),
{
    let mut moves: Vec<(HostPath, HostPath)> = Vec::new();
    let mut k: usize = 0;
    while k < operations.len()
        invariant
            k <= operations@.len(),
            moves@.len() == k,
            forall|j: int|
                0 <= j < k ==> (#[trigger] moves@[j]).0@ == on_host(
                    operations@[j].temporary@,
                    host.installation_root@,
                ) && moves@[j].1@ == on_host(operations@[j].file@, host.installation_root@),
        decreases operations@.len() - k,
    {
        let temporary = operations[k].temporary.with_root(&host.installation_root);
        let file = operations[k].file.with_root(&host.installation_root);
        moves.push((temporary, file));
        k = k + 1;
    }
    moves
}

/// The backups that operations keep, in order: for each operation with a backup, the
/// installed file and its backup, both below `root`.
pub open spec fn backup_pairs(operations: Seq<InstallOperation>, root: Seq<char>) -> Seq<
    (Seq<char>, Seq<char>),
>
    decreases operations.len(),
{
    if operations.len() == 0 {
        seq![]
    } else {
        let earlier = backup_pairs(operations.drop_last(), root);
        match operations.last().backup {
            Some(backup) => earlier.push(
                (on_host(operations.last().file@, root), on_host(backup@, root)),
            ),
            None => earlier,
        }
    }
}

/// The copies that back up the files about to be replaced: from each installed file
/// that an operation backs up to its backup, below the installation root.
pub fn backup_copies(operations: &Vec<InstallOperation>, host: &HostDirectories) -> (r: Vec<
    (HostPath, HostPath),
>)
    ensures
        r@.map_values(|pair: (HostPath, HostPath)| (pair.0@, pair.1@)) == backup_pairs(
            operations@,
            host.installation_root@,
        ),
{
    let mut copies: Vec<(HostPath, HostPath)> = Vec::new();
    let mut k: usize = 0;
    while k < operations.len()
        invariant
            k <= operations@.len(),
            copies@.map_values(|pair: (HostPath, HostPath)| (pair.0@, pair.1@)) == backup_pairs(
                operations@.take(k as int),
                host.installation_root@,
            ),
        decreases operations@.len() - k,
    {
        proof {
            assert(operations@.take(k + 1).drop_last() =~= operations@.take(k as int));
            assert(operations@.take(k + 1).last() == operations@[k as int]);
        }
        let ghost before = copies@;
        match &operations[k].backup {
            Some(backup) => {
                let installed = operations[k].file.with_root(&host.installation_root);
                let saved = backup.with_root(&host.installation_root);
                copies.push((installed, saved));
                proof {
                    assert(copies@.map_values(|pair: (HostPath, HostPath)| (pair.0@, pair.1@))
                        =~= before.map_values(|pair: (HostPath, HostPath)| (pair.0@, pair.1@)).push(
                        (copies@.last().0@, copies@.last().1@),
                    ));
                }
            },
            None => {},
        }
        k = k + 1;
    }
    proof {
        assert(operations@.take(operations@.len() as int) =~= operations@);
    }
    copies
}

/// The backups to remove once the installation is complete, in order.
pub fn backup_removals(operations: &Vec<InstallOperation>, host: &HostDirectories) -> (r: Vec<
    HostPath,
>)
    ensures
        r@.map_values(|path: HostPath| path@) == backup_pairs(
            operations@,
            host.installation_root@,
        ).map_values(|pair: (Seq<char>, Seq<char>)| pair.1),
{
    let copies = backup_copies(operations, host);
    let mut removals: Vec<HostPath> = Vec::new();
    let mut k: usize = 0;
    while k < copies.len()
        invariant
            k <= copies@.len(),
            removals@.len() == k,
            forall|j: int| 0 <= j < k ==> (#[trigger] removals@[j])@ == copies@[j].1@,
        decreases copies@.len() - k,
    {
        removals.push(copies[k].1.duplicate());
        k = k + 1;
    }
    proof {
        let pairs = copies@.map_values(|pair: (HostPath, HostPath)| (pair.0@, pair.1@));
        assert(removals@.map_values(|path: HostPath| path@) =~= pairs.map_values(
            |pair: (Seq<char>, Seq<char>)| pair.1,
        ));
    }
    removals
}

/// The copies that stage an image: each file of its ledger, from the image to the
/// staging area, in the ledger's order.
pub fn staging_copies(ledger: &ImageLedger, image: &HostPath, staging: &HostPath) -> (r: Vec<
    (HostPath, HostPath),
>)
    ensures
        r@.len() == ledger.hashes_spec().len(),
        forall|j: int|
            0 <= j < r@.len() ==> (#[trigger] r@[j]).0@ == on_host(
                ledger.hashes_spec()[j].0,
                image@,
            ) && r@[j].1@ == on_host(ledger.hashes_spec()[j].0, staging@),
{
    let files = ledger.files();
    let mut copies: Vec<(HostPath, HostPath)> = Vec::new();
    let mut k: usize = 0;
    while k < files.len()
        invariant
            k <= files@.len(),
            files@.len() == ledger.hashes_spec().len(),
            forall|j: int|
                0 <= j < files@.len() ==> ((#[trigger] files@[j]).0@, files@[j].1)
                    == ledger.hashes_spec()[j],
            copies@.len() == k,
            forall|j: int|
                0 <= j < k ==> (#[trigger] copies@[j]).0@ == on_host(
                    ledger.hashes_spec()[j].0,
                    image@,
                ) && copies@[j].1@ == on_host(ledger.hashes_spec()[j].0, staging@),
        decreases files@.len() - k,
    {
        let (entry, _) = files[k];
        assert(entry@ == ledger.hashes_spec()[k as int].0);
        let source = entry.with_root(image);
        let destination = entry.with_root(staging);
        copies.push((source, destination));
        k = k + 1;
    }
    copies
}

} // verus!
