//! The manifest: where to install, where the recipes are, and which packages to
//! install.
use crate::directories::{DirectoriesError, TargetDirectories, XdgDirectories};
use crate::path::{is_absolute, push_path, HostPath};
use crate::plan::{LockPlan, PlanError};
use crate::recipe::{first_match, Recipe, RecipeStore};
use crate::version::VersionRequirement;
use vstd::prelude::*;

verus! {

/// Where the packages of a manifest are installed.
#[derive(Clone, Copy, Debug, PartialEq, Eq, Structural)]
pub enum InstallLocation {
    /// The file hierarchy standard below `/usr`.
    FileHierarchySystemUniversalSystemResources,
    /// The user's XDG base directories.
    User,
}

/// What a manifest file holds.
#[derive(Debug)]
pub struct ManifestData {
    pub install_location: InstallLocation,
    /// Directories holding recipes, relative to the manifest's directory.
    pub recipe_directories: Vec<String>,
    /// The packages to install, each with the version it must have.
    pub packages: Vec<(String, VersionRequirement)>,
}

/// A manifest read from a file.
#[derive(Debug)]
pub struct Manifest {
    path: HostPath,
    parent_directory: HostPath,
    data: ManifestData,
}

/// Why a manifest could not be made.
#[derive(Clone, Copy, Debug, PartialEq, Eq, Structural)]
pub enum ManifestError {
    /// The manifest's path has no parent directory.
    NoParentDirectory,
}

/// What `Path::parent` gives for `path`: the path without its last component, or
/// `None` when it has none.
pub uninterp spec fn path_parent(path: Seq<char>) -> Option<Seq<char>>;

/// Calls `std::path::Path::parent`; the contract claims only that the result is the
/// value `path_parent` names.
#[verifier::external_body]
fn parent_of(path: &str) -> (r: Option<String>)
    ensures
        match r {
            Some(parent) => path_parent(path@) == Some(parent@),
            None => path_parent(path@) is None,
        },
{
    std::path::Path::new(path).parent().map(|parent| parent.to_string_lossy().into_owned())
}

/// Whether the plan with the nodes `nodes` holds the recipe that `package` asks for.
pub open spec fn package_planned(
    store: Seq<Recipe>,
    nodes: Seq<usize>,
    package: (String, VersionRequirement),
) -> bool {
    first_match(store, package.0@, package.1@) matches Some(recipe) && nodes.contains(
        recipe as usize,
    )
}

impl Manifest {
    pub closed spec fn path_spec(&self) -> Seq<char> {
        self.path@
    }

    pub closed spec fn parent_directory_spec(&self) -> Seq<char> {
        self.parent_directory@
    }

    pub closed spec fn data_spec(&self) -> ManifestData {
        self.data
    }

    /// The manifest at `path` with the contents `data`.
    pub fn new(path: HostPath, data: ManifestData) -> (r: Result<Manifest, ManifestError>)
        ensures
            match r {
                Ok(manifest) => {
                    &&& manifest.path_spec() == path@
                    &&& path_parent(path@) == Some(manifest.parent_directory_spec())
                    &&& manifest.data_spec() == data
                },
                Err(_) => path_parent(path@) is None || !is_absolute(path_parent(path@).unwrap()),
            },
    {
        let parent = match parent_of(path.as_str()) {
            Some(parent) => parent,
            None => return Err(ManifestError::NoParentDirectory),
        };
        let parent_directory = match HostPath::new_boxed(parent) {
            Ok(parent_directory) => parent_directory,
            Err(_) => return Err(ManifestError::NoParentDirectory),
        };
        Ok(Manifest { path, parent_directory, data })
    }

    pub fn path(&self) -> (r: &HostPath)
        ensures
            r@ == self.path_spec(),
    {
        &self.path
    }

    /// The directories holding recipes, relative to the manifest's directory.
    pub fn recipe_directories(&self) -> (r: &Vec<String>)
        ensures
            *r == self.data_spec().recipe_directories,
    {
        &self.data.recipe_directories
    }

    /// `path` taken relative to the directory of the manifest.
    pub fn resolve_relative_path(&self, path: &str) -> (r: HostPath)
        ensures
            r@ == push_path(self.parent_directory_spec(), path@),
    {
        self.parent_directory.with_suffix(path)
    }

    /// The packages to install, each with the version it must have.
    pub fn packages(&self) -> (r: &Vec<(String, VersionRequirement)>)
        ensures
            *r == self.data_spec().packages,
    {
        &self.data.packages
    }

    /// A plan holding a recipe for each package of the manifest, with all their
    /// run-time dependencies.
    pub fn lock_plan(&self, recipes: &RecipeStore) -> (r: Result<LockPlan, PlanError>)
        ensures
            match r {
                Ok(plan) => {
                    &&& plan.valid(recipes.recipes@)
                    &&& forall|i: int|
                        0 <= i < self.data_spec().packages@.len() ==> #[trigger] package_planned(
                            recipes.recipes@,
                            plan.nodes(),
                            self.data_spec().packages@[i],
                        )
                },
                Err(error) => error.explains(recipes.recipes@),
            },
    {
        let mut plan = LockPlan::new();
        let packages = &self.data.packages;
        let mut i: usize = 0;
        while i < packages.len()
            invariant
                i <= packages@.len(),
                *packages == self.data_spec().packages,
                plan.valid(recipes.recipes@),
                forall|j: int|
                    0 <= j < i ==> #[trigger] package_planned(recipes.recipes@, plan.nodes(), packages@[j]),
            decreases packages@.len() - i,
        {
            let ghost before = plan.nodes();
            match plan.add_recipe(packages[i].0.as_str(), &packages[i].1, recipes) {
                Ok(()) => {},
                Err(error) => {
                    return Err(error);
                },
            }
            proof {
                assert forall|j: int|
                    0 <= j < i + 1 implies #[trigger] package_planned(
                    recipes.recipes@,
                    plan.nodes(),
                    packages@[j],
                ) by {
                    if j < i {
                        assert(package_planned(recipes.recipes@, before, packages@[j]));
                        let recipe = first_match(recipes.recipes@, packages@[j].0@, packages@[j].1@).unwrap();
                        let n = choose|n: int| 0 <= n < before.len() && before[n] == recipe as usize;
                        assert(plan.nodes().take(before.len() as int) == before);
                        assert(plan.nodes()[n] == plan.nodes().take(before.len() as int)[n]);
                        assert(plan.nodes()[n] == recipe as usize);
                    }
                }
            }
            i = i + 1;
        }
        Ok(plan)
    }

    /// The target directories of the manifest's install location, where `xdg` gives
    /// the user's XDG base directories.
    pub fn target_directories(&self, xdg: &XdgDirectories) -> (r: Result<
        TargetDirectories,
        DirectoriesError,
    >)
        ensures
            match self.data_spec().install_location {
                InstallLocation::FileHierarchySystemUniversalSystemResources => r matches Ok(
                    directories,
                ) && directories@ == TargetDirectories::fhs_usr_layout(),
                InstallLocation::User => match r {
                    Ok(directories) => TargetDirectories::user_layout(xdg.layout()) == Some(
                        directories@,
                    ),
                    Err(error) => TargetDirectories::user_layout(xdg.layout()) is None && error
                        == DirectoriesError::TargetDirectories,
                },
            },
    {
        match self.data.install_location {
            InstallLocation::FileHierarchySystemUniversalSystemResources => Ok(
                TargetDirectories::fhs_usr(),
            ),
            InstallLocation::User => TargetDirectories::user(xdg),
        }
    }
}

} // verus!
