//! Recipes, their dependencies, and the store that recipes are looked up in.
use crate::building::Build;
use crate::download::{first_lock_step, Download, LockError, LockStep};
use crate::path::HostPath;
use crate::version::{version_satisfies, RequirementView, Version, VersionRequirement};
use vstd::prelude::*;

verus! {

/// The packages that a recipe depends on, each with the version it requires, in
/// the order of their names.
#[derive(Debug, Hash)]
pub struct Dependencies {
    pub versions: Vec<(String, VersionRequirement)>,
}

/// The requirement for `name` among `entries`: that of the first entry with that name.
pub open spec fn lookup_requirement(
    entries: Seq<(String, VersionRequirement)>,
    name: Seq<char>,
) -> Option<VersionRequirement>
    decreases entries.len(),
{
    if entries.len() == 0 {
        None
    } else if entries[0].0@ == name {
        Some(entries[0].1)
    } else {
        lookup_requirement(entries.drop_first(), name)
    }
}

impl Dependencies {
    pub fn new() -> (r: Dependencies)
        ensures
            r.versions@.len() == 0,
    {
        Dependencies { versions: Vec::new() }
    }

    /// The requirement on the package `name`, if this depends on it.
    pub fn get(&self, name: &str) -> (r: Option<&VersionRequirement>)
        ensures
            match r {
                Some(requirement) => lookup_requirement(self.versions@, name@) == Some(
                    *requirement,
                ),
                None => lookup_requirement(self.versions@, name@) is None,
            },
    {
        let mut i: usize = 0;
        assert(self.versions@.skip(0) =~= self.versions@);
        while i < self.versions.len()
            invariant
                i <= self.versions@.len(),
                lookup_requirement(self.versions@, name@) == lookup_requirement(
                    self.versions@.skip(i as int),
                    name@,
                ),
            decreases self.versions@.len() - i,
        {
            let ghost rest = self.versions@.skip(i as int);
            assert(rest.drop_first() =~= self.versions@.skip(i + 1));
            if self.versions[i].0 == String::from_str(name) {
                return Some(&self.versions[i].1);
            }
            i = i + 1;
        }
        None
    }
}

/// A recipe for building a package: its name (from its file name), the file it was
/// read from, its version, where its source code comes from, how it is built and the
/// packages it needs at run time.
#[derive(Debug)]
pub struct Recipe {
    pub name: String,
    pub path: HostPath,
    pub version: Version,
    pub download: Download,
    pub build: Build,
    pub dependencies: Dependencies,
}

/// Why a recipe's file name does not give a recipe name.
#[derive(Clone, Copy, Debug, PartialEq, Eq, Structural)]
pub enum RecipeNameError {
    /// The file name does not end in `.toml`.
    MissingTomlExtension,
}

pub open spec fn toml_extension() -> Seq<char> {
    seq!['.', 't', 'o', 'm', 'l']
}

/// The recipe name that a file name gives: the name without its `.toml` extension.
pub open spec fn recipe_name_spec(file_name: Seq<char>) -> Option<Seq<char>> {
    if file_name.len() >= 5 && file_name.skip(file_name.len() - 5) == toml_extension() {
        Some(file_name.take(file_name.len() - 5))
    } else {
        None
    }
}

/// The recipe name that the file name `file_name` gives.
pub fn recipe_name_from_file_name(file_name: &str) -> (r: Result<&str, RecipeNameError>)
    ensures
        match r {
            Ok(name) => recipe_name_spec(file_name@) == Some(name@),
            Err(_) => recipe_name_spec(file_name@) is None,
        },
{
    let len: usize = file_name.unicode_len();
    if len < 5 {
        return Err(RecipeNameError::MissingTomlExtension);
    }
    let extension = file_name.substring_char(len - 5, len);
    if extension.get_char(0) == '.' && extension.get_char(1) == 't' && extension.get_char(2)
        == 'o' && extension.get_char(3) == 'm' && extension.get_char(4) == 'l' {
        assert(extension@ =~= toml_extension());
        let name = file_name.substring_char(0, len - 5);
        Ok(name)
    } else {
        proof {
            if recipe_name_spec(file_name@) is Some {
                assert(extension@ == toml_extension());
                assert(extension@[0] == '.');
                assert(extension@[1] == 't');
                assert(extension@[2] == 'o');
                assert(extension@[3] == 'm');
                assert(extension@[4] == 'l');
            }
        }
        Err(RecipeNameError::MissingTomlExtension)
    }
}

impl Recipe {
    pub fn name(&self) -> (r: &str)
        ensures
            r@ == self.name@,
    {
        self.name.as_str()
    }

    pub fn version(&self) -> (r: &Version)
        ensures
            *r == self.version,
    {
        &self.version
    }

    pub fn dependencies(&self) -> (r: &Dependencies)
        ensures
            *r == self.dependencies,
    {
        &self.dependencies
    }

    pub fn build_data(&self) -> (r: &Build)
        ensures
            *r == self.build,
    {
        &self.build
    }

    pub fn download_data(&self) -> (r: &Download)
        ensures
            *r == self.download,
    {
        &self.download
    }

    /// The first step of locking the recipe's download (see [`Download::begin_lock`]).
    pub fn lock(&self) -> (r: Result<LockStep, LockError>)
        ensures
            first_lock_step(self.download, r),
    {
        self.download.begin_lock()
    }

    /// Whether this recipe is for the package `name` in a version that meets
    /// `requirement`.
    pub open spec fn matches_spec(&self, name: Seq<char>, requirement: RequirementView) -> bool {
        self.name@ == name && version_satisfies(self.version@, requirement)
    }

    pub fn matches(&self, name: &str, requirement: &VersionRequirement) -> (r: bool)
        ensures
            r == self.matches_spec(name@, requirement@),
    {
        self.name == String::from_str(name) && self.version.satisfies(requirement)
    }

    /// The text that `Display` shows for the recipe: its name and the file it was read
    /// from.
    pub fn to_display_string(&self) -> (r: String)
        ensures
            r@ == "the `"@ + self.name@ + "` recipe at `"@ + self.path@ + "`"@,
    {
        let mut text = String::from_str("the `");
        text.append(self.name.as_str());
        text.append("` recipe at `");
        text.append(self.path.as_str());
        text.append("`");
        text
    }
}

/// The index of the first recipe among `recipes` for `name` in a version that meets
/// `requirement`.
pub open spec fn first_match(
    recipes: Seq<Recipe>,
    name: Seq<char>,
    requirement: RequirementView,
) -> Option<int>
    decreases recipes.len(),
{
    if recipes.len() == 0 {
        None
    } else if recipes[0].matches_spec(name, requirement) {
        Some(0)
    } else {
        match first_match(recipes.drop_first(), name, requirement) {
            Some(i) => Some(i + 1),
            None => None,
        }
    }
}

pub proof fn lemma_first_match_bounds(
    recipes: Seq<Recipe>,
    name: Seq<char>,
    requirement: RequirementView,
)
    ensures
        first_match(recipes, name, requirement) matches Some(i) ==> 0 <= i < recipes.len()
            && recipes[i].matches_spec(name, requirement),
    decreases recipes.len(),
{
    if recipes.len() > 0 {
        lemma_first_match_bounds(recipes.drop_first(), name, requirement);
    }
}

/// Why no recipe could be found.
#[derive(Clone, Copy, Debug, PartialEq, Eq, Structural)]
pub enum RecipeStoreError {
    /// No recipe is for the package in a version that meets the requirement.
    NoRecipeFound,
}

/// All the recipes that are known.
#[derive(Debug)]
pub struct RecipeStore {
    pub recipes: Vec<Recipe>,
}

impl RecipeStore {
    pub fn from_recipes(recipes: Vec<Recipe>) -> (r: RecipeStore)
        ensures
            r.recipes@ == recipes@,
    {
        RecipeStore { recipes }
    }

    /// The index of the first recipe for `name` whose version meets `requirement`.
    pub fn find_index(&self, name: &str, requirement: &VersionRequirement) -> (r: Result<
        usize,
        RecipeStoreError,
    >)
        ensures
            match r {
                Ok(index) => first_match(self.recipes@, name@, requirement@) == Some(
                    index as int,
                ),
                Err(_) => first_match(self.recipes@, name@, requirement@) is None,
            },
    {
        let mut i: usize = 0;
        assert(self.recipes@.skip(0) =~= self.recipes@);
        while i < self.recipes.len()
            invariant
                i <= self.recipes@.len(),
                first_match(self.recipes@, name@, requirement@) == match first_match(
                    self.recipes@.skip(i as int),
                    name@,
                    requirement@,
                ) {
                    Some(j) => Some(j + i),
                    None => None,
                },
            decreases self.recipes@.len() - i,
        {
            let ghost rest = self.recipes@.skip(i as int);
            assert(rest.drop_first() =~= self.recipes@.skip(i + 1));
            if self.recipes[i].matches(name, requirement) {
                return Ok(i);
            }
            i = i + 1;
        }
        Err(RecipeStoreError::NoRecipeFound)
    }

    /// The first recipe for `name` whose version meets `requirement`.
    pub fn find(&self, name: &str, requirement: &VersionRequirement) -> (r: Result<
        &Recipe,
        RecipeStoreError,
    >)
        ensures
            match r {
                Ok(recipe) => first_match(self.recipes@, name@, requirement@) matches Some(i)
                    && *recipe == self.recipes@[i],
                Err(_) => first_match(self.recipes@, name@, requirement@) is None,
            },
    {
        match self.find_index(name, requirement) {
            Ok(index) => {
                proof {
                    lemma_first_match_bounds(self.recipes@, name@, requirement@);
                }
                Ok(&self.recipes[index])
            },
            Err(error) => Err(error),
        }
    }
}

/// Why no single recipe was found.
#[derive(Clone, Copy, Debug, PartialEq, Eq, Structural)]
pub enum FindRecipeError {
    /// No recipe is for the package in a version that meets the requirement.
    NotFound,
    /// More than one recipe is.
    Ambiguous,
}

/// The number of recipes among `recipes` for `name` in a version that meets
/// `requirement`.
pub open spec fn match_count(recipes: Seq<Recipe>, name: Seq<char>, requirement: RequirementView) -> nat
    decreases recipes.len(),
{
    if recipes.len() == 0 {
        0
    } else {
        match_count(recipes.drop_last(), name, requirement) + if recipes.last().matches_spec(
            name,
            requirement,
        ) {
            1nat
        } else {
            0nat
        }
    }
}

/// The one recipe of `recipes` for the package `package_name` in a version that meets
/// `requirement`: an error when there is none, or more than one.
pub fn find_recipe(recipes: &RecipeStore, package_name: &str, requirement: &VersionRequirement) -> (r:
    Result<usize, FindRecipeError>)
    ensures
        match r {
            Ok(index) => match_count(recipes.recipes@, package_name@, requirement@) == 1
                && index < recipes.recipes@.len() && recipes.recipes@[index as int].matches_spec(
                package_name@,
                requirement@,
            ),
            Err(FindRecipeError::NotFound) => match_count(
                recipes.recipes@,
                package_name@,
                requirement@,
            ) == 0,
            Err(FindRecipeError::Ambiguous) => match_count(
                recipes.recipes@,
                package_name@,
                requirement@,
            ) >= 2,
        },
{
    let all = &recipes.recipes;
    let mut found: Option<usize> = None;
    let mut i: usize = 0;
    while i < all.len()
        invariant
            all@ == recipes.recipes@,
            i <= all@.len(),
            match found {
                Some(index) => index < i && all@[index as int].matches_spec(
                    package_name@,
                    requirement@,
                ) && match_count(all@.take(i as int), package_name@, requirement@) == 1,
                None => match_count(all@.take(i as int), package_name@, requirement@) == 0,
            },
        decreases all@.len() - i,
    {
        proof {
            assert(all@.take(i + 1).drop_last() =~= all@.take(i as int));
            assert(all@.take(i + 1).last() == all@[i as int]);
        }
        if all[i].matches(package_name, requirement) {
            if found.is_some() {
                proof {
                    assert(match_count(all@.take(i + 1), package_name@, requirement@) == 2);
                    lemma_match_count_prefix(all@, package_name@, requirement@, i + 1);
                    assert(all@ == recipes.recipes@);
                }
                return Err(FindRecipeError::Ambiguous);
            }
            found = Some(i);
        }
        i = i + 1;
    }
    proof {
        assert(all@.take(all@.len() as int) =~= all@);
    }
    match found {
        Some(index) => Ok(index),
        None => Err(FindRecipeError::NotFound),
    }
}

/// Counting over a prefix counts no more than over the whole.
proof fn lemma_match_count_prefix(
    recipes: Seq<Recipe>,
    name: Seq<char>,
    requirement: RequirementView,
    k: int,
)
    requires
        0 <= k <= recipes.len(),
    ensures
        match_count(recipes.take(k), name, requirement) <= match_count(recipes, name, requirement),
    decreases recipes.len() - k,
{
    if k < recipes.len() {
        lemma_match_count_prefix(recipes, name, requirement, k + 1);
        assert(recipes.take(k + 1).drop_last() =~= recipes.take(k));
    } else {
        assert(recipes.take(k) =~= recipes);
    }
}

} // verus!
