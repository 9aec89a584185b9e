use package_manager::building::{Build, BuildSystem};
use package_manager::directories::TargetDirectories;
use package_manager::download::{Download, DownloadLock, LockStep};
use package_manager::manifest::{InstallLocation, Manifest, ManifestData};
use package_manager::path::HostPath;
use package_manager::plan::{LockPlan, PlanError};
use package_manager::recipe::{
    find_recipe, recipe_name_from_file_name, Dependencies, FindRecipeError, Recipe,
    RecipeNameError, RecipeStore, RecipeStoreError,
};
use package_manager::tarball::Compression;
use package_manager::version::{SemanticVersion, Version, VersionRequirement};

fn any() -> VersionRequirement {
    VersionRequirement::Any
}

fn recipe(name: &str, version: &str, dependencies: &[(&str, VersionRequirement)]) -> Recipe {
    Recipe {
        name: String::from(name),
        path: HostPath::new(&format!("/recipes/{name}.toml")).unwrap(),
        version: Version::from_text(version),
        download: Download::Nothing,
        build: Build {
            dependencies: Dependencies::new(),
            directory: None,
            environment_variables: Vec::new(),
            system: BuildSystem::Nothing,
        },
        dependencies: Dependencies {
            versions: dependencies
                .iter()
                .map(|(name, requirement)| (String::from(*name), requirement.duplicate()))
                .collect(),
        },
    }
}

fn store() -> RecipeStore {
    RecipeStore::from_recipes(vec![
        recipe("app", "1.0.0", &[("lib", any()), ("zlib", any())]),
        recipe("lib", "2.1.0", &[("zlib", any())]),
        recipe("zlib", "1.3.1", &[]),
        recipe("lib", "3.0.0", &[]),
    ])
}

#[test]
fn recipe_names_come_from_file_names() {
    assert_eq!(recipe_name_from_file_name("bat.toml"), Ok("bat"));
    assert_eq!(recipe_name_from_file_name(".toml"), Ok(""));
    assert_eq!(
        recipe_name_from_file_name("bat.yaml"),
        Err(RecipeNameError::MissingTomlExtension)
    );
    assert_eq!(recipe_name_from_file_name("ml"), Err(RecipeNameError::MissingTomlExtension));
}

#[test]
fn recipe_accessors_and_display() {
    let r = recipe("bat", "0.24.0", &[("zlib", any())]);
    assert_eq!(r.name(), "bat");
    assert_eq!(r.version().string, "0.24.0");
    assert!(r.dependencies().get("zlib").is_some());
    assert!(r.dependencies().get("pcre").is_none());
    assert!(matches!(r.build_data().system, BuildSystem::Nothing));
    assert!(matches!(r.download_data(), Download::Nothing));
    assert!(matches!(r.lock(), Ok(LockStep::Locked(DownloadLock::Nothing))));
    assert_eq!(r.to_display_string(), "the `bat` recipe at `/recipes/bat.toml`");
    assert!(r.matches("bat", &VersionRequirement::Exact(Version::from_text("0.24.0"))));
    assert!(!r.matches("bat", &VersionRequirement::Exact(Version::from_text("0.25.0"))));
    assert!(!r.matches("cat", &any()));
}

#[test]
fn the_store_finds_the_first_matching_recipe() {
    let store = store();
    assert_eq!(store.find_index("lib", &any()), Ok(1));
    let three = VersionRequirement::Semantic(SemanticVersion { major: 3, minor: 0, patch: 0 });
    assert_eq!(store.find_index("lib", &three), Ok(3));
    assert_eq!(store.find("zlib", &any()).map(|r| r.name.clone()), Ok(String::from("zlib")));
    assert_eq!(store.find_index("pcre", &any()), Err(RecipeStoreError::NoRecipeFound));
}

#[test]
fn a_plan_holds_each_recipe_with_its_dependencies_once() {
    let store = store();
    let mut plan = LockPlan::new();
    plan.add_recipe("app", &any(), &store).unwrap();
    assert_eq!(plan.recipes(), vec![0, 1, 2]);
    let mut children = plan.children(0);
    children.sort();
    assert_eq!(children, vec![1, 2]);
    assert_eq!(plan.children(1), vec![2]);
    assert_eq!(plan.children(2), Vec::<usize>::new());
    // Adding a recipe that is already planned changes nothing.
    plan.add_recipe("zlib", &any(), &store).unwrap();
    assert_eq!(plan.recipes(), vec![0, 1, 2]);
}

#[test]
fn a_plan_refuses_missing_and_cyclic_dependencies() {
    let store = store();
    let mut plan = LockPlan::new();
    match plan.add_recipe("pcre", &any(), &store) {
        Err(PlanError::NoRecipeFound { name, .. }) => assert_eq!(name, "pcre"),
        other => panic!("unexpected outcome {other:?}"),
    }
    let cyclic = RecipeStore::from_recipes(vec![
        recipe("a", "1", &[("b", any())]),
        recipe("b", "1", &[("a", any())]),
    ]);
    let mut plan = LockPlan::new();
    match plan.add_recipe("a", &any(), &cyclic) {
        Err(PlanError::CyclicDependency { parent, child }) => {
            // `b` is planned with its edge back to `a` first; the edge from `a` to `b`
            // then closes the cycle.
            assert_eq!((parent, child), (0, 1));
        }
        other => panic!("unexpected outcome {other:?}"),
    }
}

#[test]
fn hashing_a_plan_keeps_recipes_and_locks_in_node_order() {
    let store = store();
    let mut plan = LockPlan::new();
    plan.add_recipe("app", &any(), &store).unwrap();
    let locks = vec![
        DownloadLock::Nothing,
        DownloadLock::Tarball {
            real_url: String::from("https://example.org/lib-2.1.0.tar.xz"),
            virtual_url: None,
            compression: Compression::Xz,
        },
        DownloadLock::Git { url: String::from("https://example.org/zlib.git"), commit: [7; 20] },
    ];
    let hashed = plan.lock(&store, locks).hash(&store);
    assert_eq!(hashed.len(), 3);
    assert_eq!(
        hashed.iter().map(|h| h.recipe).collect::<Vec<_>>(),
        vec![0, 1, 2]
    );
    assert!(matches!(hashed[0].lock, DownloadLock::Nothing));
    assert!(matches!(hashed[1].lock, DownloadLock::Tarball { .. }));
    match &hashed[2].lock {
        DownloadLock::Git { commit, .. } => assert_eq!(*commit, [7u8; 20]),
        other => panic!("unexpected lock {other:?}"),
    }

    // The same plan hashes the same way again.
    let mut again = LockPlan::new();
    again.add_recipe("app", &any(), &store).unwrap();
    let locks = vec![
        DownloadLock::Nothing,
        DownloadLock::Tarball {
            real_url: String::from("https://example.org/lib-2.1.0.tar.xz"),
            virtual_url: None,
            compression: Compression::Xz,
        },
        DownloadLock::Git { url: String::from("https://example.org/zlib.git"), commit: [7; 20] },
    ];
    let rehashed = again.lock(&store, locks).hash(&store);
    assert_eq!(
        hashed.iter().map(|h| h.hash).collect::<Vec<_>>(),
        rehashed.iter().map(|h| h.hash).collect::<Vec<_>>()
    );
}

#[test]
fn manifests_plan_their_packages() {
    let store = store();
    let manifest = Manifest::new(
        HostPath::new("/home/user/system/manifest.toml").unwrap(),
        ManifestData {
            install_location: InstallLocation::FileHierarchySystemUniversalSystemResources,
            recipe_directories: vec![String::from("recipes")],
            packages: vec![(String::from("lib"), any()), (String::from("zlib"), any())],
        },
    )
    .unwrap();
    assert_eq!(manifest.path().as_str(), "/home/user/system/manifest.toml");
    assert_eq!(
        manifest.resolve_relative_path("recipes").as_str(),
        "/home/user/system/recipes"
    );
    assert_eq!(manifest.recipe_directories(), &vec![String::from("recipes")]);
    assert_eq!(manifest.packages().len(), 2);
    let plan = manifest.lock_plan(&store).unwrap();
    assert_eq!(plan.recipes(), vec![1, 2]);
    let xdg = package_manager::directories::XdgDirectories::from_variables(
        &package_manager::directories::XdgVariables {
            home: None,
            prefix_home: None,
            cache_home: None,
            config_home: None,
            data_home: None,
            bin_home: None,
            include_home: None,
            lib_home: None,
            state_home: None,
            runtime_dir: None,
        },
    );
    let directories = manifest.target_directories(&xdg).unwrap();
    assert_eq!(directories.prefix().as_str(), TargetDirectories::fhs_usr().prefix().as_str());
}

#[test]
fn a_manifest_needs_a_parent_directory() {
    let data = ManifestData {
        install_location: InstallLocation::User,
        recipe_directories: Vec::new(),
        packages: Vec::new(),
    };
    assert!(Manifest::new(HostPath::new("/").unwrap(), data).is_err());
}

#[test]
fn finding_the_one_recipe_for_a_package() {
    let store = store();
    assert_eq!(find_recipe(&store, "zlib", &any()), Ok(2));
    assert_eq!(
        find_recipe(&store, "lib", &VersionRequirement::Exact(Version::from_text("3.0.0"))),
        Ok(3)
    );
    assert_eq!(find_recipe(&store, "lib", &any()), Err(FindRecipeError::Ambiguous));
    assert_eq!(find_recipe(&store, "pcre", &any()), Err(FindRecipeError::NotFound));
}

fn locks_with_zlib_commit(commit: u8) -> Vec<DownloadLock> {
    vec![
        DownloadLock::Nothing,
        DownloadLock::Nothing,
        DownloadLock::Git { url: String::from("https://example.org/zlib.git"), commit: [commit; 20] },
    ]
}

#[test]
fn a_changed_dependency_changes_the_hashes_of_its_dependents() {
    let store = store();
    let mut first = LockPlan::new();
    first.add_recipe("app", &any(), &store).unwrap();
    let mut second = LockPlan::new();
    second.add_recipe("app", &any(), &store).unwrap();
    let before = first.lock(&store, locks_with_zlib_commit(1)).hash(&store);
    let after = second.lock(&store, locks_with_zlib_commit(2)).hash(&store);
    // zlib itself, lib (which needs zlib) and app (which needs both) all change.
    assert_ne!(before[2].hash, after[2].hash);
    assert_ne!(before[1].hash, after[1].hash);
    assert_ne!(before[0].hash, after[0].hash);
}
