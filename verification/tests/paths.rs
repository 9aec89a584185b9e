use package_manager::path::{push_path_text, AbsolutePath, HostPath, TargetPath};

#[test]
fn pushing_paths_like_pathbuf() {
    assert_eq!(push_path_text("/usr", "bin"), "/usr/bin");
    assert_eq!(push_path_text("/usr/", "bin"), "/usr/bin");
    assert_eq!(push_path_text("/usr", "/etc"), "/etc");
    assert_eq!(push_path_text("", "bin"), "bin");
    for (base, suffix) in [("/a/b", "c/d"), ("/a/", "c"), ("a", "/b"), ("/", "x")] {
        let mut expected = std::path::PathBuf::from(base);
        expected.push(suffix);
        assert_eq!(push_path_text(base, suffix), expected.to_str().unwrap());
    }
}

#[test]
fn absolute_paths() {
    assert!(AbsolutePath::new("relative").is_none());
    assert!(AbsolutePath::new("").is_none());
    let path = AbsolutePath::new("/usr/share").unwrap();
    assert_eq!(path.as_str(), "/usr/share");
    assert_eq!(path.with_suffix("doc").as_str(), "/usr/share/doc");
    assert_eq!(path.to_relative(), "usr/share");
    assert_eq!(path.with_extension("txt").as_str(), "/usr/share.txt");
    assert!(path.equals(&path.duplicate()));
    assert_eq!(AbsolutePath::new_boxed(String::from("x")).err(), Some(String::from("x")));
    assert!(HostPath::new_boxed(String::from("/x")).is_ok());
    assert!(TargetPath::new_boxed(String::from("y")).is_err());
}

#[test]
fn target_paths_and_roots() {
    let root = HostPath::new("/mnt/image").unwrap();
    let file = HostPath::new("/mnt/image/usr/bin/bat").unwrap();
    let target = TargetPath::from_path_and_root(&file, &root);
    assert_eq!(target.as_str(), "/usr/bin/bat");
    assert_eq!(target.with_root(&root).as_str(), "/mnt/image/usr/bin/bat");
    assert!(target.equals(&TargetPath::new("/usr/bin/bat").unwrap()));
    let outside = HostPath::new("/elsewhere/bat").unwrap();
    assert!(TargetPath::try_from_path_and_root(&outside, &root).is_none());
    // Only whole components make a prefix.
    let sibling = HostPath::new("/mnt/imagery/bat").unwrap();
    assert!(TargetPath::try_from_path_and_root(&sibling, &root).is_none());
    assert_eq!(TargetPath::root().as_str(), "/");
    assert_eq!(TargetPath::root().with_suffix("etc").as_str(), "/etc");
    assert_eq!(TargetPath::new("/etc/x.conf").unwrap().with_extension("bak").as_str(), "/etc/x.bak");
    assert_eq!(HostPath::new("/a").unwrap().with_suffix("b").as_str(), "/a/b");
}

#[test]
fn taking_the_root_off_undoes_putting_it_on() {
    for (target, root) in [
        ("/usr/bin/bat", "/mnt/image"),
        ("/usr/bin/bat", "/mnt/image/"),
        ("/etc//x.conf", "/build/root"),
        ("/", "/mnt/image"),
        ("/a/./b", "/"),
    ] {
        let target = TargetPath::new(target).unwrap();
        let root = HostPath::new(root).unwrap();
        let host = target.with_root(&root);
        let back = TargetPath::try_from_path_and_root(&host, &root).unwrap();
        assert_eq!(
            std::path::Path::new(back.as_str()).components().collect::<Vec<_>>(),
            std::path::Path::new(target.as_str()).components().collect::<Vec<_>>()
        );
    }
    // A root is a prefix only by whole components.
    let root = HostPath::new("/build/image").unwrap();
    let outside = HostPath::new("/build/imagex/a").unwrap();
    assert!(TargetPath::try_from_path_and_root(&outside, &root).is_none());
}
