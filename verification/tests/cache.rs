use package_manager::cache::{
    build_root_path, build_working_path, commit_hex, download_lock_cache_path, encode_url,
    image_cache_path, repository_cache_path, source_cache_path,
};
use package_manager::directories::{HostDirectories, TargetDirectories};
use package_manager::download::DownloadLock;
use package_manager::path::HostPath;
use package_manager::tarball::Compression;

fn host() -> HostDirectories {
    HostDirectories::new(
        &TargetDirectories::fhs_usr(),
        HostPath::new("/mnt/root").unwrap(),
        &Some(HostPath::new("/home/user/.cache").unwrap()),
    )
    .unwrap()
}

fn hash_of(url: &str) -> String {
    format!("{:x}", rapidhash::v3::rapidhash_v3(url.as_bytes()))
}

#[test]
fn urls_are_encoded_by_hash_and_last_segment() {
    let url = "https://example.org/dist/pkg-1.0.tar.xz";
    assert_eq!(encode_url(url), format!("{}-pkg-1.0.tar.xz", hash_of(url)));
    let repository = "https://github.com/sharkdp/bat.git";
    assert_eq!(encode_url(repository), format!("{}-bat.git", hash_of(repository)));
}

#[test]
fn urls_without_path_segments() {
    // The path of `https://example.org` is `/`, whose last segment is empty.
    let bare = "https://example.org";
    assert_eq!(encode_url(bare), format!("{}-", hash_of(bare)));
    // A URL that cannot be a base has no segments and no domain.
    let mail = "mailto:someone@example.org";
    assert_eq!(encode_url(mail), hash_of(mail));
}

#[test]
fn commits_are_written_in_hexadecimal() {
    let mut commit = [0u8; 20];
    commit[0] = 0x0a;
    commit[1] = 0xff;
    commit[19] = 0x10;
    assert_eq!(
        commit_hex(&commit),
        "0aff000000000000000000000000000000000010"
    );
}

#[test]
fn source_trees_are_cached_by_lock() {
    let host = host();
    let nothing = source_cache_path(&DownloadLock::Nothing, &host);
    assert_eq!(nothing.as_str(), "/home/user/.cache/package-manager/sources/none");

    let real = "https://mirror.example.net/pkg-2.tar";
    let asked = "https://example.org/latest/pkg-2.tar";
    let redirected = DownloadLock::Tarball {
        real_url: String::from(real),
        virtual_url: Some(String::from(asked)),
        compression: Compression::Uncompressed,
    };
    assert_eq!(
        source_cache_path(&redirected, &host).as_str(),
        format!("/home/user/.cache/package-manager/sources/{}-pkg-2.tar", hash_of(asked))
    );
    let direct = DownloadLock::Tarball {
        real_url: String::from(real),
        virtual_url: None,
        compression: Compression::Uncompressed,
    };
    assert_eq!(
        source_cache_path(&direct, &host).as_str(),
        format!("/home/user/.cache/package-manager/sources/{}-pkg-2.tar", hash_of(real))
    );

    let repository = "https://github.com/a/b.git";
    let git = DownloadLock::Git { url: String::from(repository), commit: [0x11; 20] };
    assert_eq!(
        source_cache_path(&git, &host).as_str(),
        format!(
            "/home/user/.cache/package-manager/sources/{}-b.git{}",
            hash_of(repository),
            "11".repeat(20)
        )
    );
}

#[test]
fn other_cache_paths() {
    let host = host();
    let repository = "https://github.com/a/b.git";
    assert_eq!(
        repository_cache_path(repository, &host).as_str(),
        format!("/home/user/.cache/package-manager/repositories/{}-b.git", hash_of(repository))
    );
    assert_eq!(
        download_lock_cache_path(0xbeef, "bat", &host).as_str(),
        "/home/user/.cache/package-manager/download-locks/beef-bat.toml"
    );
    assert_eq!(
        image_cache_path("bat", &host).as_str(),
        "/home/user/.cache/package-manager/images/bat"
    );
    assert_eq!(
        build_working_path("bat", &host).as_str(),
        "/home/user/.cache/package-manager/build/bat"
    );
    let source = HostPath::new("/src/tree").unwrap();
    assert_eq!(build_root_path(&source, Some("crates/tool")).as_str(), "/src/tree/crates/tool");
    assert_eq!(build_root_path(&source, None).as_str(), "/src/tree");
}
