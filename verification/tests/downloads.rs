use package_manager::download::{
    decompress_tarball, lock_from_index, lock_from_tags, DecompressError, Download, DownloadLock,
    LockError, LockStep,
};
use package_manager::index::IndexError;
use package_manager::tarball::Compression;
use package_manager::version::Version;

const XZ_ARCHIVE: [u8; 68] = [
    0xfd, 0x37, 0x7a, 0x58, 0x5a, 0x00, 0x00, 0x01, 0x69, 0x22, 0xde, 0x36, 0x02, 0x00, 0x21,
    0x01, 0x16, 0x00, 0x00, 0x00, 0x74, 0x2f, 0xe5, 0xa3, 0x01, 0x00, 0x0c, 0x61, 0x72, 0x63,
    0x68, 0x69, 0x76, 0x65, 0x20, 0x62, 0x79, 0x74, 0x65, 0x73, 0x00, 0x00, 0x00, 0x00, 0xc0,
    0x93, 0x00, 0x2c, 0x00, 0x01, 0x21, 0x0d, 0x75, 0xdc, 0xa8, 0xd2, 0x90, 0x42, 0x99, 0x0d,
    0x01, 0x00, 0x00, 0x00, 0x00, 0x01, 0x59, 0x5a,
];

#[test]
fn nothing_to_download_is_locked_at_once() {
    assert!(matches!(
        Download::Nothing.begin_lock(),
        Ok(LockStep::Locked(DownloadLock::Nothing))
    ));
}

#[test]
fn github_downloads_list_tags_of_the_repository() {
    let download = Download::Github { repository: String::from("sharkdp/bat") };
    match download.begin_lock() {
        Ok(LockStep::ListTags { url }) => assert_eq!(url, "https://github.com/sharkdp/bat.git"),
        other => panic!("unexpected step {other:?}"),
    }
}

#[test]
fn tarball_downloads_are_locked_with_their_compression() {
    let given = Download::Tarball {
        url: String::from("https://example.org/pkg.tar"),
        compression: Some(Compression::Xz),
    };
    match given.begin_lock() {
        Ok(LockStep::Locked(DownloadLock::Tarball { real_url, virtual_url, compression })) => {
            assert_eq!(real_url, "https://example.org/pkg.tar");
            assert_eq!(virtual_url, None);
            assert_eq!(compression, Compression::Xz);
        }
        other => panic!("unexpected step {other:?}"),
    }
    let detected = Download::Tarball {
        url: String::from("https://example.org/pkg-1.tar.xz"),
        compression: None,
    };
    match detected.begin_lock() {
        Ok(LockStep::Locked(DownloadLock::Tarball { compression, .. })) => {
            assert_eq!(compression, Compression::Xz)
        }
        other => panic!("unexpected step {other:?}"),
    }
    let unknown = Download::Tarball {
        url: String::from("https://example.org/pkg-1.tar.bz2"),
        compression: None,
    };
    assert_eq!(unknown.begin_lock().err(), Some(LockError::UnknownCompression));
}

#[test]
fn tarball_index_downloads_fetch_the_index() {
    let download = Download::TarballIndex {
        url: String::from("https://example.org/dist/"),
        file_name_prefix: String::from("pkg-"),
    };
    match download.begin_lock() {
        Ok(LockStep::FetchIndex { url, file_name_prefix }) => {
            assert_eq!(url, "https://example.org/dist/");
            assert_eq!(file_name_prefix, "pkg-");
        }
        other => panic!("unexpected step {other:?}"),
    }
}

#[test]
fn locking_from_tags() {
    let mut first = [0u8; 20];
    first[0] = 1;
    let mut second = [0u8; 20];
    second[0] = 2;
    let references = vec![
        (String::from("refs/tags/v0.9.0"), first),
        (String::from("refs/tags/v1.0.0"), second),
    ];
    let version = Version::from_text("1.0.0");
    match lock_from_tags(String::from("https://github.com/a/b.git"), &references, &version) {
        Ok(DownloadLock::Git { url, commit }) => {
            assert_eq!(url, "https://github.com/a/b.git");
            assert_eq!(commit, second);
        }
        other => panic!("unexpected lock {other:?}"),
    }
    let missing = Version::from_text("2.0.0");
    assert_eq!(
        lock_from_tags(String::from("https://github.com/a/b.git"), &references, &missing).err(),
        Some(LockError::NoMatchingTag)
    );
}

#[test]
fn locking_from_an_index() {
    let page = b"<a href=\"pkg-1.0.tar.xz\">1.0</a><a href=\"pkg-1.1.tar.xz\">1.1</a>";
    match lock_from_index(
        "https://example.org/dist/",
        "https://example.org/dist/",
        page,
        &Version::from_text("1.0"),
        "pkg-",
    ) {
        Ok(DownloadLock::Tarball { real_url, virtual_url, compression }) => {
            assert_eq!(real_url, "https://example.org/dist/pkg-1.0.tar.xz");
            assert_eq!(virtual_url, None);
            assert_eq!(compression, Compression::Xz);
        }
        other => panic!("unexpected lock {other:?}"),
    }
    assert_eq!(
        lock_from_index(
            "https://example.org/dist/",
            "https://example.org/dist/",
            page,
            &Version::from_text("1.2"),
            "pkg-",
        )
        .err(),
        Some(LockError::Index(IndexError::NoMatchingFile))
    );
}

#[test]
fn decompressing_tarballs() {
    let plain = b"plain tar bytes".to_vec();
    assert_eq!(
        decompress_tarball(plain.clone(), Compression::Uncompressed),
        Ok(plain)
    );
    assert_eq!(
        decompress_tarball(XZ_ARCHIVE.to_vec(), Compression::Xz),
        Ok(b"archive bytes".to_vec())
    );
    assert_eq!(
        decompress_tarball(b"not xz".to_vec(), Compression::Xz),
        Err(DecompressError::InvalidXz)
    );
}

#[test]
fn urls_are_kept_in_their_normal_form() {
    assert_eq!(
        package_manager::address::normalized_url("HTTPS://Example.org/a/../b").as_deref(),
        Some("https://example.org/b")
    );
    assert_eq!(package_manager::address::normalized_url("not a url"), None);
}
