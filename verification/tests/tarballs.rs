use package_manager::tarball::{
    basename_and_compression, detect_compression, detect_tarball_compression,
    split_tarball_file_name, Compression,
};

#[test]
fn compression_from_extension() {
    assert_eq!(Compression::from_extension(None), Some(Compression::Uncompressed));
    assert_eq!(Compression::from_extension(Some("xz")), Some(Compression::Xz));
    assert_eq!(Compression::from_extension(Some("gz")), None);
}

#[test]
fn tarball_file_names() {
    assert_eq!(
        split_tarball_file_name("bat-0.24.0.tar.xz"),
        Some(("bat-0.24.0", Compression::Xz))
    );
    assert_eq!(
        split_tarball_file_name("bat-0.24.0.tar"),
        Some(("bat-0.24.0", Compression::Uncompressed))
    );
    assert_eq!(split_tarball_file_name("bat-0.24.0.tar.gz"), None);
    assert_eq!(split_tarball_file_name("bat-0.24.0.zip"), None);
    // The part after the last `.tar` may not be a path.
    assert_eq!(split_tarball_file_name("dir.tar/file"), None);
    // Text after `.tar` that does not start with `.` counts as no extension.
    assert_eq!(split_tarball_file_name("a.tarxz"), Some(("a", Compression::Uncompressed)));
}

#[test]
fn tarball_compression_from_url() {
    assert_eq!(
        detect_tarball_compression("https://example.org/pkg-1.0.tar.xz"),
        Some(Compression::Xz)
    );
    assert_eq!(
        detect_tarball_compression("https://example.org/pkg-1.0.tar"),
        Some(Compression::Uncompressed)
    );
    assert_eq!(detect_tarball_compression("https://example.org/pkg-1.0.tgz"), None);
}

#[test]
fn tarball_basenames_in_the_older_reading() {
    assert_eq!(
        basename_and_compression("/cache/pkg-2.tar.xz"),
        Some(("/cache/pkg-2", Compression::Xz))
    );
    assert_eq!(
        basename_and_compression("/cache/pkg-2.tar"),
        Some(("/cache/pkg-2", Compression::Uncompressed))
    );
    assert_eq!(basename_and_compression("/cache/pkg-2.tarxz"), None);
    assert_eq!(basename_and_compression("/cache/pkg-2.tar.gz"), None);
    assert_eq!(detect_compression("x.tar.xz"), Some(Compression::Xz));
    assert_eq!(detect_compression("x.zip"), None);
}

#[test]
fn tarball_names_round_trip() {
    for basename in ["pkg-1.0", "a.tar.b", "", "dir/x.tar.gz"] {
        let xz = format!("{basename}.tar.xz");
        let plain = format!("{basename}.tar");
        assert_eq!(split_tarball_file_name(&xz), Some((basename, Compression::Xz)));
        assert_eq!(split_tarball_file_name(&plain), Some((basename, Compression::Uncompressed)));
    }
}
