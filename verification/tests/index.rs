use package_manager::index::{
    entry_of_node, find_in_index, select_index_file, HtmlElement, IndexError,
};
use package_manager::tarball::Compression;
use package_manager::version::{SemanticVersion, Version, VersionRequirement};

fn link(target: &str) -> Option<HtmlElement> {
    Some(HtmlElement {
        name: b"a".to_vec(),
        attribute: Some(Some(target.as_bytes().to_vec())),
    })
}

fn compatible_with_one() -> VersionRequirement {
    VersionRequirement::Semantic(SemanticVersion { major: 1, minor: 0, patch: 0 })
}

const PAGE: &str = "<html><body><h1>Index</h1>\
    <a href=\"tool-1.0.0.tar.xz\">tool-1.0.0.tar.xz</a>\
    <a href=\"tool-1.2.0.tar.xz\">tool-1.2.0.tar.xz</a>\
    <a href=\"tool-2.0.0.tar\">tool-2.0.0.tar</a>\
    <a href=\"other-1.9.0.tar.xz\">other</a>\
    <a href=\"tool-1.1.0.zip\">zip</a>\
    </body></html>";

#[test]
fn entries_of_nodes() {
    assert_eq!(
        entry_of_node(&link("tool-1.2.0.tar.xz"), "tool-"),
        Some(("tool-1.2.0.tar.xz", Compression::Xz, "1.2.0"))
    );
    assert_eq!(entry_of_node(&link("tool-1.2.0.tar.gz"), "tool-"), None);
    assert_eq!(entry_of_node(&link("other-1.2.0.tar"), "tool-"), None);
    assert_eq!(entry_of_node(&None, "tool-"), None);
    let image = Some(HtmlElement {
        name: b"img".to_vec(),
        attribute: Some(Some(b"tool-1.0.tar".to_vec())),
    });
    assert_eq!(entry_of_node(&image, "tool-"), None);
    let empty_link = Some(HtmlElement { name: b"a".to_vec(), attribute: Some(None) });
    assert_eq!(entry_of_node(&empty_link, "tool-"), None);
    let invalid = Some(HtmlElement {
        name: b"a".to_vec(),
        attribute: Some(Some(vec![0xff, 0xfe])),
    });
    assert_eq!(entry_of_node(&invalid, ""), None);
}

#[test]
fn selecting_the_best_file() {
    let nodes = vec![
        None,
        link("tool-1.0.0.tar.xz"),
        link("tool-1.3.0.tar"),
        link("tool-2.0.0.tar.xz"),
        link("tool-1.3.0.tar.xz"),
        link("tool-1.1.0.tar.xz"),
    ];
    // Of the equal greatest versions the first one is kept.
    assert_eq!(
        select_index_file(&nodes, &compatible_with_one(), "tool-"),
        Some(("tool-1.3.0.tar", Compression::Uncompressed))
    );
    let exact = VersionRequirement::Exact(Version::from_text("1.1.0"));
    assert_eq!(
        select_index_file(&nodes, &exact, "tool-"),
        Some(("tool-1.1.0.tar.xz", Compression::Xz))
    );
    let none = VersionRequirement::Exact(Version::from_text("5"));
    assert_eq!(select_index_file(&nodes, &none, "tool-"), None);
}

#[test]
fn finding_a_file_in_an_index_page() {
    let file = find_in_index(
        "https://example.org/releases/",
        "https://example.org/releases/",
        PAGE.as_bytes(),
        &compatible_with_one(),
        "tool-",
    )
    .unwrap();
    assert_eq!(file.real_url, "https://example.org/releases/tool-1.2.0.tar.xz");
    assert_eq!(file.virtual_url, None);
    assert_eq!(file.compression, Compression::Xz);
}

#[test]
fn finding_a_file_after_a_redirect() {
    let file = find_in_index(
        "https://example.org/latest/",
        "https://mirror.example.net/pub/tool/",
        PAGE.as_bytes(),
        &VersionRequirement::Exact(Version::from_text("2.0.0")),
        "tool-",
    )
    .unwrap();
    assert_eq!(file.real_url, "https://mirror.example.net/pub/tool/tool-2.0.0.tar");
    assert_eq!(
        file.virtual_url,
        Some(String::from("https://example.org/latest/tool-2.0.0.tar"))
    );
    assert_eq!(file.compression, Compression::Uncompressed);
}

#[test]
fn index_errors() {
    let missing = find_in_index(
        "https://example.org/",
        "https://example.org/",
        PAGE.as_bytes(),
        &VersionRequirement::Exact(Version::from_text("3.0.0")),
        "tool-",
    );
    assert_eq!(missing.err(), Some(IndexError::NoMatchingFile));
    let not_text = find_in_index(
        "https://example.org/",
        "https://example.org/",
        &[0x3c, 0xff, 0xfe],
        &compatible_with_one(),
        "tool-",
    );
    assert_eq!(not_text.err(), Some(IndexError::NotUtf8));
    let bad_base = find_in_index(
        "not a url",
        "not a url",
        PAGE.as_bytes(),
        &compatible_with_one(),
        "tool-",
    );
    assert_eq!(bad_base.err(), Some(IndexError::InvalidFileUrl));
}
