//! Where a recipe's source code comes from, and how that is pinned down to one exact
//! download (a lock) before anything is fetched.
use crate::address::{parse_url, url_parsed};
use crate::git::{resolve_commit, tag_candidates, ResolveError};
use crate::index::{find_in_index, index_lookup, IndexError};
use crate::resolver::resolve_best;
use crate::tarball::{detect_tarball_compression, tarball_file_name, Compression};
use crate::version::{RequirementView, Version, VersionRequirement};
use vstd::prelude::*;

verus! {

/// Where a recipe's source code comes from.
#[derive(Debug, Hash)]
pub enum Download {
    /// The recipe has no source code.
    Nothing,
    /// A repository on GitHub, named `owner/name`; versions are its `v`-prefixed tags.
    Github { repository: String },
    /// A tarball at a fixed URL, with its compression if the URL does not show it.
    Tarball { url: String, compression: Option<Compression> },
    /// A web server's index page that links to tarballs named with a prefix followed
    /// by the version.
    TarballIndex { url: String, file_name_prefix: String },
}

/// A git commit: the bytes of its SHA-1 object id.
pub type CommitId = [u8; 20];

/// One exact download of a recipe's source code.
#[derive(Debug, Hash)]
pub enum DownloadLock {
    /// Nothing to download.
    Nothing,
    /// A commit of the git repository at `url`.
    Git { url: String, commit: CommitId },
    /// A tarball fetched from `real_url`; `virtual_url` is where it was found first,
    /// where the index that named it redirected elsewhere.
    Tarball { real_url: String, virtual_url: Option<String>, compression: Compression },
}

/// What must happen next to lock a download.
#[derive(Debug)]
pub enum LockStep {
    /// The lock is known.
    Locked(DownloadLock),
    /// The tags of the git repository at `url` must be listed, each as a full
    /// reference name with its commit, and handed to [`lock_from_tags`].
    ListTags { url: String },
    /// The index page at `url` must be fetched and handed to [`lock_from_index`].
    FetchIndex { url: String, file_name_prefix: String },
}

/// Why a download could not be locked.
#[derive(Debug, Clone, Copy, PartialEq, Eq, Structural)]
pub enum LockError {
    /// The GitHub repository's name does not make a URL.
    InvalidRepositoryUrl,
    /// The tarball's compression is neither given nor shown by its URL.
    UnknownCompression,
    /// No tag of the repository names the recipe's version.
    NoMatchingTag,
    /// The index did not lead to a file.
    Index(IndexError),
}

/// The address of a GitHub repository named `repository`.
pub open spec fn github_url(repository: Seq<char>) -> Seq<char> {
    "https://github.com/"@ + repository + ".git"@
}

/// The compression of a tarball: the one given, or else the one its URL shows.
pub open spec fn tarball_compression(url: Seq<char>, given: Option<Compression>) -> Option<
    Compression,
> {
    match given {
        Some(compression) => Some(compression),
        None => match tarball_file_name(url) {
            Some((_, compression)) => Some(compression),
            None => None,
        },
    }
}

/// Whether `step` is the first step of locking `download`: the lock itself for
/// nothing to download; the tags of the repository's URL to list for GitHub (or an
/// error where the name makes no URL); for a tarball, the lock with its URL and the
/// compression given or shown by its URL (or an error where there is none); the index
/// page to fetch for a tarball index.
pub open spec fn first_lock_step(download: Download, r: Result<LockStep, LockError>) -> bool {
    match download {
        Download::Nothing => r matches Ok(LockStep::Locked(DownloadLock::Nothing)),
        Download::Github { repository } => match url_parsed(github_url(repository@)) {
            Some(url) => r matches Ok(LockStep::ListTags { url: found }) && found@ == url,
            None => r == Err::<LockStep, LockError>(LockError::InvalidRepositoryUrl),
        },
        Download::Tarball { url, compression: given } => match tarball_compression(url@, given) {
            Some(chosen) => r matches Ok(
                LockStep::Locked(
                    DownloadLock::Tarball { real_url, virtual_url: None, compression },
                ),
            ) && real_url@ == url@ && compression == chosen,
            None => r == Err::<LockStep, LockError>(LockError::UnknownCompression),
        },
        Download::TarballIndex { url, file_name_prefix } => r matches Ok(
            LockStep::FetchIndex { url: found, file_name_prefix: prefix },
        ) && found@ == url@ && prefix@ == file_name_prefix@,
    }
}

impl Download {
    /// The first step of locking this download: for a tarball the lock itself, for the
    /// others what must be fetched to find it.
    pub fn begin_lock(&self) -> (r: Result<LockStep, LockError>)
        ensures
            first_lock_step(*self, r),
    {
        match self {
            Download::Nothing => Ok(LockStep::Locked(DownloadLock::Nothing)),
            Download::Github { repository } => {
                let mut text = String::from_str("https://github.com/");
                text.append(repository.as_str());
                text.append(".git");
                proof {
                    reveal_strlit("https://github.com/");
                    reveal_strlit(".git");
                    assert(text@ =~= github_url(repository@));
                }
                match parse_url(text.as_str()) {
                    Some(url) => Ok(LockStep::ListTags { url }),
                    None => Err(LockError::InvalidRepositoryUrl),
                }
            },
            Download::Tarball { url, compression } => {
                let chosen = match compression {
                    Some(compression) => Some(*compression),
                    None => detect_tarball_compression(url.as_str()),
                };
                match chosen {
                    Some(compression) => Ok(
                        LockStep::Locked(
                            DownloadLock::Tarball {
                                real_url: url.clone(),
                                virtual_url: None,
                                compression,
                            },
                        ),
                    ),
                    None => Err(LockError::UnknownCompression),
                }
            },
            Download::TarballIndex { url, file_name_prefix } => Ok(
                LockStep::FetchIndex { url: url.clone(), file_name_prefix: file_name_prefix.clone() },
            ),
        }
    }
}

/// Locks a GitHub download at `url` from the repository's references (each a full
/// reference name with its commit): the commit of the tag `v<version>`, of the
/// greatest such version that equals the recipe's.
pub fn lock_from_tags(url: String, references: &Vec<(String, CommitId)>, version: &Version) -> (r:
    Result<DownloadLock, LockError>)
    ensures
        match resolve_best(RequirementView::Exact(version@), tag_candidates(references@)) {
            Some((commit, _)) => r matches Ok(DownloadLock::Git { url: locked, commit: found })
                && locked@ == url@ && found == commit,
            None => r == Err::<DownloadLock, LockError>(LockError::NoMatchingTag),
        },
{
    let requirement = VersionRequirement::Exact(version.clone());
    match resolve_commit(references, &requirement) {
        Ok(commit) => Ok(DownloadLock::Git { url, commit }),
        Err(ResolveError::NoMatchingTag) => Err(LockError::NoMatchingTag),
    }
}

/// Locks a tarball-index download from the index page `body`, which the web server
/// served from `resolved_index` when asked for `index`: the file named with
/// `file_name_prefix` and the recipe's version.
pub fn lock_from_index(
    index: &str,
    resolved_index: &str,
    body: &[u8],
    version: &Version,
    file_name_prefix: &str,
) -> (r: Result<DownloadLock, LockError>)
    ensures
        match index_lookup(
            index@,
            resolved_index@,
            body@,
            RequirementView::Exact(version@),
            file_name_prefix@,
        ) {
            Ok((found_real, found_virtual, chosen)) => r matches Ok(
                DownloadLock::Tarball { real_url, virtual_url, compression },
            ) && real_url@ == found_real && compression == chosen && match (virtual_url, found_virtual) {
                (Some(url), Some(text)) => url@ == text,
                (None, None) => true,
                _ => false,
            },
            Err(error) => r == Err::<DownloadLock, LockError>(LockError::Index(error)),
        },
{
    let requirement = VersionRequirement::Exact(version.clone());
    match find_in_index(index, resolved_index, body, &requirement, file_name_prefix) {
        Ok(file) => Ok(
            DownloadLock::Tarball {
                real_url: file.real_url,
                virtual_url: file.virtual_url,
                compression: file.compression,
            },
        ),
        Err(error) => Err(LockError::Index(error)),
    }
}

/// The bytes that `lzma_rs` decompresses from the xz stream `compressed`, or `None`
/// where it refuses the stream.
pub uninterp spec fn xz_decompressed(compressed: Seq<u8>) -> Option<Seq<u8>>;

/// Calls `lzma_rs::xz_decompress` with the default options. Claims only that the
/// result is the one that the crate gives for these bytes.
#[verifier::external_body]
fn xz_decompress_bytes(compressed: &[u8]) -> (r: Option<Vec<u8>>)
    ensures
        xz_decompressed(compressed@) == match r {
            Some(bytes) => Some(bytes@),
            None => None,
        },
{
    let mut decompressed = Vec::new();
    match lzma_rs::xz_decompress(&mut &*compressed, &mut decompressed) {
        Ok(()) => Some(decompressed),
        Err(_) => None,
    }
}

/// Why a tarball could not be decompressed.
#[derive(Debug, Clone, Copy, PartialEq, Eq, Structural)]
pub enum DecompressError {
    /// The bytes are not a valid xz stream.
    InvalidXz,
}

/// The tar archive inside a downloaded tarball.
pub fn decompress_tarball(compressed: Vec<u8>, compression: Compression) -> (r: Result<
    Vec<u8>,
    DecompressError,
>)
    ensures
        match compression {
            Compression::Uncompressed => r matches Ok(bytes) && bytes@ == compressed@,
            Compression::Xz => match xz_decompressed(compressed@) {
                Some(archive) => r matches Ok(bytes) && bytes@ == archive,
                None => r == Err::<Vec<u8>, DecompressError>(DecompressError::InvalidXz),
            },
        },
{
    match compression {
        Compression::Uncompressed => Ok(compressed),
        Compression::Xz => match xz_decompress_bytes(compressed.as_slice()) {
            Some(bytes) => Ok(bytes),
            None => Err(DecompressError::InvalidXz),
        },
    }
}

} // verus!
