//! Where downloads, source trees, repositories and images are kept in the cache.
use crate::address::{domain_of_url, path_of_url, url_domain, url_path};
use crate::directories::HostDirectories;
use crate::download::{CommitId, Download, DownloadLock};
use crate::version::Version;
use crate::recipe::Recipe;
use crate::path::{push_path, HostPath};
use crate::text::{
    has_prefix, hex_digit_char, hex_digit_text, hex_string, hex_text, rsplit_once, text_rsplit_once,
};
use vstd::prelude::*;
use vstd::utf8::encode_utf8;

verus! {

/// The rapidhash (version 3, default seed) of `bytes`.
pub uninterp spec fn rapidhash_v3_of(bytes: Seq<u8>) -> u64;

/// Calls `rapidhash::v3::rapidhash_v3`, the portable rapidhash of a byte string with
/// the default seed. Claims only that the result is the one it gives for these bytes.
#[verifier::external_body]
fn rapidhash_v3_bytes(bytes: &[u8]) -> (r: u64)
    ensures
        r == rapidhash_v3_of(bytes@),
{
    rapidhash::v3::rapidhash_v3(bytes)
}

/// The part of a URL that a person recognises it by: the last segment of its path
/// where the path starts with `/`, and otherwise its domain.
pub open spec fn readable_url_part(url: Seq<char>) -> Option<Seq<char>> {
    let segment = match url_path(url) {
        Some(path) => if has_prefix(path, seq!['/']) {
            match rsplit_once(path, seq!['/']) {
                Some((_, last)) => Some(last),
                None => None,
            }
        } else {
            None
        },
        None => None,
    };
    match segment {
        Some(last) => Some(last),
        None => match url_domain(url) {
            Some(Some(domain)) => Some(domain),
            _ => None,
        },
    }
}

/// The name under which things fetched from `url` are cached: the hexadecimal
/// rapidhash of the URL, then `-` and its readable part where it has one.
pub open spec fn encoded_url(url: Seq<char>) -> Seq<char> {
    let hash = hex_string(rapidhash_v3_of(encode_utf8(url)) as nat);
    match readable_url_part(url) {
        Some(part) => hash + seq!['-'] + part,
        None => hash,
    }
}

fn readable_part_of_url(url: &str) -> (r: Option<String>)
    ensures
        readable_url_part(url@) == match r {
            Some(part) => Some(part@),
            None => None,
        },
{
    if let Some(path) = path_of_url(url) {
        let slash = "/";
        proof {
            reveal_strlit("/");
            assert(slash@ =~= seq!['/']);
        }
        if path.unicode_len() > 0 && path.as_str().get_char(0) == '/' {
            proof {
                assert(path@.take(1) =~= seq!['/']);
            }
            if let Some((_, last)) = text_rsplit_once(path.as_str(), slash) {
                return Some(String::from_str(last));
            }
        } else {
            proof {
                if has_prefix(path@, seq!['/']) {
                    assert(path@.take(1)[0] == path@[0]);
                }
            }
        }
    }
    match domain_of_url(url) {
        Some(Some(domain)) => Some(domain),
        _ => None,
    }
}

/// The name under which things fetched from `url` are cached (see [`encoded_url`]).
pub fn encode_url(url: &str) -> (r: String)
    ensures
        r@ == encoded_url(url@),
{
    let hash = rapidhash_v3_bytes(url.as_bytes());
    let mut text = hex_text(hash);
    match readable_part_of_url(url) {
        Some(part) => {
            text.append("-");
            text.append(part.as_str());
            proof {
                reveal_strlit("-");
            }
            text
        },
        None => text,
    }
}

/// The lower-case hexadecimal text of a byte string, two digits per byte.
pub open spec fn bytes_hex(bytes: Seq<u8>) -> Seq<char>
    decreases bytes.len(),
{
    if bytes.len() == 0 {
        seq![]
    } else {
        bytes_hex(bytes.drop_last()) + seq![
            hex_digit_char((bytes.last() / 16) as nat),
            hex_digit_char((bytes.last() % 16) as nat),
        ]
    }
}

/// The hexadecimal text of a commit, as git writes its object id.
pub fn commit_hex(commit: &CommitId) -> (r: String)
    ensures
        r@ == bytes_hex(commit@),
{
    let mut text = String::new();
    let mut k: usize = 0;
    while k < 20
        invariant
            k <= 20,
            commit@.len() == 20,
            text@ == bytes_hex(commit@.take(k as int)),
        decreases 20 - k,
    {
        let byte = commit[k];
        text.append(hex_digit_text((byte / 16) as u64));
        text.append(hex_digit_text((byte % 16) as u64));
        proof {
            assert(commit@.take(k + 1).drop_last() =~= commit@.take(k as int));
            assert(commit@.take(k + 1).last() == byte);
        }
        k = k + 1;
    }
    proof {
        assert(commit@.take(20) =~= commit@);
    }
    text
}

/// The name under which the source tree of a download is cached.
pub open spec fn source_cache_name(lock: DownloadLock) -> Seq<char> {
    match lock {
        DownloadLock::Nothing => seq!['n', 'o', 'n', 'e'],
        DownloadLock::Git { url, commit } => encoded_url(url@) + bytes_hex(commit@),
        DownloadLock::Tarball { real_url, virtual_url, compression: _ } => encoded_url(
            match virtual_url {
                Some(url) => url@,
                None => real_url@,
            },
        ),
    }
}

/// Where the source tree of a download is cached: below the sources directory, named
/// by `none`, by the repository's URL and the commit, or by the tarball's URL (as first
/// asked for, where an index redirected).
pub fn source_cache_path(lock: &DownloadLock, host: &HostDirectories) -> (r: HostPath)
    ensures
        r@ == push_path(host.sources@, source_cache_name(*lock)),
{
    let name = match lock {
        DownloadLock::Nothing => {
            proof {
                reveal_strlit("none");
            }
            String::from_str("none")
        },
        DownloadLock::Git { url, commit } => {
            let mut name = encode_url(url.as_str());
            let commit = commit_hex(commit);
            name.append(commit.as_str());
            name
        },
        DownloadLock::Tarball { real_url, virtual_url, compression: _ } => match virtual_url {
            Some(url) => encode_url(url.as_str()),
            None => encode_url(real_url.as_str()),
        },
    };
    host.sources.with_suffix(name.as_str())
}

/// Where the git repository at `url` is cached.
pub fn repository_cache_path(url: &str, host: &HostDirectories) -> (r: HostPath)
    ensures
        r@ == push_path(host.repositories@, encoded_url(url@)),
{
    let name = encode_url(url);
    host.repositories.with_suffix(name.as_str())
}

/// The file name of a cached download lock: the hash of the recipe's version and
/// download in hexadecimal, `-`, the recipe's name and `.toml`.
pub open spec fn download_lock_file_name(hash: u64, recipe_name: Seq<char>) -> Seq<char> {
    hex_string(hash as nat) + seq!['-'] + recipe_name + seq!['.', 't', 'o', 'm', 'l']
}

/// Where the download lock of a recipe is cached, given the hash of its version and
/// download.
pub fn download_lock_cache_path(hash: u64, recipe_name: &str, host: &HostDirectories) -> (r:
    HostPath)
    ensures
        r@ == push_path(host.download_locks@, download_lock_file_name(hash, recipe_name@)),
{
    let mut name = hex_text(hash);
    name.append("-");
    name.append(recipe_name);
    name.append(".toml");
    proof {
        reveal_strlit("-");
        reveal_strlit(".toml");
        assert(name@ =~= download_lock_file_name(hash, recipe_name@));
    }
    host.download_locks.with_suffix(name.as_str())
}

/// Where the image of a recipe is cached.
pub fn image_cache_path(recipe_name: &str, host: &HostDirectories) -> (r: HostPath)
    ensures
        r@ == push_path(host.images@, recipe_name@),
{
    host.images.with_suffix(recipe_name)
}

/// Where a recipe is built.
pub fn build_working_path(recipe_name: &str, host: &HostDirectories) -> (r: HostPath)
    ensures
        r@ == push_path(host.working@, recipe_name@),
{
    host.working.with_suffix(recipe_name)
}

/// The directory of a source tree that a recipe is built from: the directory that the
/// recipe names inside the tree, or the tree itself.
pub fn build_root_path(source: &HostPath, directory: Option<&str>) -> (r: HostPath)
    ensures
        r@ == match directory {
            Some(directory) => push_path(source@, directory@),
            None => source@,
        },
{
    match directory {
        Some(directory) => source.with_suffix(directory),
        None => source.duplicate(),
    }
}

/// Feeds `thing` through its `Hash` impl into `rapidhash::quality::RapidHasher` with
/// the default seed and finishes the hash. Nothing is claimed of the result: the
/// `Hash` impls write lengths and enum discriminants as `usize`, so it differs between
/// machines of different word sizes.
#[verifier::external_body]
pub(crate) fn quality_hash<T: std::hash::Hash>(thing: &T) -> u64 {
    let mut hasher = rapidhash::quality::RapidHasher::default();
    thing.hash(&mut hasher);
    std::hash::Hasher::finish(&hasher)
}

/// The input from which the name of a recipe's cached download lock is hashed: its
/// version and its download.
fn lock_hash_input(recipe: &Recipe) -> (r: (&Version, &Download))
    ensures
        *r.0 == recipe.version,
        *r.1 == recipe.download,
{
    (&recipe.version, &recipe.download)
}

/// Where the download lock of `recipe` is cached: named by the hash of the input that
/// `lock_hash_input` forms from its version and download (a hash that no contract
/// states, since it differs between machines), and by its name.
pub fn download_lock_path(recipe: &Recipe, host: &HostDirectories) -> (r: HostPath)
    ensures
        exists|hash: u64|
            r@ == push_path(
                host.download_locks@,
                #[trigger] download_lock_file_name(hash, recipe.name@),
            ),
{
    let input = lock_hash_input(recipe);
    let hash = quality_hash(&input);
    download_lock_cache_path(hash, recipe.name.as_str(), host)
}

} // verus!
