//! Tarball file names and their compression.
use crate::text::{
    contains_char, has_char, is_last_occurrence, occurs_at, rsplit_once, strip_prefix,
    strip_text_prefix, text_rsplit_once,
};
use vstd::prelude::*;

verus! {

/// How a tarball is compressed.
#[derive(Clone, Copy, Debug, PartialEq, Eq, Structural, Hash)]
pub enum Compression {
    Uncompressed,
    Xz,
}

pub open spec fn tar_extension() -> Seq<char> {
    seq!['.', 't', 'a', 'r']
}

/// The compression that a file extension (the text after `.tar.`) stands for: no
/// extension means no compression, `xz` means xz, and anything else is unknown.
pub open spec fn compression_for_extension(extension: Option<Seq<char>>) -> Option<Compression> {
    match extension {
        None => Some(Compression::Uncompressed),
        Some(text) => if text == seq!['x', 'z'] {
            Some(Compression::Xz)
        } else {
            None
        },
    }
}

/// The base name and compression of a tarball file name: the name is split at its
/// last `.tar`, what follows must hold no `/`, and a `.` then introduces the
/// compression extension.
pub open spec fn tarball_file_name(file_name: Seq<char>) -> Option<(Seq<char>, Compression)> {
    match rsplit_once(file_name, tar_extension()) {
        None => None,
        Some((basename, extension)) => if contains_char(extension, '/') {
            None
        } else {
            match compression_for_extension(strip_prefix(extension, seq!['.'])) {
                Some(compression) => Some((basename, compression)),
                None => None,
            }
        },
    }
}

/// The base name and compression of a tarball URL or path in the older reading: an
/// empty extension means no compression, otherwise it must be `.xz` with no `/`.
pub open spec fn tarball_basename(url_or_path: Seq<char>) -> Option<(Seq<char>, Compression)> {
    match rsplit_once(url_or_path, tar_extension()) {
        None => None,
        Some((basename, extension)) => if extension.len() == 0 {
            Some((basename, Compression::Uncompressed))
        } else {
            match strip_prefix(extension, seq!['.']) {
                None => None,
                Some(extension) => if contains_char(extension, '/') {
                    None
                } else if extension == seq!['x', 'z'] {
                    Some((basename, Compression::Xz))
                } else {
                    None
                },
            }
        },
    }
}

fn is_xz(text: &str) -> (r: bool)
    ensures
        r == (text@ == seq!['x', 'z']),
{
    let len: usize = text.unicode_len();
    if len == 2 && text.get_char(0) == 'x' && text.get_char(1) == 'z' {
        assert(text@ =~= seq!['x', 'z']);
        true
    } else {
        false
    }
}

impl Compression {
    pub fn from_extension(extension: Option<&str>) -> (r: Option<Compression>)
        ensures
            r == compression_for_extension(
                match extension {
                    Some(text) => Some(text@),
                    None => None,
                },
            ),
    {
        match extension {
            None => Some(Compression::Uncompressed),
            Some(text) => if is_xz(text) {
                Some(Compression::Xz)
            } else {
                None
            },
        }
    }
}

/// Splits a tarball file name into its base name and compression.
pub fn split_tarball_file_name(file_name: &str) -> (r: Option<(&str, Compression)>)
    ensures
        match r {
            Some((basename, compression)) => tarball_file_name(file_name@) == Some(
                (basename@, compression),
            ),
            None => tarball_file_name(file_name@) is None,
        },
{
    let tar = ".tar";
    proof {
        reveal_strlit(".tar");
        assert(tar@ =~= tar_extension());
    }
    let (basename, extension) = match text_rsplit_once(file_name, tar) {
        Some(parts) => parts,
        None => return None,
    };
    if has_char(extension, '/') {
        return None;
    }
    let dot = ".";
    proof {
        reveal_strlit(".");
        assert(dot@ =~= seq!['.']);
    }
    let extension = strip_text_prefix(extension, dot);
    let compression = match Compression::from_extension(extension) {
        Some(compression) => compression,
        None => return None,
    };
    Some((basename, compression))
}

/// The compression of a tarball, judged by its URL.
pub fn detect_tarball_compression(url: &str) -> (r: Option<Compression>)
    ensures
        r == match tarball_file_name(url@) {
            Some((_, compression)) => Some(compression),
            None => None,
        },
{
    match split_tarball_file_name(url) {
        Some((_, compression)) => Some(compression),
        None => None,
    }
}

/// Splits a tarball URL or path into its base name and compression, in the older
/// reading of the extension.
pub fn basename_and_compression(url_or_path: &str) -> (r: Option<(&str, Compression)>)
    ensures
        match r {
            Some((basename, compression)) => tarball_basename(url_or_path@) == Some(
                (basename@, compression),
            ),
            None => tarball_basename(url_or_path@) is None,
        },
{
    let tar = ".tar";
    proof {
        reveal_strlit(".tar");
        assert(tar@ =~= tar_extension());
    }
    let (basename, extension) = match text_rsplit_once(url_or_path, tar) {
        Some(parts) => parts,
        None => return None,
    };
    if extension.is_empty() {
        return Some((basename, Compression::Uncompressed));
    }
    let dot = ".";
    proof {
        reveal_strlit(".");
        assert(dot@ =~= seq!['.']);
    }
    let extension = match strip_text_prefix(extension, dot) {
        Some(extension) => extension,
        None => return None,
    };
    if has_char(extension, '/') {
        return None;
    }
    if is_xz(extension) {
        Some((basename, Compression::Xz))
    } else {
        None
    }
}

/// The compression of a tarball URL or path, in the older reading of the extension.
pub fn detect_compression(url_or_path: &str) -> (r: Option<Compression>)
    ensures
        r == match tarball_basename(url_or_path@) {
            Some((_, compression)) => Some(compression),
            None => None,
        },
{
    match basename_and_compression(url_or_path) {
        Some((_, compression)) => Some(compression),
        None => None,
    }
}

/// In a text that ends with `.tar` followed by a `tail` shorter than `.tar`, that
/// `.tar` is the last one.
proof fn lemma_last_tar(basename: Seq<char>, tail: Seq<char>)
    requires
        tail.len() < 4,
    ensures
        rsplit_once(basename + tar_extension() + tail, tar_extension()) == Some((basename, tail)),
{
    let name = basename + tar_extension() + tail;
    let at = basename.len() as int;
    assert(name.subrange(at, at + 4) =~= tar_extension());
    assert(occurs_at(name, tar_extension(), at));
    assert forall|j: int| at < j && occurs_at(name, tar_extension(), j) implies false by {
        assert(name.subrange(j, j + 4)[0] == name[j]);
        assert(j < at + 4);
        assert(name[j] == tar_extension()[j - at]);
    }
    assert(is_last_occurrence(name, tar_extension(), at));
    let i = choose|i: int| is_last_occurrence(name, tar_extension(), i);
    if i < at {
        assert(occurs_at(name, tar_extension(), at));
    }
    assert(i == at);
    assert(name.take(at) =~= basename);
    assert(name.skip(at + 4) =~= tail);
}

/// Naming a tarball and reading the name back agree: `<basename>.tar.xz` is the
/// xz-compressed tarball `basename`, and `<basename>.tar` the uncompressed one.
pub proof fn lemma_tarball_name_round_trip(basename: Seq<char>)
    ensures
        tarball_file_name(basename + seq!['.', 't', 'a', 'r', '.', 'x', 'z']) == Some(
            (basename, Compression::Xz),
        ),
        tarball_file_name(basename + seq!['.', 't', 'a', 'r']) == Some(
            (basename, Compression::Uncompressed),
        ),
{
    let xz = seq!['.', 'x', 'z'];
    lemma_last_tar(basename, xz);
    assert(basename + seq!['.', 't', 'a', 'r', '.', 'x', 'z'] =~= basename + tar_extension() + xz);
    assert(!contains_char(xz, '/')) by {
        if contains_char(xz, '/') {
            let k = choose|k: int| 0 <= k < xz.len() && xz[k] == '/';
            assert(xz[k] != '/');
        }
    }
    assert(xz.take(1) =~= seq!['.']);
    assert(xz.skip(1) =~= seq!['x', 'z']);
    let empty = Seq::<char>::empty();
    lemma_last_tar(basename, empty);
    assert(basename + seq!['.', 't', 'a', 'r'] =~= basename + tar_extension() + empty);
}

} // verus!
