//! Choosing the commit of a git repository from its version tags.
use crate::resolver::{resolve_best, Resolver};
use crate::text::{strip_prefix, strip_text_prefix};
use crate::version::{Version, VersionRequirement};
use vstd::prelude::*;

verus! {

pub open spec fn tag_prefix() -> Seq<char> {
    "refs/tags/"@
}

/// The name of the tag that the reference `full_ref_name` names, if it is a tag.
pub fn to_tag(full_ref_name: &str) -> (r: Option<&str>)
    ensures
        match r {
            Some(tag) => strip_prefix(full_ref_name@, tag_prefix()) == Some(tag@),
            None => strip_prefix(full_ref_name@, tag_prefix()) is None,
        },
{
    strip_text_prefix(full_ref_name, "refs/tags/")
}

/// Why a tag names no version.
#[derive(Clone, Copy, Debug, PartialEq, Eq, Structural)]
pub enum TagError {
    /// The tag does not start with `v`.
    NotVersionTag,
}

/// The version that a tag `v<version>` names.
pub fn parse_version(tag_name: &str) -> (r: Result<Version, TagError>)
    ensures
        match r {
            Ok(version) => strip_prefix(tag_name@, seq!['v']) == Some(version@),
            Err(_) => strip_prefix(tag_name@, seq!['v']) is None,
        },
{
    let v = "v";
    proof {
        reveal_strlit("v");
        assert(v@ =~= seq!['v']);
    }
    match strip_text_prefix(tag_name, v) {
        Some(version) => Ok(Version::from_text(version)),
        None => Err(TagError::NotVersionTag),
    }
}

/// The version that the reference `name` tags, if it is a tag `v<version>`.
pub open spec fn tag_version(name: Seq<char>) -> Option<Seq<char>> {
    match strip_prefix(name, tag_prefix()) {
        Some(tag) => strip_prefix(tag, seq!['v']),
        None => None,
    }
}

/// The commits of the version tags among `references`, with their versions, in order.
pub open spec fn tag_candidates<T>(references: Seq<(String, T)>) -> Seq<(T, Seq<char>)>
    decreases references.len(),
{
    if references.len() == 0 {
        Seq::empty()
    } else {
        let front = tag_candidates(references.drop_last());
        match tag_version(references.last().0@) {
            Some(version) => front.push((references.last().1, version)),
            None => front,
        }
    }
}

/// Why no commit was chosen.
#[derive(Clone, Copy, Debug, PartialEq, Eq, Structural)]
pub enum ResolveError {
    /// No tag names a version that meets the requirement.
    NoMatchingTag,
}

/// The commit of the tag with the greatest version that meets `version`, among the
/// references `references` (each a full reference name with its commit).
pub fn resolve_commit<T: Copy>(references: &Vec<(String, T)>, version: &VersionRequirement) -> (r:
    Result<T, ResolveError>)
    ensures
        match resolve_best(version@, tag_candidates(references@)) {
            Some((commit, _)) => r == Ok::<T, ResolveError>(commit),
            None => r == Err::<T, ResolveError>(ResolveError::NoMatchingTag),
        },
{
    let mut resolver: Resolver<T> = Resolver::from_requirement(version);
    let mut i: usize = 0;
    while i < references.len()
        invariant
            i <= references@.len(),
            resolver.requirement_spec() == version@,
            resolver.best_spec() == resolve_best(version@, tag_candidates(references@.take(i as int))),
        decreases references@.len() - i,
    {
        proof {
            assert(references@.take(i + 1).drop_last() =~= references@.take(i as int));
            assert(references@.take(i + 1).last() == references@[i as int]);
        }
        let (name, commit) = (&references[i].0, references[i].1);
        if let Some(tag_name) = to_tag(name.as_str()) {
            if let Ok(tag_version) = parse_version(tag_name) {
                let ghost candidates = tag_candidates(references@.take(i as int));
                resolver.add_option(commit, tag_version);
                proof {
                    assert(tag_candidates(references@.take(i + 1)) == candidates.push(
                        (commit, tag_version@),
                    ));
                    assert(candidates.push((commit, tag_version@)).drop_last() =~= candidates);
                }
            }
        }
        i = i + 1;
    }
    proof {
        assert(references@.take(references@.len() as int) =~= references@);
    }
    match resolver.best() {
        Some(commit) => Ok(commit),
        None => Err(ResolveError::NoMatchingTag),
    }
}

/// Tagging a version and reading the tag back agree: the reference
/// `refs/tags/v<version>` names the version `version`.
pub proof fn lemma_tag_version_round_trip(version: Seq<char>)
    ensures
        tag_version(tag_prefix() + seq!['v'] + version) == Some(version),
{
    let name = tag_prefix() + seq!['v'] + version;
    let tag = seq!['v'] + version;
    assert(name =~= tag_prefix() + tag);
    assert(name.take(tag_prefix().len() as int) =~= tag_prefix());
    assert(name.skip(tag_prefix().len() as int) =~= tag);
    assert(tag.take(1) =~= seq!['v']);
    assert(tag.skip(1) =~= version);
}

} // verus!
