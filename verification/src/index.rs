//! Finding the tarball for a version in an HTML index page of a web server.
use crate::address::{join_url, url_joined};
use crate::resolver::{lemma_resolve_best_found, resolve_best, Resolver};
use crate::tarball::{split_tarball_file_name, tarball_file_name, Compression};
use crate::text::{strip_prefix, strip_text_prefix, text_equals};
use crate::version::{RequirementView, Version, VersionRequirement};
use vstd::prelude::*;
use vstd::utf8::{decode_utf8, valid_utf8};

verus! {

/// An element of a parsed HTML document: its tag name, and the value of one
/// attribute that was asked for, which may be absent (`None`), present without a
/// value (`Some(None)`) or present with one.
#[derive(Debug)]
pub struct HtmlElement {
    pub name: Vec<u8>,
    pub attribute: Option<Option<Vec<u8>>>,
}

impl View for HtmlElement {
    type V = (Seq<u8>, Option<Option<Seq<u8>>>);

    open spec fn view(&self) -> (Seq<u8>, Option<Option<Seq<u8>>>) {
        (
            self.name@,
            match self.attribute {
                Some(Some(value)) => Some(Some(value@)),
                Some(None) => Some(None),
                None => None,
            },
        )
    }
}

/// A node of a parsed HTML document: an element, or anything else (text, comments).
pub type HtmlNodeView = Option<(Seq<u8>, Option<Option<Seq<u8>>>)>;

pub open spec fn node_view(node: Option<HtmlElement>) -> HtmlNodeView {
    match node {
        Some(element) => Some(element@),
        None => None,
    }
}

pub open spec fn nodes_view(nodes: Seq<Option<HtmlElement>>) -> Seq<HtmlNodeView> {
    nodes.map_values(|node: Option<HtmlElement>| node_view(node))
}

/// The nodes, in document order, of the document that `tl::parse` makes of `html`,
/// each element with the value of its attribute named `attribute`; `None` where the
/// document does not parse.
pub uninterp spec fn html_nodes(html: Seq<char>, attribute: Seq<char>) -> Option<Seq<HtmlNodeView>>;

/// Calls `tl::parse` with the default options and reports every node of the document,
/// in the order of `VDom::nodes`: for a tag, its name and what
/// `Attributes::get(attribute)` gives; for any other node, `None`. Claims only that
/// the result is the one that the crate gives for these texts.
#[verifier::external_body]
fn parse_html<'a>(html: &'a str, attribute: &'a str) -> (r: Option<Vec<Option<HtmlElement>>>)
    ensures
        html_nodes(html@, attribute@) == match r {
            Some(nodes) => Some(nodes_view(nodes@)),
            None => None,
        },
{
    let dom = tl::parse(html, tl::ParserOptions::new()).ok()?;
    Some(dom.nodes().iter().map(|node| match node {
        tl::Node::Tag(tag) => Some(HtmlElement {
            name: tag.name().as_bytes().to_vec(),
            attribute: tag.attributes().get(attribute).map(|value| value.map(|bytes| bytes.as_bytes().to_vec())),
        }),
        _ => None,
    }).collect())
}

/// Calls `std::str::from_utf8`, which accepts exactly the well-formed UTF-8 byte
/// sequences and then gives the text that they encode.
#[verifier::external_body]
pub(crate) fn utf8_text(bytes: &[u8]) -> (r: Option<&str>)
    ensures
        match r {
            Some(text) => valid_utf8(bytes@) && text@ == decode_utf8(bytes@),
            None => !valid_utf8(bytes@),
        },
{
    std::str::from_utf8(bytes).ok()
}

/// The name of the links of an index: `a`.
pub open spec fn link_tag() -> Seq<u8> {
    seq![97u8]
}

/// The attribute of a link that holds its target: `href`.
pub open spec fn link_attribute() -> Seq<char> {
    seq!['h', 'r', 'e', 'f']
}

/// What a node of an index offers, if anything: a link whose target is UTF-8 text
/// naming a tarball whose base name starts with `prefix`, given as the file name, its
/// compression and the rest of the base name after the prefix, which is the version.
pub open spec fn index_entry(node: HtmlNodeView, prefix: Seq<char>) -> Option<
    (Seq<char>, Compression, Seq<char>),
> {
    match node {
        Some((name, Some(Some(target)))) => if name == link_tag() && valid_utf8(target) {
            let file_name = decode_utf8(target);
            match tarball_file_name(file_name) {
                Some((basename, compression)) => match strip_prefix(basename, prefix) {
                    Some(version) => Some((file_name, compression, version)),
                    None => None,
                },
                None => None,
            }
        } else {
            None
        },
        _ => None,
    }
}

/// The candidates of an index, in document order: the position of each node that
/// offers a file, with the version in the file's name.
pub open spec fn index_candidates(nodes: Seq<HtmlNodeView>, prefix: Seq<char>) -> Seq<
    (usize, Seq<char>),
>
    decreases nodes.len(),
{
    if nodes.len() == 0 {
        seq![]
    } else {
        let earlier = index_candidates(nodes.drop_last(), prefix);
        match index_entry(nodes.last(), prefix) {
            Some((_, _, version)) => earlier.push(((nodes.len() - 1) as usize, version)),
            None => earlier,
        }
    }
}

/// The file that an index offers for `requirement`: of the offered files whose
/// version meets it, the first of those with the greatest version, given by its name
/// and compression.
pub open spec fn chosen_file(
    nodes: Seq<HtmlNodeView>,
    requirement: RequirementView,
    prefix: Seq<char>,
) -> Option<(Seq<char>, Compression)> {
    match resolve_best(requirement, index_candidates(nodes, prefix)) {
        Some((position, _)) => match index_entry(nodes[position as int], prefix) {
            Some((file_name, compression, _)) => Some((file_name, compression)),
            None => None,
        },
        None => None,
    }
}

/// Every candidate is a node that offers a file, with that file's version.
pub proof fn lemma_index_candidates_sound(nodes: Seq<HtmlNodeView>, prefix: Seq<char>)
    requires
        nodes.len() <= usize::MAX,
    ensures
        forall|k: int|
            0 <= k < index_candidates(nodes, prefix).len() ==> {
                let (position, version) = #[trigger] index_candidates(nodes, prefix)[k];
                &&& position < nodes.len()
                &&& index_entry(nodes[position as int], prefix) matches Some((_, _, v)) && v
                    == version
            },
    decreases nodes.len(),
{
    if nodes.len() > 0 {
        lemma_index_candidates_sound(nodes.drop_last(), prefix);
        let earlier = index_candidates(nodes.drop_last(), prefix);
        assert forall|k: int| 0 <= k < earlier.len() implies #[trigger] nodes.drop_last()[earlier[k].0 as int] == nodes[earlier[k].0 as int] by {}
    }
}

fn is_link_tag(name: &Vec<u8>) -> (r: bool)
    ensures
        r == (name@ == link_tag()),
{
    if name.len() == 1 && name[0] == 97u8 {
        assert(name@ =~= link_tag());
        true
    } else {
        false
    }
}

/// What a node of an index offers: see [`index_entry`].
pub fn entry_of_node<'a>(node: &'a Option<HtmlElement>, prefix: &str) -> (r: Option<
    (&'a str, Compression, &'a str),
>)
    ensures
        index_entry(node_view(*node), prefix@) == match r {
            Some((file_name, compression, version)) => Some((file_name@, compression, version@)),
            None => None,
        },
{
    let element = match node {
        Some(element) => element,
        None => return None,
    };
    let target = match &element.attribute {
        Some(Some(target)) => target,
        _ => return None,
    };
    if !is_link_tag(&element.name) {
        return None;
    }
    let file_name = match utf8_text(target.as_slice()) {
        Some(file_name) => file_name,
        None => return None,
    };
    let (basename, compression) = match split_tarball_file_name(file_name) {
        Some(parts) => parts,
        None => return None,
    };
    match strip_text_prefix(basename, prefix) {
        Some(version) => Some((file_name, compression, version)),
        None => None,
    }
}

/// The file that an index offers for `requirement`, among the nodes of the index page
/// (see [`chosen_file`]).
pub fn select_index_file<'a>(
    nodes: &'a Vec<Option<HtmlElement>>,
    requirement: &VersionRequirement,
    prefix: &str,
) -> (r: Option<(&'a str, Compression)>)
    ensures
        chosen_file(nodes_view(nodes@), requirement@, prefix@) == match r {
            Some((file_name, compression)) => Some((file_name@, compression)),
            None => None,
        },
{
    let ghost all = nodes_view(nodes@);
    let mut resolver: Resolver<usize> = Resolver::from_requirement(requirement);
    let mut k: usize = 0;
    while k < nodes.len()
        invariant
            k <= nodes.len(),
            all == nodes_view(nodes@),
            resolver.requirement_spec() == requirement@,
            resolver.best_spec() == resolve_best(
                requirement@,
                index_candidates(all.take(k as int), prefix@),
            ),
        decreases nodes.len() - k,
    {
        proof {
            assert(all.take(k + 1).drop_last() =~= all.take(k as int));
            assert(all.take(k + 1).last() == node_view(nodes@[k as int]));
        }
        let ghost earlier = index_candidates(all.take(k as int), prefix@);
        match entry_of_node(&nodes[k], prefix) {
            Some((_, _, version)) => {
                proof {
                    let candidate = (k, version@);
                    assert(index_candidates(all.take(k + 1), prefix@) == earlier.push(candidate));
                    assert(earlier.push(candidate).drop_last() =~= earlier);
                }
                resolver.add_option(k, Version::from_text(version));
            },
            None => {
                assert(index_candidates(all.take(k + 1), prefix@) == earlier);
            },
        }
        k = k + 1;
    }
    proof {
        assert(all.take(nodes.len() as int) =~= all);
        lemma_index_candidates_sound(all, prefix@);
        lemma_resolve_best_found(requirement@, index_candidates(all, prefix@));
    }
    match resolver.best() {
        Some(position) => {
            proof {
                let candidates = index_candidates(all, prefix@);
                let k = choose|k: int|
                    0 <= k < candidates.len() && #[trigger] candidates[k] == (
                        position,
                        resolve_best(requirement@, candidates).unwrap().1,
                    );
                assert(candidates[k].0 == position);
            }
            match entry_of_node(&nodes[position], prefix) {
                Some((file_name, compression, _)) => Some((file_name, compression)),
                None => None,
            }
        },
        None => None,
    }
}

/// Why no file could be found in an index.
#[derive(Debug, Clone, Copy, PartialEq, Eq, Structural)]
pub enum IndexError {
    /// The page is not UTF-8 text.
    NotUtf8,
    /// The page is not HTML that can be parsed.
    InvalidHtml,
    /// No file in the index has a version that meets the requirement.
    NoMatchingFile,
    /// The file's name could not be joined to the index's URL.
    InvalidFileUrl,
}

/// A file found in an index: where it was fetched from, where the index was asked for
/// where that differs (after a redirect), and its compression.
#[derive(Debug)]
pub struct IndexedFile {
    pub real_url: String,
    pub virtual_url: Option<String>,
    pub compression: Compression,
}

/// What finding a file in an index gives, for the index at `index` that was served
/// from `resolved_index` with the page `body`: the real URL of the file, its URL
/// relative to the index as asked for where that was redirected, and its compression.
pub open spec fn index_lookup(
    index: Seq<char>,
    resolved_index: Seq<char>,
    body: Seq<u8>,
    requirement: RequirementView,
    prefix: Seq<char>,
) -> Result<(Seq<char>, Option<Seq<char>>, Compression), IndexError> {
    if !valid_utf8(body) {
        Err(IndexError::NotUtf8)
    } else {
        match html_nodes(decode_utf8(body), link_attribute()) {
            None => Err(IndexError::InvalidHtml),
            Some(nodes) => match chosen_file(nodes, requirement, prefix) {
                None => Err(IndexError::NoMatchingFile),
                Some((file_name, compression)) => match url_joined(resolved_index, file_name) {
                    None => Err(IndexError::InvalidFileUrl),
                    Some(real_url) => if resolved_index == index {
                        Ok((real_url, None, compression))
                    } else {
                        match url_joined(index, file_name) {
                            None => Err(IndexError::InvalidFileUrl),
                            Some(virtual_url) => Ok((real_url, Some(virtual_url), compression)),
                        }
                    },
                },
            },
        }
    }
}

/// Finds the file for `requirement` in the index at `index`, which the web server
/// served from `resolved_index` (they differ after a redirect) with the page `body`.
pub fn find_in_index(
    index: &str,
    resolved_index: &str,
    body: &[u8],
    requirement: &VersionRequirement,
    file_name_prefix: &str,
) -> (r: Result<IndexedFile, IndexError>)
    ensures
        index_lookup(index@, resolved_index@, body@, requirement@, file_name_prefix@) == match r {
            Ok(file) => Ok(
                (
                    file.real_url@,
                    match file.virtual_url {
                        Some(url) => Some(url@),
                        None => None,
                    },
                    file.compression,
                ),
            ),
            Err(error) => Err(error),
        },
{
    let html = match utf8_text(body) {
        Some(html) => html,
        None => return Err(IndexError::NotUtf8),
    };
    let attribute = "href";
    proof {
        reveal_strlit("href");
        assert(attribute@ =~= link_attribute());
    }
    let nodes = match parse_html(html, attribute) {
        Some(nodes) => nodes,
        None => return Err(IndexError::InvalidHtml),
    };
    let (file_name, compression) = match select_index_file(&nodes, requirement, file_name_prefix) {
        Some(found) => found,
        None => return Err(IndexError::NoMatchingFile),
    };
    let real_url = match join_url(resolved_index, file_name) {
        Some(url) => url,
        None => return Err(IndexError::InvalidFileUrl),
    };
    let virtual_url = if text_equals(resolved_index, index) {
        None
    } else {
        match join_url(index, file_name) {
            Some(url) => Some(url),
            None => return Err(IndexError::InvalidFileUrl),
        }
    };
    Ok(IndexedFile { real_url, virtual_url, compression })
}

} // verus!
