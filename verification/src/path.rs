//! Absolute paths on the host and on the target system.
//!
//! A host path names a file where this process runs; a target path names where a
//! file will live on the installed system, relative to its root `/`.
use crate::text::{contains_char, lemma_split_char_join, split_char};
use vstd::prelude::*;

verus! {

/// Whether `path` is absolute: it starts at the root `/`.
pub open spec fn is_absolute(path: Seq<char>) -> bool {
    path.len() > 0 && path[0] == '/'
}

/// What `PathBuf::push` makes of `base` and `suffix`: an absolute suffix replaces the
/// base; otherwise a `/` is put between them unless the base is empty or already
/// ends with one.
pub open spec fn push_path(base: Seq<char>, suffix: Seq<char>) -> Seq<char> {
    if is_absolute(suffix) {
        suffix
    } else if base.len() > 0 && base.last() != '/' {
        base + seq!['/'] + suffix
    } else {
        base + suffix
    }
}

/// Whether a part between two `/`s is a component of its path: `Path::components`
/// drops the empty parts that repeated and trailing separators leave, and `.` (but at
/// the start of a relative path, which the components of an absolute path never are).
pub open spec fn kept_part() -> spec_fn(Seq<char>) -> bool {
    |part: Seq<char>| part.len() > 0 && part != seq!['.']
}

/// The components of an absolute path after its root directory, as `Path::components`
/// gives them: the parts between `/`s that are kept.
pub open spec fn path_components(path: Seq<char>) -> Seq<Seq<char>> {
    split_char(path, '/').filter(kept_part())
}

/// Whether the components of `base` are the first components of `path`, which is what
/// `Path::starts_with` asks of two absolute paths.
pub open spec fn is_component_prefix(base: Seq<char>, path: Seq<char>) -> bool {
    let prefix = path_components(base);
    let components = path_components(path);
    prefix.len() <= components.len() && components.take(prefix.len() as int) == prefix
}

/// The components of `a`, a `/` and `b` are those of `a` followed by those of `b`.
proof fn lemma_components_join(a: Seq<char>, b: Seq<char>)
    ensures
        path_components(a + seq!['/'] + b) == path_components(a) + path_components(b),
{
    lemma_split_char_join(a, '/', b);
    Seq::filter_distributes_over_add(split_char(a, '/'), split_char(b, '/'), kept_part());
}

/// The empty path and the root directory have no components after the root.
proof fn lemma_components_empty()
    ensures
        path_components(Seq::<char>::empty()) == Seq::<Seq<char>>::empty(),
        path_components(seq!['/']) == Seq::<Seq<char>>::empty(),
{
    let empty = Seq::<char>::empty();
    assert(crate::text::char_index_of(empty, '/') is None);
    assert(split_char(empty, '/') == seq![empty]);
    reveal_with_fuel(Seq::filter, 2);
    assert(seq![empty].filter(kept_part()) =~= Seq::<Seq<char>>::empty()) by {
        assert(seq![empty].drop_last() =~= Seq::<Seq<char>>::empty());
    }
    assert(seq!['/'] =~= empty + seq!['/'] + empty);
    lemma_components_join(empty, empty);
}

/// Pushing a relative suffix onto a path puts the suffix's components after the path's.
#[verifier::spinoff_prover]
proof fn lemma_components_push(base: Seq<char>, suffix: Seq<char>)
    requires
        !is_absolute(suffix),
    ensures
        path_components(push_path(base, suffix)) == path_components(base) + path_components(
            suffix,
        ),
{
    let empty = Seq::<char>::empty();
    let none = Seq::<Seq<char>>::empty();
    if base.len() > 0 && base.last() != '/' {
        assert(push_path(base, suffix) == base + seq!['/'] + suffix);
        lemma_components_join(base, suffix);
    } else if base.len() == 0 {
        lemma_components_empty();
        assert(base =~= empty);
        assert(push_path(base, suffix) =~= suffix);
        assert(path_components(base) + path_components(suffix) =~= path_components(suffix));
    } else {
        let front = base.drop_last();
        assert(push_path(base, suffix) == base + suffix);
        assert(path_components(base) == path_components(front)) by {
            lemma_components_empty();
            assert(base =~= front + seq!['/'] + empty);
            lemma_components_join(front, empty);
            assert(path_components(front) + none =~= path_components(front));
        }
        assert(base + suffix =~= front + seq!['/'] + suffix);
        lemma_components_join(front, suffix);
    }
}

/// What `Path::strip_prefix(path, base)` gives: `path` without the leading
/// components that make up `base`, or `None` when `base` is not such a prefix.
pub uninterp spec fn path_strip_prefix(path: Seq<char>, base: Seq<char>) -> Option<Seq<char>>;

/// What `Path::with_extension(path, extension)` gives.
pub uninterp spec fn path_with_extension(path: Seq<char>, extension: Seq<char>) -> Seq<char>;

/// Calls `std::path::Path::strip_prefix`. The contract claims that the result is
/// the value `path_strip_prefix` names, and what the documentation of `strip_prefix`,
/// `starts_with` and `components` says of two absolute paths: the call succeeds
/// exactly when the components of `base` are the first components of `path`, and
/// then hands back the relative rest (as the documentation's examples show) that,
/// joined onto `base`, gives a path with the components of `path`.
#[verifier::external_body]
fn strip_path_prefix(path: &str, base: &str) -> (r: Option<String>)
    ensures
        r matches Some(rest) ==> path_strip_prefix(path@, base@) == Some(rest@),
        r is None ==> path_strip_prefix(path@, base@) is None,
        is_absolute(path@) && base@ == seq!['/'] ==> r is Some,
        is_absolute(path@) && is_absolute(base@) ==> (r is Some <==> is_component_prefix(
            base@,
            path@,
        )),
        r matches Some(rest) ==> (is_absolute(base@) ==> !is_absolute(rest@) && path_components(
            push_path(base@, rest@),
        ) == path_components(path@)),
{
    std::path::Path::new(path).strip_prefix(base).ok().map(|rest| rest.to_string_lossy().into_owned())
}

/// Calls `std::path::Path::with_extension`. The contract claims that the result is the
/// value `path_with_extension` names, and that it stays absolute when the path is
/// (only the last component, the file name, is changed, and a path without a file
/// name is kept as it is). The extension holds no `/`: `PathBuf::set_extension`
/// panics on an extension with a path separator.
#[verifier::external_body]
fn replace_path_extension(path: &str, extension: &str) -> (r: String)
    requires
        !contains_char(extension@, '/'),
    ensures
        r@ == path_with_extension(path@, extension@),
        is_absolute(path@) ==> is_absolute(r@),
{
    std::path::Path::new(path).with_extension(extension).to_string_lossy().into_owned()
}

/// `base` with `suffix` pushed onto it.
pub fn push_path_text(base: &str, suffix: &str) -> (r: String)
    ensures
        r@ == push_path(base@, suffix@),
{
    let suffix_len: usize = suffix.unicode_len();
    let base_len: usize = base.unicode_len();
    proof {
        reveal_strlit("/");
    }
    if suffix_len > 0 && suffix.get_char(0) == '/' {
        String::from_str(suffix)
    } else if base_len > 0 && base.get_char(base_len - 1) != '/' {
        let mut text = String::from_str(base);
        text.append("/");
        text.append(suffix);
        text
    } else {
        let mut text = String::from_str(base);
        text.append(suffix);
        text
    }
}

/// A path that starts at the root.
#[derive(Debug)]
pub struct AbsolutePath {
    path: String,
}

impl View for AbsolutePath {
    type V = Seq<char>;

    closed spec fn view(&self) -> Seq<char> {
        self.path@
    }
}

impl AbsolutePath {
    #[verifier::type_invariant]
    closed spec fn absolute(self) -> bool {
        is_absolute(self.path@)
    }

    pub fn new(path: &str) -> (r: Option<AbsolutePath>)
        ensures
            match r {
                Some(absolute) => absolute@ == path@ && is_absolute(path@),
                None => !is_absolute(path@),
            },
    {
        if path.unicode_len() > 0 && path.get_char(0) == '/' {
            Some(AbsolutePath { path: String::from_str(path) })
        } else {
            None
        }
    }

    /// The path, or the text back when it is not absolute.
    pub fn new_boxed(path: String) -> (r: Result<AbsolutePath, String>)
        ensures
            match r {
                Ok(absolute) => absolute@ == path@ && is_absolute(path@),
                Err(back) => back == path && !is_absolute(path@),
            },
    {
        if path.as_str().unicode_len() > 0 && path.as_str().get_char(0) == '/' {
            Ok(AbsolutePath { path })
        } else {
            Err(path)
        }
    }

    pub fn as_str(&self) -> (r: &str)
        ensures
            r@ == self@,
            is_absolute(r@),
    {
        proof {
            use_type_invariant(self);
        }
        self.path.as_str()
    }

    /// Joins `suffix` onto the end of this path.
    pub fn with_suffix(&self, suffix: &str) -> (r: AbsolutePath)
        ensures
            r@ == push_path(self@, suffix@),
            is_absolute(r@),
    {
        proof {
            use_type_invariant(self);
        }
        AbsolutePath { path: push_path_text(self.path.as_str(), suffix) }
    }

    /// This path below the root, as `Path::strip_prefix` takes the root `/` off.
    pub fn to_relative(&self) -> (r: String)
        ensures
            path_strip_prefix(self@, seq!['/']) == Some(r@),
            !is_absolute(r@),
            path_components(r@) == path_components(self@),
    {
        let root = "/";
        proof {
            use_type_invariant(self);
            reveal_strlit("/");
            assert(root@ =~= seq!['/']);
        }
        match strip_path_prefix(self.path.as_str(), root) {
            Some(rest) => {
                proof {
                    lemma_components_push(seq!['/'], rest@);
                    lemma_components_empty();
                    assert(path_components(seq!['/']) + path_components(rest@) =~= path_components(
                        rest@,
                    ));
                }
                rest
            },
            None => {
                proof {
                    assert(false);
                }
                String::new()
            },
        }
    }

    /// This path with its extension replaced.
    pub fn with_extension(&self, extension: &str) -> (r: AbsolutePath)
        requires
            !contains_char(extension@, '/'),
        ensures
            r@ == path_with_extension(self@, extension@),
    {
        proof {
            use_type_invariant(self);
        }
        AbsolutePath { path: replace_path_extension(self.path.as_str(), extension) }
    }

    pub fn duplicate(&self) -> (r: AbsolutePath)
        ensures
            r@ == self@,
    {
        proof {
            use_type_invariant(self);
        }
        AbsolutePath { path: self.path.clone() }
    }

    /// Whether two paths have the same text.
    pub fn equals(&self, other: &AbsolutePath) -> (r: bool)
        ensures
            r == (self@ == other@),
    {
        self.path == other.path
    }
}

/// An absolute path on the host.
#[derive(Debug)]
pub struct HostPath {
    pub absolute: AbsolutePath,
}

impl View for HostPath {
    type V = Seq<char>;

    open spec fn view(&self) -> Seq<char> {
        self.absolute@
    }
}

impl HostPath {
    pub fn new(path: &str) -> (r: Option<HostPath>)
        ensures
            match r {
                Some(host) => host@ == path@ && is_absolute(path@),
                None => !is_absolute(path@),
            },
    {
        match AbsolutePath::new(path) {
            Some(absolute) => Some(HostPath { absolute }),
            None => None,
        }
    }

    pub fn new_boxed(path: String) -> (r: Result<HostPath, String>)
        ensures
            match r {
                Ok(host) => host@ == path@ && is_absolute(path@),
                Err(back) => back == path && !is_absolute(path@),
            },
    {
        match AbsolutePath::new_boxed(path) {
            Ok(absolute) => Ok(HostPath { absolute }),
            Err(back) => Err(back),
        }
    }

    /// Joins `suffix` onto the end of this path.
    pub fn with_suffix(&self, suffix: &str) -> (r: HostPath)
        ensures
            r@ == push_path(self@, suffix@),
            is_absolute(r@),
    {
        HostPath { absolute: self.absolute.with_suffix(suffix) }
    }

    pub fn as_str(&self) -> (r: &str)
        ensures
            r@ == self@,
            is_absolute(r@),
    {
        self.absolute.as_str()
    }

    pub fn duplicate(&self) -> (r: HostPath)
        ensures
            r@ == self@,
    {
        HostPath { absolute: self.absolute.duplicate() }
    }
}

/// An absolute path on the target system.
#[derive(Debug)]
pub struct TargetPath {
    pub absolute: AbsolutePath,
}

impl View for TargetPath {
    type V = Seq<char>;

    open spec fn view(&self) -> Seq<char> {
        self.absolute@
    }
}

impl TargetPath {
    pub fn new(path: &str) -> (r: Option<TargetPath>)
        ensures
            match r {
                Some(target) => target@ == path@ && is_absolute(path@),
                None => !is_absolute(path@),
            },
    {
        match AbsolutePath::new(path) {
            Some(absolute) => Some(TargetPath { absolute }),
            None => None,
        }
    }

    pub fn new_boxed(path: String) -> (r: Result<TargetPath, String>)
        ensures
            match r {
                Ok(target) => target@ == path@ && is_absolute(path@),
                Err(back) => back == path && !is_absolute(path@),
            },
    {
        match AbsolutePath::new_boxed(path) {
            Ok(absolute) => Ok(TargetPath { absolute }),
            Err(back) => Err(back),
        }
    }

    /// The target path of the host file `path` in a tree rooted at `root`: the
    /// components of `path` are those of `root` followed by those of the result.
    pub fn from_path_and_root(path: &HostPath, root: &HostPath) -> (r: TargetPath)
        requires
            path_strip_prefix(path@, root@) is Some,
        ensures
            r@ == push_path(seq!['/'], path_strip_prefix(path@, root@).unwrap()),
            is_absolute(r@),
            path_components(path@) == path_components(root@) + path_components(r@),
    {
        let path_text = path.as_str();
        let root_text = root.as_str();
        match strip_path_prefix(path_text, root_text) {
            Some(relative) => {
                let root_target = TargetPath::root();
                let target = root_target.with_suffix(relative.as_str());
                proof {
                    lemma_components_push(root@, relative@);
                    lemma_components_push(seq!['/'], relative@);
                    lemma_components_empty();
                    assert(path_components(seq!['/']) + path_components(relative@)
                        =~= path_components(relative@));
                }
                target
            },
            None => {
                proof {
                    assert(false);
                }
                TargetPath::root()
            },
        }
    }

    /// As `from_path_and_root`, or `None` when `root` is not a prefix of `path`.
    pub fn try_from_path_and_root(path: &HostPath, root: &HostPath) -> (r: Option<TargetPath>)
        ensures
            match r {
                Some(target) => path_strip_prefix(path@, root@) matches Some(relative)
                    && target@ == push_path(seq!['/'], relative) && path_components(path@)
                    == path_components(root@) + path_components(target@),
                None => path_strip_prefix(path@, root@) is None,
            },
            r is Some <==> is_component_prefix(root@, path@),
    {
        match strip_path_prefix(path.as_str(), root.as_str()) {
            Some(_) => Some(TargetPath::from_path_and_root(path, root)),
            None => None,
        }
    }

    /// The root directory `/`.
    pub fn root() -> (r: TargetPath)
        ensures
            r@ == seq!['/'],
    {
        proof {
            reveal_strlit("/");
        }
        TargetPath { absolute: AbsolutePath { path: String::from_str("/") } }
    }

    pub fn as_str(&self) -> (r: &str)
        ensures
            r@ == self@,
            is_absolute(r@),
    {
        self.absolute.as_str()
    }

    /// Joins `suffix` onto the end of this path.
    pub fn with_suffix(&self, suffix: &str) -> (r: TargetPath)
        ensures
            r@ == push_path(self@, suffix@),
            is_absolute(r@),
    {
        TargetPath { absolute: self.absolute.with_suffix(suffix) }
    }

    /// Where this target path lies on the host in a tree rooted at `root`: the
    /// components of the result are those of `root` followed by those of this path.
    pub fn with_root(&self, root: &HostPath) -> (r: HostPath)
        ensures
            path_strip_prefix(self@, seq!['/']) matches Some(relative) && r@ == push_path(
                root@,
                relative,
            ),
            is_absolute(r@),
            path_components(r@) == path_components(root@) + path_components(self@),
    {
        let relative = self.absolute.to_relative();
        let host = root.with_suffix(relative.as_str());
        proof {
            lemma_components_push(root@, relative@);
        }
        host
    }

    /// This path with its extension replaced.
    pub fn with_extension(&self, extension: &str) -> (r: TargetPath)
        requires
            !contains_char(extension@, '/'),
        ensures
            r@ == path_with_extension(self@, extension@),
    {
        TargetPath { absolute: self.absolute.with_extension(extension) }
    }

    pub fn duplicate(&self) -> (r: TargetPath)
        ensures
            r@ == self@,
    {
        TargetPath { absolute: self.absolute.duplicate() }
    }

    /// Whether two target paths have the same text.
    pub fn equals(&self, other: &TargetPath) -> (r: bool)
        ensures
            r == (self@ == other@),
    {
        self.absolute.equals(&other.absolute)
    }
}

/// Taking the root off a host path that `with_root` put under that root gives back the
/// target path, component by component: the root is a prefix of the host path (so
/// `try_from_path_and_root` succeeds), and any path whose components follow the
/// root's to make up the host path's has the target path's components.
pub proof fn lemma_root_round_trip(target: Seq<char>, root: Seq<char>, host: Seq<char>)
    requires
        path_components(host) == path_components(root) + path_components(target),
    ensures
        is_component_prefix(root, host),
        forall|back: Seq<char>|
            path_components(host) == path_components(root) + #[trigger] path_components(back)
                ==> path_components(back) == path_components(target),
{
    let prefix = path_components(root);
    assert(path_components(host).take(prefix.len() as int) =~= prefix);
    assert forall|back: Seq<char>|
        path_components(host) == path_components(root) + #[trigger] path_components(
            back,
        ) implies path_components(back) == path_components(target) by {
        assert(path_components(back) =~= path_components(host).skip(prefix.len() as int));
        assert(path_components(target) =~= path_components(host).skip(prefix.len() as int));
    }
}

} // verus!
