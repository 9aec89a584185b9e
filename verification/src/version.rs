//! Package versions, semantic versions and version requirements.
use crate::text::{
    decimal_string, decimal_text, lemma_decimal_string_digits, lemma_parse_decimal_string,
    lemma_split_char_absent, lemma_split_char_concat, parse_decimal_u64, parse_u64,
    split_at_char, split_char,
};
use crate::version_order::{compare_version_texts, version_order, VersionOrder};
use vstd::prelude::*;

verus! {

/// A version of a package, kept as the text that the recipe gives.
#[derive(Debug, Hash)]
pub struct Version {
    pub string: String,
}

impl View for Version {
    type V = Seq<char>;

    open spec fn view(&self) -> Seq<char> {
        self.string@
    }
}

impl Clone for Version {
    fn clone(&self) -> (r: Self)
        ensures
            r == *self,
    {
        Version { string: self.string.clone() }
    }
}

/// A semantic version `major.minor.patch`.
#[derive(Clone, Copy, Debug, PartialEq, Eq, Structural, Hash)]
pub struct SemanticVersion {
    pub major: u64,
    pub minor: u64,
    pub patch: u64,
}

/// Why a text is not a semantic version.
#[derive(Clone, Copy, Debug, PartialEq, Eq, Structural)]
pub enum SemanticVersionError {
    /// The major version is not a 64-bit decimal number.
    InvalidMajor,
    /// The minor version is not a 64-bit decimal number.
    InvalidMinor,
    /// The patch version is not a 64-bit decimal number.
    InvalidPatch,
    /// The major version is 0 and no minor version follows it.
    MissingMinor,
    /// The major version is 0 and no patch version follows it.
    MissingPatch,
    /// More than three `.`-separated segments.
    TooManySegments,
}

/// What a package's version must be.
#[derive(Debug, Hash)]
pub enum VersionRequirement {
    /// Exactly this version text.
    Exact(Version),
    /// A semantic version compatible with this one.
    Semantic(SemanticVersion),
    /// Any version at all.
    Any,
}

/// The mathematical content of a version requirement.
pub enum RequirementView {
    Exact(Seq<char>),
    Semantic(SemanticVersion),
    Any,
}

impl View for VersionRequirement {
    type V = RequirementView;

    open spec fn view(&self) -> RequirementView {
        match *self {
            VersionRequirement::Exact(version) => RequirementView::Exact(version@),
            VersionRequirement::Semantic(version) => RequirementView::Semantic(version),
            VersionRequirement::Any => RequirementView::Any,
        }
    }
}

impl SemanticVersion {
    /// Whether `self` can stand in for `requirement`: below major version 1 only the
    /// very same version can, from 1 on the same major version with at least the
    /// required minor version can (the patch does not matter).
    pub open spec fn satisfies_spec(self, requirement: SemanticVersion) -> bool {
        if requirement.major == 0 {
            self == requirement
        } else {
            self.major == requirement.major && self.minor >= requirement.minor
        }
    }

    pub fn satisfies(self, requirement: SemanticVersion) -> (r: bool)
        ensures
            r == self.satisfies_spec(requirement),
    {
        if requirement.major == 0 {
            self.major == requirement.major && self.minor == requirement.minor && self.patch
                == requirement.patch
        } else {
            self.major == requirement.major && self.minor >= requirement.minor
        }
    }

    /// The text `major.minor.patch`.
    pub open spec fn text_spec(self) -> Seq<char> {
        decimal_string(self.major as nat) + seq!['.'] + decimal_string(self.minor as nat) + seq![
            '.',
        ] + decimal_string(self.patch as nat)
    }

    /// The text of this version, as its `Display` shows it.
    pub fn to_display_string(&self) -> (r: String)
        ensures
            r@ == self.text_spec(),
    {
        let mut text = decimal_text(self.major);
        text.append(".");
        text.append(decimal_text(self.minor).as_str());
        text.append(".");
        text.append(decimal_text(self.patch).as_str());
        proof {
            reveal_strlit(".");
        }
        text
    }

    /// Parses `string` as `major[.minor[.patch]]`; below major version 1 all three
    /// segments must be present.
    pub fn from_str(string: &str) -> (r: Result<SemanticVersion, SemanticVersionError>)
        ensures
            r == parse_semantic(string@),
    {
        let segments = split_at_char(string, '.');
        proof {
            lemma_split_char_nonempty(string@, '.');
        }
        let major = match parse_decimal_u64(segments[0]) {
            Some(major) => major,
            None => return Err(SemanticVersionError::InvalidMajor),
        };
        let minor = if segments.len() > 1 {
            match parse_decimal_u64(segments[1]) {
                Some(minor) => minor,
                None => return Err(SemanticVersionError::InvalidMinor),
            }
        } else if major == 0 {
            return Err(SemanticVersionError::MissingMinor);
        } else {
            0
        };
        let patch = if segments.len() > 2 {
            match parse_decimal_u64(segments[2]) {
                Some(patch) => patch,
                None => return Err(SemanticVersionError::InvalidPatch),
            }
        } else if major == 0 {
            return Err(SemanticVersionError::MissingPatch);
        } else {
            0
        };
        if segments.len() > 3 {
            return Err(SemanticVersionError::TooManySegments);
        }
        Ok(SemanticVersion { major, minor, patch })
    }
}

/// What `SemanticVersion::from_str` gives for the text `s`.
pub open spec fn parse_semantic(s: Seq<char>) -> Result<SemanticVersion, SemanticVersionError> {
    let segments = split_char(s, '.');
    match parse_u64(segments[0]) {
        None => Err(SemanticVersionError::InvalidMajor),
        Some(major) => {
            let minor: Result<u64, SemanticVersionError> = if segments.len() > 1 {
                match parse_u64(segments[1]) {
                    Some(minor) => Ok(minor),
                    None => Err(SemanticVersionError::InvalidMinor),
                }
            } else if major == 0 {
                Err(SemanticVersionError::MissingMinor)
            } else {
                Ok(0u64)
            };
            match minor {
                Err(e) => Err(e),
                Ok(minor) => {
                    let patch: Result<u64, SemanticVersionError> = if segments.len() > 2 {
                        match parse_u64(segments[2]) {
                            Some(patch) => Ok(patch),
                            None => Err(SemanticVersionError::InvalidPatch),
                        }
                    } else if major == 0 {
                        Err(SemanticVersionError::MissingPatch)
                    } else {
                        Ok(0u64)
                    };
                    match patch {
                        Err(e) => Err(e),
                        Ok(patch) => if segments.len() > 3 {
                            Err(SemanticVersionError::TooManySegments)
                        } else {
                            Ok(SemanticVersion { major, minor, patch })
                        },
                    }
                },
            }
        },
    }
}

pub proof fn lemma_split_char_nonempty(s: Seq<char>, c: char)
    ensures
        split_char(s, c).len() >= 1,
{
}

impl SemanticVersionError {
    /// A description of the error.
    pub fn message(&self) -> (r: &'static str)
        ensures
            r@ == match *self {
                SemanticVersionError::InvalidMajor => "parsing the major version"@,
                SemanticVersionError::InvalidMinor => "parsing the minor version"@,
                SemanticVersionError::InvalidPatch => "parsing the patch version"@,
                SemanticVersionError::MissingMinor => "missing minor version when major is 0"@,
                SemanticVersionError::MissingPatch => "missing patch version when major is 0"@,
                SemanticVersionError::TooManySegments => "too many segments"@,
            },
    {
        match self {
            SemanticVersionError::InvalidMajor => "parsing the major version",
            SemanticVersionError::InvalidMinor => "parsing the minor version",
            SemanticVersionError::InvalidPatch => "parsing the patch version",
            SemanticVersionError::MissingMinor => "missing minor version when major is 0",
            SemanticVersionError::MissingPatch => "missing patch version when major is 0",
            SemanticVersionError::TooManySegments => "too many segments",
        }
    }
}

/// Whether a version with the text `version` meets `requirement`.
pub open spec fn version_satisfies(version: Seq<char>, requirement: RequirementView) -> bool {
    match requirement {
        RequirementView::Exact(required) => version == required,
        RequirementView::Semantic(required) => match parse_semantic(version) {
            Ok(semantic) => semantic.satisfies_spec(required),
            Err(_) => false,
        },
        RequirementView::Any => true,
    }
}

/// Whether every version that meets `requirement` also meets `other`, as far as the
/// two requirements alone show it.
pub open spec fn always_satisfies(requirement: RequirementView, other: RequirementView) -> bool {
    match (requirement, other) {
        (_, RequirementView::Any) => true,
        (RequirementView::Exact(version), RequirementView::Exact(required)) => version == required,
        (RequirementView::Exact(version), RequirementView::Semantic(required)) => {
            match parse_semantic(version) {
                Ok(semantic) => semantic.satisfies_spec(required),
                Err(_) => false,
            }
        },
        (RequirementView::Semantic(version), RequirementView::Semantic(required)) => {
            version.satisfies_spec(required)
        },
        _ => false,
    }
}

impl Version {
    pub fn empty() -> (r: Version)
        ensures
            r@ == Seq::<char>::empty(),
    {
        Version { string: String::new() }
    }

    pub fn is_empty(&self) -> (r: bool)
        ensures
            r == (self@.len() == 0),
    {
        self.string.as_str().is_empty()
    }

    /// A version with the text `text`.
    pub fn from_text(text: &str) -> (r: Version)
        ensures
            r@ == text@,
    {
        Version { string: String::from_str(text) }
    }

    /// Whether two versions have the same text.
    pub fn equals(&self, other: &Version) -> (r: bool)
        ensures
            r == (self@ == other@),
    {
        self.string == other.string
    }

    pub fn satisfies(&self, requirement: &VersionRequirement) -> (r: bool)
        ensures
            r == version_satisfies(self@, requirement@),
    {
        match requirement {
            VersionRequirement::Exact(required) => self.equals(required),
            VersionRequirement::Semantic(required) => {
                match SemanticVersion::from_str(self.string.as_str()) {
                    Ok(version) => version.satisfies(*required),
                    Err(_) => false,
                }
            },
            VersionRequirement::Any => true,
        }
    }

    /// How this version compares to `other`, as `version_compare` orders them.
    pub fn partial_cmp(&self, other: &Version) -> (r: Option<VersionOrder>)
        ensures
            r == version_order(self@, other@),
    {
        compare_version_texts(self.string.as_str(), other.string.as_str())
    }

    /// The text that `Display` shows: the version in backticks.
    pub fn to_display_string(&self) -> (r: String)
        ensures
            r@ == seq!['`'] + self@ + seq!['`'],
    {
        let mut text = String::from_str("`");
        text.append(self.string.as_str());
        text.append("`");
        proof {
            reveal_strlit("`");
        }
        text
    }
}

impl VersionRequirement {
    pub fn always_satisfies(&self, requirement: &VersionRequirement) -> (r: bool)
        ensures
            r == always_satisfies(self@, requirement@),
    {
        match (self, requirement) {
            (_, VersionRequirement::Any) => true,
            (VersionRequirement::Exact(version), VersionRequirement::Exact(required)) => {
                version.equals(required)
            },
            (VersionRequirement::Exact(version), VersionRequirement::Semantic(required)) => {
                match SemanticVersion::from_str(version.string.as_str()) {
                    Ok(semantic) => semantic.satisfies(*required),
                    Err(_) => false,
                }
            },
            (VersionRequirement::Semantic(version), VersionRequirement::Semantic(required)) => {
                version.satisfies(*required)
            },
            _ => false,
        }
    }

    /// The text that `Display` shows for the requirement.
    pub open spec fn text_spec(&self) -> Seq<char> {
        match *self {
            VersionRequirement::Exact(version) => seq!['`'] + version@ + seq!['`'],
            VersionRequirement::Semantic(version) => version.text_spec(),
            VersionRequirement::Any => seq!['"', 'a', 'n', 'y', '"'],
        }
    }

    pub fn to_display_string(&self) -> (r: String)
        ensures
            r@ == self.text_spec(),
    {
        match self {
            VersionRequirement::Exact(version) => version.to_display_string(),
            VersionRequirement::Semantic(version) => version.to_display_string(),
            VersionRequirement::Any => {
                proof {
                    reveal_strlit("\"any\"");
                }
                String::from_str("\"any\"")
            },
        }
    }

    /// A copy of the requirement.
    pub fn duplicate(&self) -> (r: VersionRequirement)
        ensures
            r == *self,
    {
        match self {
            VersionRequirement::Exact(version) => VersionRequirement::Exact(version.clone()),
            VersionRequirement::Semantic(version) => VersionRequirement::Semantic(*version),
            VersionRequirement::Any => VersionRequirement::Any,
        }
    }
}

/// Every semantic version satisfies itself.
pub proof fn lemma_semantic_satisfies_reflexive(version: SemanticVersion)
    ensures
        version.satisfies_spec(version),
{
}

/// Satisfying semantic versions chains: a version that satisfies a second one, which
/// satisfies a third, satisfies the third.
pub proof fn lemma_semantic_satisfies_transitive(
    a: SemanticVersion,
    b: SemanticVersion,
    c: SemanticVersion,
)
    requires
        a.satisfies_spec(b),
        b.satisfies_spec(c),
    ensures
        a.satisfies_spec(c),
{
}

/// A semantic version's text parses back to the same version.
pub proof fn lemma_semantic_text_round_trip(version: SemanticVersion)
    ensures
        parse_semantic(version.text_spec()) == Ok::<SemanticVersion, SemanticVersionError>(version),
{
    let a = decimal_string(version.major as nat);
    let b = decimal_string(version.minor as nat);
    let c = decimal_string(version.patch as nat);
    lemma_decimal_string_digits(version.major as nat);
    lemma_decimal_string_digits(version.minor as nat);
    lemma_decimal_string_digits(version.patch as nat);
    lemma_parse_decimal_string(version.major);
    lemma_parse_decimal_string(version.minor);
    lemma_parse_decimal_string(version.patch);
    lemma_split_char_absent(c, '.');
    lemma_split_char_concat(b, '.', c);
    assert(b + seq!['.'] + c == (b + seq!['.']) + c);
    lemma_split_char_concat(a, '.', b + seq!['.'] + c);
    assert(version.text_spec() =~= a + seq!['.'] + (b + seq!['.'] + c));
    let segments = split_char(version.text_spec(), '.');
    assert(segments =~= seq![a, b, c]);
}

/// `always_satisfies` is sound: a version that meets a requirement which always
/// satisfies a second requirement meets the second one too.
pub proof fn lemma_always_satisfies_sound(
    version: Seq<char>,
    requirement: RequirementView,
    other: RequirementView,
)
    requires
        always_satisfies(requirement, other),
        version_satisfies(version, requirement),
    ensures
        version_satisfies(version, other),
{
}

/// A version meets the requirement of exactly itself, and any version meets `Any`.
pub proof fn lemma_version_satisfies_itself(version: Version)
    ensures
        version_satisfies(version@, RequirementView::Exact(version@)),
        version_satisfies(version@, RequirementView::Any),
{
}

/// From major version 1 on, the patch of neither version matters: a version
/// satisfies a requirement exactly when it does with any other patches; one with the
/// required major and minor version always satisfies it, as does one with the same
/// major and a greater minor version, and none of another major version does.
pub proof fn lemma_semantic_patch_irrelevant(
    version: SemanticVersion,
    requirement: SemanticVersion,
    version_patch: u64,
    requirement_patch: u64,
)
    requires
        requirement.major >= 1,
    ensures
        version.satisfies_spec(requirement) == (SemanticVersion {
            patch: version_patch,
            ..version
        }).satisfies_spec(SemanticVersion { patch: requirement_patch, ..requirement }),
        version.major == requirement.major && version.minor >= requirement.minor
            ==> version.satisfies_spec(requirement),
        version.major != requirement.major ==> !version.satisfies_spec(requirement),
        version.minor < requirement.minor ==> !version.satisfies_spec(requirement),
{
}

/// Below major version 1 a requirement is satisfied by that very version alone.
pub proof fn lemma_semantic_unstable_exact(version: SemanticVersion, requirement: SemanticVersion)
    requires
        requirement.major == 0,
    ensures
        version.satisfies_spec(requirement) <==> (version.major == requirement.major
            && version.minor == requirement.minor && version.patch == requirement.patch),
{
}

} // verus!
