//! Semantic version numbers as plain values, their text and their precedence.

use vstd::prelude::*;
use crate::ops::text::{decimal, decimal_text};

verus! {

/// A semantic version: three numbers, a pre-release tag and build metadata.
/// An empty tag or empty metadata means that the part is absent.
#[derive(Debug)]
pub struct SemVer {
    pub major: u64,
    pub minor: u64,
    pub patch: u64,
    pub pre: String,
    pub build: String,
}

/// How one version ranks against another.
#[derive(Clone, Copy, Debug, PartialEq, Eq, Structural)]
pub enum Precedence {
    Lower,
    Same,
    Higher,
}

/// The rank that `semver` gives the version written `a` against the version
/// written `b`, or `None` where it reads no version from one of the texts.
pub uninterp spec fn version_precedence(a: Seq<char>, b: Seq<char>) -> Option<Precedence>;

/// Whether `semver` accepts a text as build metadata.
pub uninterp spec fn build_metadata_accepted(text: Seq<char>) -> bool;

/// Reads both texts with `semver::Version::parse` and ranks the versions
/// with `Ord::cmp` of `semver::Version`: by the numbers, then by the
/// pre-release tags, then by the build metadata. The result is `None` when
/// either text is refused; otherwise it is what `cmp` returned.
#[verifier::external_body]
fn rank_versions(a: &str, b: &str) -> (rank: Option<Precedence>)
    ensures
        rank == version_precedence(a@, b@),
{
    match (semver::Version::parse(a), semver::Version::parse(b)) {
        (Ok(left), Ok(right)) => Some(
            match left.cmp(&right) {
                std::cmp::Ordering::Less => Precedence::Lower,
                std::cmp::Ordering::Equal => Precedence::Same,
                std::cmp::Ordering::Greater => Precedence::Higher,
            },
        ),
        _ => None,
    }
}

/// Asks `semver::BuildMetadata::new` whether it accepts the text.
#[verifier::external_body]
pub(crate) fn accepts_build_metadata(text: &str) -> (accepted: bool)
    ensures
        accepted == build_metadata_accepted(text@),
{
    semver::BuildMetadata::new(text).is_ok()
}

/// The text of a version: the three numbers joined by dots, then the
/// pre-release tag after a hyphen and the build metadata after a plus sign,
/// each only when present.
pub open spec fn version_text(
    major: u64,
    minor: u64,
    patch: u64,
    pre: Seq<char>,
    build: Seq<char>,
) -> Seq<char> {
    let core = decimal(major as nat) + seq!['.'] + decimal(minor as nat) + seq!['.'] + decimal(
        patch as nat,
    );
    let tagged = if pre.len() == 0 {
        core
    } else {
        core + seq!['-'] + pre
    };
    if build.len() == 0 {
        tagged
    } else {
        tagged + seq!['+'] + build
    }
}

/// A [`SemVer`] with its two texts as sequences of characters.
pub struct SemVerText {
    pub major: u64,
    pub minor: u64,
    pub patch: u64,
    pub pre: Seq<char>,
    pub build: Seq<char>,
}

impl View for SemVer {
    type V = SemVerText;

    open spec fn view(&self) -> SemVerText {
        SemVerText {
            major: self.major,
            minor: self.minor,
            patch: self.patch,
            pre: self.pre@,
            build: self.build@,
        }
    }
}

impl SemVerText {
    /// What identifies the version once build metadata is set aside.
    pub open spec fn bare_key(self) -> (u64, u64, u64, Seq<char>) {
        (self.major, self.minor, self.patch, self.pre)
    }

    /// The version without its build metadata.
    pub open spec fn bare(self) -> SemVerText {
        SemVerText { build: Seq::empty(), ..self }
    }

    /// The text of the version.
    pub open spec fn text(self) -> Seq<char> {
        version_text(self.major, self.minor, self.patch, self.pre, self.build)
    }
}

/// Whether `semver` ranks the version `v` strictly below the version `g`,
/// and says so from both sides: `v` ranks lower against `g`, and `g` higher
/// against `v`.
pub open spec fn strictly_below(v: SemVerText, g: SemVerText) -> bool {
    version_precedence(v.text(), g.text()) == Some(Precedence::Lower) && version_precedence(
        g.text(),
        v.text(),
    ) == Some(Precedence::Higher)
}

impl Clone for SemVer {
    fn clone(&self) -> (copy: Self)
        ensures
            copy == *self,
    {
        SemVer {
            major: self.major,
            minor: self.minor,
            patch: self.patch,
            pre: self.pre.clone(),
            build: self.build.clone(),
        }
    }
}

impl SemVer {
    /// What identifies a version once build metadata is set aside.
    pub open spec fn bare_key(&self) -> (u64, u64, u64, Seq<char>) {
        (self.major, self.minor, self.patch, self.pre@)
    }

    /// The text of this version.
    pub open spec fn text(&self) -> Seq<char> {
        self@.text()
    }

    /// Whether this version ranks strictly below `other` as `semver` ranks
    /// the two: by the bare version first, and between versions that differ
    /// in build metadata alone by that. No version ranks below itself.
    pub open spec fn ranks_below(&self, other: &SemVer) -> bool {
        self@ != other@ && version_precedence(self.text(), other.text()) == Some(Precedence::Lower)
    }

    /// A version from its parts.
    pub fn new(major: u64, minor: u64, patch: u64, pre: &str, build: &str) -> (version: SemVer)
        ensures
            version@ == (SemVerText { major, minor, patch, pre: pre@, build: build@ }),
    {
        SemVer { major, minor, patch, pre: pre.to_owned(), build: build.to_owned() }
    }

    /// Whether the version carries a pre-release tag.
    pub fn is_prerelease(&self) -> (tagged: bool)
        ensures
            tagged == (self.pre@.len() > 0),
    {
        !self.pre.as_str().is_empty()
    }

    /// The same version with the build metadata cleared.
    pub fn without_build(&self) -> (bare: SemVer)
        ensures
            bare@ == self@.bare(),
    {
        SemVer {
            major: self.major,
            minor: self.minor,
            patch: self.patch,
            pre: self.pre.clone(),
            build: String::new(),
        }
    }

    /// Compares two versions part by part.
    pub fn equals(&self, other: &SemVer) -> (same: bool)
        ensures
            same == (self@ == other@),
    {
        self.bare_equals(other) && self.build == other.build
    }

    /// Compares two versions, build metadata set aside.
    pub fn bare_equals(&self, other: &SemVer) -> (same: bool)
        ensures
            same == (self.bare_key() == other.bare_key()),
            same == (self@.bare() == other@.bare()),
    {
        self.major == other.major && self.minor == other.minor && self.patch == other.patch
            && self.pre == other.pre
    }

    /// Decides [`SemVer::ranks_below`].
    pub fn precedes(&self, other: &SemVer) -> (below: bool)
        ensures
            below == self.ranks_below(other),
    {
        if self.equals(other) {
            false
        } else {
            match rank_versions(self.render().as_str(), other.render().as_str()) {
                Some(Precedence::Lower) => true,
                _ => false,
            }
        }
    }

    /// Decides [`strictly_below`].
    pub fn strictly_precedes(&self, other: &SemVer) -> (below: bool)
        ensures
            below == strictly_below(self@, other@),
    {
        let left = self.render();
        let right = other.render();
        let forth = match rank_versions(left.as_str(), right.as_str()) {
            Some(Precedence::Lower) => true,
            _ => false,
        };
        let back = match rank_versions(right.as_str(), left.as_str()) {
            Some(Precedence::Higher) => true,
            _ => false,
        };
        forth && back
    }

    /// Writes the version out.
    pub fn render(&self) -> (text: String)
        ensures
            text@ == self.text(),
    {
        let mut text = decimal_text(self.major);
        text.append(".");
        text.append(decimal_text(self.minor).as_str());
        text.append(".");
        text.append(decimal_text(self.patch).as_str());
        if !self.pre.as_str().is_empty() {
            text.append("-");
            text.append(self.pre.as_str());
        }
        if !self.build.as_str().is_empty() {
            text.append("+");
            text.append(self.build.as_str());
        }
        proof {
            reveal_strlit(".");
            reveal_strlit("-");
            reveal_strlit("+");
            assert("."@ =~= seq!['.']);
            assert("-"@ =~= seq!['-']);
            assert("+"@ =~= seq!['+']);
            assert(text@ =~= self.text());
        }
        text
    }
}

} // verus!
