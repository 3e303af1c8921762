//! What can go wrong while a release is planned or carried out.

use vstd::prelude::*;
use crate::ops::text::{decimal, decimal_text};

verus! {

/// A fault in the configuration or in what it is applied to. It ends the
/// unit of work at hand: one package's plan or one file's replacements.
#[derive(Debug)]
pub enum ValidationError {
    /// The package's policy requires build metadata and none was given.
    MetadataRequired { name: String },
    /// The build metadata is not acceptable in a version.
    MetadataRefused { name: String, metadata: String },
    /// A version number cannot be incremented any further.
    VersionExhausted { name: String },
    /// The versions of a shared-version group cannot be ranked, so that the
    /// group has no greatest version to converge on.
    Unranked { group: String },
    /// A member of the workspace has no metadata, or nothing was read for it.
    MissingPackage { id: String },
    /// Two members of the workspace bear one id.
    RepeatedPackage { id: String },
    /// The file a rule names does not exist.
    MissingFile { file: String },
    /// The search pattern of a rule is no regular expression; `reason` is
    /// what the regular-expression engine says of it.
    PatternRefused { pattern: String, file: String, reason: String },
    /// The pattern matched less often than the rule allows.
    TooFew { pattern: String, file: String, expected: usize, found: usize },
    /// The pattern matched more often than the rule allows.
    TooMany { pattern: String, file: String, expected: usize, found: usize },
}

/// A [`ValidationError`] with its texts as sequences of characters.
pub enum ValidationText {
    MetadataRequired { name: Seq<char> },
    MetadataRefused { name: Seq<char>, metadata: Seq<char> },
    VersionExhausted { name: Seq<char> },
    Unranked { group: Seq<char> },
    MissingPackage { id: Seq<char> },
    RepeatedPackage { id: Seq<char> },
    MissingFile { file: Seq<char> },
    PatternRefused { pattern: Seq<char>, file: Seq<char> },
    TooFew { pattern: Seq<char>, file: Seq<char>, expected: usize, found: usize },
    TooMany { pattern: Seq<char>, file: Seq<char>, expected: usize, found: usize },
}

impl View for ValidationError {
    type V = ValidationText;

    open spec fn view(&self) -> ValidationText {
        match self {
            ValidationError::MetadataRequired { name } => ValidationText::MetadataRequired {
                name: name@,
            },
            ValidationError::MetadataRefused { name, metadata } => ValidationText::MetadataRefused {
                name: name@,
                metadata: metadata@,
            },
            ValidationError::VersionExhausted { name } => ValidationText::VersionExhausted {
                name: name@,
            },
            ValidationError::Unranked { group } => ValidationText::Unranked { group: group@ },
            ValidationError::MissingPackage { id } => ValidationText::MissingPackage { id: id@ },
            ValidationError::RepeatedPackage { id } => ValidationText::RepeatedPackage { id: id@ },
            ValidationError::MissingFile { file } => ValidationText::MissingFile { file: file@ },
            ValidationError::PatternRefused { pattern, file, reason } => ValidationText::PatternRefused {
                pattern: pattern@,
                file: file@,
            },
            ValidationError::TooFew { pattern, file, expected, found } => ValidationText::TooFew {
                pattern: pattern@,
                file: file@,
                expected: *expected,
                found: *found,
            },
            ValidationError::TooMany { pattern, file, expected, found } => ValidationText::TooMany {
                pattern: pattern@,
                file: file@,
                expected: *expected,
                found: *found,
            },
        }
    }
}

impl ValidationText {
    /// The message for the user, but for what the regular-expression engine
    /// has to say of a pattern it refuses, which is added after a colon.
    pub open spec fn message(self) -> Seq<char> {
        match self {
            ValidationText::MetadataRequired { name } => "`"@ + name
                + "` requires the metadata to be overridden"@,
            ValidationText::MetadataRefused { name, metadata } => "`"@ + name + "` cannot take `"@
                + metadata + "` as metadata"@,
            ValidationText::VersionExhausted { name } => "`"@ + name
                + "` is at a version that cannot be incremented"@,
            ValidationText::Unranked { group } => "the versions in group `"@ + group
                + "` cannot be ranked"@,
            ValidationText::MissingPackage { id } => "nothing is known of workspace member `"@ + id
                + "`"@,
            ValidationText::RepeatedPackage { id } => "workspace member `"@ + id
                + "` is listed twice"@,
            ValidationText::MissingFile { file } => "unable to find file "@ + file
                + " to perform replace"@,
            ValidationText::PatternRefused { pattern, file } => "for `"@ + pattern + "` in '"@ + file
                + "', the pattern is refused"@,
            ValidationText::TooFew { pattern, file, expected, found } => "for `"@ + pattern
                + "` in '"@ + file + "', at least "@ + decimal(expected as nat)
                + " replacements expected, found "@ + decimal(found as nat),
            ValidationText::TooMany { pattern, file, expected, found } => "for `"@ + pattern
                + "` in '"@ + file + "', at most "@ + decimal(expected as nat)
                + " replacements expected, found "@ + decimal(found as nat),
        }
    }
}

/// Puts texts one after the other.
fn concat(parts: Vec<&str>) -> (out: String)
    ensures
        out@ == joined(parts@),
{
    let mut out = String::new();
    let mut i: usize = 0;
    assert(out@ =~= joined(parts@.take(0)));
    while i < parts.len()
        invariant
            i <= parts@.len(),
            out@ == joined(parts@.take(i as int)),
        decreases parts@.len() - i,
    {
        proof {
            assert(parts@.take(i + 1).drop_last() =~= parts@.take(i as int));
            assert(parts@.take(i + 1).last() == parts@[i as int]);
        }
        out.append(parts[i]);
        i += 1;
    }
    assert(parts@.take(i as int) =~= parts@);
    out
}

/// Texts put one after the other.
pub open spec fn joined(parts: Seq<&str>) -> Seq<char>
    decreases parts.len(),
{
    if parts.len() == 0 {
        Seq::empty()
    } else {
        joined(parts.drop_last()) + parts.last()@
    }
}

impl ValidationError {
    /// The message for the user.
    pub fn message(&self) -> (text: String)
        ensures
            match self {
                ValidationError::PatternRefused { reason, .. } => text@ == self@.message() + ": "@
                    + reason@,
                _ => text@ == self@.message(),
            },
    {
        proof {
            reveal_with_fuel(joined, 10);
        }
        match self {
            ValidationError::MetadataRequired { name } => {
                let text = concat(vec!["`", name.as_str(), "` requires the metadata to be overridden"]);
                assert(text@ =~= self@.message());
                text
            },
            ValidationError::MetadataRefused { name, metadata } => {
                let text = concat(
                    vec!["`", name.as_str(), "` cannot take `", metadata.as_str(), "` as metadata"],
                );
                assert(text@ =~= self@.message());
                text
            },
            ValidationError::VersionExhausted { name } => {
                let text = concat(
                    vec!["`", name.as_str(), "` is at a version that cannot be incremented"],
                );
                assert(text@ =~= self@.message());
                text
            },
            ValidationError::Unranked { group } => {
                let text = concat(vec!["the versions in group `", group.as_str(), "` cannot be ranked"]);
                assert(text@ =~= self@.message());
                text
            },
            ValidationError::MissingPackage { id } => {
                let text = concat(vec!["nothing is known of workspace member `", id.as_str(), "`"]);
                assert(text@ =~= self@.message());
                text
            },
            ValidationError::RepeatedPackage { id } => {
                let text = concat(vec!["workspace member `", id.as_str(), "` is listed twice"]);
                assert(text@ =~= self@.message());
                text
            },
            ValidationError::MissingFile { file } => {
                let text = concat(vec!["unable to find file ", file.as_str(), " to perform replace"]);
                assert(text@ =~= self@.message());
                text
            },
            ValidationError::PatternRefused { pattern, file, reason } => {
                let text = concat(
                    vec![
                        "for `",
                        pattern.as_str(),
                        "` in '",
                        file.as_str(),
                        "', the pattern is refused",
                        ": ",
                        reason.as_str(),
                    ],
                );
                assert(text@ =~= self@.message() + ": "@ + reason@);
                text
            },
            ValidationError::TooFew { pattern, file, expected, found } => {
                let least = decimal_text(*expected as u64);
                let seen = decimal_text(*found as u64);
                let text = concat(
                    vec![
                        "for `",
                        pattern.as_str(),
                        "` in '",
                        file.as_str(),
                        "', at least ",
                        least.as_str(),
                        " replacements expected, found ",
                        seen.as_str(),
                    ],
                );
                assert(text@ =~= self@.message());
                text
            },
            ValidationError::TooMany { pattern, file, expected, found } => {
                let most = decimal_text(*expected as u64);
                let seen = decimal_text(*found as u64);
                let text = concat(
                    vec![
                        "for `",
                        pattern.as_str(),
                        "` in '",
                        file.as_str(),
                        "', at most ",
                        most.as_str(),
                        " replacements expected, found ",
                        seen.as_str(),
                    ],
                );
                assert(text@ =~= self@.message());
                text
            },
        }
    }
}

/// The reason a run ends without success, as the exit code it ends with.
#[derive(Clone, Copy, Debug, PartialEq, Eq, Structural)]
pub struct CliError {
    pub code: i32,
}

/// The exit code of a run in which no package was selected.
pub const NOTHING_SELECTED: i32 = 2;

/// The exit code of a run in which a publish call failed.
pub const PUBLISH_FAILED: i32 = 101;

} // verus!
