//! The steps of a release and the version that a release aims at.

use vstd::prelude::*;
use crate::ops::text::{decimal, decimal_text, parse_number, parsed_number, slot_text};
use crate::ops::version::{accepts_build_metadata, build_metadata_accepted, SemVer, SemVerText};
use crate::steps::plan::Version;

pub mod packages;
pub mod plan;
pub mod publish;
pub mod workspace;

verus! {

/// A step up from the current version.
#[derive(Clone, Copy, Debug, PartialEq, Eq, Structural)]
pub enum BumpLevel {
    /// The next major version.
    Major,
    /// The next minor version.
    Minor,
    /// The next patch version; from a pre-release, the release it leads to.
    Patch,
    /// The release that a pre-release leads to.
    Release,
    /// The next pre-release: the tag of a pre-release is stepped; a release
    /// goes to the first pre-release of the next patch version.
    Prerelease,
    /// The same version with its build metadata stepped.
    Build,
}

/// The version that a release aims at: a step up from the current one, or a
/// version given outright.
#[derive(Debug)]
pub enum TargetVersion {
    Relative(BumpLevel),
    Absolute(SemVer),
}

/// Why no version can be aimed at.
#[derive(Clone, Copy, Debug, PartialEq, Eq, Structural)]
pub enum BumpFault {
    /// The number to increment is the greatest there is.
    Exhausted,
    /// The build metadata is not acceptable in a version.
    Refused,
}

/// Where the last identifier of a dotted text begins: after its last dot, or
/// at the start where it has none.
pub open spec fn last_identifier(text: Seq<char>) -> int
    decreases text.len(),
{
    if text.len() == 0 {
        0
    } else if text.last() == '.' {
        text.len() as int
    } else {
        last_identifier(text.drop_last())
    }
}

/// A pre-release tag or build metadata one step on. Where its last
/// identifier reads as a number, that number goes up by one; where it does
/// not, the identifier `1` is added after a dot; the empty text becomes `1`.
/// `None` says that the number is the greatest there is.
pub open spec fn stepped(text: Seq<char>) -> Option<Seq<char>> {
    if text.len() == 0 {
        Some("1"@)
    } else {
        let start = last_identifier(text);
        match parsed_number(text.subrange(start, text.len() as int)) {
            Some(n) => if n == u64::MAX {
                None
            } else {
                Some(text.subrange(0, start) + decimal((n + 1) as nat))
            },
            None => Some(text + ".1"@),
        }
    }
}

/// Computes [`stepped`].
pub fn step(text: &str) -> (next: Option<String>)
    ensures
        match next {
            Some(t) => stepped(text@) == Some(t@),
            None => stepped(text@) is None,
        },
{
    let len = text.unicode_len();
    if len == 0 {
        return Some("1".to_owned());
    }
    let mut start: usize = len;
    let mut found = false;
    assert(text@.take(len as int) =~= text@);
    while start > 0 && !found
        invariant
            len == text@.len(),
            start <= len,
            found ==> start == last_identifier(text@),
            !found ==> last_identifier(text@) == last_identifier(text@.take(start as int)),
        decreases start + if found { 0int } else { 1int },
    {
        proof {
            assert(text@.take(start as int).last() == text@[start - 1]);
            assert(text@.take(start as int).drop_last() =~= text@.take(start - 1));
        }
        if text.get_char(start - 1) == '.' {
            found = true;
        } else {
            start -= 1;
        }
    }
    assert(start == last_identifier(text@));
    let head = text.substring_char(0, start);
    let tail = text.substring_char(start, len);
    match parse_number(tail) {
        Some(n) => {
            if n == u64::MAX {
                None
            } else {
                let mut next = head.to_owned();
                next.append(decimal_text(n + 1).as_str());
                Some(next)
            }
        },
        None => {
            let mut next = text.to_owned();
            next.append(".1");
            Some(next)
        },
    }
}

/// A version with its build metadata replaced where metadata is given, or
/// `None` where the metadata given is not acceptable.
pub open spec fn with_metadata(version: SemVerText, metadata: Option<Seq<char>>) -> Option<
    SemVerText,
> {
    match metadata {
        Some(m) => if build_metadata_accepted(m) {
            Some(SemVerText { build: m, ..version })
        } else {
            None
        },
        None => Some(version),
    }
}

impl BumpLevel {
    /// The version one step up from `v`, or `None` where the number to
    /// increment cannot grow. A step to the next major, minor or patch
    /// version resets what follows the number and clears tag and metadata;
    /// from a pre-release, a patch step and a release step only drop the tag.
    /// A pre-release step puts the tag one step on and clears the metadata;
    /// from a release it leads to the next patch version with the tag `1`.
    /// A build step puts the metadata one step on.
    pub open spec fn raise(self, v: SemVerText) -> Option<SemVerText> {
        match self {
            BumpLevel::Major => if v.major == u64::MAX {
                None
            } else {
                Some(
                    SemVerText {
                        major: (v.major + 1) as u64,
                        minor: 0,
                        patch: 0,
                        pre: Seq::empty(),
                        build: Seq::empty(),
                    },
                )
            },
            BumpLevel::Minor => if v.minor == u64::MAX {
                None
            } else {
                Some(
                    SemVerText {
                        major: v.major,
                        minor: (v.minor + 1) as u64,
                        patch: 0,
                        pre: Seq::empty(),
                        build: Seq::empty(),
                    },
                )
            },
            BumpLevel::Patch => if v.pre.len() > 0 {
                Some(SemVerText { pre: Seq::empty(), ..v })
            } else if v.patch == u64::MAX {
                None
            } else {
                Some(
                    SemVerText {
                        major: v.major,
                        minor: v.minor,
                        patch: (v.patch + 1) as u64,
                        pre: Seq::empty(),
                        build: Seq::empty(),
                    },
                )
            },
            BumpLevel::Release => Some(SemVerText { pre: Seq::empty(), ..v }),
            BumpLevel::Prerelease => if v.pre.len() == 0 {
                if v.patch == u64::MAX {
                    None
                } else {
                    Some(
                        SemVerText {
                            major: v.major,
                            minor: v.minor,
                            patch: (v.patch + 1) as u64,
                            pre: "1"@,
                            build: Seq::empty(),
                        },
                    )
                }
            } else {
                match stepped(v.pre) {
                    Some(tag) => Some(SemVerText { pre: tag, build: Seq::empty(), ..v }),
                    None => None,
                }
            },
            BumpLevel::Build => match stepped(v.build) {
                Some(metadata) => Some(SemVerText { build: metadata, ..v }),
                None => None,
            },
        }
    }

    /// Computes [`BumpLevel::raise`].
    pub fn bump_version(self, version: &SemVer) -> (raised: Option<SemVer>)
        ensures
            match raised {
                Some(r) => self.raise(version@) == Some(r@),
                None => self.raise(version@) is None,
            },
    {
        proof {
            reveal_strlit("");
            assert(""@ =~= Seq::<char>::empty());
        }
        match self {
            BumpLevel::Major => {
                if version.major == u64::MAX {
                    None
                } else {
                    Some(SemVer::new(version.major + 1, 0, 0, "", ""))
                }
            },
            BumpLevel::Minor => {
                if version.minor == u64::MAX {
                    None
                } else {
                    Some(SemVer::new(version.major, version.minor + 1, 0, "", ""))
                }
            },
            BumpLevel::Patch => {
                if version.is_prerelease() {
                    Some(
                        SemVer::new(
                            version.major,
                            version.minor,
                            version.patch,
                            "",
                            version.build.as_str(),
                        ),
                    )
                } else if version.patch == u64::MAX {
                    None
                } else {
                    Some(SemVer::new(version.major, version.minor, version.patch + 1, "", ""))
                }
            },
            BumpLevel::Release => {
                Some(
                    SemVer::new(
                        version.major,
                        version.minor,
                        version.patch,
                        "",
                        version.build.as_str(),
                    ),
                )
            },
            BumpLevel::Prerelease => {
                if !version.is_prerelease() {
                    if version.patch == u64::MAX {
                        None
                    } else {
                        Some(SemVer::new(version.major, version.minor, version.patch + 1, "1", ""))
                    }
                } else {
                    match step(version.pre.as_str()) {
                        Some(tag) => Some(
                            SemVer::new(
                                version.major,
                                version.minor,
                                version.patch,
                                tag.as_str(),
                                "",
                            ),
                        ),
                        None => None,
                    }
                }
            },
            BumpLevel::Build => {
                match step(version.build.as_str()) {
                    Some(metadata) => Some(
                        SemVer::new(
                            version.major,
                            version.minor,
                            version.patch,
                            version.pre.as_str(),
                            metadata.as_str(),
                        ),
                    ),
                    None => None,
                }
            },
        }
    }
}

impl TargetVersion {
    /// The version to plan for a package now at `current`, given the build
    /// metadata that the package's policy lets through.
    ///
    /// A step up is taken from `current`, and metadata that is given then
    /// replaces what the step left. A version given outright carries its own
    /// metadata; where it has none it takes the metadata given, else that of
    /// `current`. `Ok(None)` says that nothing is to be planned: the step led
    /// nowhere, or the version given is `current` but for metadata.
    pub open spec fn aim(&self, current: SemVerText, metadata: Option<Seq<char>>) -> Result<
        Option<SemVerText>,
        BumpFault,
    > {
        match self {
            TargetVersion::Relative(level) => match level.raise(current) {
                None => Err(BumpFault::Exhausted),
                Some(raised) => match with_metadata(raised, metadata) {
                    None => Err(BumpFault::Refused),
                    Some(v) => Ok(
                        if v != current {
                            Some(v)
                        } else {
                            None
                        },
                    ),
                },
            },
            TargetVersion::Absolute(target) => {
                let full = if target@.build.len() > 0 {
                    Some(target@)
                } else if metadata is Some {
                    with_metadata(target@, metadata)
                } else {
                    Some(SemVerText { build: current.build, ..target@ })
                };
                match full {
                    None => Err(BumpFault::Refused),
                    Some(v) => Ok(
                        if v.bare() != current.bare() {
                            Some(v)
                        } else {
                            None
                        },
                    ),
                }
            },
        }
    }

    /// Computes [`TargetVersion::aim`] and gives the version in both forms.
    pub fn bump(&self, current: &SemVer, metadata: Option<&str>) -> (done: Result<
        Option<Version>,
        BumpFault,
    >)
        ensures
            match self.aim(current@, slot_text(metadata)) {
                Err(fault) => done == Err::<Option<Version>, BumpFault>(fault),
                Ok(None) => done == Ok::<Option<Version>, BumpFault>(None),
                Ok(Some(v)) => done matches Ok(Some(planned)) && planned.wf()
                    && planned.full_version@ == v,
            },
    {
        match self {
            TargetVersion::Relative(level) => {
                let raised = match level.bump_version(current) {
                    Some(r) => r,
                    None => {
                        return Err(BumpFault::Exhausted);
                    },
                };
                let potential = match metadata {
                    Some(m) => {
                        if !accepts_build_metadata(m) {
                            return Err(BumpFault::Refused);
                        }
                        SemVer::new(raised.major, raised.minor, raised.patch, raised.pre.as_str(), m)
                    },
                    None => raised,
                };
                if !potential.equals(current) {
                    Ok(Some(Version::new(potential)))
                } else {
                    Ok(None)
                }
            },
            TargetVersion::Absolute(target) => {
                let full = if !target.build.as_str().is_empty() {
                    target.clone()
                } else {
                    match metadata {
                        Some(m) => {
                            if !accepts_build_metadata(m) {
                                return Err(BumpFault::Refused);
                            }
                            SemVer::new(
                                target.major,
                                target.minor,
                                target.patch,
                                target.pre.as_str(),
                                m,
                            )
                        },
                        None => SemVer::new(
                            target.major,
                            target.minor,
                            target.patch,
                            target.pre.as_str(),
                            current.build.as_str(),
                        ),
                    }
                };
                if !full.bare_equals(current) {
                    Ok(Some(Version::new(full)))
                } else {
                    Ok(None)
                }
            },
        }
    }
}

} // verus!
