//! The release plan: one record per package, shared-version convergence and
//! tag names.

use vstd::prelude::*;
use indexmap::IndexMap;
use crate::config::{enabled, Config, MetadataPolicy};
use crate::error::{ValidationError, ValidationText};
use crate::ops::cargo::Features;
use crate::ops::path::FilePath;
use crate::ops::replace::{Template, TemplateText};
use crate::ops::cargo::{
    in_dependency_order, members_acyclic, permutation, sort_workspace, sorted_members,
};
use crate::ops::text::{
    find_text, first_place, is_first, lemma_first_place, lemma_no_place, same_text, slot_text,
    texts,
};
use crate::ops::version::{strictly_below, SemVer, SemVerText};
use crate::steps::{BumpFault, TargetVersion};
use crate::steps::workspace::{
    has_bin, holds_text, is_bin, package_content, package_content_of, package_root, path_texts,
    root_of, PackageMeta, Workspace,
};
use crate::steps::packages::{
    lemma_place_of, map_insert, map_len, map_new, map_place, map_value, map_value_mut, packages,
    place_of, releases,
};

verus! {

/// A version in both forms that a release needs: in full, and bare, that is
/// without build metadata; each with its text.
#[derive(Debug)]
pub struct Version {
    pub full_version: SemVer,
    pub full_version_string: String,
    pub bare_version: SemVer,
    pub bare_version_string: String,
}

impl Clone for Version {
    fn clone(&self) -> (copy: Self)
        ensures
            copy == *self,
    {
        Version {
            full_version: self.full_version.clone(),
            full_version_string: self.full_version_string.clone(),
            bare_version: self.bare_version.clone(),
            bare_version_string: self.bare_version_string.clone(),
        }
    }
}

impl Version {
    /// The bare version is the full one without build metadata, and each
    /// text is that of its version.
    pub open spec fn wf(&self) -> bool {
        &&& self.bare_version@ == self.full_version@.bare()
        &&& self.full_version_string@ == self.full_version@.text()
        &&& self.bare_version_string@ == self.bare_version@.text()
    }

    /// The version in both forms, from its full form.
    pub fn new(full_version: SemVer) -> (version: Version)
        ensures
            version.wf(),
            version.full_version == full_version,
    {
        let full_version_string = full_version.render();
        let bare_version = full_version.without_build();
        let bare_version_string = bare_version.render();
        Version { full_version, full_version_string, bare_version, bare_version_string }
    }

    /// Whether the version carries a pre-release tag.
    pub fn is_prerelease(&self) -> (tagged: bool)
        ensures
            tagged == (self.full_version.pre@.len() > 0),
    {
        self.full_version.is_prerelease()
    }
}

/// A package of the workspace that depends on the package at hand, with the
/// version requirement it states.
#[derive(Debug)]
pub struct Dependency {
    pub pkg: PackageMeta,
    pub req: String,
}

/// The planning record of one package.
#[derive(Debug)]
pub struct PackageRelease {
    pub meta: PackageMeta,
    pub manifest_path: FilePath,
    pub package_root: FilePath,
    pub is_root: bool,
    pub config: Config,
    pub package_content: Vec<FilePath>,
    pub bin: bool,
    pub dependents: Vec<Dependency>,
    pub features: Features,
    pub initial_version: Version,
    pub prior_tag: Option<String>,
    pub planned_version: Option<Version>,
    pub planned_tag: Option<String>,
    pub ensure_owners: bool,
}

/// The parsed pattern of `globset`.
#[verifier::external_type_specification]
#[verifier::external_body]
pub struct ExGlob(globset::Glob);

/// The error of `globset` for a text that is no pattern.
#[verifier::external_type_specification]
#[verifier::external_body]
pub struct ExGlobError(globset::Error);

/// Whether `globset` accepts a text as a pattern.
pub uninterp spec fn glob_accepted(pattern: Seq<char>) -> bool;

/// Calls `globset::Glob::new`, which parses the text and hands back the
/// pattern, or its error for a text that is no pattern. Nothing is compiled
/// here: a matcher is made from the pattern where the tags are searched.
#[verifier::external_body]
fn parse_glob(pattern: &str) -> (parsed: Result<globset::Glob, globset::Error>)
    ensures
        parsed is Ok == glob_accepted(pattern@),
{
    globset::Glob::new(pattern)
}

/// Where the search for the tag of a package's last release stands.
#[derive(Debug)]
pub enum PriorTag {
    /// The tag is known.
    Found(String),
    /// The tags of the repository are to be searched for the latest one that
    /// `pattern`, parsed from `glob`, matches. A pattern that the searcher
    /// cannot compile counts as matching nothing.
    Search { glob: String, pattern: globset::Glob },
    /// There is no tag to look for: the package counts as never released.
    Absent,
}

/// The tag that the package would have been released under at its initial
/// version. Where the repository has this very tag, it is the prior tag.
pub fn initial_tag(config: &Config, is_root: bool, name: &str, initial_version: &Version) -> (tag:
    String)
    ensures
        tag@ == tag_text(
            config.tag_name_text(),
            config.tag_prefix_text(is_root),
            name@,
            *initial_version,
            *initial_version,
        ),
{
    render_tag(config.tag_name(), config.tag_prefix(is_root), name, initial_version, initial_version)
}

/// Goes on with the search for the prior tag once it is known whether the
/// repository has `initial_tag`. Where it has, that is the tag. Where it has
/// not, the tags are to be searched by the package's tag pattern; a text
/// that is no pattern ends the search without a tag.
pub fn find_prior_tag(config: &Config, is_root: bool, name: &str, initial_tag: String, exists: bool) -> (found:
    PriorTag)
    ensures
        match found {
            PriorTag::Found(tag) => exists && tag == initial_tag,
            PriorTag::Search { glob, pattern } => !exists && glob_accepted(glob@) && glob@
                == tag_glob_text(config.tag_name_text(), config.tag_prefix_text(is_root), name@),
            PriorTag::Absent => !exists && !glob_accepted(
                tag_glob_text(config.tag_name_text(), config.tag_prefix_text(is_root), name@),
            ),
        },
{
    if exists {
        return PriorTag::Found(initial_tag);
    }
    let glob = render_tag_glob(config.tag_name(), config.tag_prefix(is_root), name);
    match parse_glob(glob.as_str()) {
        Ok(pattern) => PriorTag::Search { glob, pattern },
        Err(_) => PriorTag::Absent,
    }
}

/// The slots that a tag is rendered with, before the prefix is known.
pub open spec fn tag_slots(name: Seq<char>, prev: Version, base: Version) -> TemplateText {
    TemplateText {
        prev_version: Some(prev.bare_version_string@),
        prev_metadata: Some(prev.full_version.build@),
        version: Some(base.bare_version_string@),
        metadata: Some(base.full_version.build@),
        crate_name: Some(name),
        ..TemplateText::unbound()
    }
}

/// The slots that a tag pattern is rendered with: a wildcard for each part
/// of a version, the package name as it is.
pub open spec fn glob_slots(name: Seq<char>) -> TemplateText {
    TemplateText {
        prev_version: Some("*"@),
        prev_metadata: Some("*"@),
        version: Some("*"@),
        metadata: Some("*"@),
        crate_name: Some(name),
        ..TemplateText::unbound()
    }
}

/// A tag in two stages: the prefix template is rendered first, and its
/// outcome is what `{{prefix}}` stands for when the tag template is rendered.
pub open spec fn two_stage(slots: TemplateText, tag_name: Seq<char>, tag_prefix: Seq<char>) -> Seq<
    char,
> {
    TemplateText { prefix: Some(slots.render(tag_prefix)), ..slots }.render(tag_name)
}

/// The tag of package `name` for the step from version `prev` to `base`.
pub open spec fn tag_text(
    tag_name: Seq<char>,
    tag_prefix: Seq<char>,
    name: Seq<char>,
    prev: Version,
    base: Version,
) -> Seq<char> {
    two_stage(tag_slots(name, prev, base), tag_name, tag_prefix)
}

/// The pattern that matches the tags of package `name` whatever the version.
pub open spec fn tag_glob_text(tag_name: Seq<char>, tag_prefix: Seq<char>, name: Seq<char>) -> Seq<
    char,
> {
    two_stage(glob_slots(name), tag_name, tag_prefix)
}

/// Renders a tag in two stages.
fn render_two_stage(template: Template<'_>, tag_name: &str, tag_prefix: &str) -> (tag: String)
    ensures
        tag@ == two_stage(template@, tag_name@, tag_prefix@),
{
    let prefix = template.render(tag_prefix);
    let staged = Template {
        prev_version: template.prev_version,
        prev_metadata: template.prev_metadata,
        version: template.version,
        metadata: template.metadata,
        crate_name: template.crate_name,
        date: template.date,
        prefix: Some(prefix.as_str()),
        tag_name: template.tag_name,
    };
    assert(staged@ == TemplateText { prefix: Some(prefix@), ..template@ });
    staged.render(tag_name)
}

/// The tokens that rendering in two stages leaves behind for want of a
/// value: those left in the prefix, then those left in the tag.
pub open spec fn two_stage_leftovers(
    slots: TemplateText,
    tag_name: Seq<char>,
    tag_prefix: Seq<char>,
) -> Seq<Seq<char>> {
    slots.unrendered(tag_prefix) + (TemplateText {
        prefix: Some(slots.render(tag_prefix)),
        ..slots
    }).unrendered(tag_name)
}

/// The slots that the tag of a package is rendered with.
fn tag_template<'a>(name: &'a str, prev: &'a Version, base: &'a Version) -> (template: Template<'a>)
    ensures
        template@ == tag_slots(name@, *prev, *base),
{
    Template {
        prev_version: Some(prev.bare_version_string.as_str()),
        prev_metadata: Some(prev.full_version.build.as_str()),
        version: Some(base.bare_version_string.as_str()),
        metadata: Some(base.full_version.build.as_str()),
        crate_name: Some(name),
        date: None,
        prefix: None,
        tag_name: None,
    }
}

/// Renders the tag of a package for the step from `prev` to `base`.
pub fn render_tag(tag_name: &str, tag_prefix: &str, name: &str, prev: &Version, base: &Version) -> (tag:
    String)
    ensures
        tag@ == tag_text(tag_name@, tag_prefix@, name@, *prev, *base),
{
    render_two_stage(tag_template(name, prev, base), tag_name, tag_prefix)
}

/// Lists the tokens that [`render_tag`] leaves in the tag because nothing is
/// bound to them. The tag is rendered all the same; the list is for the
/// caller to warn about.
pub fn unrendered_in_tag(tag_name: &str, tag_prefix: &str, name: &str, prev: &Version, base: &Version) -> (tokens:
    Vec<String>)
    ensures
        texts(tokens@) == two_stage_leftovers(
            tag_slots(name@, *prev, *base),
            tag_name@,
            tag_prefix@,
        ),
{
    let template = tag_template(name, prev, base);
    let mut tokens = template.unrendered(tag_prefix);
    let prefix = template.render(tag_prefix);
    let staged = Template {
        prev_version: template.prev_version,
        prev_metadata: template.prev_metadata,
        version: template.version,
        metadata: template.metadata,
        crate_name: template.crate_name,
        date: template.date,
        prefix: Some(prefix.as_str()),
        tag_name: template.tag_name,
    };
    assert(staged@ == TemplateText { prefix: Some(prefix@), ..template@ });
    let mut more = staged.unrendered(tag_name);
    let ghost first = texts(tokens@);
    let ghost second = texts(more@);
    tokens.append(&mut more);
    assert(texts(tokens@) =~= first + second);
    tokens
}

/// Lists the tokens that [`render_tag_glob`] leaves in the pattern because
/// nothing is bound to them.
pub fn unrendered_in_tag_glob(tag_name: &str, tag_prefix: &str, name: &str) -> (tokens: Vec<String>)
    ensures
        texts(tokens@) == two_stage_leftovers(glob_slots(name@), tag_name@, tag_prefix@),
{
    let template = Template {
        prev_version: Some("*"),
        prev_metadata: Some("*"),
        version: Some("*"),
        metadata: Some("*"),
        crate_name: Some(name),
        date: None,
        prefix: None,
        tag_name: None,
    };
    assert(template@ == glob_slots(name@));
    let mut tokens = template.unrendered(tag_prefix);
    let prefix = template.render(tag_prefix);
    let staged = Template {
        prev_version: template.prev_version,
        prev_metadata: template.prev_metadata,
        version: template.version,
        metadata: template.metadata,
        crate_name: template.crate_name,
        date: template.date,
        prefix: Some(prefix.as_str()),
        tag_name: template.tag_name,
    };
    assert(staged@ == TemplateText { prefix: Some(prefix@), ..template@ });
    let mut more = staged.unrendered(tag_name);
    let ghost first = texts(tokens@);
    let ghost second = texts(more@);
    tokens.append(&mut more);
    assert(texts(tokens@) =~= first + second);
    tokens
}

/// Renders the pattern that finds earlier tags of a package.
pub fn render_tag_glob(tag_name: &str, tag_prefix: &str, name: &str) -> (glob: String)
    ensures
        glob@ == tag_glob_text(tag_name@, tag_prefix@, name@),
{
    let template = Template {
        prev_version: Some("*"),
        prev_metadata: Some("*"),
        version: Some("*"),
        metadata: Some("*"),
        crate_name: Some(name),
        date: None,
        prefix: None,
        tag_name: None,
    };
    assert(template@ == glob_slots(name@));
    render_two_stage(template, tag_name, tag_prefix)
}

/// The build metadata that a bump goes on with, given the package's policy,
/// the metadata of its current version and the metadata asked for. The
/// outer `None` says that the policy is violated: metadata is required and
/// none was asked for.
pub open spec fn resolved_metadata(
    policy: MetadataPolicy,
    current: Seq<char>,
    given: Option<Seq<char>>,
) -> Option<Option<Seq<char>>> {
    match policy {
        MetadataPolicy::Optional => Some(given),
        MetadataPolicy::Required => if given is None {
            None
        } else {
            Some(given)
        },
        MetadataPolicy::Ignore => Some(None),
        MetadataPolicy::Persistent => if given is None && current.len() > 0 {
            Some(Some(current))
        } else {
            Some(given)
        },
    }
}

/// Computes [`resolved_metadata`].
pub fn resolve_metadata<'s>(policy: MetadataPolicy, current: &'s str, given: Option<&'s str>) -> (resolved:
    Option<Option<&'s str>>)
    ensures
        match resolved {
            Some(m) => resolved_metadata(policy, current@, slot_text(given)) == Some(slot_text(m)),
            None => resolved_metadata(policy, current@, slot_text(given)) is None,
        },
{
    match policy {
        MetadataPolicy::Optional => Some(given),
        MetadataPolicy::Required => {
            if given.is_none() {
                None
            } else {
                Some(given)
            }
        },
        MetadataPolicy::Ignore => Some(None),
        MetadataPolicy::Persistent => {
            if given.is_none() && !current.is_empty() {
                Some(Some(current))
            } else {
                Some(given)
            }
        },
    }
}

/// The requirement of the first dependency on `name` that is declared.
pub open spec fn requirement_on(dependencies: Seq<(Seq<char>, Seq<char>)>, name: Seq<char>) -> Option<
    Seq<char>,
>
    decreases dependencies.len(),
{
    if dependencies.len() == 0 {
        None
    } else if dependencies[0].0 == name {
        Some(dependencies[0].1)
    } else {
        requirement_on(dependencies.drop_first(), name)
    }
}

/// The dependents of the package called `name` among `packages`, in their
/// order: each package of the workspace that declares a dependency on that
/// name, as its place in `packages` with the requirement it states.
pub open spec fn dependents_of(
    packages: Seq<PackageMeta>,
    members: Seq<Seq<char>>,
    name: Seq<char>,
) -> Seq<(int, Seq<char>)>
    decreases packages.len(),
{
    if packages.len() == 0 {
        Seq::empty()
    } else {
        let before = dependents_of(packages.drop_last(), members, name);
        let last = packages.last();
        match requirement_on(last@.dependencies, name) {
            Some(req) => if members.contains(last.id@) {
                before.push((packages.len() - 1, req))
            } else {
                before
            },
            None => before,
        }
    }
}

/// The requirement that `pkg` states on the package called `name`, if it
/// depends on it.
pub fn find_requirement<'a>(pkg: &'a PackageMeta, name: &str) -> (req: Option<&'a str>)
    ensures
        slot_text(req) == requirement_on(pkg@.dependencies, name@),
{
    let ghost all = pkg@.dependencies;
    let mut i: usize = 0;
    assert(all.skip(0) =~= all);
    while i < pkg.dependencies.len()
        invariant
            all == pkg@.dependencies,
            i <= pkg.dependencies@.len(),
            requirement_on(all, name@) == requirement_on(all.skip(i as int), name@),
        decreases pkg.dependencies@.len() - i,
    {
        proof {
            assert(all.skip(i as int).drop_first() =~= all.skip(i + 1));
            assert(all.skip(i as int)[0] == all[i as int]);
        }
        if same_text(pkg.dependencies[i].name.as_str(), name) {
            return Some(pkg.dependencies[i].req.as_str());
        }
        i += 1;
    }
    None
}

/// Whether `dependents` are the packages found, each with its requirement.
pub open spec fn found_as(
    dependents: Seq<Dependency>,
    packages: Seq<PackageMeta>,
    found: Seq<(int, Seq<char>)>,
) -> bool {
    &&& dependents.len() == found.len()
    &&& forall|k: int|
        0 <= k < found.len() ==> 0 <= (#[trigger] found[k]).0 < packages.len() && dependents[k].pkg@
            == packages[found[k].0]@ && dependents[k].req@ == found[k].1
}

/// Finds the packages of the workspace that depend on `pkg_meta`.
pub fn find_dependents(ws_meta: &Workspace, pkg_meta: &PackageMeta) -> (dependents: Vec<Dependency>)
    ensures
        found_as(
            dependents@,
            ws_meta.packages@,
            dependents_of(ws_meta.packages@, texts(ws_meta.workspace_members@), pkg_meta.name@),
        ),
{
    let ghost members = texts(ws_meta.workspace_members@);
    let ghost all = ws_meta.packages@;
    let mut dependents: Vec<Dependency> = Vec::new();
    let mut i: usize = 0;
    while i < ws_meta.packages.len()
        invariant
            i <= ws_meta.packages@.len(),
            all == ws_meta.packages@,
            members == texts(ws_meta.workspace_members@),
            found_as(dependents@, all, dependents_of(all.take(i as int), members, pkg_meta.name@)),
            forall|k: int|
                0 <= k < dependents@.len() ==> (#[trigger] dependents_of(
                    all.take(i as int),
                    members,
                    pkg_meta.name@,
                )[k]).0 < i,
        decreases ws_meta.packages@.len() - i,
    {
        let p = &ws_meta.packages[i];
        let ghost before = dependents_of(all.take(i as int), members, pkg_meta.name@);
        let ghost after = dependents_of(all.take(i + 1), members, pkg_meta.name@);
        let ghost old_dependents = dependents@;
        proof {
            assert(all.take(i + 1).drop_last() =~= all.take(i as int));
            assert(all.take(i + 1).last() == *p);
        }
        if holds_text(&ws_meta.workspace_members, p.id.as_str()) {
            match find_requirement(p, pkg_meta.name.as_str()) {
                Some(req) => {
                    dependents.push(Dependency { pkg: p.clone(), req: req.to_owned() });
                    proof {
                        assert(after == before.push((i as int, req@)));
                        assert forall|k: int| 0 <= k < after.len() implies 0 <= (#[trigger] after[k]).0
                            < all.len() && dependents@[k].pkg@ == all[after[k].0]@
                            && dependents@[k].req@ == after[k].1 by {
                            if k < before.len() {
                                assert(after[k] == before[k]);
                                assert(dependents@[k] == old_dependents[k]);
                            }
                        }
                        assert forall|k: int| 0 <= k < dependents@.len() implies (#[trigger] after[k]).0
                            < i + 1 by {
                            if k < before.len() {
                                assert(after[k] == before[k]);
                            }
                        }
                    }
                },
                None => {
                    assert(after == before);
                },
            }
        } else {
            assert(after == before);
        }
        i += 1;
    }
    assert(all.take(i as int) =~= all);
    dependents
}

impl PackageRelease {
    /// The version that the release is made at: the planned one, or the
    /// initial one where none is planned.
    pub open spec fn effective_version(&self) -> Version {
        match self.planned_version {
            Some(v) => v,
            None => self.initial_version,
        }
    }

    /// Whether the package is released as a member of `group`.
    pub open spec fn member_of(&self, group: Seq<char>) -> bool {
        enabled(self.config.release) && self.config.group() == Some(group)
    }

    /// The text of the tag that planning gives this package, or `None` where
    /// it gives none.
    pub open spec fn tag_planned(&self) -> Option<Seq<char>> {
        if enabled(self.config.tag) {
            Some(
                tag_text(
                    self.config.tag_name_text(),
                    self.config.tag_prefix_text(self.is_root),
                    self.meta.name@,
                    self.initial_version,
                    self.effective_version(),
                ),
            )
        } else {
            None
        }
    }

    /// Whether `after` is this record once its tag was planned: a package
    /// that is not released stays as it is; for any other only the planned
    /// tag changes, to [`PackageRelease::tag_planned`].
    pub open spec fn planned_as(&self, after: &PackageRelease) -> bool {
        if enabled(self.config.release) {
            &&& *after == PackageRelease { planned_tag: after.planned_tag, ..*self }
            &&& match after.planned_tag {
                Some(tag) => self.tag_planned() == Some(tag@),
                None => self.tag_planned() is None,
            }
        } else {
            *after == *self
        }
    }

    /// What a bump towards `target` comes to for this package: the fault
    /// that stops it, or the version to plan, if any. The policy on build
    /// metadata is applied first, to the metadata asked for; the target is
    /// then applied to the initial version.
    pub open spec fn bump_outcome(&self, target: &TargetVersion, metadata: Option<Seq<char>>) -> Result<
        Option<SemVerText>,
        ValidationText,
    > {
        let name = self.meta.name@;
        match resolved_metadata(
            self.config.metadata_policy(),
            self.initial_version.full_version.build@,
            metadata,
        ) {
            None => Err(ValidationText::MetadataRequired { name }),
            Some(m) => match target.aim(self.initial_version.full_version@, m) {
                Err(BumpFault::Exhausted) => Err(ValidationText::VersionExhausted { name }),
                Err(BumpFault::Refused) => Err(
                    ValidationText::MetadataRefused {
                        name,
                        metadata: match m {
                            Some(text) => text,
                            None => Seq::empty(),
                        },
                    },
                ),
                Ok(v) => Ok(v),
            },
        }
    }

    /// Plans the version that `level_or_version` leads to from the initial
    /// version. On a fault nothing is planned and the record stays as it
    /// was; otherwise only the planned version changes.
    pub fn bump(&mut self, level_or_version: &TargetVersion, metadata: Option<&str>) -> (done: Result<
        (),
        ValidationError,
    >)
        ensures
            match old(self).bump_outcome(level_or_version, slot_text(metadata)) {
                Err(fault) => *final(self) == *old(self) && done is Err && done->Err_0@ == fault,
                Ok(planned) => done is Ok && *final(self) == (PackageRelease {
                    planned_version: final(self).planned_version,
                    ..*old(self)
                }) && match planned {
                    Some(v) => final(self).planned_version is Some
                        && final(self).planned_version->0.wf()
                        && final(self).planned_version->0.full_version@ == v,
                    None => final(self).planned_version is None,
                },
            },
    {
        let resolved = match resolve_metadata(
            self.config.metadata(),
            self.initial_version.full_version.build.as_str(),
            metadata,
        ) {
            Some(m) => m,
            None => {
                return Err(ValidationError::MetadataRequired { name: self.meta.name.clone() });
            },
        };
        match level_or_version.bump(&self.initial_version.full_version, resolved) {
            Ok(planned) => {
                self.planned_version = planned;
                Ok(())
            },
            Err(BumpFault::Exhausted) => Err(
                ValidationError::VersionExhausted { name: self.meta.name.clone() },
            ),
            Err(BumpFault::Refused) => {
                let metadata = match resolved {
                    Some(m) => m.to_owned(),
                    None => String::new(),
                };
                Err(ValidationError::MetadataRefused { name: self.meta.name.clone(), metadata })
            },
        }
    }

    /// Whether this is the record that loading makes of the package
    /// `pkg_meta` of the workspace `ws_meta`, under the policy `config`,
    /// given the root of the repository, the files that the package lists
    /// and the tag of its last release, if one was found.
    pub open spec fn loaded_from(
        &self,
        config: Config,
        git_root: Seq<Seq<char>>,
        ws_meta: Workspace,
        pkg_meta: PackageMeta,
        listed: Seq<Seq<Seq<char>>>,
        prior_tag: Option<String>,
    ) -> bool {
        let root = root_of(pkg_meta.manifest_path@);
        &&& self.meta@ == pkg_meta@
        &&& self.manifest_path@ == pkg_meta.manifest_path@
        &&& self.package_root@ == root
        &&& self.is_root == (git_root == root)
        &&& self.config == config
        &&& self.bin == has_bin(pkg_meta@.targets)
        &&& path_texts(self.package_content@) == package_content_of(
            listed,
            self.bin,
            ws_meta.workspace_root@,
            root,
        )
        &&& found_as(
            self.dependents@,
            ws_meta.packages@,
            dependents_of(ws_meta.packages@, texts(ws_meta.workspace_members@), pkg_meta.name@),
        )
        &&& config.selects(self.features)
        &&& self.initial_version.wf()
        &&& self.initial_version.full_version@ == pkg_meta.version@
        &&& self.prior_tag == prior_tag
        &&& self.planned_version is None
        &&& self.planned_tag is None
        &&& self.ensure_owners == (enabled(config.publish) && config.owners@.len() > 0)
    }

    /// Makes the planning record of a package. Nothing is planned yet.
    ///
    /// `listed` are the files that the package lists as its content, and
    /// `prior_tag` is the outcome of the search that [`initial_tag`] and
    /// [`find_prior_tag`] lead through.
    pub fn load(
        config: Config,
        git_root: &FilePath,
        ws_meta: &Workspace,
        pkg_meta: &PackageMeta,
        listed: Vec<FilePath>,
        prior_tag: Option<String>,
    ) -> (pkg: PackageRelease)
        ensures
            pkg.loaded_from(config, git_root@, *ws_meta, *pkg_meta, path_texts(listed@), prior_tag),
    {
        let meta = pkg_meta.clone();
        let manifest_path = pkg_meta.manifest_path.clone();
        let package_root = package_root(&manifest_path);
        let bin = is_bin(&pkg_meta.targets);
        let package_content = package_content(listed, bin, &ws_meta.workspace_root, &package_root);
        let features = config.features();
        let dependents = find_dependents(ws_meta, pkg_meta);
        let is_root = git_root.equals(&package_root);
        let initial_version = Version::new(pkg_meta.version.clone());
        let ensure_owners = config.publish() && config.owners().len() > 0;
        PackageRelease {
            meta,
            manifest_path,
            package_root,
            is_root,
            config,
            package_content,
            bin,
            dependents,
            features,
            initial_version,
            prior_tag,
            planned_version: None,
            planned_tag: None,
            ensure_owners,
        }
    }

    /// Records the tag of the last release.
    pub fn set_prior_tag(&mut self, prior_tag: String)
        ensures
            *final(self) == (PackageRelease { prior_tag: Some(prior_tag), ..*old(self) }),
    {
        self.prior_tag = Some(prior_tag);
    }

    /// Plans the tag of this package from its planned, else its initial,
    /// version. Never fails.
    pub fn plan(&mut self) -> (done: Result<(), ValidationError>)
        ensures
            done is Ok,
            old(self).planned_as(final(self)),
    {
        if !self.config.release() {
            return Ok(());
        }
        let tag = if self.config.tag() {
            let base = match &self.planned_version {
                Some(v) => v,
                None => &self.initial_version,
            };
            Some(
                render_tag(
                    self.config.tag_name(),
                    self.config.tag_prefix(self.is_root),
                    self.meta.name.as_str(),
                    &self.initial_version,
                    base,
                ),
            )
        } else {
            None
        };
        self.planned_tag = tag;
        Ok(())
    }
}

/// What was read for one package before the workspace is loaded: its merged
/// policy, the files it lists as its content, and the tag of its last
/// release, if one was found.
#[derive(Debug)]
pub struct PackageInput {
    pub id: String,
    pub config: Config,
    pub listed: Vec<FilePath>,
    pub prior_tag: Option<String>,
}

/// The ids of the packages.
pub open spec fn package_ids(packages: Seq<PackageMeta>) -> Seq<Seq<char>> {
    Seq::new(packages.len(), |i: int| packages[i].id@)
}

/// The ids of what was read.
pub open spec fn input_ids(inputs: Seq<PackageInput>) -> Seq<Seq<char>> {
    Seq::new(inputs.len(), |i: int| inputs[i].id@)
}

/// The ids of the members in the order given by `order`.
pub open spec fn ordered_ids(ws_meta: Workspace, order: Seq<usize>) -> Seq<Seq<char>> {
    Seq::new(order.len(), |q: int| ws_meta.workspace_members@[order[q] as int]@)
}

/// What is wrong with loading the member with id `id` after the members
/// with the ids `before`, if anything: its id was met before, or the
/// workspace has no metadata for it, or nothing was read for it.
pub open spec fn load_fault_at(
    ws_meta: Workspace,
    inputs: Seq<PackageInput>,
    before: Seq<Seq<char>>,
    id: Seq<char>,
) -> Option<ValidationText> {
    if before.contains(id) {
        Some(ValidationText::RepeatedPackage { id })
    } else if first_place(package_ids(ws_meta.packages@), id) is None || first_place(
        input_ids(inputs),
        id,
    ) is None {
        Some(ValidationText::MissingPackage { id })
    } else {
        None
    }
}

/// The first fault in loading the members with the ids `ids`, in order.
pub open spec fn load_fault(ws_meta: Workspace, inputs: Seq<PackageInput>, ids: Seq<Seq<char>>) -> Option<
    ValidationText,
>
    decreases ids.len(),
{
    if ids.len() == 0 {
        None
    } else {
        match load_fault(ws_meta, inputs, ids.drop_last()) {
            Some(fault) => Some(fault),
            None => load_fault_at(ws_meta, inputs, ids.drop_last(), ids.last()),
        }
    }
}

/// Whether `record` is what loading makes of the member with id `id`: the
/// record of the first package with that id, under what was read first for
/// that id.
pub open spec fn loaded_member(
    record: PackageRelease,
    git_root: Seq<Seq<char>>,
    ws_meta: Workspace,
    inputs: Seq<PackageInput>,
    id: Seq<char>,
) -> bool {
    let meta = first_place(package_ids(ws_meta.packages@), id);
    let input = first_place(input_ids(inputs), id);
    &&& meta is Some
    &&& input is Some
    &&& 0 <= meta->0 < ws_meta.packages@.len()
    &&& 0 <= input->0 < inputs.len()
    &&& record.loaded_from(
        inputs[input->0].config,
        git_root,
        ws_meta,
        ws_meta.packages@[meta->0],
        path_texts(inputs[input->0].listed@),
        inputs[input->0].prior_tag,
    )
}

/// Whether `entries` are the records of the members in the order `order`,
/// each under its id.
pub open spec fn loaded_in(
    entries: Seq<(Seq<char>, PackageRelease)>,
    git_root: Seq<Seq<char>>,
    ws_meta: Workspace,
    inputs: Seq<PackageInput>,
    order: Seq<usize>,
) -> bool {
    &&& entries.len() == order.len()
    &&& forall|q: int|
        0 <= q < order.len() ==> (#[trigger] entries[q]).0 == ordered_ids(ws_meta, order)[q]
            && loaded_member(entries[q].1, git_root, ws_meta, inputs, entries[q].0)
}

/// Finds the first package with the id `id`.
fn find_package(packages: &Vec<PackageMeta>, id: &str) -> (place: Option<usize>)
    ensures
        match place {
            Some(i) => first_place(package_ids(packages@), id@) == Some(i as int) && i
                < packages@.len(),
            None => first_place(package_ids(packages@), id@) is None,
        },
{
    let mut i: usize = 0;
    while i < packages.len()
        invariant
            i <= packages@.len(),
            forall|j: int| 0 <= j < i ==> package_ids(packages@)[j] != id@,
        decreases packages@.len() - i,
    {
        if same_text(packages[i].id.as_str(), id) {
            proof {
                lemma_first_place(package_ids(packages@), id@, i as int);
            }
            return Some(i);
        }
        i += 1;
    }
    proof {
        lemma_no_place(package_ids(packages@), id@);
    }
    None
}

/// Loads the members in the order given.
fn load_in_order(
    git_root: &FilePath,
    ws_meta: &Workspace,
    order: &Vec<usize>,
    inputs: Vec<PackageInput>,
) -> (done: Result<IndexMap<String, PackageRelease>, ValidationError>)
    requires
        forall|q: int| 0 <= q < order@.len() ==> (#[trigger] order@[q]) < ws_meta.workspace_members@.len(),
    ensures
        match load_fault(*ws_meta, inputs@, ordered_ids(*ws_meta, order@)) {
            Some(fault) => done is Err && done->Err_0@ == fault,
            None => done is Ok && loaded_in(
                packages(done->Ok_0),
                git_root@,
                *ws_meta,
                inputs@,
                order@,
            ),
        },
{
    let ghost given = inputs@;
    let ghost ids = ordered_ids(*ws_meta, order@);
    let mut names: Vec<String> = Vec::new();
    let mut slots: Vec<Option<PackageInput>> = Vec::new();
    let mut count: usize = 0;
    assert(inputs@.len() == inputs.len());
    for input in it: inputs
        invariant
            it.seq() == given,
            given.len() <= usize::MAX,
            count == it.index(),
            names@.len() == count,
            slots@.len() == count,
            forall|x: int| 0 <= x < count ==> (#[trigger] names@[x])@ == given[x].id@,
            forall|x: int| 0 <= x < count ==> #[trigger] slots@[x] == Some(given[x]),
    {
        names.push(input.id.clone());
        slots.push(Some(input));
        count += 1;
    }
    assert(texts(names@) =~= input_ids(given));
    let mut map = map_new();
    let mut q: usize = 0;
    assert(ids.take(0) =~= Seq::<Seq<char>>::empty());
    while q < order.len()
        invariant
            q <= order@.len(),
            given == inputs@,
            ids == ordered_ids(*ws_meta, order@),
            forall|p: int| 0 <= p < order@.len() ==> (#[trigger] order@[p]) < ws_meta.workspace_members@.len(),
            texts(names@) == input_ids(given),
            slots@.len() == given.len(),
            forall|x: int|
                0 <= x < given.len() ==> (#[trigger] slots@[x] == Some(given[x]) || (slots@[x] is None
                    && ids.take(q as int).contains(given[x].id@))),
            load_fault(*ws_meta, given, ids.take(q as int)) is None,
            packages(map).len() == q,
            forall|p: int|
                0 <= p < q ==> (#[trigger] packages(map)[p]).0 == ids[p] && loaded_member(
                    packages(map)[p].1,
                    git_root@,
                    *ws_meta,
                    given,
                    packages(map)[p].0,
                ),
        decreases order@.len() - q,
    {
        let id = ws_meta.workspace_members[order[q]].as_str();
        let ghost before = ids.take(q as int);
        let ghost next = ids.take(q + 1);
        proof {
            assert(next.drop_last() =~= before);
            assert(next.last() == id@);
            lemma_place_of(packages(map), id@);
            if before.contains(id@) {
                let w = choose|w: int| 0 <= w < before.len() && before[w] == id@;
                assert(packages(map)[w].0 == id@);
            }
            if place_of(packages(map), id@) is Some {
                let w = place_of(packages(map), id@)->0;
                assert(before[w] == id@);
                assert(before.contains(id@));
            }
            assert(load_fault(*ws_meta, given, next) == load_fault_at(*ws_meta, given, before, id@));
        }
        if map_place(&map, id).is_some() {
            proof {
                lemma_load_fault_stays(*ws_meta, given, ids, q + 1);
            }
            return Err(ValidationError::RepeatedPackage { id: id.to_owned() });
        }
        let meta = match find_package(&ws_meta.packages, id) {
            Some(i) => &ws_meta.packages[i],
            None => {
                proof {
                    lemma_load_fault_stays(*ws_meta, given, ids, q + 1);
                }
                return Err(ValidationError::MissingPackage { id: id.to_owned() });
            },
        };
        let place = match find_text(&names, id) {
            Some(i) => i,
            None => {
                proof {
                    lemma_load_fault_stays(*ws_meta, given, ids, q + 1);
                }
                return Err(ValidationError::MissingPackage { id: id.to_owned() });
            },
        };
        assert(given[place as int].id@ == id@) by {
            assert(texts(names@)[place as int] == id@);
        }
        assert(slots@[place as int] == Some(given[place as int]));
        let input = match slots[place].take() {
            Some(input) => input,
            None => {
                return Err(ValidationError::MissingPackage { id: id.to_owned() });
            },
        };
        let PackageInput { id: _, config, listed, prior_tag } = input;
        let record = PackageRelease::load(config, git_root, ws_meta, meta, listed, prior_tag);
        let ghost entries = packages(map);
        map_insert(&mut map, id.to_owned(), record);
        proof {
            assert(packages(map) == entries.push((id@, record)));
            assert forall|x: int| 0 <= x < given.len() implies (#[trigger] slots@[x] == Some(given[x])
                || (slots@[x] is None && next.contains(given[x].id@))) by {
                if x == place {
                    assert(next[q as int] == id@);
                } else if slots@[x] is None {
                    let w = choose|w: int| 0 <= w < before.len() && before[w] == given[x].id@;
                    assert(next[w] == given[x].id@);
                }
            }
            assert forall|p: int| 0 <= p < q + 1 implies (#[trigger] packages(map)[p]).0 == ids[p]
                && loaded_member(packages(map)[p].1, git_root@, *ws_meta, given, packages(map)[p].0) by {
                if p < q {
                    assert(packages(map)[p] == entries[p]);
                }
            }
        }
        q += 1;
    }
    assert(ids.take(q as int) =~= ids);
    Ok(map)
}

/// A fault among the first `n` ids is the fault of the whole list.
pub proof fn lemma_load_fault_stays(
    ws_meta: Workspace,
    inputs: Seq<PackageInput>,
    ids: Seq<Seq<char>>,
    n: int,
)
    requires
        0 <= n <= ids.len(),
        load_fault(ws_meta, inputs, ids.take(n)) is Some,
    ensures
        load_fault(ws_meta, inputs, ids) == load_fault(ws_meta, inputs, ids.take(n)),
    decreases ids.len(),
{
    if n == ids.len() {
        assert(ids.take(n) =~= ids);
    } else {
        assert(ids.drop_last().take(n) =~= ids.take(n));
        lemma_load_fault_stays(ws_meta, inputs, ids.drop_last(), n);
    }
}

/// Loads the workspace: one planning record per member, under the member's
/// id, in the order in which the members are worked on, which has every
/// member after the members it depends on unless members depend on each
/// other in a circle.
///
/// `inputs` holds what was read for the members; of two inputs for one id
/// the first counts, as of two packages with one id. Loading fails where two
/// members bear one id, and where a member has no metadata or no input.
pub fn load(git_root: &FilePath, ws_meta: &Workspace, inputs: Vec<PackageInput>) -> (done: Result<
    IndexMap<String, PackageRelease>,
    ValidationError,
>)
    ensures
        permutation(sorted_members(*ws_meta), ws_meta.workspace_members@.len()),
        members_acyclic(*ws_meta) ==> in_dependency_order(*ws_meta, sorted_members(*ws_meta)),
        match load_fault(*ws_meta, inputs@, ordered_ids(*ws_meta, sorted_members(*ws_meta))) {
            Some(fault) => done is Err && done->Err_0@ == fault,
            None => done is Ok && loaded_in(
                packages(done->Ok_0),
                git_root@,
                *ws_meta,
                inputs@,
                sorted_members(*ws_meta),
            ),
        },
{
    let order = sort_workspace(ws_meta);
    load_in_order(git_root, ws_meta, &order, inputs)
}

/// Whether one of the first `n` packages is a released member of `group` at
/// the version `v`.
pub open spec fn seen_at(pkgs: Seq<PackageRelease>, n: int, group: Seq<char>, v: SemVerText) -> bool {
    exists|j: int|
        0 <= j < n && j < pkgs.len() && (#[trigger] pkgs[j]).member_of(group)
            && pkgs[j].effective_version().full_version@ == v
}

/// Whether a released member of `group` is at the version `v`.
pub open spec fn at_version(pkgs: Seq<PackageRelease>, group: Seq<char>, v: SemVerText) -> bool {
    seen_at(pkgs, pkgs.len() as int, group, v)
}

/// Whether `g` is the greatest of the versions that the released members of
/// `group` are at: one of them is at `g`, and every one of them is at `g` or
/// at a version that ranks strictly below it. Versions rank by their bare
/// version, and between versions with one bare version by build metadata.
/// Nothing here depends on the order of the packages.
pub open spec fn is_greatest(pkgs: Seq<PackageRelease>, group: Seq<char>, g: SemVerText) -> bool {
    &&& at_version(pkgs, group, g)
    &&& forall|j: int|
        0 <= j < pkgs.len() && (#[trigger] pkgs[j]).member_of(group)
            ==> pkgs[j].effective_version().full_version@ == g || strictly_below(
            pkgs[j].effective_version().full_version@,
            g,
        )
}

/// Whether the versions of `group` have a greatest one.
pub open spec fn ranked(pkgs: Seq<PackageRelease>, group: Seq<char>) -> bool {
    exists|g: SemVerText| is_greatest(pkgs, group, g)
}

/// The greatest version of `group`, where it has one.
pub open spec fn greatest(pkgs: Seq<PackageRelease>, group: Seq<char>) -> SemVerText {
    choose|g: SemVerText| is_greatest(pkgs, group, g)
}

/// A group has one greatest version at most.
pub proof fn lemma_greatest_is_one(
    pkgs: Seq<PackageRelease>,
    group: Seq<char>,
    a: SemVerText,
    b: SemVerText,
)
    requires
        is_greatest(pkgs, group, a),
        is_greatest(pkgs, group, b),
    ensures
        a == b,
{
    let i = choose|j: int|
        0 <= j < pkgs.len() && j < pkgs.len() && (#[trigger] pkgs[j]).member_of(group)
            && pkgs[j].effective_version().full_version@ == a;
    let k = choose|j: int|
        0 <= j < pkgs.len() && j < pkgs.len() && (#[trigger] pkgs[j]).member_of(group)
            && pkgs[j].effective_version().full_version@ == b;
    assert(pkgs[i].member_of(group));
    assert(pkgs[k].member_of(group));
}

/// Whether `planned` is the version that convergence plans for `pkg` among
/// the packages `all`. A released member of a group whose bare initial
/// version differs from the group's greatest version gets that version,
/// metadata included and with its texts in order; a member that is at the
/// greatest bare version already gets none. Any other package keeps what it
/// had.
pub open spec fn converged_as(
    pkg: PackageRelease,
    all: Seq<PackageRelease>,
    planned: Option<Version>,
) -> bool {
    if enabled(pkg.config.release) && pkg.config.group() is Some {
        let g = greatest(all, pkg.config.group()->0);
        if pkg.initial_version.bare_version.bare_key() != g.bare_key() {
            planned is Some && planned->0.wf() && planned->0.full_version@ == g
        } else {
            planned is None
        }
    } else {
        planned == pkg.planned_version
    }
}

/// Whether `after` is the record that planning makes of `pkg` among the
/// packages `all`: its planned version is what convergence gives it, its
/// tag is planned from that, and nothing else changes.
pub open spec fn record_planned(pkg: PackageRelease, all: Seq<PackageRelease>, after: PackageRelease) -> bool {
    &&& converged_as(pkg, all, after.planned_version)
    &&& (PackageRelease { planned_version: after.planned_version, ..pkg }).planned_as(&after)
}

/// The group that planning fails on among the first `n` packages: that of
/// the first released member of a group whose versions cannot be ranked.
pub open spec fn plan_fault(pkgs: Seq<PackageRelease>, n: int) -> Option<Seq<char>>
    decreases n,
{
    if n <= 0 || n > pkgs.len() {
        None
    } else {
        match plan_fault(pkgs, n - 1) {
            Some(group) => Some(group),
            None => {
                let pkg = pkgs[n - 1];
                if enabled(pkg.config.release) && pkg.config.group() is Some && !ranked(
                    pkgs,
                    pkg.config.group()->0,
                ) {
                    pkg.config.group()
                } else {
                    None
                }
            },
        }
    }
}

/// A fault among the first `n` packages is the fault of any longer run.
pub proof fn lemma_plan_fault_stays(pkgs: Seq<PackageRelease>, n: int, m: int)
    requires
        0 <= n <= m <= pkgs.len(),
        plan_fault(pkgs, n) is Some,
    ensures
        plan_fault(pkgs, m) == plan_fault(pkgs, n),
    decreases m - n,
{
    if n < m {
        lemma_plan_fault_stays(pkgs, n, m - 1);
    }
}

/// Whether `names` holds the group `g`.
pub open spec fn listed(names: Seq<String>, g: Seq<char>) -> bool {
    exists|k: int| 0 <= k < names.len() && (#[trigger] names[k])@ == g
}

/// Whether the group `g` is among `names` and checked.
pub open spec fn settled(names: Seq<String>, checked: Seq<bool>, g: Seq<char>) -> bool {
    exists|k: int| 0 <= k < names.len() && k < checked.len() && (#[trigger] names[k])@ == g && checked[k]
}

/// The place of `group` among `names`.
fn find_group(names: &Vec<String>, group: &str) -> (place: Option<usize>)
    ensures
        match place {
            Some(k) => k < names@.len() && names@[k as int]@ == group@,
            None => forall|k: int| 0 <= k < names@.len() ==> (#[trigger] names@[k])@ != group@,
        },
{
    let mut k: usize = 0;
    while k < names.len()
        invariant
            k <= names@.len(),
            forall|j: int| 0 <= j < k ==> (#[trigger] names@[j])@ != group@,
        decreases names@.len() - k,
    {
        if same_text(names[k].as_str(), group) {
            return Some(k);
        }
        k += 1;
    }
    None
}

/// What the scan of the groups has found after the first `i` packages: the
/// groups met, each once, each with the version of one of its members met;
/// and where a group has a greatest version and a member at it was met, that
/// is the version found.
spec fn scanned(before: Seq<PackageRelease>, i: int, names: Seq<String>, maxima: Seq<Version>) -> bool {
    &&& names.len() == maxima.len()
    &&& forall|k1: int, k2: int|
        0 <= k1 < k2 < names.len() ==> (#[trigger] names[k1])@ != (#[trigger] names[k2])@
    &&& forall|k: int|
        0 <= k < names.len() ==> seen_at(before, i, (#[trigger] names[k])@, maxima[k].full_version@)
    &&& forall|j: int, g: Seq<char>|
        0 <= j < i && j < before.len() && #[trigger] before[j].member_of(g) ==> listed(names, g)
    &&& forall|k: int, g: SemVerText|
        0 <= k < names.len() && #[trigger] is_greatest(before, names[k]@, g) && seen_at(
            before,
            i,
            names[k]@,
            g,
        ) ==> maxima[k].full_version@ == g
}

/// Scans the groups: for each group with a released member, the version of
/// the member that no member met later outranks.
fn scan_groups(pkgs: &IndexMap<String, PackageRelease>) -> (found: (Vec<String>, Vec<Version>))
    ensures
        scanned(releases(*pkgs), packages(*pkgs).len() as int, found.0@, found.1@),
{
    let ghost before = releases(*pkgs);
    let n = map_len(pkgs);
    let mut names: Vec<String> = Vec::new();
    let mut maxima: Vec<Version> = Vec::new();
    let mut i: usize = 0;
    while i < n
        invariant
            n == before.len(),
            before == releases(*pkgs),
            i <= n,
            scanned(before, i as int, names@, maxima@),
        decreases n - i,
    {
        let pkg = map_value(pkgs, i);
        let ghost old_names = names@;
        let ghost old_maxima = maxima@;
        assert(*pkg == before[i as int]);
        let group = if pkg.config.release() {
            pkg.config.shared_version()
        } else {
            None
        };
        match group {
            Some(group) => {
                let version = match &pkg.planned_version {
                    Some(v) => v,
                    None => &pkg.initial_version,
                };
                let ghost v = version.full_version@;
                assert(pkg.member_of(group@));
                assert(*version == pkg.effective_version());
                assert(seen_at(before, i + 1, group@, v));
                match find_group(&names, group) {
                    Some(k) => {
                        let ghost c = maxima@[k as int].full_version@;
                        let replace = maxima[k].full_version.precedes(&version.full_version);
                        if replace {
                            maxima.set(k, version.clone());
                        }
                        proof {
                            assert forall|x: int| 0 <= x < names@.len() implies seen_at(
                                before,
                                i + 1,
                                (#[trigger] names@[x])@,
                                maxima@[x].full_version@,
                            ) by {
                                if x == k && replace {
                                } else {
                                    assert(seen_at(before, i as int, old_names[x]@, old_maxima[x].full_version@));
                                    let w = choose|w: int|
                                        0 <= w < i && w < before.len() && (#[trigger] before[w]).member_of(
                                            old_names[x]@,
                                        ) && before[w].effective_version().full_version@
                                            == old_maxima[x].full_version@;
                                    assert(before[w].member_of(names@[x]@));
                                }
                            }
                            assert forall|j: int, g: Seq<char>|
                                0 <= j < i + 1 && j < before.len() && #[trigger] before[j].member_of(
                                    g,
                                ) implies listed(names@, g) by {
                                if j == i {
                                    assert(names@[k as int]@ == g);
                                } else {
                                    assert(listed(old_names, g));
                                }
                            }
                            assert forall|x: int, g: SemVerText|
                                0 <= x < names@.len() && #[trigger] is_greatest(
                                    before,
                                    names@[x]@,
                                    g,
                                ) && seen_at(before, i + 1, names@[x]@, g) implies maxima@[x].full_version@
                                == g by {
                                let w = choose|w: int|
                                    0 <= w < i + 1 && w < before.len() && (#[trigger] before[w]).member_of(
                                        names@[x]@,
                                    ) && before[w].effective_version().full_version@ == g;
                                if x != k {
                                    assert(w != i);
                                    assert(before[w].member_of(old_names[x]@));
                                    assert(seen_at(before, i as int, old_names[x]@, g));
                                    assert(is_greatest(before, old_names[x]@, g));
                                } else {
                                    assert(before[i as int].member_of(group@));
                                    assert(v == g || strictly_below(v, g));
                                    if w < i {
                                        assert(before[w].member_of(old_names[k as int]@));
                                        assert(seen_at(before, i as int, old_names[k as int]@, g));
                                        assert(is_greatest(before, old_names[k as int]@, g));
                                        assert(c == g);
                                        assert(!replace);
                                    } else {
                                        assert(v == g);
                                        assert(seen_at(before, i as int, old_names[k as int]@, c));
                                        let u = choose|u: int|
                                            0 <= u < i && u < before.len() && (#[trigger] before[u]).member_of(
                                                old_names[k as int]@,
                                            ) && before[u].effective_version().full_version@ == c;
                                        assert(before[u].member_of(group@));
                                        assert(c == g || strictly_below(c, g));
                                    }
                                }
                            }
                        }
                    },
                    None => {
                        names.push(group.to_owned());
                        maxima.push(version.clone());
                        proof {
                            let last = names@.len() - 1;
                            assert forall|k1: int, k2: int| 0 <= k1 < k2 < names@.len() implies (
                            #[trigger] names@[k1])@ != (#[trigger] names@[k2])@ by {
                                if k2 < last {
                                    assert(names@[k1] == old_names[k1]);
                                    assert(names@[k2] == old_names[k2]);
                                } else {
                                    assert(names@[k1] == old_names[k1]);
                                }
                            }
                            assert forall|x: int| 0 <= x < names@.len() implies seen_at(
                                before,
                                i + 1,
                                (#[trigger] names@[x])@,
                                maxima@[x].full_version@,
                            ) by {
                                if x < last {
                                    assert(names@[x] == old_names[x]);
                                    assert(maxima@[x] == old_maxima[x]);
                                    assert(seen_at(before, i as int, old_names[x]@, old_maxima[x].full_version@));
                                    let w = choose|w: int|
                                        0 <= w < i && w < before.len() && (#[trigger] before[w]).member_of(
                                            old_names[x]@,
                                        ) && before[w].effective_version().full_version@
                                            == old_maxima[x].full_version@;
                                    assert(before[w].member_of(names@[x]@));
                                }
                            }
                            assert forall|j: int, g: Seq<char>|
                                0 <= j < i + 1 && j < before.len() && #[trigger] before[j].member_of(
                                    g,
                                ) implies listed(names@, g) by {
                                if j == i {
                                    assert(names@[last]@ == g);
                                } else {
                                    assert(listed(old_names, g));
                                    let k = choose|k: int|
                                        0 <= k < old_names.len() && (#[trigger] old_names[k])@ == g;
                                    assert(names@[k]@ == g);
                                }
                            }
                            assert forall|x: int, g: SemVerText|
                                0 <= x < names@.len() && #[trigger] is_greatest(
                                    before,
                                    names@[x]@,
                                    g,
                                ) && seen_at(before, i + 1, names@[x]@, g) implies maxima@[x].full_version@
                                == g by {
                                let w = choose|w: int|
                                    0 <= w < i + 1 && w < before.len() && (#[trigger] before[w]).member_of(
                                        names@[x]@,
                                    ) && before[w].effective_version().full_version@ == g;
                                if x < last {
                                    assert(names@[x] == old_names[x]);
                                    assert(maxima@[x] == old_maxima[x]);
                                    assert(w != i);
                                    assert(before[w].member_of(old_names[x]@));
                                    assert(seen_at(before, i as int, old_names[x]@, g));
                                    assert(is_greatest(before, old_names[x]@, g));
                                } else {
                                    if w < i {
                                        assert(before[w].member_of(group@));
                                        assert(listed(old_names, group@));
                                    }
                                }
                            }
                        }
                    },
                }
            },
            None => {
                proof {
                    assert forall|g: Seq<char>| !before[i as int].member_of(g) by {}
                    assert forall|x: int| 0 <= x < names@.len() implies seen_at(
                        before,
                        i + 1,
                        (#[trigger] names@[x])@,
                        maxima@[x].full_version@,
                    ) by {
                        assert(seen_at(before, i as int, names@[x]@, maxima@[x].full_version@));
                        let w = choose|w: int|
                            0 <= w < i && w < before.len() && (#[trigger] before[w]).member_of(
                                names@[x]@,
                            ) && before[w].effective_version().full_version@
                                == maxima@[x].full_version@;
                        assert(before[w].member_of(names@[x]@));
                    }
                    assert forall|x: int, g: SemVerText|
                        0 <= x < names@.len() && #[trigger] is_greatest(before, names@[x]@, g)
                            && seen_at(before, i + 1, names@[x]@, g) implies maxima@[x].full_version@
                        == g by {
                        let w = choose|w: int|
                            0 <= w < i + 1 && w < before.len() && (#[trigger] before[w]).member_of(
                                names@[x]@,
                            ) && before[w].effective_version().full_version@ == g;
                        assert(w != i);
                        assert(before[w].member_of(names@[x]@));
                        assert(seen_at(before, i as int, names@[x]@, g));
                    }
                }
            },
        }
        i += 1;
    }
    (names, maxima)
}

/// Holds every released member of `group` against `max`: each must be at
/// that version or rank strictly below it.
fn outranks_all(pkgs: &IndexMap<String, PackageRelease>, group: &str, max: &Version) -> (yes: bool)
    ensures
        yes == forall|j: int|
            0 <= j < releases(*pkgs).len() && (#[trigger] releases(*pkgs)[j]).member_of(group@)
                ==> releases(*pkgs)[j].effective_version().full_version@ == max.full_version@
                || strictly_below(
                releases(*pkgs)[j].effective_version().full_version@,
                max.full_version@,
            ),
{
    let ghost before = releases(*pkgs);
    let n = map_len(pkgs);
    let mut j: usize = 0;
    while j < n
        invariant
            n == before.len(),
            before == releases(*pkgs),
            j <= n,
            forall|x: int|
                0 <= x < j && (#[trigger] before[x]).member_of(group@)
                    ==> before[x].effective_version().full_version@ == max.full_version@
                    || strictly_below(before[x].effective_version().full_version@, max.full_version@),
        decreases n - j,
    {
        let pkg = map_value(pkgs, j);
        assert(*pkg == before[j as int]);
        let member = pkg.config.release() && match pkg.config.shared_version() {
            Some(g) => same_text(g, group),
            None => false,
        };
        assert(member == pkg.member_of(group@));
        if member {
            let version = match &pkg.planned_version {
                Some(v) => v,
                None => &pkg.initial_version,
            };
            if !version.full_version.equals(&max.full_version)
                && !version.full_version.strictly_precedes(&max.full_version) {
                assert(before[j as int].member_of(group@));
                return false;
            }
        }
        j += 1;
    }
    true
}

/// Plans the whole workspace. First every shared-version group converges on
/// the greatest version among its released members. The groups are scanned
/// in full, and each version found is held against every member of its
/// group, before any member is assigned, so that what a member gets does not
/// depend on the order of the packages. Then each package plans its tag.
/// The order and the ids of the entries stay as they are.
///
/// Planning fails where the versions of a group cannot be ranked: where
/// none of them is at or above all the others. The group named is that of
/// the first package that is a released member of such a group.
pub fn plan(pkgs: IndexMap<String, PackageRelease>) -> (done: Result<
    IndexMap<String, PackageRelease>,
    ValidationError,
>)
    ensures
        match plan_fault(releases(pkgs), packages(pkgs).len() as int) {
            Some(group) => done is Err && done->Err_0@ == (ValidationText::Unranked { group }),
            None => done is Ok && packages(done->Ok_0).len() == packages(pkgs).len() && forall|
                i: int,
            |
                0 <= i < packages(pkgs).len() ==> (#[trigger] packages(done->Ok_0)[i]).0
                    == packages(pkgs)[i].0 && record_planned(
                    releases(pkgs)[i],
                    releases(pkgs),
                    packages(done->Ok_0)[i].1,
                ),
        },
{
    let ghost before = releases(pkgs);
    let ghost entries = packages(pkgs);
    let mut map = pkgs;
    let n = map_len(&map);
    let (names, maxima) = scan_groups(&map);
    let mut checked: Vec<bool> = Vec::new();
    let mut k: usize = 0;
    while k < names.len()
        invariant
            k <= names@.len(),
            checked@.len() == k,
            forall|x: int| 0 <= x < k ==> !checked@[x],
        decreases names@.len() - k,
    {
        checked.push(false);
        k += 1;
    }

    let mut i: usize = 0;
    while i < n
        invariant
            n == before.len(),
            before == releases(map),
            packages(map) == entries,
            i <= n,
            before == releases(pkgs),
            n == packages(pkgs).len(),
            scanned(before, n as int, names@, maxima@),
            checked@.len() == names@.len(),
            forall|x: int|
                0 <= x < names@.len() && #[trigger] checked@[x] ==> is_greatest(
                    before,
                    names@[x]@,
                    maxima@[x].full_version@,
                ),
            forall|j: int, g: Seq<char>|
                0 <= j < i && #[trigger] before[j].member_of(g) ==> settled(names@, checked@, g),
            plan_fault(before, i as int) is None,
        decreases n - i,
    {
        let pkg = map_value(&map, i);
        assert(*pkg == before[i as int]);
        let group = if pkg.config.release() {
            pkg.config.shared_version()
        } else {
            None
        };
        let ghost old_checked = checked@;
        match group {
            Some(group) => {
                assert(before[i as int].member_of(group@));
                assert(listed(names@, group@));
                let k = match find_group(&names, group) {
                    Some(k) => k,
                    None => {
                        assert(false);
                        return Ok(map);
                    },
                };
                if !checked[k] {
                    if !outranks_all(&map, group, &maxima[k]) {
                        proof {
                            assert forall|g: SemVerText| !is_greatest(before, group@, g) by {
                                if is_greatest(before, group@, g) {
                                    assert(is_greatest(before, names@[k as int]@, g));
                                    assert(seen_at(before, n as int, names@[k as int]@, g));
                                    assert(maxima@[k as int].full_version@ == g);
                                }
                            }
                            assert(!ranked(before, group@));
                            assert(plan_fault(before, i + 1) == Some(group@));
                            lemma_plan_fault_stays(before, i + 1, n as int);
                        }
                        return Err(ValidationError::Unranked { group: group.to_owned() });
                    }
                    proof {
                        assert(seen_at(before, n as int, names@[k as int]@, maxima@[k as int].full_version@));
                        assert(is_greatest(before, group@, maxima@[k as int].full_version@));
                    }
                    checked.set(k, true);
                }
                proof {
                    assert(settled(names@, checked@, group@)) by {
                        assert(names@[k as int]@ == group@ && checked@[k as int]);
                    }
                    assert(ranked(before, group@)) by {
                        assert(is_greatest(before, group@, maxima@[k as int].full_version@));
                    }
                    assert forall|j: int, g: Seq<char>|
                        0 <= j < i + 1 && #[trigger] before[j].member_of(g) implies settled(
                        names@,
                        checked@,
                        g,
                    ) by {
                        if j < i {
                            assert(settled(names@, old_checked, g));
                            let x = choose|x: int|
                                0 <= x < names@.len() && x < old_checked.len() && (#[trigger] names@[x])@ == g
                                    && old_checked[x];
                            assert(names@[x]@ == g && checked@[x]);
                        }
                    }
                }
            },
            None => {
                proof {
                    assert forall|g: Seq<char>| !before[i as int].member_of(g) by {}
                }
            },
        }
        i += 1;
    }

    let mut i: usize = 0;
    while i < n
        invariant
            n == before.len(),
            n == entries.len(),
            packages(map).len() == n,
            i <= n,
            scanned(before, n as int, names@, maxima@),
            checked@.len() == names@.len(),
            forall|x: int|
                0 <= x < names@.len() && #[trigger] checked@[x] ==> is_greatest(
                    before,
                    names@[x]@,
                    maxima@[x].full_version@,
                ),
            forall|j: int, g: Seq<char>|
                0 <= j < n && #[trigger] before[j].member_of(g) ==> settled(names@, checked@, g),
            forall|j: int| 0 <= j < n ==> (#[trigger] packages(map)[j]).0 == entries[j].0,
            forall|j: int| 0 <= j < n ==> before[j] == #[trigger] entries[j].1,
            forall|j: int| i <= j < n ==> (#[trigger] packages(map)[j]).1 == before[j],
            forall|j: int|
                0 <= j < i ==> (#[trigger] packages(map)[j]).1 == (PackageRelease {
                    planned_version: packages(map)[j].1.planned_version,
                    ..before[j]
                }) && converged_as(before[j], before, packages(map)[j].1.planned_version),
        decreases n - i,
    {
        let ghost now = packages(map);
        let pkg = map_value_mut(&mut map, i);
        let group = if pkg.config.release() {
            pkg.config.shared_version()
        } else {
            None
        };
        match group {
            Some(group) => {
                assert(before[i as int].member_of(group@));
                assert(settled(names@, checked@, group@));
                let k = match find_group(&names, group) {
                    Some(k) => k,
                    None => {
                        assert(false);
                        0
                    },
                };
                proof {
                    let x = choose|x: int|
                        0 <= x < names@.len() && x < checked@.len() && (#[trigger] names@[x])@ == group@
                            && checked@[x];
                    assert(x == k);
                    assert(is_greatest(before, group@, maxima@[k as int].full_version@));
                    lemma_greatest_is_one(
                        before,
                        group@,
                        maxima@[k as int].full_version@,
                        greatest(before, group@),
                    );
                }
                if !pkg.initial_version.bare_version.bare_equals(&maxima[k].full_version) {
                    pkg.planned_version = Some(Version::new(maxima[k].full_version.clone()));
                } else {
                    pkg.planned_version = None;
                }
            },
            None => {},
        }
        proof {
            assert forall|j: int| 0 <= j < n implies (#[trigger] packages(map)[j]).0 == entries[j].0 by {
                assert(now[j].0 == entries[j].0);
            }
        }
        i += 1;
    }

    let mut i: usize = 0;
    while i < n
        invariant
            n == before.len(),
            n == entries.len(),
            packages(map).len() == n,
            i <= n,
            forall|j: int| 0 <= j < n ==> (#[trigger] packages(map)[j]).0 == entries[j].0,
            forall|j: int| 0 <= j < n ==> before[j] == #[trigger] entries[j].1,
            forall|j: int|
                i <= j < n ==> (#[trigger] packages(map)[j]).1 == (PackageRelease {
                    planned_version: packages(map)[j].1.planned_version,
                    ..before[j]
                }) && converged_as(before[j], before, packages(map)[j].1.planned_version),
            forall|j: int| 0 <= j < i ==> record_planned(before[j], before, (#[trigger] packages(map)[j]).1),
        decreases n - i,
    {
        let ghost now = packages(map);
        let pkg = map_value_mut(&mut map, i);
        let _ = pkg.plan();
        proof {
            assert forall|j: int| 0 <= j < n implies (#[trigger] packages(map)[j]).0 == entries[j].0 by {
                assert(now[j].0 == entries[j].0);
            }
            assert forall|j: int| 0 <= j < i + 1 implies record_planned(
                before[j],
                before,
                (#[trigger] packages(map)[j]).1,
            ) by {
                if j < i {
                    assert(packages(map)[j] == now[j]);
                }
            }
        }
        i += 1;
    }
    Ok(map)
}

/// Rendering a tag twice from the same inputs gives the same tag.
pub proof fn lemma_render_tag_repeats(
    tag_name: &str,
    tag_prefix: &str,
    name: &str,
    prev: &Version,
    base: &Version,
    first: String,
    second: String,
)
    requires
        call_ensures(render_tag, (tag_name, tag_prefix, name, prev, base), first),
        call_ensures(render_tag, (tag_name, tag_prefix, name, prev, base), second),
    ensures
        first@ == second@,
{
}

/// A package outside every shared-version group keeps the version that its
/// own bump planned, whatever the other packages of the workspace are.
pub proof fn lemma_ungrouped_keeps_its_plan(
    pkg: PackageRelease,
    all: Seq<PackageRelease>,
    planned: Option<Version>,
)
    requires
        pkg.config.group() is None,
    ensures
        converged_as(pkg, all, planned) <==> planned == pkg.planned_version,
{
}

/// After convergence every released member of a group stands at the bare
/// version of the group's greatest version: the version it is released at,
/// planned or initial, has the numbers and the pre-release tag of that
/// version.
pub proof fn lemma_members_converge(
    all: Seq<PackageRelease>,
    i: int,
    group: Seq<char>,
    planned: Option<Version>,
)
    requires
        0 <= i < all.len(),
        all[i].member_of(group),
        converged_as(all[i], all, planned),
    ensures
        (PackageRelease {
            planned_version: planned,
            ..all[i]
        }).effective_version().bare_version.bare_key() == greatest(all, group).bare_key(),
{
}

/// The order of the packages does not affect what a group converges on, nor
/// what a package is given. Where two lists of packages have the released
/// members of `group` at the same versions, in whatever order and number,
/// the group has a greatest version in both or in neither, it is the same
/// version, and a package is planned the same version among the one list as
/// among the other.
pub proof fn lemma_convergence_ignores_order(
    pkgs: Seq<PackageRelease>,
    shuffled: Seq<PackageRelease>,
    group: Seq<char>,
    pkg: PackageRelease,
    planned: Option<Version>,
)
    requires
        forall|v: SemVerText| at_version(pkgs, group, v) <==> at_version(shuffled, group, v),
        pkg.config.group() == Some(group),
    ensures
        ranked(pkgs, group) <==> ranked(shuffled, group),
        ranked(pkgs, group) ==> greatest(pkgs, group) == greatest(shuffled, group),
        ranked(pkgs, group) ==> (converged_as(pkg, pkgs, planned) <==> converged_as(
            pkg,
            shuffled,
            planned,
        )),
{
    assert forall|g: SemVerText| is_greatest(pkgs, group, g) implies is_greatest(shuffled, group, g) by {
        lemma_same_members(pkgs, shuffled, group, g);
    }
    assert forall|g: SemVerText| is_greatest(shuffled, group, g) implies is_greatest(pkgs, group, g) by {
        lemma_same_members(shuffled, pkgs, group, g);
    }
    if ranked(pkgs, group) {
        let g = greatest(pkgs, group);
        assert(is_greatest(shuffled, group, g));
        lemma_greatest_is_one(shuffled, group, g, greatest(shuffled, group));
    }
    if ranked(shuffled, group) {
        let g = greatest(shuffled, group);
        assert(is_greatest(pkgs, group, g));
    }
}

/// What is the greatest version of a group among one list of packages is so
/// among any list that has the members of the group at the same versions.
proof fn lemma_same_members(
    pkgs: Seq<PackageRelease>,
    other: Seq<PackageRelease>,
    group: Seq<char>,
    g: SemVerText,
)
    requires
        forall|v: SemVerText| at_version(pkgs, group, v) <==> at_version(other, group, v),
        is_greatest(pkgs, group, g),
    ensures
        is_greatest(other, group, g),
{
    assert forall|j: int| 0 <= j < other.len() && (#[trigger] other[j]).member_of(group) implies other[j].effective_version().full_version@
        == g || strictly_below(other[j].effective_version().full_version@, g) by {
        let v = other[j].effective_version().full_version@;
        assert(at_version(other, group, v));
        assert(at_version(pkgs, group, v));
        let w = choose|w: int|
            0 <= w < pkgs.len() && w < pkgs.len() && (#[trigger] pkgs[w]).member_of(group)
                && pkgs[w].effective_version().full_version@ == v;
        assert(pkgs[w].member_of(group));
    }
}

} // verus!
