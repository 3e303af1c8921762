//! Release policy of one package, as merged from every level of
//! configuration, and the search-and-replace rules that go with it.

use vstd::prelude::*;
use crate::ops::cargo::Features;
use crate::ops::text::texts;

verus! {

/// What happens to build metadata when a version is bumped.
#[derive(Clone, Copy, Debug, PartialEq, Eq, Structural)]
pub enum MetadataPolicy {
    /// Metadata is carried when given.
    Optional,
    /// Metadata must be given.
    Required,
    /// Metadata is dropped even when given.
    Ignore,
    /// Metadata of the current version is kept unless other metadata is given.
    Persistent,
}

/// How many packages one run may publish to the default registry.
#[derive(Clone, Copy, Debug, PartialEq, Eq, Structural)]
pub struct RateLimit {
    /// The most packages that the registry does not have yet.
    pub new_packages: Option<usize>,
    /// The most packages that the registry has already.
    pub existing_packages: Option<usize>,
}

impl RateLimit {
    /// The limit on new packages in force: five unless set.
    pub open spec fn new_limit(&self) -> usize {
        match self.new_packages {
            Some(n) => n,
            None => 5,
        }
    }

    /// The limit on packages that exist already in force: thirty unless set.
    pub open spec fn existing_limit(&self) -> usize {
        match self.existing_packages {
            Some(n) => n,
            None => 30,
        }
    }

    /// The limit on new packages.
    pub fn new_packages(&self) -> (limit: usize)
        ensures
            limit == self.new_limit(),
    {
        match self.new_packages {
            Some(n) => n,
            None => 5,
        }
    }

    /// The limit on packages that exist already.
    pub fn existing_packages(&self) -> (limit: usize)
        ensures
            limit == self.existing_limit(),
    {
        match self.existing_packages {
            Some(n) => n,
            None => 30,
        }
    }
}

/// One search-and-replace rule for a tracked file.
#[derive(Debug)]
pub struct Replace {
    /// The file, relative to the working directory: its components with
    /// `/` between them.
    pub file: String,
    /// The regular expression to look for.
    pub search: String,
    /// The replacement, itself a template.
    pub replace: String,
    pub min: Option<usize>,
    pub max: Option<usize>,
    pub exactly: Option<usize>,
    /// Whether the rule also applies when a pre-release is planned.
    pub prerelease: bool,
}

impl Replace {
    /// The least number of matches the rule accepts: `min` where set, else
    /// `exactly`, else one.
    pub open spec fn least(&self) -> usize {
        match self.min {
            Some(n) => n,
            None => match self.exactly {
                Some(n) => n,
                None => 1,
            },
        }
    }

    /// The greatest number of matches the rule accepts: `max` where set, else
    /// `exactly`, else no limit.
    pub open spec fn most(&self) -> usize {
        match self.max {
            Some(n) => n,
            None => match self.exactly {
                Some(n) => n,
                None => usize::MAX,
            },
        }
    }

    /// The accepted range of match counts, both ends included.
    pub fn bounds(&self) -> (range: (usize, usize))
        ensures
            range.0 == self.least(),
            range.1 == self.most(),
    {
        let least = match self.min {
            Some(n) => n,
            None => match self.exactly {
                Some(n) => n,
                None => 1,
            },
        };
        let most = match self.max {
            Some(n) => n,
            None => match self.exactly {
                Some(n) => n,
                None => usize::MAX,
            },
        };
        (least, most)
    }
}

/// The release policy of one package. A field left at `None` takes its
/// default, which the accessor of the same name applies.
#[derive(Debug)]
pub struct Config {
    pub release: Option<bool>,
    pub publish: Option<bool>,
    pub verify: Option<bool>,
    pub tag: Option<bool>,
    pub shared_version: Option<String>,
    pub tag_name: Option<String>,
    pub tag_prefix: Option<String>,
    pub metadata: Option<MetadataPolicy>,
    pub registry: Option<String>,
    pub owners: Vec<String>,
    pub target: Option<String>,
    pub enable_features: Vec<String>,
    pub all_features: Option<bool>,
    pub pre_release_replacements: Vec<Replace>,
}

/// A switch that is on unless it was turned off.
pub open spec fn enabled(switch: Option<bool>) -> bool {
    switch != Some(false)
}

impl Config {
    /// The tag template used where none is configured.
    pub open spec fn default_tag_name() -> Seq<char> {
        "{{prefix}}v{{version}}"@
    }

    /// The prefix template used where none is configured: empty for the
    /// package at the repository root, the package name and a hyphen for others.
    pub open spec fn default_tag_prefix(is_root: bool) -> Seq<char> {
        if is_root {
            ""@
        } else {
            "{{crate_name}}-"@
        }
    }

    /// The tag template in force.
    pub open spec fn tag_name_text(&self) -> Seq<char> {
        match self.tag_name {
            Some(t) => t@,
            None => Self::default_tag_name(),
        }
    }

    /// The prefix template in force for a package that is, or is not, at the
    /// root of the repository.
    pub open spec fn tag_prefix_text(&self, is_root: bool) -> Seq<char> {
        match self.tag_prefix {
            Some(t) => t@,
            None => Self::default_tag_prefix(is_root),
        }
    }

    /// The policy on build metadata in force: metadata is optional unless
    /// the policy says otherwise.
    pub open spec fn metadata_policy(&self) -> MetadataPolicy {
        match self.metadata {
            Some(p) => p,
            None => MetadataPolicy::Optional,
        }
    }

    /// The name of the shared-version group, if the package is in one.
    pub open spec fn group(&self) -> Option<Seq<char>> {
        match self.shared_version {
            Some(g) => Some(g@),
            None => None,
        }
    }

    /// The registry to publish to; `None` stands for the default one.
    pub open spec fn registry_text(&self) -> Option<Seq<char>> {
        match self.registry {
            Some(r) => Some(r@),
            None => None,
        }
    }

    /// Whether `features` is the selection that this policy asks for: every
    /// feature where all are asked for, else the listed ones.
    pub open spec fn selects(&self, features: Features) -> bool {
        match features {
            Features::All => self.all_features == Some(true),
            Features::Selective(list) => self.all_features != Some(true) && texts(list@) == texts(
                self.enable_features@,
            ),
            Features::Plain => false,
        }
    }

    /// A policy with every field at its default.
    pub fn new() -> (config: Config)
        ensures
            config.release is None,
            config.publish is None,
            config.verify is None,
            config.tag is None,
            config.shared_version is None,
            config.tag_name is None,
            config.tag_prefix is None,
            config.metadata is None,
            config.registry is None,
            config.owners@.len() == 0,
            config.target is None,
            config.enable_features@.len() == 0,
            config.all_features is None,
            config.pre_release_replacements@.len() == 0,
    {
        Config {
            release: None,
            publish: None,
            verify: None,
            tag: None,
            shared_version: None,
            tag_name: None,
            tag_prefix: None,
            metadata: None,
            registry: None,
            owners: Vec::new(),
            target: None,
            enable_features: Vec::new(),
            all_features: None,
            pre_release_replacements: Vec::new(),
        }
    }

    /// Whether the package takes part in the release.
    pub fn release(&self) -> (on: bool)
        ensures
            on == enabled(self.release),
    {
        match self.release {
            Some(on) => on,
            None => true,
        }
    }

    /// Whether the package is to be published.
    pub fn publish(&self) -> (on: bool)
        ensures
            on == enabled(self.publish),
    {
        match self.publish {
            Some(on) => on,
            None => true,
        }
    }

    /// Whether the package is to be verified before it is published.
    pub fn verify(&self) -> (on: bool)
        ensures
            on == enabled(self.verify),
    {
        match self.verify {
            Some(on) => on,
            None => true,
        }
    }

    /// Whether the release is to be tagged.
    pub fn tag(&self) -> (on: bool)
        ensures
            on == enabled(self.tag),
    {
        match self.tag {
            Some(on) => on,
            None => true,
        }
    }

    /// The shared-version group of the package, if it is in one.
    pub fn shared_version(&self) -> (group: Option<&str>)
        ensures
            match group {
                Some(g) => self.group() == Some(g@),
                None => self.group() is None,
            },
    {
        match &self.shared_version {
            Some(g) => Some(g.as_str()),
            None => None,
        }
    }

    /// The template of the tag.
    pub fn tag_name(&self) -> (template: &str)
        ensures
            template@ == self.tag_name_text(),
    {
        match &self.tag_name {
            Some(t) => t.as_str(),
            None => "{{prefix}}v{{version}}",
        }
    }

    /// The template of the tag's prefix.
    pub fn tag_prefix(&self, is_root: bool) -> (template: &str)
        ensures
            template@ == self.tag_prefix_text(is_root),
    {
        match &self.tag_prefix {
            Some(t) => t.as_str(),
            None => if is_root {
                ""
            } else {
                "{{crate_name}}-"
            },
        }
    }

    /// The policy on build metadata.
    pub fn metadata(&self) -> (policy: MetadataPolicy)
        ensures
            policy == self.metadata_policy(),
    {
        match self.metadata {
            Some(p) => p,
            None => MetadataPolicy::Optional,
        }
    }

    /// The registry to publish to; `None` stands for the default one.
    pub fn registry(&self) -> (registry: Option<&str>)
        ensures
            crate::ops::text::slot_text(registry) == self.registry_text(),
    {
        match &self.registry {
            Some(r) => Some(r.as_str()),
            None => None,
        }
    }

    /// The owners that the package is to have in the registry.
    pub fn owners(&self) -> (owners: &Vec<String>)
        ensures
            *owners == self.owners,
    {
        &self.owners
    }

    /// The features to build with: all of them where asked for, else the
    /// listed ones.
    pub fn features(&self) -> (features: Features)
        ensures
            self.selects(features),
    {
        let all = match self.all_features {
            Some(on) => on,
            None => false,
        };
        if all {
            Features::All
        } else {
            Features::Selective(copy_texts(&self.enable_features))
        }
    }
}

/// Copies a list of texts.
pub fn copy_texts(list: &Vec<String>) -> (copy: Vec<String>)
    ensures
        texts(copy@) == texts(list@),
{
    let mut copy: Vec<String> = Vec::new();
    let mut i: usize = 0;
    while i < list.len()
        invariant
            i <= list@.len(),
            copy@.len() == i,
            forall|j: int| 0 <= j < i ==> (#[trigger] copy@[j])@ == list@[j]@,
        decreases list@.len() - i,
    {
        copy.push(list[i].clone());
        i += 1;
    }
    assert(texts(copy@) =~= texts(list@));
    copy
}

} // verus!
