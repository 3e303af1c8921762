//! Publishing the planned packages: who is left out, who is selected, and
//! the calls to the build tool in their order.

use vstd::prelude::*;
use indexmap::IndexMap;
use crate::config::{enabled, Config, RateLimit};
use crate::error::{CliError, ValidationError};
use crate::ops::index::{has_version, known_entry, needs_fetch, validator_for, CratesIoIndex, Lookup};
use crate::ops::text::{parse_number, parsed_number, slot_text, texts};
use crate::steps::packages::{
    lemma_place_of, map_into_values, map_len, map_place, map_value_mut, packages, place_of,
    releases,
};
use crate::steps::plan::{plan, plan_fault, record_planned, PackageRelease};

verus! {

/// The options of the publish step.
#[derive(Debug)]
pub struct PublishStep {
    /// A configuration file to use besides the implicit ones.
    pub custom_config: Option<String>,
    /// Whether implicit configuration files are ignored.
    pub isolated: bool,
    /// Branches that a release may be made from, as patterns.
    pub allow_branch: Option<Vec<String>>,
    /// Whether the release is carried out; without it the run is a dry run.
    pub execute: bool,
    /// Asks for a dry run, which is what a run is anyway.
    pub dry_run: bool,
    /// Whether the confirmation is skipped.
    pub no_confirm: bool,
}

/// A package with release and publishing switched off.
pub open spec fn disabled(pkg: PackageRelease) -> PackageRelease {
    PackageRelease {
        config: Config { publish: Some(false), release: Some(false), ..pkg.config },
        ..pkg
    }
}

/// Whether one of the ids in `excluded` leads to the entry at place `i`.
pub open spec fn names_place(
    entries: Seq<(Seq<char>, PackageRelease)>,
    excluded: Seq<String>,
    i: int,
) -> bool {
    exists|k: int| 0 <= k < excluded.len() && place_of(entries, #[trigger] excluded[k]@) == Some(i)
}

/// A package after the exclusions: switched off where it was to be released
/// and is excluded, else as it was.
pub open spec fn after_exclusion(pkg: PackageRelease, excluded: bool) -> PackageRelease {
    if excluded && enabled(pkg.config.release) {
        disabled(pkg)
    } else {
        pkg
    }
}

/// Switches a package off.
pub fn disable(pkg: &mut PackageRelease)
    ensures
        *final(pkg) == disabled(*old(pkg)),
{
    pkg.config.publish = Some(false);
    pkg.config.release = Some(false);
}

/// Switches off the packages that the user excluded. An id that the
/// workspace does not know, or whose package is not to be released anyway,
/// changes nothing.
pub fn exclude(pkgs: &mut IndexMap<String, PackageRelease>, excluded: &Vec<String>)
    ensures
        packages(*final(pkgs)).len() == packages(*old(pkgs)).len(),
        forall|i: int|
            0 <= i < packages(*old(pkgs)).len() ==> (#[trigger] packages(*final(pkgs))[i]).0
                == packages(*old(pkgs))[i].0 && packages(*final(pkgs))[i].1 == after_exclusion(
                packages(*old(pkgs))[i].1,
                names_place(packages(*old(pkgs)), excluded@, i),
            ),
{
    let ghost before = packages(*pkgs);
    let mut k: usize = 0;
    while k < excluded.len()
        invariant
            k <= excluded@.len(),
            before == packages(*old(pkgs)),
            packages(*pkgs).len() == before.len(),
            forall|i: int|
                0 <= i < before.len() ==> (#[trigger] packages(*pkgs)[i]).0 == before[i].0
                    && packages(*pkgs)[i].1 == after_exclusion(
                    before[i].1,
                    names_place(before, excluded@.take(k as int), i),
                ),
        decreases excluded@.len() - k,
    {
        let ghost now = packages(*pkgs);
        let ghost done = excluded@.take(k as int);
        let ghost next = excluded@.take(k + 1);
        proof {
            lemma_same_places(before, now, excluded@[k as int]@);
            lemma_place_of(before, excluded@[k as int]@);
            assert forall|i: int| 0 <= i < before.len() implies names_place(before, next, i) == (
            names_place(before, done, i) || place_of(before, excluded@[k as int]@) == Some(i)) by {
                if names_place(before, done, i) {
                    let w = choose|w: int|
                        0 <= w < done.len() && place_of(before, #[trigger] done[w]@) == Some(i);
                    assert(next[w] == done[w]);
                }
                if place_of(before, excluded@[k as int]@) == Some(i) {
                    assert(next[k as int] == excluded@[k as int]);
                }
                if names_place(before, next, i) {
                    let w = choose|w: int|
                        0 <= w < next.len() && place_of(before, #[trigger] next[w]@) == Some(i);
                    if w < k {
                        assert(done[w] == next[w]);
                    }
                }
            }
        }
        match map_place(pkgs, excluded[k].as_str()) {
            Some(i) => {
                let pkg = map_value_mut(pkgs, i);
                if pkg.config.release() {
                    disable(pkg);
                }
            },
            None => {},
        }
        k += 1;
    }
    assert(excluded@.take(k as int) =~= excluded@);
}

/// The place of an id depends on the ids of the entries alone.
pub proof fn lemma_same_places(
    a: Seq<(Seq<char>, PackageRelease)>,
    b: Seq<(Seq<char>, PackageRelease)>,
    id: Seq<char>,
)
    requires
        a.len() == b.len(),
        forall|i: int| 0 <= i < a.len() ==> (#[trigger] a[i]).0 == b[i].0,
    ensures
        place_of(a, id) == place_of(b, id),
    decreases a.len(),
{
    if a.len() > 0 {
        assert forall|i: int| 0 <= i < a.len() - 1 implies (#[trigger] a.drop_last()[i]).0
            == b.drop_last()[i].0 by {
            assert(a.drop_last()[i] == a[i]);
            assert(b.drop_last()[i] == b[i]);
        }
        lemma_same_places(a.drop_last(), b.drop_last(), id);
        assert(a.last().0 == a[a.len() - 1].0);
    }
}

/// What the index is asked about a package: whether the version that the
/// release is made at is published already.
pub open spec fn published_already(
    cache: Map<Seq<char>, Option<Seq<Seq<char>>>>,
    pkg: PackageRelease,
) -> bool {
    has_version(
        known_entry(cache, pkg.config.registry_text(), pkg.meta.name@),
        pkg.effective_version().full_version_string@,
    ) == Some(true)
}

/// Asks the index whether the version that a package is released at is
/// published already. Where the index cannot tell, the answer is no.
pub fn is_published(index: &mut CratesIoIndex, pkg: &PackageRelease) -> (found: Lookup<bool>)
    ensures
        final(index)@ == old(index)@,
        final(index).etags() == old(index).etags(),
        match found {
            Lookup::Known(yes) => !needs_fetch(
                old(index)@,
                pkg.config.registry_text(),
                pkg.meta.name@,
            ) && yes == published_already(old(index)@, *pkg),
            Lookup::Fetch { etag } => needs_fetch(
                old(index)@,
                pkg.config.registry_text(),
                pkg.meta.name@,
            ) && etag@ == validator_for(old(index).etags(), pkg.meta.name@),
        },
{
    let version = match &pkg.planned_version {
        Some(v) => v,
        None => &pkg.initial_version,
    };
    match index.has_krate_version(
        pkg.config.registry(),
        pkg.meta.name.as_str(),
        version.full_version_string.as_str(),
    ) {
        Lookup::Known(Some(true)) => Lookup::Known(true),
        Lookup::Known(_) => Lookup::Known(false),
        Lookup::Fetch { etag } => Lookup::Fetch { etag },
    }
}

/// Switches a package off when it was to be released and its version is
/// published already. Says whether it did.
pub fn skip_published(pkg: &mut PackageRelease, published: bool) -> (skipped: bool)
    ensures
        skipped == (published && enabled(old(pkg).config.release)),
        *final(pkg) == after_exclusion(*old(pkg), published),
{
    if published && pkg.config.release() {
        disable(pkg);
        true
    } else {
        false
    }
}

/// What a package lacks of the fields that the registry asks for: a
/// description, a license or a license file, and one of documentation, home
/// page and repository.
pub open spec fn missing_fields(
    description: bool,
    license: bool,
    license_file: bool,
    documentation: bool,
    homepage: bool,
    repository: bool,
) -> Seq<Seq<char>> {
    (if description {
        Seq::<Seq<char>>::empty()
    } else {
        seq!["description"@]
    }) + (if license || license_file {
        Seq::<Seq<char>>::empty()
    } else {
        seq!["license || license-file"@]
    }) + (if documentation || homepage || repository {
        Seq::<Seq<char>>::empty()
    } else {
        seq!["documentation || homepage || repository"@]
    })
}

/// Lists what a package lacks of the fields that the registry asks for,
/// given which of them its manifest sets.
pub fn verify_metadata(
    description: bool,
    license: bool,
    license_file: bool,
    documentation: bool,
    homepage: bool,
    repository: bool,
) -> (missing: Vec<String>)
    ensures
        texts(missing@) == missing_fields(
            description,
            license,
            license_file,
            documentation,
            homepage,
            repository,
        ),
{
    let mut missing: Vec<String> = Vec::new();
    if !description {
        missing.push("description".to_owned());
    }
    if !(license || license_file) {
        missing.push("license || license-file".to_owned());
    }
    if !(documentation || homepage || repository) {
        missing.push("documentation || homepage || repository".to_owned());
    }
    assert(texts(missing@) =~= missing_fields(
        description,
        license,
        license_file,
        documentation,
        homepage,
        repository,
    ));
    missing
}

/// Whether publishing a package counts against the rate limit: it does when
/// the package is published, and to the default registry.
pub fn counts_against_rate_limit(pkg: &PackageRelease) -> (counts: bool)
    ensures
        counts == (enabled(pkg.config.publish) && pkg.config.registry is None),
{
    pkg.config.publish() && pkg.config.registry().is_none()
}

/// Holds the number of packages to publish against the rate limit: first
/// whether the new packages are too many, then whether those are that the
/// registry has already.
pub fn verify_rate_limit(rate_limit: &RateLimit, new: usize, existing: usize) -> (over: (bool, bool))
    ensures
        over.0 == (rate_limit.new_limit() < new),
        over.1 == (rate_limit.existing_limit() < existing),
{
    (rate_limit.new_packages() < new, rate_limit.existing_packages() < existing)
}

/// The packages that are to be released, in their order.
pub open spec fn released(pkgs: Seq<PackageRelease>) -> Seq<PackageRelease>
    decreases pkgs.len(),
{
    if pkgs.len() == 0 {
        Seq::empty()
    } else if enabled(pkgs.last().config.release) {
        released(pkgs.drop_last()).push(pkgs.last())
    } else {
        released(pkgs.drop_last())
    }
}

/// Picks the packages that are to be released. A run in which none is left
/// ends with [`crate::error::NOTHING_SELECTED`].
pub fn select(pkgs: IndexMap<String, PackageRelease>) -> (done: Result<Vec<PackageRelease>, CliError>)
    ensures
        match done {
            Ok(selected) => selected@ == released(releases(pkgs)) && selected@.len() > 0,
            Err(stop) => released(releases(pkgs)).len() == 0 && stop.code
                == crate::error::NOTHING_SELECTED,
        },
{
    let values = map_into_values(pkgs);
    let ghost all = values@;
    assert(all.len() == values.len());
    let mut selected: Vec<PackageRelease> = Vec::new();
    let mut count: usize = 0;
    for pkg in it: values
        invariant
            it.seq() == all,
            all.len() <= usize::MAX,
            count == it.index(),
            selected@ == released(all.take(count as int)),
    {
        proof {
            assert(all.take(count + 1).drop_last() =~= all.take(count as int));
            assert(all.take(count + 1).last() == pkg);
        }
        if pkg.config.release() {
            selected.push(pkg);
        }
        count += 1;
    }
    assert(all.take(count as int) =~= all);
    if selected.len() == 0 {
        Err(CliError { code: crate::error::NOTHING_SELECTED })
    } else {
        Ok(selected)
    }
}

impl PublishStep {
    /// Whether nothing is to be carried out.
    pub fn is_dry_run(&self) -> (dry: bool)
        ensures
            dry == !self.execute,
    {
        !self.execute
    }

    /// Whether the user asked for a dry run in so many words, which calls
    /// for a remark, since a run is one unless told otherwise.
    pub fn dry_run_is_superfluous(&self) -> (yes: bool)
        ensures
            yes == self.dry_run,
    {
        self.dry_run
    }

    /// The part of the step that needs nothing from outside: the packages
    /// that the user excluded are switched off, then the workspace is
    /// planned, which fails where planning does. What follows is for the
    /// caller to drive: asking the index about each package with
    /// [`is_published`] and [`skip_published`], then [`select`], the checks
    /// before a release with [`verify_metadata`] and [`verify_rate_limit`],
    /// and [`publish`].
    pub fn run(&self, pkgs: IndexMap<String, PackageRelease>, excluded: &Vec<String>) -> (done: Result<
        IndexMap<String, PackageRelease>,
        ValidationError,
    >)
        ensures
            match plan_fault(excluded_from(pkgs, excluded@), packages(pkgs).len() as int) {
                Some(group) => done is Err && done->Err_0@ == (crate::error::ValidationText::Unranked {
                    group,
                }),
                None => done is Ok && packages(done->Ok_0).len() == packages(pkgs).len() && forall|
                    i: int,
                |
                    0 <= i < packages(pkgs).len() ==> (#[trigger] packages(done->Ok_0)[i]).0
                        == packages(pkgs)[i].0 && record_planned(
                        excluded_from(pkgs, excluded@)[i],
                        excluded_from(pkgs, excluded@),
                        packages(done->Ok_0)[i].1,
                    ),
            },
    {
        let mut pkgs = pkgs;
        let ghost given = pkgs;
        exclude(&mut pkgs, excluded);
        assert(releases(pkgs) =~= excluded_from(given, excluded@));
        plan(pkgs)
    }
}

/// The records of the workspace once the excluded packages are switched off.
pub open spec fn excluded_from(pkgs: IndexMap<String, PackageRelease>, excluded: Seq<String>) -> Seq<
    PackageRelease,
> {
    Seq::new(
        packages(pkgs).len(),
        |i: int| after_exclusion(packages(pkgs)[i].1, names_place(packages(pkgs), excluded, i)),
    )
}

/// One call to the build tool.
#[derive(Clone, Copy, Debug, PartialEq, Eq, Structural)]
pub struct PublishCall {
    /// The place of the package among the selected ones.
    pub package: usize,
    /// Whether the build tool is to verify the package first.
    pub verify: bool,
}

/// What the publish step does next.
#[derive(Clone, Copy, Debug, PartialEq, Eq, Structural)]
pub enum PublishAction {
    /// The build tool is to publish a package. Its answer is handed to the
    /// next call of [`publish`], with the place after this package's.
    Call(PublishCall),
    /// Every package that was to be published is.
    Finished,
    /// The last call failed. The run ends with
    /// [`crate::error::PUBLISH_FAILED`]; no further package is published.
    Failed(CliError),
}

/// Whether a package is verified when it is published: its policy must ask
/// for it, and the run must not be a dry run over several packages, in which
/// a package may depend on one that the run only pretends to publish.
pub open spec fn verifies(pkg: PackageRelease, dry_run: bool, batch: nat) -> bool {
    enabled(pkg.config.verify) && !(dry_run && batch != 1)
}

/// The place of the first package from `from` on that is to be published.
pub open spec fn next_to_publish(pkgs: Seq<PackageRelease>, from: int) -> Option<int>
    decreases pkgs.len() - from,
{
    if from < 0 || from >= pkgs.len() {
        None
    } else if enabled(pkgs[from].config.publish) {
        Some(from)
    } else {
        next_to_publish(pkgs, from + 1)
    }
}

/// The step that follows in publishing `pkgs`, which stand in the order in
/// which they depend on each other.
///
/// `last` is what the build tool answered to the call before, `None` where
/// there was none yet; `from` is the place after the package of that call,
/// zero at the start. A failed call ends the run. Otherwise the next package
/// from `from` on whose policy has it published is called for; packages
/// whose policy has not are passed over. When none is left the step is
/// finished.
pub fn publish(pkgs: &Vec<PackageRelease>, dry_run: bool, from: usize, last: Option<bool>) -> (action:
    PublishAction)
    ensures
        action == if last == Some(false) {
            PublishAction::Failed(CliError { code: crate::error::PUBLISH_FAILED })
        } else {
            match next_to_publish(pkgs@, from as int) {
                Some(i) => PublishAction::Call(
                    PublishCall {
                        package: i as usize,
                        verify: verifies(pkgs@[i], dry_run, pkgs@.len()),
                    },
                ),
                None => PublishAction::Finished,
            }
        },
{
    match last {
        Some(false) => {
            return PublishAction::Failed(CliError { code: crate::error::PUBLISH_FAILED });
        },
        _ => {},
    }
    let mut i: usize = from;
    while i < pkgs.len()
        invariant
            from <= i,
            last != Some(false),
            next_to_publish(pkgs@, from as int) == next_to_publish(pkgs@, i as int),
        decreases pkgs@.len() - i,
    {
        let pkg = &pkgs[i];
        if pkg.config.publish() {
            let verify = if !pkg.config.verify() {
                false
            } else if dry_run && pkgs.len() != 1 {
                false
            } else {
                true
            };
            return PublishAction::Call(PublishCall { package: i, verify });
        }
        i += 1;
    }
    PublishAction::Finished
}

/// The seconds to wait after a package was published, given what was read
/// of the setting: none in a dry run, none where the setting reads no
/// number, else the number.
pub open spec fn grace_seconds(dry_run: bool, read: Option<u64>) -> u64 {
    if dry_run {
        0
    } else {
        match read {
            Some(seconds) => seconds,
            None => 0,
        }
    }
}

/// Computes [`grace_seconds`].
pub fn grace_for(dry_run: bool, read: Option<u64>) -> (seconds: u64)
    ensures
        seconds == grace_seconds(dry_run, read),
{
    if dry_run {
        0
    } else {
        match read {
            Some(seconds) => seconds,
            None => 0,
        }
    }
}

/// The seconds to wait after a package was really published, so that the
/// registry's index can catch up before the next package, which may depend
/// on this one. `setting` is the text of the setting, `None` where it is not
/// set, which counts as empty.
pub fn publish_grace_sleep(dry_run: bool, setting: Option<&str>) -> (seconds: u64)
    ensures
        seconds == grace_seconds(
            dry_run,
            parsed_number(
                match setting {
                    Some(text) => text@,
                    None => Seq::empty(),
                },
            ),
        ),
{
    let text = match setting {
        Some(text) => text,
        None => {
            proof {
                reveal_strlit("");
                assert(""@ =~= Seq::<char>::empty());
            }
            ""
        },
    };
    grace_for(dry_run, parse_number(text))
}

} // verus!
