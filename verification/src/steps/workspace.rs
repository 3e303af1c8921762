//! What the planner reads of a workspace: its packages, their targets and
//! declared dependencies, the resolved dependency graph, and the files that
//! a package publishes.

use vstd::prelude::*;
use crate::ops::path::{enters, named, FilePath};
use crate::ops::text::{same_text, texts};
use crate::ops::version::{SemVer, SemVerText};

verus! {

/// A dependency that a package declares: the name it depends on and the
/// version requirement, as written.
#[derive(Debug)]
pub struct DependencyDecl {
    pub name: String,
    pub req: String,
}

impl Clone for DependencyDecl {
    fn clone(&self) -> (copy: Self)
        ensures
            copy == *self,
    {
        DependencyDecl { name: self.name.clone(), req: self.req.clone() }
    }
}

/// What the planner reads of a package's metadata.
#[derive(Debug)]
pub struct PackageMeta {
    pub id: String,
    pub name: String,
    pub version: SemVer,
    pub manifest_path: FilePath,
    /// The kinds of each build target, such as `lib` or `bin`.
    pub targets: Vec<Vec<String>>,
    pub dependencies: Vec<DependencyDecl>,
}

/// A [`PackageMeta`] with its texts as sequences of characters.
pub struct PackageMetaText {
    pub id: Seq<char>,
    pub name: Seq<char>,
    pub version: SemVerText,
    pub manifest_path: Seq<Seq<char>>,
    pub targets: Seq<Seq<Seq<char>>>,
    pub dependencies: Seq<(Seq<char>, Seq<char>)>,
}

/// The kinds of the targets as texts.
pub open spec fn target_texts(targets: Seq<Vec<String>>) -> Seq<Seq<Seq<char>>> {
    Seq::new(targets.len(), |i: int| texts(targets[i]@))
}

/// The declared dependencies as pairs of name and requirement.
pub open spec fn dependency_texts(dependencies: Seq<DependencyDecl>) -> Seq<(Seq<char>, Seq<char>)> {
    Seq::new(dependencies.len(), |i: int| (dependencies[i].name@, dependencies[i].req@))
}

impl View for PackageMeta {
    type V = PackageMetaText;

    open spec fn view(&self) -> PackageMetaText {
        PackageMetaText {
            id: self.id@,
            name: self.name@,
            version: self.version@,
            manifest_path: self.manifest_path@,
            targets: target_texts(self.targets@),
            dependencies: dependency_texts(self.dependencies@),
        }
    }
}

impl Clone for PackageMeta {
    fn clone(&self) -> (copy: Self)
        ensures
            copy@ == self@,
    {
        let mut targets: Vec<Vec<String>> = Vec::new();
        let mut i: usize = 0;
        while i < self.targets.len()
            invariant
                i <= self.targets@.len(),
                targets@.len() == i,
                forall|j: int| 0 <= j < i ==> texts((#[trigger] targets@[j])@) == texts(self.targets@[j]@),
            decreases self.targets@.len() - i,
        {
            targets.push(crate::config::copy_texts(&self.targets[i]));
            i += 1;
        }
        let mut dependencies: Vec<DependencyDecl> = Vec::new();
        let mut i: usize = 0;
        while i < self.dependencies.len()
            invariant
                i <= self.dependencies@.len(),
                dependencies@.len() == i,
                forall|j: int| 0 <= j < i ==> #[trigger] dependencies@[j] == self.dependencies@[j],
            decreases self.dependencies@.len() - i,
        {
            dependencies.push(self.dependencies[i].clone());
            i += 1;
        }
        let copy = PackageMeta {
            id: self.id.clone(),
            name: self.name.clone(),
            version: self.version.clone(),
            manifest_path: self.manifest_path.clone(),
            targets,
            dependencies,
        };
        assert(target_texts(copy.targets@) =~= target_texts(self.targets@));
        assert(dependency_texts(copy.dependencies@) =~= dependency_texts(self.dependencies@));
        copy
    }
}

/// A package in the resolved dependency graph, with the ids of the packages
/// it depends on.
#[derive(Debug)]
pub struct ResolveNode {
    pub id: String,
    pub dependencies: Vec<String>,
}

/// What the planner reads of the workspace's metadata.
#[derive(Debug)]
pub struct Workspace {
    pub workspace_root: FilePath,
    /// Every package of the build, inside the workspace or not.
    pub packages: Vec<PackageMeta>,
    /// The ids of the packages that belong to the workspace.
    pub workspace_members: Vec<String>,
    /// The resolved dependency graph.
    pub resolve: Vec<ResolveNode>,
}

/// Whether a list of texts holds `text`.
pub fn holds_text(list: &Vec<String>, text: &str) -> (yes: bool)
    ensures
        yes == texts(list@).contains(text@),
{
    let mut i: usize = 0;
    while i < list.len()
        invariant
            i <= list@.len(),
            forall|j: int| 0 <= j < i ==> texts(list@)[j] != text@,
        decreases list@.len() - i,
    {
        if same_text(list[i].as_str(), text) {
            assert(texts(list@)[i as int] == text@);
            return true;
        }
        i += 1;
    }
    false
}

/// The paths of a list as sequences of components.
pub open spec fn path_texts(paths: Seq<FilePath>) -> Seq<Seq<Seq<char>>> {
    Seq::new(paths.len(), |i: int| paths[i]@)
}

/// Whether a file belongs to what is published of a package rooted at
/// `root`: a lock file does only for a package with a binary, and nothing
/// below the package's `tests` directory does.
pub open spec fn publishable(path: Seq<Seq<char>>, bin: bool, root: Seq<Seq<char>>) -> bool {
    (bin || !named(path, "Cargo.lock"@)) && !enters(path, root, "tests"@)
}

/// The files of `content` that are [`publishable`], in their order.
pub open spec fn publishable_of(content: Seq<Seq<Seq<char>>>, bin: bool, root: Seq<Seq<char>>) -> Seq<
    Seq<Seq<char>>,
>
    decreases content.len(),
{
    if content.len() == 0 {
        Seq::empty()
    } else if publishable(content.last(), bin, root) {
        publishable_of(content.drop_last(), bin, root).push(content.last())
    } else {
        publishable_of(content.drop_last(), bin, root)
    }
}

/// What is published of a package: of a package with a binary, the files it
/// lists and the lock file of the workspace, which is added where it is not
/// listed; of any other, the files it lists without lock files; in both
/// cases without what lies below the package's `tests` directory.
pub open spec fn package_content_of(
    listed: Seq<Seq<Seq<char>>>,
    bin: bool,
    workspace_root: Seq<Seq<char>>,
    package_root: Seq<Seq<char>>,
) -> Seq<Seq<Seq<char>>> {
    let lock = workspace_root.push("Cargo.lock"@);
    let with_lock = if bin && !listed.contains(lock) {
        listed.push(lock)
    } else {
        listed
    };
    publishable_of(with_lock, bin, package_root)
}

/// Whether one of the targets is a binary.
pub open spec fn has_bin(targets: Seq<Seq<Seq<char>>>) -> bool {
    exists|i: int, j: int|
        0 <= i < targets.len() && 0 <= j < targets[i].len() && #[trigger] targets[i][j] == "bin"@
}

/// The directory of a manifest: the path without its last component, or the
/// current directory where the path has none.
pub open spec fn root_of(manifest_path: Seq<Seq<char>>) -> Seq<Seq<char>> {
    if manifest_path.len() > 0 {
        manifest_path.drop_last()
    } else {
        seq!["."@]
    }
}

/// Computes [`root_of`].
pub fn package_root(manifest_path: &FilePath) -> (root: FilePath)
    ensures
        root@ == root_of(manifest_path@),
{
    match manifest_path.parent() {
        Some(root) => root,
        None => {
            let root = FilePath::new().join(".");
            assert(root@ =~= seq!["."@]);
            root
        },
    }
}

/// Decides [`has_bin`].
pub fn is_bin(targets: &Vec<Vec<String>>) -> (bin: bool)
    ensures
        bin == has_bin(target_texts(targets@)),
{
    let ghost all = target_texts(targets@);
    let mut i: usize = 0;
    while i < targets.len()
        invariant
            all == target_texts(targets@),
            i <= targets@.len(),
            forall|a: int, b: int| 0 <= a < i && 0 <= b < all[a].len() ==> #[trigger] all[a][b] != "bin"@,
        decreases targets@.len() - i,
    {
        if holds_text(&targets[i], "bin") {
            let ghost j = choose|j: int|
                0 <= j < all[i as int].len() && all[i as int][j] == "bin"@;
            assert(all[i as int][j] == "bin"@);
            return true;
        }
        assert forall|b: int| 0 <= b < all[i as int].len() implies #[trigger] all[i as int][b]
            != "bin"@ by {
            if all[i as int][b] == "bin"@ {
                assert(texts(targets@[i as int]@)[b] == "bin"@);
                assert(texts(targets@[i as int]@).contains("bin"@));
            }
        }
        i += 1;
    }
    false
}

/// Whether a list of paths holds `path`.
pub fn holds_path(paths: &Vec<FilePath>, path: &FilePath) -> (yes: bool)
    ensures
        yes == path_texts(paths@).contains(path@),
{
    let mut i: usize = 0;
    while i < paths.len()
        invariant
            i <= paths@.len(),
            forall|j: int| 0 <= j < i ==> path_texts(paths@)[j] != path@,
        decreases paths@.len() - i,
    {
        if paths[i].equals(path) {
            assert(path_texts(paths@)[i as int] == path@);
            return true;
        }
        i += 1;
    }
    false
}

/// Computes [`package_content_of`] from the files that the package lists.
pub fn package_content(
    listed: Vec<FilePath>,
    bin: bool,
    workspace_root: &FilePath,
    package_root: &FilePath,
) -> (content: Vec<FilePath>)
    ensures
        path_texts(content@) == package_content_of(
            path_texts(listed@),
            bin,
            workspace_root@,
            package_root@,
        ),
{
    let mut listed = listed;
    let ghost given = path_texts(listed@);
    if bin {
        let lock = workspace_root.join("Cargo.lock");
        if !holds_path(&listed, &lock) {
            listed.push(lock);
            assert(path_texts(listed@) =~= given.push(lock@));
        }
    }
    let ghost with_lock = path_texts(listed@);
    let mut content: Vec<FilePath> = Vec::new();
    let mut count: usize = 0;
    assert(listed@.len() == listed.len());
    assert(path_texts(content@) =~= publishable_of(with_lock.take(0), bin, package_root@));
    for path in it: listed
        invariant
            path_texts(it.seq()) == with_lock,
            with_lock.len() <= usize::MAX,
            count == it.index(),
            path_texts(content@) == publishable_of(with_lock.take(count as int), bin, package_root@),
    {
        proof {
            assert(with_lock.take(count + 1).drop_last() =~= with_lock.take(count as int));
            assert(with_lock.take(count + 1).last() == path@);
        }
        let lock_file = path.ends_with("Cargo.lock");
        let test_file = path.enters(package_root, "tests");
        if (bin || !lock_file) && !test_file {
            let ghost before = path_texts(content@);
            content.push(path);
            assert(path_texts(content@) =~= before.push(path@));
        }
        count += 1;
    }
    assert(with_lock.take(count as int) =~= with_lock);
    content
}

} // verus!
