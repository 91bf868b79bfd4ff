//! Packages, as far as their versions depend on them.
use vstd::prelude::*;
use vstd::string::*;

use crate::semver::Version;

verus! {

/// How a package uses a dependency.
#[derive(Debug, Clone, Copy, PartialEq, Eq, Structural)]
pub enum DependencyKind {
    Normal,
    Development,
    Build,
    Unknown,
}

/// A dependency of a package.
#[derive(Debug)]
pub struct Dependency {
    pub name: String,
    pub kind: DependencyKind,
}

/// What a target of a package is built to.
#[derive(Debug, Clone, Copy, PartialEq, Eq, Structural)]
pub enum TargetKind {
    Bin,
    Lib,
    Other,
}

/// A target of a package.
#[derive(Debug)]
pub struct Target {
    pub kinds: Vec<TargetKind>,
}

/// A local package.
#[derive(Debug)]
pub struct Package {
    pub name: String,
    /// The version in the package's manifest.
    pub version: Version,
    pub dependencies: Vec<Dependency>,
    pub targets: Vec<Target>,
}

impl Package {
    /// One of the package's targets is of the kind `kind`.
    pub open spec fn has_target(self, kind: TargetKind) -> bool {
        exists|i: int, j: int|
            0 <= i < self.targets@.len() && 0 <= j < self.targets@[i].kinds@.len()
                && #[trigger] self.targets@[i].kinds@[j] == kind
    }
}

/// Whether one of the package's targets is a binary.
pub fn contains_executable(package: &Package) -> (r: bool)
    ensures
        r == package.has_target(TargetKind::Bin),
{
    contains_target_kind(package, TargetKind::Bin)
}

/// Whether one of the package's targets is a library.
pub fn contains_library(package: &Package) -> (r: bool)
    ensures
        r == package.has_target(TargetKind::Lib),
{
    contains_target_kind(package, TargetKind::Lib)
}

/// Whether one of the package's targets is of the kind `target_kind`.
pub fn contains_target_kind(package: &Package, target_kind: TargetKind) -> (r: bool)
    ensures
        r == package.has_target(target_kind),
{
    for i in 0..package.targets.len()
        invariant
            forall|a: int, b: int|
                0 <= a < i && 0 <= b < package.targets@[a].kinds@.len()
                    ==> #[trigger] package.targets@[a].kinds@[b] != target_kind,
    {
        let kinds = &package.targets[i].kinds;
        for j in 0..kinds.len()
            invariant
                i < package.targets@.len(),
                *kinds == package.targets@[i as int].kinds,
                forall|b: int| 0 <= b < j ==> kinds@[b] != target_kind,
        {
            if kinds[j] == target_kind {
                assert(package.targets@[i as int].kinds@[j as int] == target_kind);
                return true;
            }
        }
    }
    false
}

/// Whether the API of the package is to be checked against its published version: the user
/// wants it, there is a library, and the tool for it is installed.
pub fn should_check_semver(package: &Package, run_semver_check: bool, is_tool_installed: bool) -> (r:
    bool)
    ensures
        r == (run_semver_check && package.has_target(TargetKind::Lib) && is_tool_installed),
{
    run_semver_check && contains_library(package) && is_tool_installed
}

/// `d` counts when bumps are propagated: a development dependency does not.
pub open spec fn is_propagated(d: Dependency) -> bool {
    d.kind == DependencyKind::Normal || d.kind == DependencyKind::Build
}

/// The names of the dependencies that bumps are propagated from.
pub open spec fn propagated_names(dependencies: Seq<Dependency>) -> Seq<Seq<char>>
    decreases dependencies.len(),
{
    if dependencies.len() == 0 {
        Seq::empty()
    } else {
        let before = propagated_names(dependencies.drop_last());
        if is_propagated(dependencies.last()) {
            before.push(dependencies.last().name@)
        } else {
            before
        }
    }
}

impl Package {
    /// The names of the dependencies that bumps are propagated from: the normal and the build
    /// dependencies.
    pub fn dependency_names(&self) -> (r: Vec<String>)
        ensures
            crate::text::views(r@) == propagated_names(self.dependencies@),
    {
        let mut names: Vec<String> = Vec::new();
        let deps = &self.dependencies;
        for i in 0..deps.len()
            invariant
                crate::text::views(names@) == propagated_names(deps@.take(i as int)),
        {
            let ghost now = deps@.take(i + 1);
            let ghost before = names@;
            assert(now.drop_last() =~= deps@.take(i as int));
            assert(now.last() == deps@[i as int]);
            if matches!(deps[i].kind, DependencyKind::Normal | DependencyKind::Build) {
                names.push(deps[i].name.clone());
                assert(crate::text::views(names@) =~= crate::text::views(before).push(
                    deps@[i as int].name@,
                ));
            }
        }
        assert(deps@.take(deps@.len() as int) =~= deps@);
        names
    }
}

/// Bumps are propagated from the normal and the build dependencies, each of them, and from no others.
/// They come in the order of the dependencies; `from` are their places there.
pub proof fn law_propagated_names(dependencies: Seq<Dependency>) -> (from: Seq<int>)
    ensures
        propagated_names(dependencies).len() == from.len(),
        forall|k: int|
            0 <= k < from.len() ==> 0 <= #[trigger] from[k] < dependencies.len() && (
            dependencies[from[k]].kind == DependencyKind::Normal || dependencies[from[k]].kind
                == DependencyKind::Build) && propagated_names(dependencies)[k]
                == dependencies[from[k]].name@,
        forall|a: int, b: int| 0 <= a < b < from.len() ==> from[a] < from[b],
        forall|i: int|
            0 <= i < dependencies.len() && ((#[trigger] dependencies[i]).kind
                == DependencyKind::Normal || dependencies[i].kind == DependencyKind::Build)
                ==> from.contains(i),
    decreases dependencies.len(),
{
    if dependencies.len() == 0 {
        Seq::empty()
    } else {
        let less = dependencies.drop_last();
        let before = law_propagated_names(less);
        let last = dependencies.len() - 1;
        let from = if dependencies[last].kind == DependencyKind::Normal || dependencies[last].kind
            == DependencyKind::Build {
            before.push(last)
        } else {
            before
        };
        assert forall|k: int| 0 <= k < from.len() implies 0 <= #[trigger] from[k]
            < dependencies.len() && (dependencies[from[k]].kind == DependencyKind::Normal
            || dependencies[from[k]].kind == DependencyKind::Build) && propagated_names(
            dependencies,
        )[k] == dependencies[from[k]].name@ by {
            if k < before.len() {
                assert(from[k] == before[k]);
                assert(less[before[k]] == dependencies[before[k]]);
            }
        }
        assert forall|i: int|
            0 <= i < dependencies.len() && ((#[trigger] dependencies[i]).kind
                == DependencyKind::Normal || dependencies[i].kind
                == DependencyKind::Build) implies from.contains(i) by {
            if i < last {
                assert(less[i] == dependencies[i]);
                assert(before.contains(i));
                let k = choose|k: int| 0 <= k < before.len() && before[k] == i;
                assert(from[k] == i);
            } else {
                assert(from[from.len() - 1] == i);
            }
        }
        from
    }
}

/// A package has a target of a kind where one of its targets lists that kind, at any place.
pub proof fn law_targets(package: &Package, kind: TargetKind, r: bool)
    requires
        call_ensures(contains_target_kind, (package, kind), r),
    ensures
        forall|i: int, j: int|
            0 <= i < package.targets@.len() && 0 <= j < package.targets@[i].kinds@.len()
                && #[trigger] package.targets@[i].kinds@[j] == kind ==> r,
        r ==> exists|i: int, j: int|
            0 <= i < package.targets@.len() && 0 <= j < package.targets@[i].kinds@.len()
                && #[trigger] package.targets@[i].kinds@[j] == kind,
{
}

/// Libraries and binaries are told by their kinds.
pub proof fn law_libraries_and_binaries(package: &Package, is_library: bool, is_binary: bool)
    requires
        call_ensures(contains_library, (package,), is_library),
        call_ensures(contains_executable, (package,), is_binary),
    ensures
        forall|i: int, j: int|
            0 <= i < package.targets@.len() && 0 <= j < package.targets@[i].kinds@.len() ==> match (
            #[trigger] package.targets@[i].kinds@[j]) {
                TargetKind::Lib => is_library,
                TargetKind::Bin => is_binary,
                TargetKind::Other => true,
            },
        is_library ==> exists|i: int, j: int|
            0 <= i < package.targets@.len() && 0 <= j < package.targets@[i].kinds@.len()
                && #[trigger] package.targets@[i].kinds@[j] == TargetKind::Lib,
        is_binary ==> exists|i: int, j: int|
            0 <= i < package.targets@.len() && 0 <= j < package.targets@[i].kinds@.len()
                && #[trigger] package.targets@[i].kinds@[j] == TargetKind::Bin,
{
}

/// The dependencies that count for a package: the normal ones and those of its build script, by their
/// names and in their order, and none of those for tests alone. `from` are their places.
pub proof fn law_dependency_names(package: &Package, r: Vec<String>) -> (from: Seq<int>)
    requires
        call_ensures(Package::dependency_names, (package,), r),
    ensures
        r@.len() == from.len(),
        forall|a: int, b: int| 0 <= a < b < from.len() ==> from[a] < from[b],
        forall|k: int|
            0 <= k < from.len() ==> 0 <= #[trigger] from[k] < package.dependencies@.len()
                && package.dependencies@[from[k]].name@ == r@[k]@ && (
            package.dependencies@[from[k]].kind == DependencyKind::Normal
                || package.dependencies@[from[k]].kind == DependencyKind::Build),
        forall|i: int|
            0 <= i < package.dependencies@.len() && ((#[trigger] package.dependencies@[i]).kind
                == DependencyKind::Normal || package.dependencies@[i].kind
                == DependencyKind::Build) ==> from.contains(i),
{
    let from = law_propagated_names(package.dependencies@);
    assert(crate::text::views(r@).len() == r@.len());
    assert forall|k: int| 0 <= k < from.len() implies 0 <= #[trigger] from[k]
        < package.dependencies@.len() && package.dependencies@[from[k]].name@ == r@[k]@ && (
    package.dependencies@[from[k]].kind == DependencyKind::Normal
        || package.dependencies@[from[k]].kind == DependencyKind::Build) by {
        assert(crate::text::views(r@)[k] == r@[k]@);
    }
    from
}

/// The API of a package is checked only where that is wanted, there is a library, and the tool is
/// there; with all three it is.
pub proof fn law_checked_packages(
    package: &Package,
    run_semver_check: bool,
    is_tool_installed: bool,
    r: bool,
    is_library: bool,
)
    requires
        call_ensures(should_check_semver, (package, run_semver_check, is_tool_installed), r),
        call_ensures(contains_library, (package,), is_library),
    ensures
        r <==> run_semver_check && is_library && is_tool_installed,
{
}

} // verus!
