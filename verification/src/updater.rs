//! Which packages are updated, and to which versions.
use vstd::hash_map::StringHashMap;
use vstd::prelude::*;
use vstd::string::*;

use crate::diff::Diff;
#[allow(unused_imports)]
use crate::increment::{regex_compiles, UpdaterView};
use crate::increment::VersionUpdater;
use crate::package::Package;
use crate::request::{Project, UpdateError, UpdateRequest};
use crate::semver::{Version, VersionView};
#[allow(unused_imports)]
use crate::semver::{law_order_same, law_order_swap, law_order_transitive};
#[allow(unused_imports)]
use crate::tags::optional_version;
use crate::text::same_text;
#[allow(unused_imports)]
use crate::version::next_from;

verus! {

/// The highest of `versions`, the first of them where several are.
pub open spec fn highest(versions: Seq<VersionView>) -> Option<VersionView>
    decreases versions.len(),
{
    if versions.len() == 0 {
        None
    } else {
        let last = versions.last();
        match highest(versions.drop_last()) {
            Some(v) if !v.lower(last) => Some(v),
            _ => Some(last),
        }
    }
}

/// Whether `next` is higher than the highest version so far.
pub fn is_new_highest(max: Option<&Version>, next: &Version) -> (r: bool)
    ensures
        r == (max is None || max->0@.lower(next@)),
{
    match max {
        Some(max) => max.is_lower(next),
        None => true,
    }
}

/// The highest version is one of the versions, and none of them is higher.
pub proof fn law_highest(versions: Seq<VersionView>)
    ensures
        highest(versions) is None <==> versions.len() == 0,
        highest(versions) matches Some(v) ==> versions.contains(v) && forall|i: int|
            0 <= i < versions.len() ==> !v.lower(#[trigger] versions[i]),
    decreases versions.len(),
{
    if versions.len() > 0 {
        let less = versions.drop_last();
        let last = versions.last();
        law_highest(less);
        law_order_same(last, last);
        assert(versions[versions.len() - 1] == last);
        if let Some(v) = highest(less) {
            let k = choose|k: int| 0 <= k < less.len() && less[k] == v;
            assert(versions[k] == v);
            if v.lower(last) {
                assert forall|i: int| 0 <= i < versions.len() implies !last.lower(
                    #[trigger] versions[i],
                ) by {
                    if i < less.len() {
                        assert(less[i] == versions[i]);
                        law_order_swap(v, less[i]);
                        if last.lower(less[i]) {
                            law_order_transitive(v, last, less[i]);
                        }
                    }
                }
            } else {
                assert forall|i: int| 0 <= i < versions.len() implies !v.lower(
                    #[trigger] versions[i],
                ) by {
                    if i < less.len() {
                        assert(less[i] == versions[i]);
                    }
                }
            }
        }
    }
}

/// A package with what changed in it.
#[derive(Debug)]
pub struct PackageDiff {
    pub package: Package,
    pub diff: Diff,
    /// Whether the package takes its version from the workspace.
    pub version_is_inherited: bool,
    /// Whether one of the commits is worth a release; it is where no such commits are asked for.
    pub has_release_commits: bool,
}

impl PackageDiff {
    /// The version that the changes are counted from: the last stable version with a tag, else
    /// the version in the manifest.
    pub open spec fn base(self) -> VersionView {
        match self.diff.base_version {
            Some(v) => v@,
            None => self.package.version@,
        }
    }

    /// The rules for increments of the package.
    pub open spec fn updater(self, req: UpdateRequest) -> UpdaterView {
        req.config(self.package.name@).generic.updater()
    }

    /// The version of the package after its changes, counted from its base version. Where none of
    /// them needs a new version, it is the one in the manifest: a version that was raised already
    /// is not raised further, and no version goes down.
    pub open spec fn next(self, req: UpdateRequest) -> VersionView {
        if self.diff.wants_update() {
            next_from(self.base(), self.diff, self.updater(req))
        } else {
            self.package.version@
        }
    }

    /// The base version can be incremented where the changes need it.
    pub open spec fn can_update(self) -> bool {
        self.base().can_take(self.diff)
    }

    /// The version that the changes are counted from.
    pub fn base_version(&self) -> (r: &Version)
        ensures
            r@ == self.base(),
    {
        match &self.diff.base_version {
            Some(v) => v,
            None => &self.package.version,
        }
    }

    /// The version of the package after its changes, by the rules of `version_updater`.
    pub fn next_version(&self, version_updater: VersionUpdater) -> (r: Version)
        requires
            self.can_update(),
        ensures
            r@ == (if self.diff.wants_update() {
                next_from(self.base(), self.diff, version_updater@)
            } else {
                self.package.version@
            }),
    {
        if self.diff.should_update_version() {
            self.base_version().next_from_diff(&self.diff, version_updater)
        } else {
            self.package.version.clone()
        }
    }
}

/// The packages without what changed in them.
pub open spec fn bare(packages: Seq<PackageDiff>) -> Seq<Package> {
    packages.map_values(|p: PackageDiff| p.package)
}

/// Each package of a version group can be incremented where its changes need it.
pub open spec fn grouped_can_update(req: UpdateRequest, packages: Seq<PackageDiff>) -> bool {
    forall|i: int|
        0 <= i < packages.len() && req.config((#[trigger] packages[i]).package.name@).version_group
            is Some ==> packages[i].can_update()
}

/// Each of `packages` that is called one of `names` can be incremented where its changes need it.
pub open spec fn named_can_update(packages: Seq<PackageDiff>, names: Seq<String>) -> bool {
    forall|i: int|
        0 <= i < packages.len() && is_named(names, (#[trigger] packages[i]).package.name@)
            ==> packages[i].can_update()
}

/// The version of `p`, one of `packages`, after its changes is asked for: by its own update, by its
/// version group or by the workspace.
pub open spec fn is_next_asked(
    req: UpdateRequest,
    packages: Seq<PackageDiff>,
    p: PackageDiff,
) -> bool {
    p.has_release_commits || req.config(p.package.name@).version_group is Some || is_named(
        inherited_names(packages),
        p.package.name@,
    )
}

/// Each package whose version after its changes is asked for can be incremented where they need it.
pub open spec fn asked_can_update(req: UpdateRequest, packages: Seq<PackageDiff>) -> bool {
    forall|i: int|
        0 <= i < packages.len() && is_next_asked(req, packages, #[trigger] packages[i])
            ==> packages[i].can_update()
}

/// The rules for increments of each package can be used.
pub open spec fn rules_are_valid(req: UpdateRequest, packages: Seq<PackageDiff>) -> bool {
    forall|i: int| 0 <= i < packages.len() ==> (#[trigger] packages[i]).updater(req).valid()
}

/// `e` reports the rules of the first of `packages` whose rules cannot be used.
pub open spec fn reports_first(
    req: UpdateRequest,
    packages: Seq<PackageDiff>,
    e: UpdateError,
) -> bool {
    exists|k: int|
        #![trigger packages[k]]
        0 <= k < packages.len() && rules_are_valid(req, packages.take(k)) && !packages[k].updater(
            req,
        ).valid() && req.config(packages[k].package.name@).generic.reports(e)
}

/// The next versions of the packages in the version group `group`.
pub open spec fn group_versions(
    req: UpdateRequest,
    packages: Seq<PackageDiff>,
    group: Seq<char>,
) -> Seq<VersionView>
    decreases packages.len(),
{
    if packages.len() == 0 {
        Seq::empty()
    } else {
        let before = group_versions(req, packages.drop_last(), group);
        let last = packages.last();
        match req.config(last.package.name@).version_group {
            Some(g) if g@ == group => before.push(last.next(req)),
            _ => before,
        }
    }
}

/// The version of a version group.
pub open spec fn group_version(groups: Map<Seq<char>, Version>, group: Seq<char>) -> Option<
    VersionView,
> {
    if groups.contains_key(group) {
        Some(groups[group]@)
    } else {
        None
    }
}

/// `groups` maps each version group to the highest next version of its packages.
pub open spec fn are_group_versions(
    req: UpdateRequest,
    packages: Seq<PackageDiff>,
    groups: Map<Seq<char>, Version>,
) -> bool {
    forall|group: Seq<char>|
        group_version(groups, group) == highest(#[trigger] group_versions(req, packages, group))
}

/// Those of `packages` that are called one of `names`.
pub open spec fn named_packages(packages: Seq<PackageDiff>, names: Seq<String>) -> Seq<PackageDiff>
    decreases packages.len(),
{
    if packages.len() == 0 {
        Seq::empty()
    } else {
        let before = named_packages(packages.drop_last(), names);
        if is_named(names, packages.last().package.name@) {
            before.push(packages.last())
        } else {
            before
        }
    }
}

/// The next versions of `packages` that are not below `least`.
pub open spec fn versions_from(
    req: UpdateRequest,
    packages: Seq<PackageDiff>,
    least: VersionView,
) -> Seq<VersionView>
    decreases packages.len(),
{
    if packages.len() == 0 {
        Seq::empty()
    } else {
        let before = versions_from(req, packages.drop_last(), least);
        let next = packages.last().next(req);
        if next.lower(least) {
            before
        } else {
            before.push(next)
        }
    }
}

/// The new version of the workspace: the highest next version of the packages that take their
/// version from it, as long as it is not below the version of the workspace.
pub open spec fn workspace_version_of(
    req: UpdateRequest,
    packages: Seq<PackageDiff>,
    names: Seq<String>,
    workspace_version: Option<VersionView>,
) -> Option<VersionView> {
    match workspace_version {
        Some(least) => highest(versions_from(req, named_packages(packages, names), least)),
        None => None,
    }
}

/// The version that a reference may lead to.
pub open spec fn referenced_version(v: Option<&Version>) -> Option<VersionView> {
    match v {
        Some(v) => Some(v@),
        None => None,
    }
}

/// `r` is the next version of `p`: that of the workspace where the package takes its version
/// from it and there is a new one, else that of its version group, else its own.
pub open spec fn is_next_version(
    req: UpdateRequest,
    new_workspace_version: Option<VersionView>,
    names: Seq<String>,
    groups: Map<Seq<char>, Version>,
    p: PackageDiff,
    r: Result<Version, UpdateError>,
) -> bool {
    let config = req.config(p.package.name@);
    if new_workspace_version is Some && is_named(names, p.package.name@) {
        r is Ok && Some(r->Ok_0@) == new_workspace_version
    } else {
        match config.version_group {
            Some(group) => match group_version(groups, group@) {
                Some(v) => r is Ok && r->Ok_0@ == v,
                None => r is Err && r->Err_0 is MissingVersionGroup
                    && r->Err_0->MissingVersionGroup_0@ == group@,
            },
            None => if p.updater(req).valid() {
                r is Ok && r->Ok_0@ == p.next(req)
            } else {
                r is Err && config.generic.reports(r->Err_0)
            },
        }
    }
}

/// The names of the packages that take their version from the workspace.
pub open spec fn inherited_names(packages: Seq<PackageDiff>) -> Seq<String>
    decreases packages.len(),
{
    if packages.len() == 0 {
        Seq::empty()
    } else {
        let before = inherited_names(packages.drop_last());
        if packages.last().version_is_inherited {
            before.push(packages.last().package.name)
        } else {
            before
        }
    }
}

/// The next version of `p`, one of `packages`: that of the workspace where the package takes its
/// version from it and there is a new one, else the highest of its version group, else its own.
pub open spec fn next_version_among(
    req: UpdateRequest,
    packages: Seq<PackageDiff>,
    workspace_version: Option<VersionView>,
    p: PackageDiff,
) -> VersionView {
    let names = inherited_names(packages);
    let new_version = workspace_version_of(req, packages, names, workspace_version);
    if new_version is Some && is_named(names, p.package.name@) {
        new_version->0
    } else {
        match req.config(p.package.name@).version_group {
            Some(group) => highest(group_versions(req, packages, group@))->0,
            None => p.next(req),
        }
    }
}

/// What becomes of a package.
#[derive(Debug)]
pub enum PackageAction {
    /// It gets this version.
    Update(Version),
    /// It is updated if one of its dependencies is.
    CheckDependencies,
    /// It stays.
    Leave,
}

impl View for PackageAction {
    type V = PackageOutcome;

    open spec fn view(&self) -> PackageOutcome {
        match self {
            PackageAction::Update(v) => PackageOutcome::Update(v@),
            PackageAction::CheckDependencies => PackageOutcome::CheckDependencies,
            PackageAction::Leave => PackageOutcome::Leave,
        }
    }
}

/// What becomes of a package.
pub enum PackageOutcome {
    /// It gets this version.
    Update(VersionView),
    /// It is updated if one of its dependencies is.
    CheckDependencies,
    /// It stays.
    Leave,
}

impl PackageDiff {
    /// What becomes of the package with commits that are worth a release, where `next` is its next
    /// version. It is updated where its version changes, where it is new, and where its version
    /// was raised already and its changelog is to catch up.
    pub open spec fn outcome(self, next: VersionView) -> PackageOutcome {
        let already_bumped = !self.diff.is_version_published && self.diff.commits@.len() > 0;
        if next != self.package.version@ || !self.diff.registry_package_exists || already_bumped {
            PackageOutcome::Update(next)
        } else if self.diff.is_version_published {
            PackageOutcome::CheckDependencies
        } else {
            PackageOutcome::Leave
        }
    }

    /// What becomes of the package with commits that are worth a release, where `next_version` is
    /// its next version.
    pub fn action(&self, next_version: Version) -> (r: PackageAction)
        ensures
            r@ == self.outcome(next_version@),
    {
        let already_bumped = !self.diff.is_version_published && self.diff.commits.len() > 0;
        if next_version != self.package.version || !self.diff.registry_package_exists
            || already_bumped {
            PackageAction::Update(next_version)
        } else if self.diff.is_version_published {
            PackageAction::CheckDependencies
        } else {
            PackageAction::Leave
        }
    }
}

/// What becomes of `p`, one of `packages`. Without a commit that is worth a release, only its
/// dependencies can update it.
pub open spec fn outcome_among(
    req: UpdateRequest,
    packages: Seq<PackageDiff>,
    workspace_version: Option<VersionView>,
    p: PackageDiff,
) -> PackageOutcome {
    if !p.has_release_commits {
        PackageOutcome::CheckDependencies
    } else {
        p.outcome(next_version_among(req, packages, workspace_version, p))
    }
}

/// The updates of the first `n` of `packages`: their places and new versions.
pub open spec fn updates_among(
    req: UpdateRequest,
    packages: Seq<PackageDiff>,
    workspace_version: Option<VersionView>,
    n: int,
) -> Seq<(int, VersionView)>
    decreases n,
{
    if n <= 0 {
        Seq::empty()
    } else {
        let before = updates_among(req, packages, workspace_version, n - 1);
        match outcome_among(req, packages, workspace_version, packages[n - 1]) {
            PackageOutcome::Update(v) => before.push((n - 1, v)),
            _ => before,
        }
    }
}

/// The places of those of the first `n` of `packages` that are updated if one of their
/// dependencies is.
pub open spec fn checks_among(
    req: UpdateRequest,
    packages: Seq<PackageDiff>,
    workspace_version: Option<VersionView>,
    n: int,
) -> Seq<int>
    decreases n,
{
    if n <= 0 {
        Seq::empty()
    } else {
        let before = checks_among(req, packages, workspace_version, n - 1);
        match outcome_among(req, packages, workspace_version, packages[n - 1]) {
            PackageOutcome::CheckDependencies => before.push(n - 1),
            _ => before,
        }
    }
}

/// A package to update.
#[derive(Debug)]
pub struct PlannedUpdate {
    /// The place of the package.
    pub index: usize,
    /// Its new version.
    pub version: Version,
}

/// The places and versions of `updates`.
pub open spec fn planned(updates: Seq<PlannedUpdate>) -> Seq<(int, VersionView)> {
    updates.map_values(|u: PlannedUpdate| (u.index as int, u.version@))
}

/// The places as integers.
pub open spec fn indices(places: Seq<usize>) -> Seq<int> {
    places.map_values(|i: usize| i as int)
}

/// The updates of packages by their own changes.
#[derive(Debug)]
pub struct DefaultPlan {
    /// The new version of the workspace.
    pub workspace_version: Option<Version>,
    /// The packages that are updated.
    pub updates: Vec<PlannedUpdate>,
    /// The places of the packages that are updated if one of their dependencies is.
    pub packages_to_check_for_deps: Vec<usize>,
}

/// A version group that a package is in has a version.
proof fn lemma_group_not_empty(req: UpdateRequest, packages: Seq<PackageDiff>, i: int)
    requires
        0 <= i < packages.len(),
        req.config(packages[i].package.name@).version_group is Some,
    ensures
        highest(
            group_versions(req, packages, req.config(packages[i].package.name@).version_group->0@),
        ) is Some,
    decreases packages.len(),
{
    let group = req.config(packages[i].package.name@).version_group->0@;
    if i < packages.len() - 1 {
        assert(packages.drop_last()[i] == packages[i]);
        lemma_group_not_empty(req, packages.drop_last(), i);
        law_highest(group_versions(req, packages.drop_last(), group));
    }
    law_highest(group_versions(req, packages, group));
}

/// Where all rules can be used, those of some packages can.
proof fn lemma_named_rules_valid(req: UpdateRequest, packages: Seq<PackageDiff>, names: Seq<String>)
    requires
        rules_are_valid(req, packages),
    ensures
        rules_are_valid(req, named_packages(packages, names)),
    decreases packages.len(),
{
    if packages.len() > 0 {
        let less = packages.drop_last();
        assert forall|j: int| 0 <= j < less.len() implies (#[trigger] less[j]).updater(
            req,
        ).valid() by {
            assert(less[j] == packages[j]);
        }
        lemma_named_rules_valid(req, less, names);
        assert(packages[packages.len() - 1].updater(req).valid());
    }
}

/// Determines the updates of a project's packages.
#[derive(Debug)]
pub struct Updater<'a> {
    pub project: &'a Project,
    pub req: &'a UpdateRequest,
}

/// `name` is among `names`.
pub open spec fn is_named(names: Seq<String>, name: Seq<char>) -> bool {
    exists|i: int| 0 <= i < names.len() && (#[trigger] names[i])@ == name
}

/// Whether `name` is among `names`.
pub fn contains_name(names: &Vec<String>, name: &str) -> (r: bool)
    ensures
        r == is_named(names@, name@),
{
    for i in 0..names.len()
        invariant
            forall|j: int| 0 <= j < i ==> (#[trigger] names@[j])@ != name@,
    {
        if same_text(names[i].as_str(), name) {
            return true;
        }
    }
    false
}

/// The names of the packages that take their version from the workspace.
pub fn inherited_package_names(packages_diffs: &Vec<PackageDiff>) -> (r: Vec<String>)
    ensures
        r@ == inherited_names(packages_diffs@),
{
    let mut names: Vec<String> = Vec::new();
    for i in 0..packages_diffs.len()
        invariant
            names@ == inherited_names(packages_diffs@.take(i as int)),
    {
        let ghost now = packages_diffs@.take(i + 1);
        assert(now.drop_last() =~= packages_diffs@.take(i as int));
        assert(now.last() == packages_diffs@[i as int]);
        if packages_diffs[i].version_is_inherited {
            names.push(packages_diffs[i].package.name.clone());
        }
    }
    assert(packages_diffs@.take(packages_diffs@.len() as int) =~= packages_diffs@);
    names
}

impl<'a> Updater<'a> {
    /// The highest next version of all packages for each version group. It fails where the
    /// rules for increments of a package cannot be used.
    pub fn get_version_groups(&self, packages_diffs: &Vec<PackageDiff>) -> (r: Result<
        StringHashMap<Version>,
        UpdateError,
    >)
        requires
            grouped_can_update(*self.req, packages_diffs@),
        ensures
            r is Ok <==> rules_are_valid(*self.req, packages_diffs@),
            r matches Err(e) ==> reports_first(*self.req, packages_diffs@, e),
            r matches Ok(groups) ==> are_group_versions(*self.req, packages_diffs@, groups@),
    {
        let mut version_groups: StringHashMap<Version> = StringHashMap::new();
        let ghost req = *self.req;
        assert forall|group: Seq<char>|
            highest(#[trigger] group_versions(req, packages_diffs@.take(0), group)) is None by {}
        for i in 0..packages_diffs.len()
            invariant
                req == *self.req,
                grouped_can_update(req, packages_diffs@),
                rules_are_valid(req, packages_diffs@.take(i as int)),
                are_group_versions(req, packages_diffs@.take(i as int), version_groups@),
        {
            let p = &packages_diffs[i];
            let ghost seen = packages_diffs@.take(i as int);
            let ghost now = packages_diffs@.take(i + 1);
            let ghost groups_before = version_groups@;
            proof {
                assert(now.drop_last() =~= seen);
                assert(now.last() == *p);
            }
            let config = self.req.get_package_config(p.package.name.as_str());
            let version_updater = match config.generic.version_updater() {
                Ok(u) => u,
                Err(e) => {
                    assert(!packages_diffs@[i as int].updater(req).valid());
                    return Err(e);
                },
            };
            assert(rules_are_valid(req, now)) by {
                assert forall|j: int| 0 <= j < now.len() implies (#[trigger] now[j]).updater(
                    req,
                ).valid() by {
                    if j < i {
                        assert(seen[j] == now[j]);
                    }
                }
            }
            if let Some(version_group) = &config.version_group {
                assert(packages_diffs@[i as int].can_update());
                let next = p.next_version(version_updater);
                let raise = is_new_highest(version_groups.get(version_group.as_str()), &next);
                proof {
                    let g = version_group@;
                    let old_versions = group_versions(req, seen, g);
                    assert(group_versions(req, now, g) == old_versions.push(next@));
                    assert(old_versions.push(next@).drop_last() =~= old_versions);
                    assert(group_version(groups_before, g) == highest(old_versions));
                }
                if raise {
                    version_groups.insert(version_group.clone(), next);
                }
            }
            assert forall|group: Seq<char>|
                group_version(version_groups@, group) == highest(
                    #[trigger] group_versions(req, now, group),
                ) by {
                assert(group_version(groups_before, group) == highest(
                    group_versions(req, seen, group),
                ));
            }
        }
        assert(packages_diffs@.take(packages_diffs@.len() as int) =~= packages_diffs@);
        Ok(version_groups)
    }

    /// The new version of the workspace. `workspace_version` is the one in its manifest, and
    /// `workspace_version_pkgs` are the packages that take their version from it. It fails where
    /// the rules for increments of one of them cannot be used.
    pub fn new_workspace_version(
        &self,
        workspace_version: Option<&Version>,
        packages_diffs: &Vec<PackageDiff>,
        workspace_version_pkgs: &Vec<String>,
    ) -> (r: Result<Option<Version>, UpdateError>)
        requires
            named_can_update(packages_diffs@, workspace_version_pkgs@),
        ensures
            r is Ok <==> rules_are_valid(
                *self.req,
                named_packages(packages_diffs@, workspace_version_pkgs@),
            ),
            r matches Err(e) ==> reports_first(
                *self.req,
                named_packages(packages_diffs@, workspace_version_pkgs@),
                e,
            ),
            r matches Ok(v) ==> optional_version(v) == workspace_version_of(
                *self.req,
                packages_diffs@,
                workspace_version_pkgs@,
                referenced_version(workspace_version),
            ),
    {
        let mut max: Option<Version> = None;
        let ghost req = *self.req;
        let ghost names = workspace_version_pkgs@;
        for i in 0..packages_diffs.len()
            invariant
                req == *self.req,
                names == workspace_version_pkgs@,
                named_can_update(packages_diffs@, names),
                rules_are_valid(req, named_packages(packages_diffs@.take(i as int), names)),
                optional_version(max) == workspace_version_of(
                    req,
                    packages_diffs@.take(i as int),
                    names,
                    referenced_version(workspace_version),
                ),
        {
            let p = &packages_diffs[i];
            let ghost seen = packages_diffs@.take(i as int);
            let ghost now = packages_diffs@.take(i + 1);
            let ghost picked = named_packages(seen, names);
            proof {
                assert(now.drop_last() =~= seen);
                assert(now.last() == *p);
            }
            if contains_name(workspace_version_pkgs, p.package.name.as_str()) {
                assert(packages_diffs@[i as int].can_update());
                let ghost picked_now = picked.push(*p);
                assert(picked_now.drop_last() =~= picked);
                let config = self.req.get_package_config(p.package.name.as_str());
                let version_updater = match config.generic.version_updater() {
                    Ok(u) => u,
                    Err(e) => {
                        proof {
                            lemma_named_prefix(packages_diffs@, names, i + 1);
                            let all = named_packages(packages_diffs@, names);
                            let k = picked.len() as int;
                            assert(all[k] == picked_now[k]);
                            assert(all.take(k) =~= picked);
                        }
                        return Err(e);
                    },
                };
                assert(rules_are_valid(req, picked_now)) by {
                    assert forall|j: int| 0 <= j < picked_now.len() implies (
                    #[trigger] picked_now[j]).updater(req).valid() by {
                        if j < picked.len() {
                            assert(picked[j] == picked_now[j]);
                        }
                    }
                }
                let next = p.next_version(version_updater);
                if let Some(least) = workspace_version {
                    if !next.is_lower(least) {
                        let ghost versions = versions_from(req, picked, least@);
                        assert(versions.push(next@).drop_last() =~= versions);
                        if is_new_highest(max.as_ref(), &next) {
                            max = Some(next);
                        }
                    }
                }
            }
        }
        assert(packages_diffs@.take(packages_diffs@.len() as int) =~= packages_diffs@);
        Ok(max)
    }

    /// The next version of a package. Its own changes are counted where it shares its version
    /// neither with the workspace nor with a group.
    pub fn get_next_version(
        &self,
        new_workspace_version: Option<&Version>,
        p: &PackageDiff,
        workspace_version_pkgs: &Vec<String>,
        version_groups: &StringHashMap<Version>,
    ) -> (r: Result<Version, UpdateError>)
        requires
            p.can_update() || (new_workspace_version is Some && is_named(
                workspace_version_pkgs@,
                p.package.name@,
            )) || self.req.config(p.package.name@).version_group is Some,
        ensures
            is_next_version(
                *self.req,
                referenced_version(new_workspace_version),
                workspace_version_pkgs@,
                version_groups@,
                *p,
                r,
            ),
    {
        let config = self.req.get_package_config(p.package.name.as_str());
        if let Some(max_workspace_version) = new_workspace_version {
            if contains_name(workspace_version_pkgs, p.package.name.as_str()) {
                return Ok(max_workspace_version.clone());
            }
        }
        match &config.version_group {
            Some(version_group) => match version_groups.get(version_group.as_str()) {
                Some(v) => Ok(v.clone()),
                None => Err(UpdateError::MissingVersionGroup(version_group.clone())),
            },
            None => match config.generic.version_updater() {
                Ok(version_updater) => Ok(
                    p.next_version(version_updater),
                ),
                Err(e) => Err(e),
            },
        }
    }

    /// The updates of packages by their own changes. `workspace_version` is the one in the
    /// manifest of the workspace. It fails where the rules for increments of a package cannot be
    /// used.
    pub fn packages_to_update_default(
        &self,
        packages_diffs: &Vec<PackageDiff>,
        workspace_version: Option<&Version>,
    ) -> (r: Result<DefaultPlan, UpdateError>)
        requires
            asked_can_update(*self.req, packages_diffs@),
        ensures
            r is Ok <==> rules_are_valid(*self.req, packages_diffs@),
            r matches Err(e) ==> reports_first(*self.req, packages_diffs@, e),
            r matches Ok(plan) ==> {
                let least = referenced_version(workspace_version);
                let n = packages_diffs@.len() as int;
                &&& optional_version(plan.workspace_version) == workspace_version_of(
                    *self.req,
                    packages_diffs@,
                    inherited_names(packages_diffs@),
                    least,
                )
                &&& planned(plan.updates@) == updates_among(*self.req, packages_diffs@, least, n)
                &&& indices(plan.packages_to_check_for_deps@) == checks_among(
                    *self.req,
                    packages_diffs@,
                    least,
                    n,
                )
            },
    {
        let version_groups = match self.get_version_groups(packages_diffs) {
            Ok(groups) => groups,
            Err(e) => {
                return Err(e);
            },
        };
        let ghost req = *self.req;
        let ghost least = referenced_version(workspace_version);
        let names = inherited_package_names(packages_diffs);
        proof {
            lemma_named_rules_valid(req, packages_diffs@, names@);
        }
        let new_version = match self.new_workspace_version(
            workspace_version,
            packages_diffs,
            &names,
        ) {
            Ok(v) => v,
            Err(e) => {
                return Err(e);
            },
        };
        let mut updates: Vec<PlannedUpdate> = Vec::new();
        let mut checks: Vec<usize> = Vec::new();
        for i in 0..packages_diffs.len()
            invariant
                req == *self.req,
                least == referenced_version(workspace_version),
                asked_can_update(req, packages_diffs@),
                rules_are_valid(req, packages_diffs@),
                are_group_versions(req, packages_diffs@, version_groups@),
                names@ == inherited_names(packages_diffs@),
                optional_version(new_version) == workspace_version_of(
                    req,
                    packages_diffs@,
                    names@,
                    least,
                ),
                planned(updates@) == updates_among(req, packages_diffs@, least, i as int),
                indices(checks@) == checks_among(req, packages_diffs@, least, i as int),
        {
            let p = &packages_diffs[i];
            let ghost updates_before = updates@;
            let ghost checks_before = checks@;
            let ghost outcome = outcome_among(req, packages_diffs@, least, *p);
            if !p.has_release_commits {
                checks.push(i);
            } else {
                proof {
                    assert(packages_diffs@[i as int].can_update());
                    assert(p.updater(req).valid());
                    if let Some(group) = req.config(p.package.name@).version_group {
                        lemma_group_not_empty(req, packages_diffs@, i as int);
                        assert(group_version(version_groups@, group@) == highest(
                            group_versions(req, packages_diffs@, group@),
                        ));
                    }
                }
                let next = match self.get_next_version(
                    new_version.as_ref(),
                    p,
                    &names,
                    &version_groups,
                ) {
                    Ok(v) => v,
                    Err(e) => {
                        return Err(e);
                    },
                };
                assert(next@ == next_version_among(req, packages_diffs@, least, *p));
                match p.action(next) {
                    PackageAction::Update(version) => {
                        updates.push(PlannedUpdate { index: i, version });
                    },
                    PackageAction::CheckDependencies => {
                        checks.push(i);
                    },
                    PackageAction::Leave => {},
                }
            }
            proof {
                match outcome {
                    PackageOutcome::Update(v) => {
                        assert(planned(updates@) =~= planned(updates_before).push((i as int, v)));
                        assert(checks@ == checks_before);
                    },
                    PackageOutcome::CheckDependencies => {
                        assert(indices(checks@) =~= indices(checks_before).push(i as int));
                        assert(updates@ == updates_before);
                    },
                    PackageOutcome::Leave => {
                        assert(checks@ == checks_before && updates@ == updates_before);
                    },
                }
            }
        }
        Ok(
            DefaultPlan {
                workspace_version: new_version,
                updates,
                packages_to_check_for_deps: checks,
            },
        )
    }
}

/// The packages with given names among the first ones come first among all.
proof fn lemma_named_prefix(packages: Seq<PackageDiff>, names: Seq<String>, n: int)
    requires
        0 <= n <= packages.len(),
    ensures
        named_packages(packages.take(n), names).is_prefix_of(named_packages(packages, names)),
    decreases packages.len(),
{
    if n == packages.len() {
        assert(packages.take(n) =~= packages);
    } else {
        let less = packages.drop_last();
        lemma_named_prefix(less, names, n);
        assert(less.take(n) =~= packages.take(n));
    }
}

/// A version group covers its packages: its version is not below the next version of any of them.
pub proof fn law_group_covers_packages(req: UpdateRequest, packages: Seq<PackageDiff>, i: int)
    requires
        0 <= i < packages.len(),
        req.config(packages[i].package.name@).version_group is Some,
    ensures
        ({
            let group = req.config(packages[i].package.name@).version_group->0@;
            &&& highest(group_versions(req, packages, group)) is Some
            &&& !highest(group_versions(req, packages, group))->0.lower(packages[i].next(req))
        }),
{
    let group = req.config(packages[i].package.name@).version_group->0@;
    lemma_group_not_empty(req, packages, i);
    lemma_group_has(req, packages, i, group);
    law_highest(group_versions(req, packages, group));
    let versions = group_versions(req, packages, group);
    let k = choose|k: int| 0 <= k < versions.len() && versions[k] == packages[i].next(req);
    assert(!highest(versions)->0.lower(versions[k]));
}

/// The next version of a package is among those of its group.
proof fn lemma_group_has(req: UpdateRequest, packages: Seq<PackageDiff>, i: int, group: Seq<char>)
    requires
        0 <= i < packages.len(),
        req.config(packages[i].package.name@).version_group is Some,
        req.config(packages[i].package.name@).version_group->0@ == group,
    ensures
        group_versions(req, packages, group).contains(packages[i].next(req)),
    decreases packages.len(),
{
    let less = packages.drop_last();
    let versions = group_versions(req, packages, group);
    if i < less.len() {
        assert(less[i] == packages[i]);
        lemma_group_has(req, less, i, group);
        let before = group_versions(req, less, group);
        let k = choose|k: int| 0 <= k < before.len() && before[k] == packages[i].next(req);
        assert(versions[k] == packages[i].next(req));
    } else {
        assert(versions[versions.len() - 1] == packages[i].next(req));
    }
}

/// The version of a workspace does not go back, and the packages that take their version from it
/// get the same one.
pub proof fn law_workspace_version(
    req: UpdateRequest,
    packages: Seq<PackageDiff>,
    workspace_version: VersionView,
    a: PackageDiff,
    b: PackageDiff,
)
    requires
        workspace_version_of(
            req,
            packages,
            inherited_names(packages),
            Some(workspace_version),
        ) is Some,
        is_named(inherited_names(packages), a.package.name@),
        is_named(inherited_names(packages), b.package.name@),
    ensures
        ({
            let v = next_version_among(req, packages, Some(workspace_version), a);
            &&& !v.lower(workspace_version)
            &&& next_version_among(req, packages, Some(workspace_version), b) == v
        }),
{
    let picked = named_packages(packages, inherited_names(packages));
    let versions = versions_from(req, picked, workspace_version);
    law_highest(versions);
    lemma_versions_from(req, picked, workspace_version);
}

/// None of the versions is below the least one.
proof fn lemma_versions_from(req: UpdateRequest, packages: Seq<PackageDiff>, least: VersionView)
    ensures
        forall|v: VersionView| #[trigger]
            versions_from(req, packages, least).contains(v) ==> !v.lower(least),
    decreases packages.len(),
{
    if packages.len() > 0 {
        let before = versions_from(req, packages.drop_last(), least);
        let now = versions_from(req, packages, least);
        lemma_versions_from(req, packages.drop_last(), least);
        assert forall|v: VersionView| #[trigger] now.contains(v) implies !v.lower(least) by {
            let k = choose|k: int| 0 <= k < now.len() && now[k] == v;
            if k < before.len() {
                assert(before[k] == v);
                assert(before.contains(v));
            }
        }
    }
}

/// No version goes down: the version that a package gets is not below what its own changes ask for,
/// and so not below the one in its manifest where they ask for nothing.
pub proof fn law_version_does_not_go_down(
    req: UpdateRequest,
    packages: Seq<PackageDiff>,
    workspace_version: Option<VersionView>,
    i: int,
)
    requires
        0 <= i < packages.len(),
    ensures
        !next_version_among(req, packages, workspace_version, packages[i]).lower(
            packages[i].next(req),
        ),
        !packages[i].diff.wants_update() ==> !next_version_among(
            req,
            packages,
            workspace_version,
            packages[i],
        ).lower(packages[i].package.version@),
{
    let p = packages[i];
    let names = inherited_names(packages);
    law_order_same(p.next(req), p.next(req));
    if workspace_version_of(req, packages, names, workspace_version) is Some && is_named(
        names,
        p.package.name@,
    ) {
        let least = workspace_version->0;
        let picked = named_packages(packages, names);
        let versions = versions_from(req, picked, least);
        law_highest(versions);
        lemma_versions_from(req, picked, least);
        lemma_named_has(packages, names, i);
        let k = choose|k: int| 0 <= k < picked.len() && picked[k] == p;
        if p.next(req).lower(least) {
            let v = highest(versions)->0;
            law_order_swap(v, least);
            if v.lower(p.next(req)) {
                law_order_transitive(v, p.next(req), least);
            }
        } else {
            lemma_versions_has(req, picked, least, k);
            let m = choose|m: int| 0 <= m < versions.len() && versions[m] == p.next(req);
            assert(!highest(versions)->0.lower(versions[m]));
        }
    } else if req.config(p.package.name@).version_group is Some {
        law_group_covers_packages(req, packages, i);
    }
}

/// A package with one of the names is among the packages with them.
proof fn lemma_named_has(packages: Seq<PackageDiff>, names: Seq<String>, i: int)
    requires
        0 <= i < packages.len(),
        is_named(names, packages[i].package.name@),
    ensures
        named_packages(packages, names).contains(packages[i]),
    decreases packages.len(),
{
    let less = packages.drop_last();
    let now = named_packages(packages, names);
    if i < less.len() {
        assert(less[i] == packages[i]);
        lemma_named_has(less, names, i);
        let before = named_packages(less, names);
        let k = choose|k: int| 0 <= k < before.len() && before[k] == packages[i];
        assert(now[k] == packages[i]);
    } else {
        assert(now[now.len() - 1] == packages[i]);
    }
}

/// A next version that is not below the least one is among those.
proof fn lemma_versions_has(
    req: UpdateRequest,
    packages: Seq<PackageDiff>,
    least: VersionView,
    k: int,
)
    requires
        0 <= k < packages.len(),
        !packages[k].next(req).lower(least),
    ensures
        versions_from(req, packages, least).contains(packages[k].next(req)),
    decreases packages.len(),
{
    let less = packages.drop_last();
    let now = versions_from(req, packages, least);
    if k < less.len() {
        assert(less[k] == packages[k]);
        lemma_versions_has(req, less, least, k);
        let before = versions_from(req, less, least);
        let m = choose|m: int| 0 <= m < before.len() && before[m] == packages[k].next(req);
        assert(now[m] == packages[k].next(req));
    } else {
        assert(now[now.len() - 1] == packages[k].next(req));
    }
}

/// A new package is updated: with a commit that is worth a release, a package that the registry
/// does not have is released.
pub proof fn law_new_package_is_updated(
    req: UpdateRequest,
    packages: Seq<PackageDiff>,
    workspace_version: Option<VersionView>,
    p: PackageDiff,
)
    requires
        p.has_release_commits,
        !p.diff.registry_package_exists,
    ensures
        outcome_among(req, packages, workspace_version, p) is Update,
{
}

/// The package goes by its own changes: neither the workspace nor a version group sets its version.
pub open spec fn has_own_version(
    req: UpdateRequest,
    packages: Seq<PackageDiff>,
    p: PackageDiff,
) -> bool {
    !is_named(inherited_names(packages), p.package.name@) && req.config(
        p.package.name@,
    ).version_group is None
}

/// A version that was raised already is not raised further, and does not go down: only the
/// changelog is updated.
pub proof fn law_raised_version_stays(
    req: UpdateRequest,
    packages: Seq<PackageDiff>,
    workspace_version: Option<VersionView>,
    p: PackageDiff,
)
    requires
        has_own_version(req, packages, p),
        p.has_release_commits,
        !p.diff.is_version_published,
        p.diff.commits@.len() > 0,
    ensures
        outcome_among(req, packages, workspace_version, p) == PackageOutcome::Update(
            p.package.version@,
        ),
{
}

/// A package without changes is updated only if one of its dependencies is: it is published, and
/// has no commits since.
pub proof fn law_unchanged_package_follows(
    req: UpdateRequest,
    packages: Seq<PackageDiff>,
    workspace_version: Option<VersionView>,
    p: PackageDiff,
)
    requires
        has_own_version(req, packages, p),
        p.diff.registry_package_exists,
        p.diff.is_version_published,
        p.diff.commits@.len() == 0,
    ensures
        outcome_among(req, packages, workspace_version, p) is CheckDependencies,
{
}

/// For a package at a stable version, it makes no difference whether the tag of that version was
/// found: its next version is the same.
pub proof fn law_base_of_stable_package(req: UpdateRequest, a: PackageDiff, b: PackageDiff)
    requires
        a.package == b.package,
        b.diff == (Diff { base_version: None, ..a.diff }),
        a.base() == a.package.version@,
    ensures
        a.next(req) == b.next(req),
{
}

/// The updates of packages are in their order, each at most once, and say what becomes of each.
proof fn lemma_updates_are_those(
    req: UpdateRequest,
    packages: Seq<PackageDiff>,
    workspace_version: Option<VersionView>,
    n: int,
    i: int,
)
    requires
        0 <= n <= packages.len(),
        0 <= i < n,
    ensures
        ({
            let updates = updates_among(req, packages, workspace_version, n);
            let checks = checks_among(req, packages, workspace_version, n);
            let outcome = outcome_among(req, packages, workspace_version, packages[i]);
            &&& forall|k: int| 0 <= k < updates.len() ==> 0 <= (#[trigger] updates[k]).0 < n
            &&& forall|a: int, b: int|
                0 <= a < b < updates.len() ==> (#[trigger] updates[a]).0 < (#[trigger] updates[b]).0
            &&& forall|k: int|
                0 <= k < updates.len() && (#[trigger] updates[k]).0 == i ==> outcome
                    == PackageOutcome::Update(updates[k].1)
            &&& outcome matches PackageOutcome::Update(v) ==> updates.contains((i, v))
            &&& forall|k: int| 0 <= k < checks.len() ==> 0 <= #[trigger] checks[k] < n
            &&& forall|a: int, b: int| 0 <= a < b < checks.len() ==> checks[a] < checks[b]
            &&& checks.contains(i) <==> outcome is CheckDependencies
        }),
    decreases n,
{
    let updates = updates_among(req, packages, workspace_version, n);
    let checks = checks_among(req, packages, workspace_version, n);
    let updates_before = updates_among(req, packages, workspace_version, n - 1);
    let checks_before = checks_among(req, packages, workspace_version, n - 1);
    if n > 1 {
        lemma_updates_are_those(req, packages, workspace_version, n - 1, if i < n - 1 {
            i
        } else {
            0
        });
    }
    let outcome = outcome_among(req, packages, workspace_version, packages[i]);
    if i == n - 1 {
        if outcome is Update {
            assert(updates[updates.len() - 1] == (i, outcome->Update_0));
        }
        if outcome is CheckDependencies {
            assert(checks[checks.len() - 1] == i);
        }
    } else {
        if outcome is Update {
            let v = outcome->Update_0;
            assert(updates_before.contains((i, v)));
            let k = choose|k: int| 0 <= k < updates_before.len() && updates_before[k] == (i, v);
            assert(updates[k] == (i, v));
        }
        if checks_before.contains(i) {
            let k = choose|k: int| 0 <= k < checks_before.len() && checks_before[k] == i;
            assert(checks[k] == i);
        }
        if checks.contains(i) {
            let k = choose|k: int| 0 <= k < checks.len() && checks[k] == i;
            assert(checks_before[k] == i);
        }
    }
}

/// What becomes of each package in the default mode. With commits that are worth a release, it is
/// updated to its next version exactly where that differs from the one in its manifest, where the
/// registry does not have the package, or where its version was raised already and there are commits;
/// whether it has commits of its own does not matter otherwise. There is one update of a package at
/// most, and updates come in the order of the packages. What is not updated is checked for its
/// dependencies where its version is published, and so is a package without such commits.
pub proof fn law_default_updates(
    req: UpdateRequest,
    packages: Seq<PackageDiff>,
    workspace_version: Option<VersionView>,
    i: int,
)
    requires
        0 <= i < packages.len(),
    ensures
        ({
            let n = packages.len() as int;
            let updates = updates_among(req, packages, workspace_version, n);
            let checks = checks_among(req, packages, workspace_version, n);
            let p = packages[i];
            let next = next_version_among(req, packages, workspace_version, p);
            let is_updated = p.has_release_commits && (next != p.package.version@
                || !p.diff.registry_package_exists || (!p.diff.is_version_published
                && p.diff.commits@.len() > 0));
            &&& is_updated <==> exists|k: int| 0 <= k < updates.len() && (#[trigger] updates[k]).0 == i
            &&& is_updated ==> updates.contains((i, next))
            &&& forall|a: int, b: int|
                0 <= a < b < updates.len() ==> (#[trigger] updates[a]).0 < (#[trigger] updates[b]).0
            &&& forall|k: int| 0 <= k < updates.len() ==> 0 <= (#[trigger] updates[k]).0 < n
            &&& checks.contains(i) <==> !p.has_release_commits || (!is_updated
                && p.diff.is_version_published)
            &&& forall|a: int, b: int| 0 <= a < b < checks.len() ==> checks[a] < checks[b]
            &&& forall|k: int| 0 <= k < checks.len() ==> 0 <= #[trigger] checks[k] < n
        }),
{
    let n = packages.len() as int;
    lemma_updates_are_those(req, packages, workspace_version, n, i);
    let updates = updates_among(req, packages, workspace_version, n);
    let next = next_version_among(req, packages, workspace_version, packages[i]);
    if updates.contains((i, next)) {
        let k = choose|k: int| 0 <= k < updates.len() && updates[k] == (i, next);
        assert(updates[k].0 == i);
    }
}

/// The rules for increments of a package are the settings that hold for it, one by one.
pub proof fn law_rules_are_the_settings(p: PackageDiff, req: UpdateRequest)
    ensures
        ({
            let config = req.config(p.package.name@).generic;
            let rules = p.updater(req);
            &&& rules.features_always_increment_minor == config.features_always_increment_minor
            &&& rules.breaking_always_increment_major == config.breaking_always_increment_major
            &&& rules.custom_minor_increment_regex is Some
                <==> config.custom_minor_increment_regex is Some
            &&& config.custom_minor_increment_regex matches Some(pattern)
                ==> rules.custom_minor_increment_regex == Some(pattern@)
            &&& rules.custom_major_increment_regex is Some
                <==> config.custom_major_increment_regex is Some
            &&& config.custom_major_increment_regex matches Some(pattern)
                ==> rules.custom_major_increment_regex == Some(pattern@)
        }),
{
}

/// The version that a package's own changes ask for. Without changes that need a new version, it is
/// the one in the manifest. Otherwise they are counted from the last stable version with a tag, where
/// there is one, whatever the manifest says, and else from the version in the manifest.
pub proof fn law_own_changes(p: PackageDiff, req: UpdateRequest)
    ensures
        !p.diff.registry_package_exists || !p.diff.is_version_published || p.diff.commits@.len()
            == 0 ==> p.next(req) == p.package.version@,
        p.diff.registry_package_exists && p.diff.is_version_published && p.diff.commits@.len() > 0
            ==> p.next(req) == next_from(
            match p.diff.base_version {
                Some(v) => v@,
                None => p.package.version@,
            },
            p.diff,
            p.updater(req),
        ),
{
}

/// A package called `name` takes its version from the workspace.
pub open spec fn is_inherited(packages: Seq<PackageDiff>, name: Seq<char>) -> bool {
    exists|j: int|
        0 <= j < packages.len() && (#[trigger] packages[j]).version_is_inherited
            && packages[j].package.name@ == name
}

/// The names of the packages that take their version from the workspace are those.
pub proof fn law_inherited_names(packages: Seq<PackageDiff>, name: Seq<char>)
    ensures
        is_named(inherited_names(packages), name) <==> is_inherited(packages, name),
    decreases packages.len(),
{
    if packages.len() > 0 {
        let less = packages.drop_last();
        let (before, now) = (inherited_names(less), inherited_names(packages));
        law_inherited_names(less, name);
        if is_named(before, name) {
            let i = choose|i: int| 0 <= i < before.len() && (#[trigger] before[i])@ == name;
            assert(now[i]@ == name);
        }
        if is_named(now, name) {
            let i = choose|i: int| 0 <= i < now.len() && (#[trigger] now[i])@ == name;
            if i < before.len() {
                assert(before[i]@ == name);
            } else {
                assert(packages[packages.len() - 1].version_is_inherited);
            }
        }
        if is_inherited(less, name) {
            let j = choose|j: int|
                0 <= j < less.len() && (#[trigger] less[j]).version_is_inherited
                    && less[j].package.name@ == name;
            assert(packages[j] == less[j]);
        }
        if is_inherited(packages, name) {
            let j = choose|j: int|
                0 <= j < packages.len() && (#[trigger] packages[j]).version_is_inherited
                    && packages[j].package.name@ == name;
            if j < less.len() {
                assert(less[j] == packages[j]);
            } else {
                assert(now[now.len() - 1]@ == name);
            }
        }
    }
}

/// Each version of a group is the next version of one of its packages.
proof fn lemma_group_versions_are_next(
    req: UpdateRequest,
    packages: Seq<PackageDiff>,
    group: Seq<char>,
    k: int,
) -> (m: int)
    requires
        0 <= k < group_versions(req, packages, group).len(),
    ensures
        0 <= m < packages.len(),
        req.config(packages[m].package.name@).version_group is Some,
        req.config(packages[m].package.name@).version_group->0@ == group,
        packages[m].next(req) == group_versions(req, packages, group)[k],
    decreases packages.len(),
{
    let less = packages.drop_last();
    let before = group_versions(req, less, group);
    if k < before.len() {
        lemma_group_versions_are_next(req, less, group, k)
    } else {
        packages.len() - 1
    }
}

/// Each version that counts for the workspace is the next version of a package with one of the names.
proof fn lemma_versions_are_next(
    req: UpdateRequest,
    packages: Seq<PackageDiff>,
    names: Seq<String>,
    least: VersionView,
    k: int,
) -> (m: int)
    requires
        0 <= k < versions_from(req, named_packages(packages, names), least).len(),
    ensures
        0 <= m < packages.len(),
        is_named(names, packages[m].package.name@),
        packages[m].next(req) == versions_from(req, named_packages(packages, names), least)[k],
    decreases packages.len(),
{
    let less = packages.drop_last();
    let picked = named_packages(less, names);
    let before = versions_from(req, picked, least);
    if is_named(names, packages.last().package.name@) {
        assert(picked.push(packages.last()).drop_last() =~= picked);
    }
    if k < before.len() {
        lemma_versions_are_next(req, less, names, least, k)
    } else {
        packages.len() - 1
    }
}

/// The workspace gets a new version exactly where one of the packages that take their version from it
/// asks for one that is not below the workspace's. It is one that such a package asks for, and none
/// of them asks for a higher one.
pub proof fn law_new_workspace_version(
    req: UpdateRequest,
    packages: Seq<PackageDiff>,
    least: VersionView,
)
    ensures
        ({
            let names = inherited_names(packages);
            let new_version = workspace_version_of(req, packages, names, Some(least));
            &&& new_version is Some <==> exists|m: int|
                0 <= m < packages.len() && is_inherited(
                    packages,
                    (#[trigger] packages[m]).package.name@,
                ) && !packages[m].next(req).lower(least)
            &&& new_version matches Some(v) ==> {
                &&& !v.lower(least)
                &&& exists|m: int|
                    0 <= m < packages.len() && is_inherited(
                        packages,
                        (#[trigger] packages[m]).package.name@,
                    ) && packages[m].next(req) == v
                &&& forall|m: int|
                    0 <= m < packages.len() && is_inherited(
                        packages,
                        (#[trigger] packages[m]).package.name@,
                    ) ==> !v.lower(packages[m].next(req))
            }
            &&& workspace_version_of(req, packages, names, None) is None
        }),
{
    let names = inherited_names(packages);
    let picked = named_packages(packages, names);
    let versions = versions_from(req, picked, least);
    law_highest(versions);
    lemma_versions_from(req, picked, least);
    assert forall|m: int| 0 <= m < packages.len() implies is_named(
        names,
        (#[trigger] packages[m]).package.name@,
    ) == is_inherited(packages, packages[m].package.name@) by {
        law_inherited_names(packages, packages[m].package.name@);
    }
    if versions.len() > 0 {
        let v = highest(versions)->0;
        let k = choose|k: int| 0 <= k < versions.len() && versions[k] == v;
        let m = lemma_versions_are_next(req, packages, names, least, k);
        assert(versions.contains(v));
        assert(is_named(names, packages[m].package.name@));
    }
    assert forall|m: int|
        0 <= m < packages.len() && is_inherited(
            packages,
            (#[trigger] packages[m]).package.name@,
        ) && !packages[m].next(req).lower(least) implies versions.contains(
        packages[m].next(req),
    ) by {
        lemma_named_has(packages, names, m);
        let k = choose|k: int| 0 <= k < picked.len() && picked[k] == packages[m];
        lemma_versions_has(req, picked, least, k);
    }
    if let Some(v) = highest(versions) {
        assert forall|m: int|
            0 <= m < packages.len() && is_inherited(
                packages,
                (#[trigger] packages[m]).package.name@,
            ) implies !v.lower(packages[m].next(req)) by {
            let next = packages[m].next(req);
            if next.lower(least) {
                law_order_swap(v, least);
                if v.lower(next) {
                    law_order_transitive(v, next, least);
                }
            } else {
                assert(versions.contains(next));
                let k = choose|k: int| 0 <= k < versions.len() && versions[k] == next;
                assert(!v.lower(versions[k]));
            }
        }
    }
}

/// Where the next version of a package comes from: from the workspace where the package takes its
/// version from it and it gets a new one; else, in a version group, it is one that a package of the
/// group asks for, and none of the group asks for a higher one; else its own changes ask for it.
pub proof fn law_next_version_source(
    req: UpdateRequest,
    packages: Seq<PackageDiff>,
    workspace_version: Option<VersionView>,
    i: int,
)
    requires
        0 <= i < packages.len(),
    ensures
        ({
            let name = packages[i].package.name@;
            let new_version = workspace_version_of(
                req,
                packages,
                inherited_names(packages),
                workspace_version,
            );
            let next = next_version_among(req, packages, workspace_version, packages[i]);
            let from_workspace = new_version is Some && is_inherited(packages, name);
            &&& from_workspace ==> new_version == Some(next)
            &&& !from_workspace && req.config(name).version_group is None ==> next
                == packages[i].next(req)
            &&& !from_workspace && req.config(name).version_group is Some ==> {
                let group = req.config(name).version_group->0@;
                &&& exists|m: int|
                    0 <= m < packages.len() && req.config(
                        (#[trigger] packages[m]).package.name@,
                    ).version_group is Some && req.config(
                        packages[m].package.name@,
                    ).version_group->0@ == group && packages[m].next(req) == next
                &&& forall|m: int|
                    0 <= m < packages.len() && req.config(
                        (#[trigger] packages[m]).package.name@,
                    ).version_group is Some && req.config(
                        packages[m].package.name@,
                    ).version_group->0@ == group ==> !next.lower(packages[m].next(req))
            }
        }),
{
    let name = packages[i].package.name@;
    law_inherited_names(packages, name);
    if req.config(name).version_group is Some {
        let group = req.config(name).version_group->0@;
        let versions = group_versions(req, packages, group);
        lemma_group_not_empty(req, packages, i);
        law_highest(versions);
        let v = highest(versions)->0;
        let k = choose|k: int| 0 <= k < versions.len() && versions[k] == v;
        let m = lemma_group_versions_are_next(req, packages, group, k);
        assert(packages[m].next(req) == v);
        assert forall|m: int|
            0 <= m < packages.len() && req.config(
                (#[trigger] packages[m]).package.name@,
            ).version_group is Some && req.config(packages[m].package.name@).version_group->0@
                == group implies !v.lower(packages[m].next(req)) by {
            law_group_covers_packages(req, packages, m);
        }
    }
}

/// With `updates`, the package at place `i` has the version `v`: the one of its update, or the one in
/// its manifest where it has none.
pub open spec fn ends_with(
    packages: Seq<PackageDiff>,
    updates: Seq<(int, VersionView)>,
    i: int,
    v: VersionView,
) -> bool {
    if exists|k: int| 0 <= k < updates.len() && (#[trigger] updates[k]).0 == i {
        forall|k: int|
            0 <= k < updates.len() && (#[trigger] updates[k]).0 == i ==> updates[k].1 == v
    } else {
        packages[i].package.version@ == v
    }
}

/// A package with commits that are worth a release ends with its next version.
pub proof fn law_packages_end_with_their_next_version(
    req: UpdateRequest,
    packages: Seq<PackageDiff>,
    workspace_version: Option<VersionView>,
    i: int,
)
    requires
        0 <= i < packages.len(),
        packages[i].has_release_commits,
    ensures
        ends_with(
            packages,
            updates_among(req, packages, workspace_version, packages.len() as int),
            i,
            next_version_among(req, packages, workspace_version, packages[i]),
        ),
{
    law_default_updates(req, packages, workspace_version, i);
    lemma_updates_are_those(req, packages, workspace_version, packages.len() as int, i);
}

/// A version group keeps together: all of its packages with commits that are worth a release end with
/// the same version, whether or not they changed themselves. This leaves out packages that take a
/// new version from the workspace.
pub proof fn law_group_ends_with_one_version(
    req: UpdateRequest,
    packages: Seq<PackageDiff>,
    workspace_version: Option<VersionView>,
    group: Seq<char>,
) -> (v: VersionView)
    ensures
        forall|i: int|
            0 <= i < packages.len() && (#[trigger] packages[i]).has_release_commits && req.config(
                packages[i].package.name@,
            ).version_group is Some && req.config(packages[i].package.name@).version_group->0@
                == group && !(is_inherited(packages, packages[i].package.name@)
                && workspace_version_of(
                req,
                packages,
                inherited_names(packages),
                workspace_version,
            ) is Some) ==> ends_with(
                packages,
                updates_among(req, packages, workspace_version, packages.len() as int),
                i,
                v,
            ),
{
    let v = highest(group_versions(req, packages, group))->0;
    assert forall|i: int|
        0 <= i < packages.len() && (#[trigger] packages[i]).has_release_commits && req.config(
            packages[i].package.name@,
        ).version_group is Some && req.config(packages[i].package.name@).version_group->0@ == group
            && !(is_inherited(packages, packages[i].package.name@) && workspace_version_of(
            req,
            packages,
            inherited_names(packages),
            workspace_version,
        ) is Some) implies ends_with(
        packages,
        updates_among(req, packages, workspace_version, packages.len() as int),
        i,
        v,
    ) by {
        law_inherited_names(packages, packages[i].package.name@);
        law_packages_end_with_their_next_version(req, packages, workspace_version, i);
    }
    v
}

/// A workspace keeps together: where it gets a new version, all packages that take their version from
/// it and have commits that are worth a release end with that version, whether or not they changed
/// themselves.
pub proof fn law_workspace_ends_with_one_version(
    req: UpdateRequest,
    packages: Seq<PackageDiff>,
    workspace_version: Option<VersionView>,
    i: int,
)
    requires
        0 <= i < packages.len(),
        packages[i].has_release_commits,
        is_inherited(packages, packages[i].package.name@),
        workspace_version_of(
            req,
            packages,
            inherited_names(packages),
            workspace_version,
        ) is Some,
    ensures
        ends_with(
            packages,
            updates_among(req, packages, workspace_version, packages.len() as int),
            i,
            workspace_version_of(
                req,
                packages,
                inherited_names(packages),
                workspace_version,
            )->0,
        ),
{
    law_inherited_names(packages, packages[i].package.name@);
    law_packages_end_with_their_next_version(req, packages, workspace_version, i);
}

/// Plans are read as they are: each update by its place and its version.
pub proof fn law_planned_updates(updates: Seq<PlannedUpdate>, places: Seq<usize>)
    ensures
        planned(updates).len() == updates.len(),
        forall|k: int|
            0 <= k < updates.len() ==> (#[trigger] planned(updates)[k]).0 == updates[k].index
                && planned(updates)[k].1 == updates[k].version@,
        indices(places).len() == places.len(),
        forall|k: int| 0 <= k < places.len() ==> #[trigger] indices(places)[k] == places[k],
{
}

/// What becomes of a package with commits that are worth a release: a version that differs from the one
/// in the manifest is always an update to that version, with or without commits. A package that the
/// registry does not have, and one that was raised already and has commits, is updated too. Any other
/// is checked for its dependencies where its version is published, and left alone where not.
pub proof fn law_action(p: &PackageDiff, next_version: Version, r: PackageAction)
    requires
        call_ensures(PackageDiff::action, (p, next_version), r),
    ensures
        next_version@ != p.package.version@ || !p.diff.registry_package_exists || (
        !p.diff.is_version_published && p.diff.commits@.len() > 0) ==> r is Update && r->Update_0@
            == next_version@,
        next_version@ == p.package.version@ && p.diff.registry_package_exists
            && p.diff.is_version_published ==> r is CheckDependencies,
        next_version@ == p.package.version@ && p.diff.registry_package_exists
            && !p.diff.is_version_published && p.diff.commits@.len() == 0 ==> r is Leave,
{
}

/// What the default mode plans for a package: an update to its next version exactly where that differs
/// from the one in its manifest, the registry does not have it, or it was raised already and has
/// commits, as long as it has commits that are worth a release; and a check of its dependencies where
/// it has none, or is neither updated nor unpublished.
pub proof fn law_default_plan(
    updater: &Updater,
    packages_diffs: &Vec<PackageDiff>,
    workspace_version: Option<&Version>,
    r: Result<DefaultPlan, UpdateError>,
    i: int,
)
    requires
        call_ensures(
            Updater::packages_to_update_default,
            (updater, packages_diffs, workspace_version),
            r,
        ),
        r is Ok,
        0 <= i < packages_diffs@.len(),
    ensures
        ({
            let plan = r->Ok_0;
            let p = packages_diffs@[i];
            let next = next_version_among(
                *updater.req,
                packages_diffs@,
                referenced_version(workspace_version),
                p,
            );
            let is_updated = p.has_release_commits && (next != p.package.version@
                || !p.diff.registry_package_exists || (!p.diff.is_version_published
                && p.diff.commits@.len() > 0));
            &&& is_updated <==> exists|k: int|
                0 <= k < plan.updates@.len() && (#[trigger] plan.updates@[k]).index == i
            &&& forall|k: int|
                0 <= k < plan.updates@.len() && (#[trigger] plan.updates@[k]).index == i
                    ==> plan.updates@[k].version@ == next
            &&& forall|a: int, b: int|
                0 <= a < b < plan.updates@.len() ==> (#[trigger] plan.updates@[a]).index < (
                #[trigger] plan.updates@[b]).index
            &&& (exists|k: int|
                0 <= k < plan.packages_to_check_for_deps@.len()
                    && #[trigger] plan.packages_to_check_for_deps@[k] == i)
                <==> !p.has_release_commits || (!is_updated && p.diff.is_version_published)
        }),
{
    let plan = r->Ok_0;
    let least = referenced_version(workspace_version);
    let n = packages_diffs@.len() as int;
    let updates = updates_among(*updater.req, packages_diffs@, least, n);
    let checks = checks_among(*updater.req, packages_diffs@, least, n);
    law_default_updates(*updater.req, packages_diffs@, least, i);
    lemma_updates_are_those(*updater.req, packages_diffs@, least, n, i);
    assert(planned(plan.updates@) == updates);
    assert(updates.len() == plan.updates@.len());
    assert forall|k: int| 0 <= k < updates.len() implies (#[trigger] plan.updates@[k]).index
        == updates[k].0 && plan.updates@[k].version@ == updates[k].1 by {}
    if exists|k: int| 0 <= k < updates.len() && (#[trigger] updates[k]).0 == i {
        let k = choose|k: int| 0 <= k < updates.len() && (#[trigger] updates[k]).0 == i;
        assert(plan.updates@[k].index == i);
    }
    if exists|k: int| 0 <= k < plan.updates@.len() && (#[trigger] plan.updates@[k]).index == i {
        let k = choose|k: int|
            0 <= k < plan.updates@.len() && (#[trigger] plan.updates@[k]).index == i;
        assert(updates[k].0 == i);
    }
    let places = plan.packages_to_check_for_deps@;
    assert(indices(places) == checks);
    assert forall|k: int| 0 <= k < checks.len() implies #[trigger] places[k] == checks[k] by {
        assert(indices(places)[k] == places[k]);
    }
    assert(checks.len() == places.len());
    if checks.contains(i) {
        let k = choose|k: int| 0 <= k < checks.len() && checks[k] == i;
        assert(places[k] == i);
    }
    if exists|k: int| 0 <= k < places.len() && #[trigger] places[k] == i {
        let k = choose|k: int| 0 <= k < places.len() && #[trigger] places[k] == i;
        assert(checks[k] == i);
    }
}

/// The version that changes are counted from: the one of the diff, where it has one.
pub proof fn law_base_version(p: &PackageDiff, r: &Version)
    requires
        call_ensures(PackageDiff::base_version, (p,), r),
    ensures
        p.diff.base_version matches Some(v) ==> r@ == v@,
        p.diff.base_version is None ==> r@ == p.package.version@,
{
}

/// The version after the changes of a package is that in the manifest, unless the registry has the
/// package in this version and there are changes since; then it follows from the base version, the
/// changes and the rules.
pub proof fn law_own_next_version(p: &PackageDiff, version_updater: VersionUpdater, r: Version)
    requires
        call_ensures(PackageDiff::next_version, (p, version_updater), r),
    ensures
        !p.diff.registry_package_exists || !p.diff.is_version_published || p.diff.commits@.len()
            == 0 ==> r@ == p.package.version@,
        p.diff.registry_package_exists && p.diff.is_version_published && p.diff.commits@.len() > 0
            ==> r@ == next_from(
            match p.diff.base_version {
                Some(v) => v@,
                None => p.package.version@,
            },
            p.diff,
            version_updater@,
        ),
{
}

/// Whose version is taken: the new one of the workspace by a package that is named for it, else the
/// one of its version group, which must be known, else its own.
pub proof fn law_whose_version_is_next(
    updater: &Updater,
    new_workspace_version: Option<&Version>,
    p: &PackageDiff,
    workspace_version_pkgs: &Vec<String>,
    version_groups: &StringHashMap<Version>,
    r: Result<Version, UpdateError>,
)
    requires
        call_ensures(
            Updater::get_next_version,
            (updater, new_workspace_version, p, workspace_version_pkgs, version_groups),
            r,
        ),
    ensures
        ({
            let name = p.package.name@;
            let config = updater.req.config(name);
            let from_workspace = new_workspace_version is Some && exists|i: int|
                0 <= i < workspace_version_pkgs@.len() && (
                #[trigger] workspace_version_pkgs@[i])@ == name;
            &&& from_workspace ==> r is Ok && r->Ok_0@ == new_workspace_version->0@
            &&& !from_workspace && config.version_group is Some ==> {
                let group = config.version_group->0@;
                &&& r is Ok <==> version_groups@.contains_key(group)
                &&& r is Ok ==> r->Ok_0@ == version_groups@[group]@
                &&& r is Err ==> r->Err_0 is MissingVersionGroup
                    && r->Err_0->MissingVersionGroup_0@ == group
            }
            &&& !from_workspace && config.version_group is None && r is Ok ==> r->Ok_0@ == p.next(
                *updater.req,
            )
        }),
{
}

/// The version of each group is the next version of one of its packages, and none of them has a
/// higher one; a group without packages has no version.
pub proof fn law_versions_of_groups(
    updater: &Updater,
    packages_diffs: &Vec<PackageDiff>,
    r: Result<StringHashMap<Version>, UpdateError>,
    group: Seq<char>,
)
    requires
        call_ensures(Updater::get_version_groups, (updater, packages_diffs), r),
        r is Ok,
    ensures
        ({
            let groups = r->Ok_0@;
            let req = *updater.req;
            &&& groups.contains_key(group) <==> exists|m: int|
                0 <= m < packages_diffs@.len() && is_in_group(
                    req,
                    #[trigger] packages_diffs@[m],
                    group,
                )
            &&& groups.contains_key(group) ==> {
                &&& exists|m: int|
                    0 <= m < packages_diffs@.len() && is_in_group(
                        req,
                        #[trigger] packages_diffs@[m],
                        group,
                    ) && packages_diffs@[m].next(req) == groups[group]@
                &&& forall|m: int|
                    0 <= m < packages_diffs@.len() && is_in_group(
                        req,
                        #[trigger] packages_diffs@[m],
                        group,
                    ) ==> !groups[group]@.lower(packages_diffs@[m].next(req))
            }
        }),
{
    let req = *updater.req;
    let groups = r->Ok_0@;
    let versions = group_versions(req, packages_diffs@, group);
    assert(group_version(groups, group) == highest(versions));
    law_highest(versions);
    let from = lemma_group_versions(req, packages_diffs@, group);
    if versions.len() > 0 {
        let k = choose|k: int| 0 <= k < versions.len() && versions[k] == highest(versions)->0;
        assert(is_in_group(req, packages_diffs@[from[k]], group));
        assert forall|m: int|
            0 <= m < packages_diffs@.len() && is_in_group(
                req,
                #[trigger] packages_diffs@[m],
                group,
            ) implies !groups[group]@.lower(packages_diffs@[m].next(req)) by {
            assert(from.contains(m));
            let j = choose|j: int| 0 <= j < from.len() && from[j] == m;
            assert(versions[j] == packages_diffs@[m].next(req));
        }
    } else if exists|m: int|
        0 <= m < packages_diffs@.len() && is_in_group(req, #[trigger] packages_diffs@[m], group) {
        let m = choose|m: int|
            0 <= m < packages_diffs@.len() && is_in_group(req, #[trigger] packages_diffs@[m], group);
        assert(from.contains(m));
    }
}

/// The settings of the package put it into `group`.
pub open spec fn is_in_group(req: UpdateRequest, p: PackageDiff, group: Seq<char>) -> bool {
    req.config(p.package.name@).version_group matches Some(g) && g@ == group
}

/// Where the versions of a group come from.
proof fn lemma_group_versions(
    req: UpdateRequest,
    packages: Seq<PackageDiff>,
    group: Seq<char>,
) -> (from: Seq<int>)
    ensures
        group_versions(req, packages, group).len() == from.len(),
        forall|k: int|
            0 <= k < from.len() ==> 0 <= #[trigger] from[k] < packages.len() && is_in_group(
                req,
                packages[from[k]],
                group,
            ) && group_versions(req, packages, group)[k] == packages[from[k]].next(req),
        forall|m: int|
            0 <= m < packages.len() && is_in_group(req, #[trigger] packages[m], group)
                ==> from.contains(m),
    decreases packages.len(),
{
    if packages.len() == 0 {
        Seq::empty()
    } else {
        let less = packages.drop_last();
        let last = packages.len() - 1;
        let before = lemma_group_versions(req, less, group);
        let from = if is_in_group(req, packages[last], group) {
            before.push(last)
        } else {
            before
        };
        assert forall|k: int| 0 <= k < from.len() implies 0 <= #[trigger] from[k] < packages.len()
            && is_in_group(req, packages[from[k]], group) && group_versions(
            req,
            packages,
            group,
        )[k] == packages[from[k]].next(req) by {
            if k < before.len() {
                assert(from[k] == before[k]);
                assert(less[before[k]] == packages[before[k]]);
            }
        }
        assert forall|m: int|
            0 <= m < packages.len() && is_in_group(
                req,
                #[trigger] packages[m],
                group,
            ) implies from.contains(m) by {
            if m < last {
                assert(less[m] == packages[m]);
                assert(before.contains(m));
                let k = choose|k: int| 0 <= k < before.len() && before[k] == m;
                assert(from[k] == m);
            } else {
                assert(from[from.len() - 1] == m);
            }
        }
        from
    }
}

/// A package takes its version from the workspace where its manifest says so, by its name.
pub proof fn law_named_for_the_workspace(
    packages_diffs: &Vec<PackageDiff>,
    r: Vec<String>,
    name: Seq<char>,
)
    requires
        call_ensures(inherited_package_names, (packages_diffs,), r),
    ensures
        (exists|k: int| 0 <= k < r@.len() && (#[trigger] r@[k])@ == name) <==> exists|i: int|
            0 <= i < packages_diffs@.len() && (#[trigger] packages_diffs@[i]).version_is_inherited
                && packages_diffs@[i].package.name@ == name,
{
    law_inherited_names(packages_diffs@, name);
}

/// The new version of a workspace: there is one only where it has a version, and then it is not lower.
pub proof fn law_given_workspace_version(
    updater: &Updater,
    workspace_version: Option<&Version>,
    packages_diffs: &Vec<PackageDiff>,
    workspace_version_pkgs: &Vec<String>,
    r: Result<Option<Version>, UpdateError>,
)
    requires
        call_ensures(
            Updater::new_workspace_version,
            (updater, workspace_version, packages_diffs, workspace_version_pkgs),
            r,
        ),
        workspace_version_pkgs@ == inherited_names(packages_diffs@),
        r is Ok,
    ensures
        workspace_version is None ==> r->Ok_0 is None,
        workspace_version matches Some(least) ==> {
            let req = *updater.req;
            &&& r->Ok_0 is Some <==> exists|m: int|
                0 <= m < packages_diffs@.len() && is_inherited(
                    packages_diffs@,
                    (#[trigger] packages_diffs@[m]).package.name@,
                ) && !packages_diffs@[m].next(req).lower(least@)
            &&& r->Ok_0 matches Some(v) ==> {
                &&& !v@.lower(least@)
                &&& exists|m: int|
                    0 <= m < packages_diffs@.len() && is_inherited(
                        packages_diffs@,
                        (#[trigger] packages_diffs@[m]).package.name@,
                    ) && packages_diffs@[m].next(req) == v@
                &&& forall|m: int|
                    0 <= m < packages_diffs@.len() && is_inherited(
                        packages_diffs@,
                        (#[trigger] packages_diffs@[m]).package.name@,
                    ) ==> !v@.lower(packages_diffs@[m].next(req))
            }
        },
{
    if let Some(least) = workspace_version {
        law_new_workspace_version(*updater.req, packages_diffs@, least@);
    }
}

/// Which error is reported: the pattern of the first package one of whose patterns does not compile,
/// and of its patterns the one for the minor number where that does not compile.
pub proof fn law_reported_pattern(
    req: UpdateRequest,
    packages: Seq<PackageDiff>,
    e: UpdateError,
)
    requires
        reports_first(req, packages, e),
    ensures
        e is InvalidRegex,
        exists|k: int|
            {
                let config = req.config((#[trigger] packages[k]).package.name@).generic;
                let minor = config.custom_minor_increment_regex;
                let major = config.custom_major_increment_regex;
                &&& 0 <= k < packages.len()
                &&& forall|j: int|
                    0 <= j < k ==> (#[trigger] packages[j]).updater(req).valid()
                &&& minor is Some && !regex_compiles(minor->0@) ==> e->InvalidRegex_0@ == minor->0@
                &&& minor is None || regex_compiles(minor->0@) ==> major is Some
                    && !regex_compiles(major->0@) && e->InvalidRegex_0@ == major->0@
            },
{
    let k = choose|k: int|
        #![trigger packages[k]]
        0 <= k < packages.len() && rules_are_valid(req, packages.take(k)) && !packages[k].updater(
            req,
        ).valid() && req.config(packages[k].package.name@).generic.reports(e);
    law_rules_are_the_settings(packages[k], req);
    assert forall|j: int| 0 <= j < k implies (#[trigger] packages[j]).updater(req).valid() by {
        assert(packages.take(k)[j] == packages[j]);
    }
}

} // verus!
