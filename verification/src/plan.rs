//! All updates of a project's packages.
use vstd::prelude::*;
use vstd::string::*;

use crate::dependents::{dependent_packages_update, ChangedPackage, DependentUpdate};
#[allow(unused_imports)]
use crate::decimal::decimal;
#[allow(unused_imports)]
use crate::dependents::{
    answered_names, answers_as, are_dependent_updates, changed_so_far, changed_views,
    dependents_of, is_changed, is_dependent_update, law_dependent_version, rests_on_answers,
    was_answered, Followed,
};
#[allow(unused_imports)]
use crate::increment::prerelease_number;
use crate::package::Package;
#[allow(unused_imports)]
use crate::processing::{names_of, packages_of, referenced};
use crate::request::{ReleaseMode, UpdateError};
use crate::semver::{Version, VersionView};
#[allow(unused_imports)]
use crate::tags::optional_version;
#[allow(unused_imports)]
use crate::targets::{
    all_can_be_analysed, analysed_packages, are_releases, law_releases_of_targets,
    raised_have_room, release_targets,
};
#[allow(unused_imports)]
use crate::text::{joined, views};
use crate::updater::{
    contains_name, inherited_package_names, PackageDiff, PlannedUpdate, Updater,
};
#[allow(unused_imports)]
use crate::updater::{
    asked_can_update, bare, checks_among, indices, inherited_names, is_inherited, is_next_asked,
    law_default_updates, law_new_workspace_version, law_planned_updates, law_reported_pattern,
    next_version_among, planned, referenced_version, reports_first, rules_are_valid,
    updates_among, workspace_version_of,
};

verus! {

/// All updates of packages.
#[derive(Debug)]
pub struct PackagesUpdate {
    /// The new version of the workspace.
    pub workspace_version: Option<Version>,
    /// The packages that are updated by their own changes.
    pub updates: Vec<PlannedUpdate>,
    /// The packages that are updated because their dependencies are.
    pub dependents: Vec<DependentUpdate>,
}

impl Version {
    /// Whether the number that an update because of dependencies raises is below its limit.
    pub fn can_follow(&self) -> (r: bool)
        ensures
            r == self@.can_follow(),
    {
        if self.is_prerelease() {
            self.can_increment()
        } else {
            self.patch() < u64::MAX
        }
    }
}

impl PackageDiff {
    /// The package may be updated because of its dependencies: it is neither new nor raised already.
    pub open spec fn may_follow(self) -> bool {
        !self.has_release_commits || (self.diff.registry_package_exists && (
        self.diff.is_version_published || self.diff.commits@.len() == 0))
    }
}

/// The packages that have to follow others can be raised for it.
pub open spec fn all_can_follow<G: Fn(&Package, &Vec<ChangedPackage>) -> Option<Vec<String>>>(
    dependencies_to_update: G,
    packages: Seq<PackageDiff>,
) -> bool {
    forall|i: int, changed: &Vec<ChangedPackage>, answer: Option<Vec<String>>|
        0 <= i < packages.len() && packages[i].may_follow() && #[trigger] call_ensures(
            dependencies_to_update,
            (&packages[i].package, changed),
            answer,
        ) && answered_names(answer).len() > 0 ==> packages[i].package.version@.can_follow()
}

impl<'a> Updater<'a> {
    /// No number that the changes of the packages may raise is at its limit.
    pub open spec fn is_within_limits(self, packages: Seq<PackageDiff>) -> bool {
        if self.req.release_mode == ReleaseMode::Default {
            asked_can_update(*self.req, packages)
        } else {
            all_can_be_analysed(packages) && raised_have_room(
                packages,
                names_of(packages_of(*self.project, *self.req)),
            )
        }
    }

    /// Whether no number that the changes of the packages may raise is at its limit.
    pub fn have_room(&self, packages_diffs: &Vec<PackageDiff>) -> (r: bool)
        ensures
            r == self.is_within_limits(packages_diffs@),
    {
        match self.req.release_mode {
            ReleaseMode::Default => {
                let names = inherited_package_names(packages_diffs);
                for i in 0..packages_diffs.len()
                    invariant
                        self.req.release_mode == ReleaseMode::Default,
                        names@ == inherited_names(packages_diffs@),
                        forall|j: int|
                            0 <= j < i && is_next_asked(
                                *self.req,
                                packages_diffs@,
                                #[trigger] packages_diffs@[j],
                            ) ==> packages_diffs@[j].can_update(),
                {
                    let p = &packages_diffs[i];
                    let name = p.package.name.as_str();
                    let is_grouped = self.req.get_package_config(name).version_group.is_some();
                    let is_asked = p.has_release_commits || is_grouped || contains_name(
                        &names,
                        name,
                    );
                    if is_asked && !p.base_version().can_take(&p.diff) {
                        assert(is_next_asked(
                            *self.req,
                            packages_diffs@,
                            packages_diffs@[i as int],
                        ));
                        return false;
                    }
                }
                true
            },
            _ => self.have_room_to_rise(packages_diffs),
        }
    }
}

/// The packages at `places`.
pub open spec fn packages_at(packages: Seq<PackageDiff>, places: Seq<int>) -> Seq<Package> {
    places.map_values(|i: int| packages[i].package)
}

/// The names and new versions of the packages that are updated.
pub open spec fn changed_by(packages: Seq<PackageDiff>, updates: Seq<(int, VersionView)>) -> Seq<
    (Seq<char>, VersionView),
> {
    updates.map_values(|u: (int, VersionView)| (packages[u.0].package.name@, u.1))
}

/// What was found among the packages at `places`, with their places among all packages.
pub open spec fn placed(found: Seq<(int, Seq<Seq<char>>)>, places: Seq<int>) -> Seq<
    (int, Seq<Seq<char>>),
> {
    found.map_values(|u: (int, Seq<Seq<char>>)| (places[u.0], u.1))
}

/// `dependents` are the updates of those of the packages at `places` that depend on packages in
/// `updates`, directly or through others, by the answers of `dependencies_to_update`.
pub open spec fn are_dependents<G: Fn(&Package, &Vec<ChangedPackage>) -> Option<Vec<String>>>(
    dependencies_to_update: G,
    packages: Seq<PackageDiff>,
    places: Seq<int>,
    updates: Seq<(int, VersionView)>,
    dependents: Seq<DependentUpdate>,
) -> bool {
    let asked = packages_at(packages, places);
    let initial = changed_by(packages, updates);
    &&& exists|found: Seq<(int, Seq<Seq<char>>)>|
        are_dependent_updates(bare(packages), dependents, #[trigger] placed(found, places))
            && rests_on_answers(dependencies_to_update, asked, initial, found)
    &&& forall|followed: Followed|
        #![trigger dependents_of(asked, initial, followed)]
        answers_as(dependencies_to_update, asked, followed) ==> are_dependent_updates(
            bare(packages),
            dependents,
            placed(dependents_of(asked, initial, followed), places),
        )
}

/// Updates of packages at some places are updates among all packages.
proof fn lemma_placed(
    packages: Seq<PackageDiff>,
    places: Seq<int>,
    found: Seq<(int, Seq<Seq<char>>)>,
    asked: Seq<DependentUpdate>,
    all: Seq<DependentUpdate>,
)
    requires
        are_dependent_updates(packages_at(packages, places), asked, found),
        forall|k: int| 0 <= k < found.len() ==> 0 <= (#[trigger] found[k]).0 < places.len(),
        forall|k: int| 0 <= k < places.len() ==> 0 <= (#[trigger] places[k]) < packages.len(),
        all.len() == asked.len(),
        forall|k: int|
            0 <= k < all.len() ==> (#[trigger] all[k]).version == asked[k].version && all[k].commit
                == asked[k].commit && all[k].index == places[asked[k].index as int],
    ensures
        are_dependent_updates(bare(packages), all, placed(found, places)),
{
    assert forall|k: int| 0 <= k < all.len() implies is_dependent_update(
        bare(packages),
        #[trigger] all[k],
        placed(found, places)[k],
    ) by {
        assert(is_dependent_update(packages_at(packages, places), asked[k], found[k]));
        assert(0 <= found[k].0 < places.len());
        assert(0 <= places[found[k].0] < packages.len());
    }
}

/// The packages to check are packages.
proof fn lemma_checks_in_range(
    req: crate::request::UpdateRequest,
    packages: Seq<PackageDiff>,
    least: Option<VersionView>,
    n: int,
)
    ensures
        forall|k: int|
            0 <= k < checks_among(req, packages, least, n).len() ==> 0 <= (
            #[trigger] checks_among(req, packages, least, n)[k]) < n && packages[checks_among(
                req,
                packages,
                least,
                n,
            )[k]].may_follow(),
        forall|k: int|
            0 <= k < updates_among(req, packages, least, n).len() ==> 0 <= (
            #[trigger] updates_among(req, packages, least, n)[k]).0 < n,
    decreases n,
{
    if n > 0 {
        lemma_checks_in_range(req, packages, least, n - 1);
        let checks_before = checks_among(req, packages, least, n - 1);
        let checks = checks_among(req, packages, least, n);
        assert forall|k: int| 0 <= k < checks.len() implies 0 <= (#[trigger] checks[k]) < n
            && packages[checks[k]].may_follow() by {
            if k < checks_before.len() {
                assert(checks[k] == checks_before[k]);
            }
        }
        let updates_before = updates_among(req, packages, least, n - 1);
        let updates = updates_among(req, packages, least, n);
        assert forall|k: int| 0 <= k < updates.len() implies 0 <= (#[trigger] updates[k]).0 < n by {
            if k < updates_before.len() {
                assert(updates[k] == updates_before[k]);
            }
        }
    }
}

impl<'a> Updater<'a> {
    /// All updates of the packages, as the release mode has it.
    ///
    /// In the default mode, `workspace_version` is the version in the manifest of the workspace,
    /// and `dependencies_to_update` names the changed packages that a package has to follow. In
    /// the other modes, `next_rc_number` gives the number of a release candidate. It fails where
    /// the rules for increments of a package cannot be used.
    pub fn packages_to_update<
        F: Fn(&str, &Version) -> u64,
        G: Fn(&Package, &Vec<ChangedPackage>) -> Option<Vec<String>>,
    >(
        &self,
        packages_diffs: &Vec<PackageDiff>,
        workspace_version: Option<&Version>,
        next_rc_number: F,
        dependencies_to_update: G,
    ) -> (r: Result<PackagesUpdate, UpdateError>)
        requires
            self.is_within_limits(packages_diffs@),
            self.req.release_mode == ReleaseMode::Default ==> all_can_follow(
                dependencies_to_update,
                packages_diffs@,
            ),
            forall|name: &str, target: &Version| call_requires(next_rc_number, (name, target)),
            forall|p: &Package, changed: &Vec<ChangedPackage>|
                call_requires(dependencies_to_update, (p, changed)),
        ensures
            self.req.release_mode == ReleaseMode::Default ==> {
                let least = referenced_version(workspace_version);
                let n = packages_diffs@.len() as int;
                let own = updates_among(*self.req, packages_diffs@, least, n);
                &&& r is Ok <==> rules_are_valid(*self.req, packages_diffs@)
                &&& r matches Err(e) ==> reports_first(*self.req, packages_diffs@, e)
                &&& r matches Ok(u) ==> {
                    &&& optional_version(u.workspace_version) == workspace_version_of(
                        *self.req,
                        packages_diffs@,
                        inherited_names(packages_diffs@),
                        least,
                    )
                    &&& planned(u.updates@) == own
                    &&& are_dependents(
                        dependencies_to_update,
                        packages_diffs@,
                        checks_among(*self.req, packages_diffs@, least, n),
                        own,
                        u.dependents@,
                    )
                }
            },
            self.req.release_mode != ReleaseMode::Default ==> {
                let analysed = analysed_packages(packages_diffs@);
                &&& r is Ok <==> rules_are_valid(*self.req, analysed)
                &&& r matches Err(e) ==> reports_first(*self.req, analysed, e)
                &&& r matches Ok(u) ==> {
                    &&& u.workspace_version is None
                    &&& are_releases(
                        self.req.release_mode,
                        next_rc_number,
                        packages_diffs@,
                        release_targets(*self.project, *self.req, packages_diffs@),
                        planned(u.updates@),
                    )
                    &&& u.dependents@.len() == 0
                }
            },
    {
        match self.req.release_mode {
            ReleaseMode::Rc | ReleaseMode::Stable => {
                match self.packages_to_update_rc_stable(packages_diffs, next_rc_number) {
                    Ok(updates) => Ok(
                        PackagesUpdate { workspace_version: None, updates, dependents: Vec::new() },
                    ),
                    Err(e) => Err(e),
                }
            },
            ReleaseMode::Default => {
                match self.packages_to_update_default(packages_diffs, workspace_version) {
                    Ok(plan) => {
                        proof {
                            lemma_checks_in_range(
                                *self.req,
                                packages_diffs@,
                                referenced_version(workspace_version),
                                packages_diffs@.len() as int,
                            );
                        }
                        let dependents = updated_dependents(
                            packages_diffs,
                            &plan.packages_to_check_for_deps,
                            &plan.updates,
                            dependencies_to_update,
                        );
                        Ok(
                            PackagesUpdate {
                                workspace_version: plan.workspace_version,
                                updates: plan.updates,
                                dependents,
                            },
                        )
                    },
                    Err(e) => Err(e),
                }
            },
        }
    }
}

/// The updates of those of the packages at `places` that depend on packages in `updates`.
pub fn updated_dependents<G: Fn(&Package, &Vec<ChangedPackage>) -> Option<Vec<String>>>(
    packages_diffs: &Vec<PackageDiff>,
    places: &Vec<usize>,
    updates: &Vec<PlannedUpdate>,
    dependencies_to_update: G,
) -> (r: Vec<DependentUpdate>)
    requires
        all_can_follow(dependencies_to_update, packages_diffs@),
        forall|k: int|
            0 <= k < places@.len() ==> packages_diffs@[(#[trigger] indices(
                places@,
            )[k])].may_follow(),
        forall|k: int|
            0 <= k < places@.len() ==> (#[trigger] indices(places@)[k])
                < packages_diffs@.len(),
        forall|k: int|
            0 <= k < updates@.len() ==> (#[trigger] planned(updates@)[k]).0 < packages_diffs@.len(),
        forall|p: &Package, changed: &Vec<ChangedPackage>|
            call_requires(dependencies_to_update, (p, changed)),
    ensures
        are_dependents(
            dependencies_to_update,
            packages_diffs@,
            indices(places@),
            planned(updates@),
            r@,
        ),
{
    let ghost at = indices(places@);
    let ghost own = planned(updates@);
    let mut packages: Vec<&Package> = Vec::new();
    for k in 0..places.len()
        invariant
            at == indices(places@),
            forall|j: int| 0 <= j < places@.len() ==> (#[trigger] at[j]) < packages_diffs@.len(),
            packages@.len() == k,
            forall|j: int|
                0 <= j < k ==> *(#[trigger] packages@[j]) == packages_diffs@[at[j]].package,
    {
        assert(at[k as int] == places@[k as int]);
        let p = &packages_diffs[places[k]];
        packages.push(&p.package);
    }
    assert(referenced(packages@) =~= packages_at(packages_diffs@, at));
    let mut changed: Vec<ChangedPackage> = Vec::new();
    for k in 0..updates.len()
        invariant
            own == planned(updates@),
            forall|j: int| 0 <= j < updates@.len() ==> (#[trigger] own[j]).0 < packages_diffs@.len(),
            changed@.len() == k,
            forall|j: int|
                0 <= j < k ==> (#[trigger] changed_views(changed@)[j]) == (
                    packages_diffs@[own[j].0].package.name@,
                    own[j].1,
                ),
    {
        let u = &updates[k];
        let ghost before = changed@;
        assert(own[k as int] == (u.index as int, u.version@));
        changed.push(
            ChangedPackage {
                name: packages_diffs[u.index].package.name.clone(),
                version: u.version.clone(),
            },
        );
        assert forall|j: int| 0 <= j < k + 1 implies (#[trigger] changed_views(changed@)[j]) == (
            packages_diffs@[own[j].0].package.name@,
            own[j].1,
        ) by {
            if j < k {
                assert(changed_views(changed@)[j] == changed_views(before)[j]);
            }
        }
    }
    assert(changed_views(changed@) =~= changed_by(packages_diffs@, own));
    proof {
        let asked = packages_at(packages_diffs@, at);
        assert forall|i: int, c: &Vec<ChangedPackage>, answer: Option<Vec<String>>|
            0 <= i < asked.len() && #[trigger] call_ensures(
                dependencies_to_update,
                (&asked[i], c),
                answer,
            ) && answered_names(answer).len() > 0 implies asked[i].version@.can_follow() by {
            assert(packages_diffs@[at[i]].may_follow());
            assert(call_ensures(
                dependencies_to_update,
                (&packages_diffs@[at[i]].package, c),
                answer,
            ));
        }
    }
    let found = dependent_packages_update(&packages, changed, dependencies_to_update);
    let ghost asked = packages_at(packages_diffs@, at);
    let ghost initial = changed_by(packages_diffs@, own);
    let ghost local = found@;
    let ghost search = choose|search: Seq<(int, Seq<Seq<char>>)>| #[trigger]
        are_dependent_updates(asked, local, search) && rests_on_answers(
            dependencies_to_update,
            asked,
            initial,
            search,
        );
    let mut out: Vec<DependentUpdate> = Vec::new();
    for k in 0..found.len()
        invariant
            at == indices(places@),
            at.len() == places@.len(),
            local == found@,
            forall|j: int| 0 <= j < local.len() ==> (#[trigger] local[j]).index < places@.len(),
            out@.len() == k,
            forall|j: int|
                0 <= j < k ==> (#[trigger] out@[j]).version == local[j].version && out@[j].commit
                    == local[j].commit && out@[j].index == at[local[j].index as int],
    {
        let u = &found[k];
        assert(at[u.index as int] == places@[u.index as int]);
        out.push(
            DependentUpdate {
                index: places[u.index],
                version: u.version.clone(),
                commit: u.commit.clone(),
            },
        );
    }
    proof {
        lemma_placed(packages_diffs@, at, search, local, out@);
        assert(are_dependent_updates(bare(packages_diffs@), out@, placed(search, at)));
        assert forall|followed: Followed|
            #![trigger dependents_of(asked, initial, followed)]
            answers_as(dependencies_to_update, asked, followed) implies are_dependent_updates(
            bare(packages_diffs@),
            out@,
            placed(dependents_of(asked, initial, followed), at),
        ) by {
            crate::dependents::law_dependents_are_sound(asked, initial, followed);
            lemma_placed(
                packages_diffs@,
                at,
                dependents_of(asked, initial, followed),
                local,
                out@,
            );
        }
    }
    out
}

/// `c` holds the packages that are updated by their own changes, by name and new version, and behind
/// them those of the first `k` of `dependents`.
pub open spec fn is_changed_before(
    packages: Seq<PackageDiff>,
    updates: Seq<(int, VersionView)>,
    dependents: Seq<DependentUpdate>,
    k: int,
    c: Seq<ChangedPackage>,
) -> bool {
    &&& c.len() == updates.len() + k
    &&& forall|a: int|
        0 <= a < updates.len() ==> (#[trigger] c[a]).name@ == packages[updates[a].0].package.name@
            && c[a].version@ == updates[a].1
    &&& forall|j: int|
        0 <= j < k ==> (#[trigger] c[updates.len() + j]).name@
            == packages[dependents[j].index as int].package.name@ && c[updates.len() + j].version@
            == dependents[j].version@
}

/// A list with the names and versions of what changed so far holds just that.
proof fn lemma_changed_before(
    packages: Seq<PackageDiff>,
    places: Seq<int>,
    updates: Seq<(int, VersionView)>,
    dependents: Seq<DependentUpdate>,
    found: Seq<(int, Seq<Seq<char>>)>,
    k: int,
    c: Seq<ChangedPackage>,
)
    requires
        are_dependent_updates(bare(packages), dependents, placed(found, places)),
        forall|j: int| 0 <= j < found.len() ==> 0 <= (#[trigger] found[j]).0 < places.len(),
        forall|j: int| 0 <= j < places.len() ==> 0 <= #[trigger] places[j] < packages.len(),
        0 <= k <= found.len(),
        changed_views(c) == changed_so_far(
            packages_at(packages, places),
            changed_by(packages, updates),
            found.take(k),
        ),
    ensures
        is_changed_before(packages, updates, dependents, k, c),
{
    let initial = changed_by(packages, updates);
    let all = changed_so_far(packages_at(packages, places), initial, found.take(k));
    assert(changed_views(c).len() == c.len());
    assert forall|a: int| 0 <= a < updates.len() implies (#[trigger] c[a]).name@
        == packages[updates[a].0].package.name@ && c[a].version@ == updates[a].1 by {
        assert(changed_views(c)[a] == all[a]);
        assert(all[a] == initial[a]);
    }
    assert forall|j: int| 0 <= j < k implies (#[trigger] c[updates.len() + j]).name@
        == packages[dependents[j].index as int].package.name@ && c[updates.len() + j].version@
        == dependents[j].version@ by {
        assert(changed_views(c)[updates.len() + j] == all[updates.len() + j]);
        assert(found.take(k)[j] == found[j]);
        assert(0 <= places[found[j].0] < packages.len());
        assert(is_dependent_update(bare(packages), dependents[j], placed(found, places)[j]));
    }
}

/// What is updated because of dependencies: packages that were to be checked, none that is updated by
/// its own changes, and none twice. The version of each is higher than the one in the manifest, by
/// the patch alone or by the prerelease alone. Each rests on an answer that named at least one
/// package, given for all that is updated by own changes and for the dependents before it; the
/// message of its commit names just the packages of that answer.
pub proof fn law_updated_dependents<G: Fn(&Package, &Vec<ChangedPackage>) -> Option<Vec<String>>>(
    dependencies_to_update: G,
    packages: Seq<PackageDiff>,
    places: Seq<int>,
    updates: Seq<(int, VersionView)>,
    dependents: Seq<DependentUpdate>,
    k: int,
)
    requires
        are_dependents(dependencies_to_update, packages, places, updates, dependents),
        forall|j: int| 0 <= j < places.len() ==> 0 <= #[trigger] places[j] < packages.len(),
        0 <= k < dependents.len(),
    ensures
        ({
            let u = dependents[k];
            let p = packages[u.index as int].package;
            &&& places.contains(u.index as int)
            &&& p.version@.valid() ==> {
                &&& p.version@.lower(u.version@)
                &&& u.version@.major == p.version@.major
                &&& u.version@.minor == p.version@.minor
                &&& u.version@.build == p.version@.build
                &&& p.version@.pre.len() == 0 ==> u.version@.patch == p.version@.patch + 1
                    && u.version@.pre.len() == 0
                &&& p.version@.pre.len() > 0 ==> u.version@.patch == p.version@.patch
                    && u.version@.pre.len() > 0
            }
            &&& forall|j: int|
                0 <= j < dependents.len() && j != k ==> packages[(
                #[trigger] dependents[j]).index as int].package.name@ != p.name@
            &&& forall|a: int|
                0 <= a < updates.len() ==> packages[(#[trigger] updates[a]).0].package.name@
                    != p.name@
            &&& exists|c: &Vec<ChangedPackage>, answer: Option<Vec<String>>|
                #[trigger] call_ensures(dependencies_to_update, (&p, c), answer)
                    && is_changed_before(packages, updates, dependents, k, c@) && answer is Some
                    && answer->0@.len() > 0 && u.commit.message@
                    == "chore: updated the following local packages: "@ + joined(
                    views(answer->0@),
                    ", "@,
                )
        }),
{
    let asked = packages_at(packages, places);
    let initial = changed_by(packages, updates);
    let found = choose|found: Seq<(int, Seq<Seq<char>>)>|
        are_dependent_updates(bare(packages), dependents, #[trigger] placed(found, places))
            && rests_on_answers(dependencies_to_update, asked, initial, found);
    let all = placed(found, places);
    let u = dependents[k];
    assert(is_dependent_update(bare(packages), u, all[k]));
    assert forall|j: int| 0 <= j < found.len() implies 0 <= (#[trigger] found[j]).0
        < places.len() by {
        assert(0 <= found[j].0 < asked.len());
    }
    assert(0 <= found[k].0 < places.len());
    assert(places[found[k].0] == u.index);
    let p = asked[found[k].0];
    assert(p == packages[u.index as int].package);
    if p.version@.valid() {
        law_dependent_version(p.version@);
    }
    assert forall|j: int| 0 <= j < dependents.len() && j != k implies packages[(
    #[trigger] dependents[j]).index as int].package.name@ != p.name@ by {
        assert(is_dependent_update(bare(packages), dependents[j], all[j]));
        assert(0 <= found[j].0 < places.len());
        assert(places[found[j].0] == dependents[j].index);
        let (x, y) = if j < k {
            (j, k)
        } else {
            (k, j)
        };
        let before = changed_so_far(asked, initial, found.take(y));
        assert(found.take(y)[x] == found[x]);
        assert(before[initial.len() + x].0 == asked[found[x].0].name@);
        assert(!is_changed(before, asked[found[y].0].name@));
    }
    assert forall|a: int| 0 <= a < updates.len() implies packages[(
    #[trigger] updates[a]).0].package.name@ != p.name@ by {
        let before = changed_so_far(asked, initial, found.take(k));
        assert(before[a] == initial[a]);
    }
    assert(was_answered(
        dependencies_to_update,
        asked[found[k].0],
        changed_so_far(asked, initial, found.take(k)),
        found[k].1,
    ));
    let (c, answer) = choose|c: &Vec<ChangedPackage>, answer: Option<Vec<String>>|
        changed_views(c@) == changed_so_far(asked, initial, found.take(k))
            && #[trigger] call_ensures(dependencies_to_update, (&p, c), answer) && answered_names(
            answer,
        ) == found[k].1;
    lemma_changed_before(packages, places, updates, dependents, found, k, c@);
    assert(call_ensures(dependencies_to_update, (&p, c), answer));
}

/// Who is not updated because of dependencies: a package that was to be checked and has none of the
/// names of updated packages was asked about with all that is updated, and no package was named.
pub proof fn law_packages_that_follow_none<
    G: Fn(&Package, &Vec<ChangedPackage>) -> Option<Vec<String>>,
>(
    dependencies_to_update: G,
    packages: Seq<PackageDiff>,
    places: Seq<int>,
    updates: Seq<(int, VersionView)>,
    dependents: Seq<DependentUpdate>,
    i: int,
)
    requires
        are_dependents(dependencies_to_update, packages, places, updates, dependents),
        forall|j: int| 0 <= j < places.len() ==> 0 <= #[trigger] places[j] < packages.len(),
        places.contains(i),
        forall|k: int|
            0 <= k < dependents.len() ==> packages[(
            #[trigger] dependents[k]).index as int].package.name@ != packages[i].package.name@,
        forall|a: int|
            0 <= a < updates.len() ==> packages[(#[trigger] updates[a]).0].package.name@
                != packages[i].package.name@,
    ensures
        exists|c: &Vec<ChangedPackage>, answer: Option<Vec<String>>|
            #[trigger] call_ensures(dependencies_to_update, (&packages[i].package, c), answer)
                && is_changed_before(packages, updates, dependents, dependents.len() as int, c@) && (
            answer is None || answer->0@.len() == 0),
{
    let asked = packages_at(packages, places);
    let initial = changed_by(packages, updates);
    let found = choose|found: Seq<(int, Seq<Seq<char>>)>|
        are_dependent_updates(bare(packages), dependents, #[trigger] placed(found, places))
            && rests_on_answers(dependencies_to_update, asked, initial, found);
    let all = placed(found, places);
    let at = choose|at: int| 0 <= at < places.len() && places[at] == i;
    let p = asked[at];
    assert(p == packages[i].package);
    assert forall|j: int| 0 <= j < found.len() implies 0 <= (#[trigger] found[j]).0
        < places.len() by {
        assert(0 <= found[j].0 < asked.len());
    }
    assert(found.take(found.len() as int) =~= found);
    let changed = changed_so_far(asked, initial, found);
    if is_changed(changed, p.name@) {
        let c = choose|c: int| 0 <= c < changed.len() && (#[trigger] changed[c]).0 == p.name@;
        if c < initial.len() {
            assert(packages[updates[c].0].package.name@ == p.name@);
        } else {
            let k = c - initial.len();
            assert(is_dependent_update(bare(packages), dependents[k], all[k]));
            assert(0 <= found[k].0 < places.len());
            assert(places[found[k].0] == dependents[k].index);
            assert(packages[dependents[k].index as int].package.name@ == p.name@);
        }
    }
    assert(was_answered(dependencies_to_update, p, changed, Seq::empty()));
    let (c, answer) = choose|c: &Vec<ChangedPackage>, answer: Option<Vec<String>>|
        changed_views(c@) == changed && #[trigger] call_ensures(
            dependencies_to_update,
            (&p, c),
            answer,
        ) && answered_names(answer) == Seq::<Seq<char>>::empty();
    lemma_changed_before(packages, places, updates, dependents, found, found.len() as int, c@);
    assert(call_ensures(dependencies_to_update, (&packages[i].package, c), answer));
    if let Some(names) = answer {
        assert(views(names@).len() == names@.len());
    }
}

/// All updates in the default mode. A package is updated by its own changes exactly where it has
/// commits that ask for a release and its next version is another than in the manifest, or it is new,
/// or already raised with changes since; then to its next version. A package is updated because of
/// its dependencies only where it has no such commits, or where its version was published and stays.
pub proof fn law_updates_by_default<
    F: Fn(&str, &Version) -> u64,
    G: Fn(&Package, &Vec<ChangedPackage>) -> Option<Vec<String>>,
>(
    updater: &Updater,
    packages_diffs: &Vec<PackageDiff>,
    workspace_version: Option<&Version>,
    next_rc_number: F,
    dependencies_to_update: G,
    r: Result<PackagesUpdate, UpdateError>,
    i: int,
)
    requires
        updater.req.release_mode == ReleaseMode::Default,
        call_ensures(
            Updater::packages_to_update::<F, G>,
            (updater, packages_diffs, workspace_version, next_rc_number, dependencies_to_update),
            r,
        ),
        r is Ok,
        0 <= i < packages_diffs@.len(),
    ensures
        ({
            let all = r->Ok_0;
            let p = packages_diffs@[i];
            let next = next_version_among(
                *updater.req,
                packages_diffs@,
                referenced_version(workspace_version),
                p,
            );
            let is_updated = p.has_release_commits && (next != p.package.version@
                || !p.diff.registry_package_exists || (!p.diff.is_version_published
                && p.diff.commits@.len() > 0));
            &&& is_updated <==> exists|k: int|
                0 <= k < all.updates@.len() && (#[trigger] all.updates@[k]).index == i
            &&& forall|k: int|
                0 <= k < all.updates@.len() && (#[trigger] all.updates@[k]).index == i
                    ==> all.updates@[k].version@ == next
            &&& forall|a: int, b: int|
                0 <= a < b < all.updates@.len() ==> (#[trigger] all.updates@[a]).index < (
                #[trigger] all.updates@[b]).index
            &&& forall|k: int|
                0 <= k < all.dependents@.len() && (#[trigger] all.dependents@[k]).index == i
                    ==> !is_updated && (!p.has_release_commits || p.diff.is_version_published)
        }),
{
    let n = packages_diffs@.len() as int;
    let least = referenced_version(workspace_version);
    let all = r->Ok_0;
    let own = updates_among(*updater.req, packages_diffs@, least, n);
    let places = checks_among(*updater.req, packages_diffs@, least, n);
    let p = packages_diffs@[i];
    law_default_updates(*updater.req, packages_diffs@, least, i);
    law_planned_updates(all.updates@, Seq::empty());
    let next = next_version_among(*updater.req, packages_diffs@, least, p);
    if exists|k: int| 0 <= k < own.len() && (#[trigger] own[k]).0 == i {
        let k = choose|k: int| 0 <= k < own.len() && (#[trigger] own[k]).0 == i;
        assert(planned(all.updates@)[k] == own[k]);
        assert(all.updates@[k].index == i);
        let m = choose|m: int| 0 <= m < own.len() && own[m] == (i, next);
        assert(m == k);
    }
    assert forall|k: int|
        0 <= k < all.updates@.len() && (#[trigger] all.updates@[k]).index == i implies exists|m: int|
        0 <= m < own.len() && (#[trigger] own[m]).0 == i by {
        assert(planned(all.updates@)[k] == own[k]);
    }
    assert forall|k: int|
        0 <= k < all.updates@.len() && (
        #[trigger] all.updates@[k]).index == i implies all.updates@[k].version@ == next by {
        assert(planned(all.updates@)[k] == own[k]);
        let m = choose|m: int| 0 <= m < own.len() && own[m] == (i, next);
        if m != k {
            assert(own[m].0 == own[k].0);
        }
    }
    assert forall|a: int, b: int| 0 <= a < b < all.updates@.len() implies (
    #[trigger] all.updates@[a]).index < (#[trigger] all.updates@[b]).index by {
        assert(planned(all.updates@)[a] == own[a]);
        assert(planned(all.updates@)[b] == own[b]);
    }
    assert forall|k: int|
        0 <= k < all.dependents@.len() && (
        #[trigger] all.dependents@[k]).index == i implies places.contains(i) by {
        law_updated_dependents(
            dependencies_to_update,
            packages_diffs@,
            places,
            own,
            all.dependents@,
            k,
        );
    }
}

/// All updates in the other modes: those of the targets alone, with no version of the workspace and
/// without dependents, which are among the targets already. A stable release is the target, and a
/// release candidate stands for it, with the number that was given for it.
pub proof fn law_updates_by_targets<
    F: Fn(&str, &Version) -> u64,
    G: Fn(&Package, &Vec<ChangedPackage>) -> Option<Vec<String>>,
>(
    updater: &Updater,
    packages_diffs: &Vec<PackageDiff>,
    workspace_version: Option<&Version>,
    next_rc_number: F,
    dependencies_to_update: G,
    r: Result<PackagesUpdate, UpdateError>,
    k: int,
)
    requires
        updater.req.release_mode != ReleaseMode::Default,
        call_ensures(
            Updater::packages_to_update::<F, G>,
            (updater, packages_diffs, workspace_version, next_rc_number, dependencies_to_update),
            r,
        ),
        r is Ok,
        0 <= k < release_targets(*updater.project, *updater.req, packages_diffs@).len(),
    ensures
        ({
            let all = r->Ok_0;
            let targets = release_targets(*updater.project, *updater.req, packages_diffs@);
            let u = all.updates@[k];
            let target = targets[k].1;
            &&& all.workspace_version is None
            &&& all.dependents@.len() == 0
            &&& all.updates@.len() == targets.len()
            &&& u.index == targets[k].0
            &&& updater.req.release_mode == ReleaseMode::Stable ==> u.version@ == target
            &&& updater.req.release_mode == ReleaseMode::Rc ==> {
                &&& u.version@.major == target.major
                &&& u.version@.minor == target.minor
                &&& u.version@.patch == target.patch
                &&& u.version@.build == target.build
                &&& exists|name: &str, t: &Version, rc_num: u64|
                    name@ == packages_diffs@[u.index as int].package.name@ && t@ == target
                        && #[trigger] call_ensures(next_rc_number, (name, t), rc_num)
                        && u.version@.pre == seq!['r', 'c', '.'] + decimal(rc_num as nat)
            }
        }),
{
    let all = r->Ok_0;
    let targets = release_targets(*updater.project, *updater.req, packages_diffs@);
    law_releases_of_targets(
        updater.req.release_mode,
        next_rc_number,
        packages_diffs@,
        targets,
        planned(all.updates@),
    );
    law_planned_updates(all.updates@, Seq::empty());
    assert(planned(all.updates@)[k].0 == all.updates@[k].index);
}

/// Numbers that are not at their limits are room enough, in every mode.
pub proof fn law_room_is_enough(updater: &Updater, packages_diffs: &Vec<PackageDiff>, r: bool)
    requires
        call_ensures(Updater::have_room, (updater, packages_diffs), r),
        forall|i: int|
            0 <= i < packages_diffs@.len() ==> {
                let v = (#[trigger] packages_diffs@[i]).base();
                &&& v.major < u64::MAX
                &&& v.minor < u64::MAX
                &&& v.patch < u64::MAX
                &&& v.pre.len() > 0 ==> prerelease_number(v.pre) != Some(u32::MAX as nat)
            },
    ensures
        r,
{
    let packages = packages_diffs@;
    assert forall|i: int| 0 <= i < packages.len() implies (#[trigger] packages[i]).can_update()
        && packages[i].can_be_analysed() && packages[i].base().has_room() by {}
}

/// A version can follow its dependencies unless the number that this raises is at its limit.
pub proof fn law_versions_that_can_follow(v: &Version, r: bool)
    requires
        call_ensures(Version::can_follow, (v,), r),
    ensures
        v@.pre.len() == 0 ==> r == (v@.patch < u64::MAX),
        v@.pre.len() > 0 ==> r == (prerelease_number(v@.pre) != Some(u32::MAX as nat)),
{
}

/// The new version of the workspace among all updates is the highest next version of the packages that
/// take their version from it, where that is not below the one it has; else it has no new one. Updates
/// fail exactly where a pattern of a package does not compile.
pub proof fn law_workspace_among_updates<
    F: Fn(&str, &Version) -> u64,
    G: Fn(&Package, &Vec<ChangedPackage>) -> Option<Vec<String>>,
>(
    updater: &Updater,
    packages_diffs: &Vec<PackageDiff>,
    workspace_version: Option<&Version>,
    next_rc_number: F,
    dependencies_to_update: G,
    r: Result<PackagesUpdate, UpdateError>,
)
    requires
        updater.req.release_mode == ReleaseMode::Default,
        call_ensures(
            Updater::packages_to_update::<F, G>,
            (updater, packages_diffs, workspace_version, next_rc_number, dependencies_to_update),
            r,
        ),
    ensures
        r is Ok <==> forall|i: int|
            0 <= i < packages_diffs@.len() ==> (#[trigger] packages_diffs@[i]).updater(
                *updater.req,
            ).valid(),
        r is Err ==> r->Err_0 is InvalidRegex,
        r matches Ok(u) ==> {
            let req = *updater.req;
            &&& workspace_version is None ==> u.workspace_version is None
            &&& workspace_version matches Some(least) ==> {
                &&& u.workspace_version is Some <==> exists|m: int|
                    0 <= m < packages_diffs@.len() && is_inherited(
                        packages_diffs@,
                        (#[trigger] packages_diffs@[m]).package.name@,
                    ) && !packages_diffs@[m].next(req).lower(least@)
                &&& u.workspace_version matches Some(v) ==> forall|m: int|
                    0 <= m < packages_diffs@.len() && is_inherited(
                        packages_diffs@,
                        (#[trigger] packages_diffs@[m]).package.name@,
                    ) ==> !v@.lower(packages_diffs@[m].next(req))
            }
        },
{
    if let Some(least) = workspace_version {
        law_new_workspace_version(*updater.req, packages_diffs@, least@);
    }
    if let Err(e) = r {
        law_reported_pattern(*updater.req, packages_diffs@, e);
    }
}

} // verus!
