//! Release candidates and stable versions, with bumps propagated to dependents.
use vstd::prelude::*;
use vstd::string::*;

#[allow(unused_imports)]
use crate::diff::messages_of;
#[allow(unused_imports)]
use crate::increment::incremented;
#[allow(unused_imports)]
use crate::decimal::decimal;
#[allow(unused_imports)]
use crate::package::{law_propagated_names, propagated_names, DependencyKind, Package};
#[allow(unused_imports)]
use crate::processing::{
    are_acyclic, git_only_packages, law_packages_to_process, law_release_order, listed_packages,
    names_of, needs, packages_of, referenced,
};
use crate::propagate::propagate_bumps;
#[allow(unused_imports)]
use crate::propagate::{
    are_raised_within, depends_on, entries_of, entry_index, is_listed, is_release_order,
    law_bumps_reach_dependents, law_entry_of_a_name, law_levels_settle, law_propagated_domain,
    law_raised_packages, lemma_entry_index, propagated, Entry,
};
use crate::rc::release_candidate;
#[allow(unused_imports)]
use crate::rc::{law_candidate_above_base, law_candidate_below_target, rc_text};
#[allow(unused_imports)]
use crate::request::Project;
use crate::request::{ReleaseMode, UpdateError, UpdateRequest};
use crate::semver::{Version, VersionView};
#[allow(unused_imports)]
use crate::text::views;
use crate::updater::{PackageDiff, PlannedUpdate, Updater};
#[allow(unused_imports)]
use crate::updater::{bare, planned, reports_first, rules_are_valid};
use crate::version::BumpLevel;
#[allow(unused_imports)]
use crate::version::{law_apply_of_compute, law_bump_raises};

verus! {

impl<'a> Updater<'a> {
    /// The level of a package's bump by its own commits. A package without commits, or that is
    /// new, has none. It fails where there are commits and the rules for increments cannot be
    /// used.
    ///
    /// Counted from a stable version, applying the level gives the very version that the
    /// commits ask for.
    pub fn own_bump(&self, p: &PackageDiff) -> (r: Result<BumpLevel, UpdateError>)
        requires
            p.can_be_analysed(),
        ensures
            r is Ok <==> (p.is_analysed() ==> p.updater(*self.req).valid()),
            r matches Ok(level) ==> level == p.own_level(*self.req),
            r matches Ok(level) ==> (level != BumpLevel::NoBump <==> p.raises_itself()),
            r matches Ok(level) ==> p.is_analysed() && p.base().is_stable() ==> level.applied(
                p.base(),
            ) == incremented(p.updater(*self.req), p.base(), messages_of(p.diff.commits@)),
            r matches Err(e) ==> self.req.config(p.package.name@).generic.reports(e),
    {
        if p.diff.commits.len() == 0 || !p.diff.registry_package_exists {
            return Ok(BumpLevel::NoBump);
        }
        let config = self.req.get_package_config(p.package.name.as_str());
        match config.generic.version_updater() {
            Ok(version_updater) => {
                let messages = p.diff.messages();
                assert(views(messages@).len() == messages@.len());
                let base = p.base_version();
                let next = version_updater.increment(base, &messages);
                proof {
                    if base@.is_stable() {
                        law_apply_of_compute(base@, next@);
                    }
                }
                Ok(BumpLevel::compute(base, &next))
            },
            Err(e) => Err(e),
        }
    }

    /// The level of each package's bump by its own commits. It fails where the rules for
    /// increments of a package with commits cannot be used.
    pub fn own_bumps(&self, packages_diffs: &Vec<PackageDiff>) -> (r: Result<
        Vec<BumpLevel>,
        UpdateError,
    >)
        requires
            all_can_be_analysed(packages_diffs@),
        ensures
            r is Ok <==> rules_are_valid(*self.req, analysed_packages(packages_diffs@)),
            r matches Err(e) ==> reports_first(*self.req, analysed_packages(packages_diffs@), e),
            r matches Ok(levels) ==> levels@ == own_levels(*self.req, packages_diffs@),
            r matches Ok(levels) ==> forall|i: int|
                0 <= i < levels@.len() ==> (#[trigger] levels@[i] != BumpLevel::NoBump
                    <==> packages_diffs@[i].raises_itself()),
    {
        let ghost req = *self.req;
        let mut levels: Vec<BumpLevel> = Vec::new();
        for i in 0..packages_diffs.len()
            invariant
                req == *self.req,
                all_can_be_analysed(packages_diffs@),
                rules_are_valid(req, analysed_packages(packages_diffs@.take(i as int))),
                levels@.len() == i,
                forall|j: int| 0 <= j < i ==> levels@[j] == packages_diffs@[j].own_level(req),
                forall|j: int|
                    0 <= j < i ==> (#[trigger] levels@[j] != BumpLevel::NoBump
                        <==> packages_diffs@[j].raises_itself()),
        {
            let p = &packages_diffs[i];
            let ghost seen = packages_diffs@.take(i as int);
            let ghost now = packages_diffs@.take(i + 1);
            let ghost picked = analysed_packages(seen);
            proof {
                assert(now.drop_last() =~= seen);
                assert(now.last() == *p);
                assert(p.can_be_analysed());
            }
            match self.own_bump(p) {
                Ok(level) => {
                    levels.push(level);
                },
                Err(e) => {
                    proof {
                        lemma_analysed_prefix(packages_diffs@, i + 1);
                        let all = analysed_packages(packages_diffs@);
                        let k = picked.len() as int;
                        assert(all[k] == picked.push(*p)[k]);
                        assert(all.take(k) =~= picked);
                    }
                    return Err(e);
                },
            }
            proof {
                let picked_now = analysed_packages(now);
                assert forall|j: int| 0 <= j < picked_now.len() implies (
                #[trigger] picked_now[j]).updater(req).valid() by {
                    if j < picked.len() {
                        assert(picked[j] == picked_now[j]);
                    }
                }
            }
        }
        assert(packages_diffs@.take(packages_diffs@.len() as int) =~= packages_diffs@);
        assert(levels@ =~= own_levels(req, packages_diffs@));
        Ok(levels)
    }

    /// The packages to release and their versions, with bumps propagated from packages to those
    /// that depend on them. For a release candidate, `next_rc_number` gives its number, from the
    /// name of the package and the stable version that it is released for. It fails where the
    /// rules for increments of a package with commits cannot be used.
    pub fn packages_to_update_rc_stable<F: Fn(&str, &Version) -> u64>(
        &self,
        packages_diffs: &Vec<PackageDiff>,
        next_rc_number: F,
    ) -> (r: Result<Vec<PlannedUpdate>, UpdateError>)
        requires
            self.req.release_mode != ReleaseMode::Default,
            all_can_be_analysed(packages_diffs@),
            raised_have_room(packages_diffs@, names_of(packages_of(*self.project, *self.req))),
            forall|name: &str, target: &Version| call_requires(next_rc_number, (name, target)),
        ensures
            r is Ok <==> rules_are_valid(*self.req, analysed_packages(packages_diffs@)),
            r matches Err(e) ==> reports_first(*self.req, analysed_packages(packages_diffs@), e),
            r matches Ok(updates) ==> are_releases(
                self.req.release_mode,
                next_rc_number,
                packages_diffs@,
                release_targets(*self.project, *self.req, packages_diffs@),
                planned(updates@),
            ),
    {
        let own_bumps = match self.own_bumps(packages_diffs) {
            Ok(levels) => levels,
            Err(e) => {
                return Err(e);
            },
        };
        let ordered_names = self.ordered_names();
        proof {
            lemma_raised_fit(packages_diffs@, own_bumps@, views(ordered_names@));
        }
        let targets = stable_targets(packages_diffs, &own_bumps, &ordered_names);
        let mut updates: Vec<PlannedUpdate> = Vec::new();
        let ghost all = planned(targets@);
        proof {
            lemma_targets_in_range(
                packages_diffs@,
                own_bumps@,
                views(ordered_names@),
                packages_diffs@.len() as int,
            );
        }
        for k in 0..targets.len()
            invariant
                self.req.release_mode != ReleaseMode::Default,
                forall|name: &str, target: &Version| call_requires(next_rc_number, (name, target)),
                all == planned(targets@),
                all.len() == targets@.len(),
                forall|j: int|
                    0 <= j < all.len() ==> 0 <= (#[trigger] all[j]).0 < packages_diffs@.len(),
                are_releases(
                    self.req.release_mode,
                    next_rc_number,
                    packages_diffs@,
                    all.take(k as int),
                    planned(updates@),
                ),
        {
            let target = &targets[k];
            let ghost before = updates@;
            assert(all[k as int] == (target.index as int, target.version@));
            let name = packages_diffs[target.index].package.name.as_str();
            let version = match self.req.release_mode {
                ReleaseMode::Rc => {
                    let rc_num: u64 = next_rc_number(name, &target.version);
                    release_candidate(&target.version, rc_num)
                },
                _ => target.version.clone(),
            };
            let ghost released = version@;
            updates.push(PlannedUpdate { index: target.index, version });
            proof {
                let now = planned(updates@);
                let done = all.take(k + 1);
                assert(now =~= planned(before).push((target.index as int, released)));
                assert forall|j: int| 0 <= j < now.len() implies (#[trigger] now[j]).0 == done[j].0
                    && is_release(
                    self.req.release_mode,
                    next_rc_number,
                    packages_diffs@[done[j].0].package.name@,
                    done[j].1,
                    now[j].1,
                ) by {
                    if j < k {
                        assert(now[j] == planned(before)[j]);
                        assert(done[j] == all.take(k as int)[j]);
                    }
                }
            }
        }
        assert(all.take(targets@.len() as int) =~= all);
        Ok(updates)
    }
}

impl<'a> Updater<'a> {
    /// The names of the packages to process, in release order.
    pub fn ordered_names(&self) -> (r: Vec<String>)
        ensures
            views(r@) == names_of(packages_of(*self.project, *self.req)),
    {
        let packages = self.packages_to_process();
        let mut ordered_names: Vec<String> = Vec::new();
        for i in 0..packages.len()
            invariant
                ordered_names@.len() == i,
                forall|j: int|
                    0 <= j < i ==> (#[trigger] ordered_names@[j])@ == packages@[j].name@,
        {
            ordered_names.push(packages[i].name.clone());
        }
        assert(views(ordered_names@) =~= names_of(referenced(packages@)));
        ordered_names
    }

    /// Whether no number of the packages that are raised in release candidates and stable versions
    /// is at its limit.
    pub fn have_room_to_rise(&self, packages_diffs: &Vec<PackageDiff>) -> (r: bool)
        ensures
            r == (all_can_be_analysed(packages_diffs@) && raised_have_room(
                packages_diffs@,
                names_of(packages_of(*self.project, *self.req)),
            )),
    {
        let ordered_names = self.ordered_names();
        let ghost order = views(ordered_names@);
        let mut levels: Vec<BumpLevel> = Vec::new();
        for i in 0..packages_diffs.len()
            invariant
                levels@.len() == i,
                forall|j: int| 0 <= j < i ==> levels@[j] == packages_diffs@[j].possible_level(),
                forall|j: int| 0 <= j < i ==> (#[trigger] packages_diffs@[j]).can_be_analysed(),
        {
            let p = &packages_diffs[i];
            let is_analysed = p.diff.registry_package_exists && p.diff.commits.len() > 0;
            if is_analysed && !p.base_version().can_increment() {
                assert(!packages_diffs@[i as int].can_be_analysed());
                return false;
            }
            levels.push(
                if is_analysed && !p.base_version().is_prerelease() {
                    BumpLevel::Major
                } else {
                    BumpLevel::NoBump
                },
            );
        }
        assert(levels@ =~= possible_levels(packages_diffs@));
        let entries = propagation_entries(packages_diffs, &levels);
        let final_bumps = propagate_bumps(&entries, &ordered_names);
        for i in 0..packages_diffs.len()
            invariant
                order == names_of(packages_of(*self.project, *self.req)),
                final_bumps@ == propagated(
                    package_entries(packages_diffs@, possible_levels(packages_diffs@)),
                    order,
                ),
                forall|j: int|
                    0 <= j < i ==> is_raised(packages_diffs@, order, #[trigger] packages_diffs@[j])
                        ==> packages_diffs@[j].base().has_room(),
        {
            let p = &packages_diffs[i];
            let base = p.base_version();
            let level = match final_bumps.get(p.package.name.as_str()) {
                Some(level) => *level,
                None => BumpLevel::NoBump,
            };
            if p.diff.registry_package_exists && level != BumpLevel::NoBump && !base.has_room() {
                assert(is_raised(packages_diffs@, order, packages_diffs@[i as int]));
                return false;
            }
        }
        true
    }
}

/// `version` is what a package called `name` is released with, for the stable version `target`: a
/// release candidate with the number that `next_rc_number` gave, or the stable version itself.
pub open spec fn is_release<F: Fn(&str, &Version) -> u64>(
    mode: ReleaseMode,
    next_rc_number: F,
    name: Seq<char>,
    target: VersionView,
    version: VersionView,
) -> bool {
    if mode == ReleaseMode::Rc {
        exists|n: &str, t: &Version, rc_num: u64|
            n@ == name && t@ == target && #[trigger] call_ensures(next_rc_number, (n, t), rc_num)
                && version == released_version(mode, target, rc_num as nat)
    } else {
        version == target
    }
}

/// `releases` are the releases of packages at the places, and for the stable versions, that
/// `targets` gives.
pub open spec fn are_releases<F: Fn(&str, &Version) -> u64>(
    mode: ReleaseMode,
    next_rc_number: F,
    packages: Seq<PackageDiff>,
    targets: Seq<(int, VersionView)>,
    releases: Seq<(int, VersionView)>,
) -> bool {
    &&& releases.len() == targets.len()
    &&& forall|k: int|
        0 <= k < releases.len() ==> (#[trigger] releases[k]).0 == targets[k].0 && is_release(
            mode,
            next_rc_number,
            packages[targets[k].0].package.name@,
            targets[k].1,
            releases[k].1,
        )
}

/// The answers of `next_rc_number` are those of `number`, from one on.
pub open spec fn are_numbered<F: Fn(&str, &Version) -> u64>(
    next_rc_number: F,
    number: spec_fn(Seq<char>, VersionView) -> nat,
) -> bool {
    forall|name: &str, target: &Version, rc_num: u64| #[trigger]
        call_ensures(next_rc_number, (name, target), rc_num) ==> rc_num >= 1 && rc_num == number(
            name@,
            target@,
        )
}

/// Release candidates and stable versions agree: from the same changes, both modes release the
/// same packages in the same order. The stable version of a package is its base version with its
/// level applied, or the version in the manifest of a new package. Its release candidate is that
/// stable version with a prerelease, whose number is the next one for the stable version.
pub proof fn law_candidates_stand_for_stable_versions<
    F: Fn(&str, &Version) -> u64,
    G: Fn(&str, &Version) -> u64,
>(
    project: Project,
    stable: UpdateRequest,
    packages: Seq<PackageDiff>,
    not_asked: F,
    next_rc_number: G,
    number: spec_fn(Seq<char>, VersionView) -> nat,
    versions: Seq<(int, VersionView)>,
    candidates: Seq<(int, VersionView)>,
)
    requires
        stable.release_mode == ReleaseMode::Stable,
        are_numbered(next_rc_number, number),
        are_releases(
            ReleaseMode::Stable,
            not_asked,
            packages,
            release_targets(project, stable, packages),
            versions,
        ),
        are_releases(
            ReleaseMode::Rc,
            next_rc_number,
            packages,
            release_targets(
                project,
                UpdateRequest { release_mode: ReleaseMode::Rc, ..stable },
                packages,
            ),
            candidates,
        ),
    ensures
        candidates.len() == versions.len(),
        forall|k: int|
            0 <= k < versions.len() ==> {
                let (i, version) = #[trigger] versions[k];
                let p = packages[i];
                let rc_num = number(p.package.name@, version);
                let level = final_level(
                    packages,
                    own_levels(stable, packages),
                    names_of(packages_of(project, stable)),
                    p.package.name@,
                );
                &&& 0 <= i < packages.len()
                &&& version == (if p.diff.registry_package_exists {
                    level.applied(p.base())
                } else {
                    p.package.version@
                })
                &&& candidates[k] == (i, VersionView { pre: rc_text(rc_num), ..version })
                &&& rc_num >= 1
            },
{
    let rc = UpdateRequest { release_mode: ReleaseMode::Rc, ..stable };
    let own = own_levels(stable, packages);
    let order = names_of(packages_of(project, stable));
    let n = packages.len() as int;
    lemma_same_packages(project, stable, rc);
    assert(own_levels(rc, packages) =~= own);
    lemma_targets_in_range(packages, own, order, n);
    lemma_targets_are_those(packages, own, order, n);
    let targets = targets_among(packages, own, order, n);
    assert forall|k: int| 0 <= k < versions.len() implies candidates[k].0 == (
    #[trigger] versions[k]).0 && versions[k] == targets[k] && candidates[k].1 == (VersionView {
        pre: rc_text(number(packages[versions[k].0].package.name@, versions[k].1)),
        ..versions[k].1
    }) && number(packages[versions[k].0].package.name@, versions[k].1) >= 1 by {
        assert(candidates[k].0 == targets[k].0);
    }
}

/// How packages are released does not change which packages are processed.
proof fn lemma_same_packages(project: Project, a: UpdateRequest, b: UpdateRequest)
    requires
        b == (UpdateRequest { release_mode: b.release_mode, ..a }),
    ensures
        packages_of(project, a) == packages_of(project, b),
{
    lemma_same_git_only(a, b, project.workspace_packages@);
}

/// How packages are released does not change which are released from git alone.
proof fn lemma_same_git_only(a: UpdateRequest, b: UpdateRequest, packages: Seq<Package>)
    requires
        b == (UpdateRequest { release_mode: b.release_mode, ..a }),
    ensures
        git_only_packages(a, packages) == git_only_packages(b, packages),
    decreases packages.len(),
{
    if packages.len() > 0 {
        lemma_same_git_only(a, b, packages.drop_last());
    }
}

/// Each release is for the stable version of its package.
proof fn lemma_targets_are_those(
    packages: Seq<PackageDiff>,
    own: Seq<BumpLevel>,
    order: Seq<Seq<char>>,
    n: int,
)
    ensures
        forall|k: int|
            0 <= k < targets_among(packages, own, order, n).len() ==> Some(
                (#[trigger] targets_among(packages, own, order, n)[k]).1,
            ) == target_of(
                packages,
                own,
                order,
                packages[targets_among(packages, own, order, n)[k].0],
            ),
    decreases n,
{
    if n > 0 {
        lemma_targets_are_those(packages, own, order, n - 1);
        let before = targets_among(packages, own, order, n - 1);
        let now = targets_among(packages, own, order, n);
        assert forall|k: int| 0 <= k < now.len() implies Some((#[trigger] now[k]).1) == target_of(
            packages,
            own,
            order,
            packages[now[k].0],
        ) by {
            if k < before.len() {
                assert(now[k] == before[k]);
            }
        }
    }
}

/// The order in which packages are processed is a release order: bumps reach every dependent in one
/// pass, whether packages are published or released from git alone.
pub proof fn law_processing_order_is_release_order(
    project: Project,
    req: UpdateRequest,
    packages: Seq<PackageDiff>,
    own: Seq<BumpLevel>,
)
    requires
        are_acyclic(listed_packages(project, req)),
        bare(packages) == packages_of(project, req),
    ensures
        is_release_order(
            package_entries(packages, own),
            names_of(packages_of(project, req)),
        ),
{
    let ordered = packages_of(project, req);
    let names = names_of(ordered);
    let entries = package_entries(packages, own);
    law_release_order(project, req);
    law_packages_to_process(project, req, Seq::empty());
    assert forall|i: int, j: int| 0 <= i < j < names.len() implies #[trigger] names[i]
        != #[trigger] names[j] by {
        assert(ordered[i].name@ != ordered[j].name@);
    }
    assert forall|i: int, j: int|
        0 <= i < names.len() && 0 <= j < names.len() && depends_on(
            entries,
            #[trigger] names[i],
            #[trigger] names[j],
        ) implies j < i by {
        lemma_entry_index(entries, names[i]);
        let e = entry_index(entries, names[i])->0;
        assert(bare(packages)[e] == ordered[e]);
        assert(names[e] == names[i]);
        assert(e == i);
        let k = choose|k: int|
            0 <= k < entries[e].deps.len() && #[trigger] entries[e].deps[k] == names[j];
        assert(entries[e].deps == propagated_names(ordered[e].dependencies@));
        assert(needs(ordered[i], ordered[j].name@));
    }
}

/// The releases are at places of packages.
proof fn lemma_targets_in_range(
    packages: Seq<PackageDiff>,
    own: Seq<BumpLevel>,
    order: Seq<Seq<char>>,
    n: int,
)
    ensures
        forall|k: int|
            0 <= k < targets_among(packages, own, order, n).len() ==> 0 <= (
            #[trigger] targets_among(packages, own, order, n)[k]).0 < n,
    decreases n,
{
    if n > 0 {
        lemma_targets_in_range(packages, own, order, n - 1);
        let before = targets_among(packages, own, order, n - 1);
        let now = targets_among(packages, own, order, n);
        assert forall|k: int| 0 <= k < now.len() implies 0 <= (#[trigger] now[k]).0 < n by {
            if k < before.len() {
                assert(now[k] == before[k]);
            }
        }
    }
}

/// The packages as far as propagation depends on them, with the levels `own_bumps` by their own
/// commits.
fn propagation_entries(packages_diffs: &Vec<PackageDiff>, own_bumps: &Vec<BumpLevel>) -> (entries:
    Vec<(String, BumpLevel, Vec<String>)>)
    requires
        own_bumps@.len() == packages_diffs@.len(),
    ensures
        entries_of(entries@) == package_entries(packages_diffs@, own_bumps@),
{
    let mut entries: Vec<(String, BumpLevel, Vec<String>)> = Vec::new();
    for i in 0..packages_diffs.len()
        invariant
            own_bumps@.len() == packages_diffs@.len(),
            entries@.len() == i,
            forall|j: int|
                0 <= j < i ==> #[trigger] entries_of(entries@)[j] == packages_diffs@[j].entry(
                    own_bumps@[j],
                ),
    {
        let p = &packages_diffs[i];
        let ghost before = entries@;
        entries.push((p.package.name.clone(), own_bumps[i], p.package.dependency_names()));
        assert forall|j: int| 0 <= j < i + 1 implies #[trigger] entries_of(entries@)[j]
            == packages_diffs@[j].entry(own_bumps@[j]) by {
            if j < i {
                assert(entries_of(entries@)[j] == entries_of(before)[j]);
            }
        }
    }
    assert(entries_of(entries@) =~= package_entries(packages_diffs@, own_bumps@));
    entries
}

/// The packages to release and the stable versions that they are released for. `own_bumps` are
/// the levels of the packages by their own commits, and `ordered_names` the names of the
/// packages, dependencies before dependents.
pub fn stable_targets(
    packages_diffs: &Vec<PackageDiff>,
    own_bumps: &Vec<BumpLevel>,
    ordered_names: &Vec<String>,
) -> (r: Vec<PlannedUpdate>)
    requires
        own_bumps@.len() == packages_diffs@.len(),
        levels_fit(packages_diffs@, own_bumps@, views(ordered_names@)),
    ensures
        planned(r@) == targets_among(
            packages_diffs@,
            own_bumps@,
            views(ordered_names@),
            packages_diffs@.len() as int,
        ),
{
    let ghost order = views(ordered_names@);
    let entries = propagation_entries(packages_diffs, own_bumps);
    let final_bumps = propagate_bumps(&entries, ordered_names);
    let mut targets: Vec<PlannedUpdate> = Vec::new();
    for i in 0..packages_diffs.len()
        invariant
            levels_fit(packages_diffs@, own_bumps@, order),
            final_bumps@ == propagated(package_entries(packages_diffs@, own_bumps@), order),
            planned(targets@) == targets_among(packages_diffs@, own_bumps@, order, i as int),
    {
        let p = &packages_diffs[i];
        let ghost before = targets@;
        let final_bump = match final_bumps.get(p.package.name.as_str()) {
            Some(level) => *level,
            None => BumpLevel::NoBump,
        };
        assert(final_bump == final_level(packages_diffs@, own_bumps@, order, p.package.name@));
        assert(packages_diffs@[i as int] == *p);
        // Without a bump, only a new package is released.
        if final_bump != BumpLevel::NoBump || !p.diff.registry_package_exists {
            let target_stable = if p.diff.registry_package_exists {
                final_bump.apply(p.base_version())
            } else {
                p.package.version.clone()
            };
            let ghost version = target_stable@;
            targets.push(PlannedUpdate { index: i, version: target_stable });
            assert(planned(targets@) =~= planned(before).push((i as int, version)));
        }
    }
    targets
}

impl PackageDiff {
    /// The base version can be incremented where commits ask for it.
    pub open spec fn can_be_analysed(self) -> bool {
        self.is_analysed() ==> self.base().can_increment()
    }

    /// The commits of the package give it a level of its own: counted from a stable version, there
    /// is always one.
    pub open spec fn raises_itself(self) -> bool {
        self.is_analysed() && self.base().is_stable()
    }

    /// The highest level that the commits of the package may give it.
    pub open spec fn possible_level(self) -> BumpLevel {
        if self.raises_itself() {
            BumpLevel::Major
        } else {
            BumpLevel::NoBump
        }
    }

    /// The commits of the package decide about its own level.
    pub open spec fn is_analysed(self) -> bool {
        self.diff.registry_package_exists && self.diff.commits@.len() > 0
    }

    /// The level of the package's bump by its own commits, whatever is published.
    pub open spec fn own_level(self, req: UpdateRequest) -> BumpLevel {
        if self.is_analysed() {
            BumpLevel::between(
                self.base(),
                incremented(self.updater(req), self.base(), messages_of(self.diff.commits@)),
            )
        } else {
            BumpLevel::NoBump
        }
    }

    /// The package as far as propagation depends on it, with the level `own` by its own commits.
    pub open spec fn entry(self, own: BumpLevel) -> Entry {
        Entry {
            name: self.package.name@,
            own,
            deps: propagated_names(self.package.dependencies@),
        }
    }
}

/// Each base version can be incremented where commits ask for it.
pub open spec fn all_can_be_analysed(packages: Seq<PackageDiff>) -> bool {
    forall|i: int| 0 <= i < packages.len() ==> (#[trigger] packages[i]).can_be_analysed()
}

/// The highest levels that commits may give to packages.
pub open spec fn possible_levels(packages: Seq<PackageDiff>) -> Seq<BumpLevel> {
    packages.map_values(|p: PackageDiff| p.possible_level())
}

/// `p` gets a new version, by its own commits or by those of packages that it depends on.
pub open spec fn is_raised(
    packages: Seq<PackageDiff>,
    order: Seq<Seq<char>>,
    p: PackageDiff,
) -> bool {
    p.diff.registry_package_exists && final_level(
        packages,
        possible_levels(packages),
        order,
        p.package.name@,
    ) != BumpLevel::NoBump
}

/// No number of a package that gets a new version is at its limit.
pub open spec fn raised_have_room(packages: Seq<PackageDiff>, order: Seq<Seq<char>>) -> bool {
    forall|i: int|
        0 <= i < packages.len() && is_raised(packages, order, #[trigger] packages[i])
            ==> packages[i].base().has_room()
}

/// The number that each package's final level raises is below its limit.
pub open spec fn levels_fit(
    packages: Seq<PackageDiff>,
    own: Seq<BumpLevel>,
    order: Seq<Seq<char>>,
) -> bool {
    forall|i: int|
        0 <= i < packages.len() && (#[trigger] packages[i]).diff.registry_package_exists
            ==> final_level(packages, own, order, packages[i].package.name@).fits(
            packages[i].base(),
        )
}

/// Where the packages that get a new version have room, their levels fit.
proof fn lemma_raised_fit(
    packages: Seq<PackageDiff>,
    own: Seq<BumpLevel>,
    order: Seq<Seq<char>>,
)
    requires
        own.len() == packages.len(),
        forall|i: int|
            0 <= i < own.len() ==> (#[trigger] own[i] != BumpLevel::NoBump
                ==> packages[i].raises_itself()),
        raised_have_room(packages, order),
    ensures
        levels_fit(packages, own, order),
{
    let possible = possible_levels(packages);
    let (a, b) = (package_entries(packages, own), package_entries(packages, possible));
    assert(are_raised_within(a, b));
    assert forall|i: int|
        0 <= i < packages.len() && (
        #[trigger] packages[i]).diff.registry_package_exists implies final_level(
        packages,
        own,
        order,
        packages[i].package.name@,
    ).fits(packages[i].base()) by {
        let name = packages[i].package.name@;
        if final_level(packages, own, order, name) != BumpLevel::NoBump {
            law_raised_packages(a, b, order, name);
            assert(is_raised(packages, order, packages[i]));
        }
    }
}

/// Those of `packages` whose commits decide about their own level.
pub open spec fn analysed_packages(packages: Seq<PackageDiff>) -> Seq<PackageDiff>
    decreases packages.len(),
{
    if packages.len() == 0 {
        Seq::empty()
    } else {
        let before = analysed_packages(packages.drop_last());
        if packages.last().is_analysed() {
            before.push(packages.last())
        } else {
            before
        }
    }
}

/// The level of each package's bump by its own commits.
pub open spec fn own_levels(req: UpdateRequest, packages: Seq<PackageDiff>) -> Seq<BumpLevel> {
    packages.map_values(|p: PackageDiff| p.own_level(req))
}

/// The packages as far as propagation depends on them, with the levels `own` by their own
/// commits.
pub open spec fn package_entries(packages: Seq<PackageDiff>, own: Seq<BumpLevel>) -> Seq<Entry> {
    Seq::new(packages.len(), |i: int| packages[i].entry(own[i]))
}

/// The level of the package called `name` after propagation in the order `order`.
pub open spec fn final_level(
    packages: Seq<PackageDiff>,
    own: Seq<BumpLevel>,
    order: Seq<Seq<char>>,
    name: Seq<char>,
) -> BumpLevel {
    let levels = propagated(package_entries(packages, own), order);
    if levels.contains_key(name) {
        levels[name]
    } else {
        BumpLevel::NoBump
    }
}

/// The stable version that `p` is released for, if it is: a new package for the version in its
/// manifest, another for its base version with its level applied.
pub open spec fn target_of(
    packages: Seq<PackageDiff>,
    own: Seq<BumpLevel>,
    order: Seq<Seq<char>>,
    p: PackageDiff,
) -> Option<VersionView> {
    let level = final_level(packages, own, order, p.package.name@);
    if !p.diff.registry_package_exists {
        Some(p.package.version@)
    } else if level == BumpLevel::NoBump {
        None
    } else {
        Some(level.applied(p.base()))
    }
}

/// The releases among the first `n` of `packages`: their places and the stable versions.
pub open spec fn targets_among(
    packages: Seq<PackageDiff>,
    own: Seq<BumpLevel>,
    order: Seq<Seq<char>>,
    n: int,
) -> Seq<(int, VersionView)>
    decreases n,
{
    if n <= 0 {
        Seq::empty()
    } else {
        let before = targets_among(packages, own, order, n - 1);
        match target_of(packages, own, order, packages[n - 1]) {
            Some(v) => before.push((n - 1, v)),
            None => before,
        }
    }
}

/// The packages to release, in their order: their places and the stable versions that they are
/// released for.
pub open spec fn release_targets(
    project: Project,
    req: UpdateRequest,
    packages: Seq<PackageDiff>,
) -> Seq<(int, VersionView)> {
    targets_among(
        packages,
        own_levels(req, packages),
        names_of(packages_of(project, req)),
        packages.len() as int,
    )
}

/// The packages that are analysed among the first ones come first among all.
proof fn lemma_analysed_prefix(packages: Seq<PackageDiff>, n: int)
    requires
        0 <= n <= packages.len(),
    ensures
        analysed_packages(packages.take(n)).is_prefix_of(analysed_packages(packages)),
    decreases packages.len(),
{
    if n == packages.len() {
        assert(packages.take(n) =~= packages);
    } else {
        let less = packages.drop_last();
        lemma_analysed_prefix(less, n);
        assert(less.take(n) =~= packages.take(n));
    }
}

/// The version that a package is released with, from the stable version that it is released for:
/// a release candidate with the number `rc_num`, or the stable version itself.
pub open spec fn released_version(mode: ReleaseMode, target: VersionView, rc_num: nat) -> VersionView {
    if mode == ReleaseMode::Rc {
        target.candidate(rc_num)
    } else {
        target
    }
}

/// A released version is above the base version that its changes are counted from, whether it
/// is a release candidate or stable, and the release candidate is below the stable version.
pub proof fn law_release_is_above_base(
    packages: Seq<PackageDiff>,
    own: Seq<BumpLevel>,
    order: Seq<Seq<char>>,
    p: PackageDiff,
    mode: ReleaseMode,
    rc_num: nat,
)
    requires
        p.diff.registry_package_exists,
        target_of(packages, own, order, p) is Some,
    ensures
        ({
            let target = target_of(packages, own, order, p)->0;
            &&& target.is_stable()
            &&& p.base().lower(released_version(mode, target, rc_num))
            &&& target.candidate(rc_num).lower(target)
        }),
{
    let level = final_level(packages, own, order, p.package.name@);
    let target = level.applied(p.base());
    law_bump_raises(level, p.base());
    law_candidate_above_base(p.base(), target, rc_num);
    law_candidate_below_target(target, rc_num);
}

/// Bumps reach dependents: where packages are processed behind their dependencies, a package is
/// released with at least the level of each package that it depends on.
pub proof fn law_dependents_are_released(
    packages: Seq<PackageDiff>,
    own: Seq<BumpLevel>,
    order: Seq<Seq<char>>,
    name: Seq<char>,
    dep: Seq<char>,
)
    requires
        is_release_order(package_entries(packages, own), order),
        is_listed(order, name),
        depends_on(package_entries(packages, own), name, dep),
    ensures
        final_level(packages, own, order, dep).rank() <= final_level(
            packages,
            own,
            order,
            name,
        ).rank(),
{
    let entries = package_entries(packages, own);
    law_propagated_domain(entries, order, name);
    law_bumps_reach_dependents(entries, order, name, dep);
}

/// The level of a package's bump by its own commits counts from the last stable version with a
/// tag: what a release candidate made of the version in the manifest since then does not matter.
pub proof fn law_level_ignores_candidates(req: UpdateRequest, a: PackageDiff, b: PackageDiff)
    requires
        a.package.name@ == b.package.name@,
        a.diff == b.diff,
        a.diff.base_version is Some,
    ensures
        a.base() == b.base(),
        a.own_level(req) == b.own_level(req),
{
}

/// The releases are in the order of the packages, each at most once, and say what each is released for.
proof fn lemma_targets_exactly(
    packages: Seq<PackageDiff>,
    own: Seq<BumpLevel>,
    order: Seq<Seq<char>>,
    n: int,
    i: int,
)
    requires
        0 <= i < n <= packages.len(),
    ensures
        ({
            let targets = targets_among(packages, own, order, n);
            let target = target_of(packages, own, order, packages[i]);
            &&& forall|k: int| 0 <= k < targets.len() ==> 0 <= (#[trigger] targets[k]).0 < n
            &&& forall|a: int, b: int|
                0 <= a < b < targets.len() ==> (#[trigger] targets[a]).0 < (#[trigger] targets[b]).0
            &&& forall|k: int|
                0 <= k < targets.len() && (#[trigger] targets[k]).0 == i ==> target == Some(
                    targets[k].1,
                )
            &&& target matches Some(v) ==> targets.contains((i, v))
        }),
    decreases n,
{
    let targets = targets_among(packages, own, order, n);
    let before = targets_among(packages, own, order, n - 1);
    let target = target_of(packages, own, order, packages[i]);
    if n > 1 {
        lemma_targets_exactly(packages, own, order, n - 1, if i < n - 1 {
            i
        } else {
            0
        });
    }
    if let Some(v) = target {
        if i < n - 1 {
            assert(before.contains((i, v)));
            let k = choose|k: int| 0 <= k < before.len() && before[k] == (i, v);
            assert(targets[k] == (i, v));
        } else {
            assert(targets[targets.len() - 1] == (i, v));
        }
    }
}

/// Which packages are released, and for which stable versions. A package that the registry has is
/// released exactly where its level after propagation is a bump, whether or not it has commits; the
/// version is its base version with that number raised by one, those to the right of it zero, and no
/// prerelease. A package that the registry does not have is always released, with the version in its
/// manifest. There is one release of a package at most, in the order of the packages.
pub proof fn law_stable_targets(
    packages: Seq<PackageDiff>,
    own: Seq<BumpLevel>,
    order: Seq<Seq<char>>,
    i: int,
)
    requires
        0 <= i < packages.len(),
    ensures
        ({
            let n = packages.len() as int;
            let targets = targets_among(packages, own, order, n);
            let p = packages[i];
            let level = final_level(packages, own, order, p.package.name@);
            let base = match p.diff.base_version {
                Some(v) => v@,
                None => p.package.version@,
            };
            let is_released = !p.diff.registry_package_exists || level != BumpLevel::NoBump;
            &&& is_released <==> exists|k: int|
                0 <= k < targets.len() && (#[trigger] targets[k]).0 == i
            &&& forall|k: int| 0 <= k < targets.len() ==> 0 <= (#[trigger] targets[k]).0 < n
            &&& forall|a: int, b: int|
                0 <= a < b < targets.len() ==> (#[trigger] targets[a]).0 < (#[trigger] targets[b]).0
            &&& forall|k: int|
                0 <= k < targets.len() && (#[trigger] targets[k]).0 == i ==> {
                    let v = targets[k].1;
                    &&& !p.diff.registry_package_exists ==> v == p.package.version@
                    &&& p.diff.registry_package_exists ==> v.pre.len() == 0 && v.build == base.build
                    &&& p.diff.registry_package_exists && level == BumpLevel::Major ==> v.major
                        == base.major + 1 && v.minor == 0 && v.patch == 0
                    &&& p.diff.registry_package_exists && level == BumpLevel::Minor ==> v.major
                        == base.major && v.minor == base.minor + 1 && v.patch == 0
                    &&& p.diff.registry_package_exists && level == BumpLevel::Patch ==> v.major
                        == base.major && v.minor == base.minor && v.patch == base.patch + 1
                }
        }),
{
    let n = packages.len() as int;
    lemma_targets_exactly(packages, own, order, n, i);
    let targets = targets_among(packages, own, order, n);
    if let Some(v) = target_of(packages, own, order, packages[i]) {
        let k = choose|k: int| 0 <= k < targets.len() && targets[k] == (i, v);
        assert(targets[k].0 == i);
    }
}

/// What is released for the stable versions. Each of them is released, in the same order, and nothing
/// else. Stable versions are released as they are. A release candidate has the same numbers and build
/// metadata, and its prerelease is `rc.` with a number that was given for the package and that
/// version.
pub proof fn law_releases_of_targets<F: Fn(&str, &Version) -> u64>(
    mode: ReleaseMode,
    next_rc_number: F,
    packages: Seq<PackageDiff>,
    targets: Seq<(int, VersionView)>,
    releases: Seq<(int, VersionView)>,
)
    requires
        are_releases(mode, next_rc_number, packages, targets, releases),
    ensures
        releases.len() == targets.len(),
        mode != ReleaseMode::Rc ==> releases == targets,
        mode == ReleaseMode::Rc ==> forall|k: int|
            0 <= k < releases.len() ==> {
                let (i, version) = #[trigger] releases[k];
                let target = targets[k].1;
                &&& i == targets[k].0
                &&& version.major == target.major
                &&& version.minor == target.minor
                &&& version.patch == target.patch
                &&& version.build == target.build
                &&& exists|name: &str, t: &Version, rc_num: u64|
                    name@ == packages[i].package.name@ && t@ == target && #[trigger] call_ensures(
                        next_rc_number,
                        (name, t),
                        rc_num,
                    ) && version.pre == seq!['r', 'c', '.'] + decimal(rc_num as nat)
            },
{
    if mode != ReleaseMode::Rc {
        assert forall|k: int| 0 <= k < releases.len() implies releases[k] == targets[k] by {
            assert(releases[k].0 == targets[k].0);
        }
        assert(releases =~= targets);
    } else {
        assert forall|k: int| 0 <= k < releases.len() implies ({
            let (i, version) = #[trigger] releases[k];
            let target = targets[k].1;
            &&& i == targets[k].0
            &&& version.major == target.major
            &&& version.minor == target.minor
            &&& version.patch == target.patch
            &&& version.build == target.build
            &&& exists|name: &str, t: &Version, rc_num: u64|
                name@ == packages[i].package.name@ && t@ == target && #[trigger] call_ensures(
                    next_rc_number,
                    (name, t),
                    rc_num,
                ) && version.pre == seq!['r', 'c', '.'] + decimal(rc_num as nat)
        }) by {
            let i = targets[k].0;
            let (name, t, rc_num) = choose|n: &str, t: &Version, rc_num: u64|
                n@ == packages[i].package.name@ && t@ == targets[k].1 && #[trigger] call_ensures(
                    next_rc_number,
                    (n, t),
                    rc_num,
                ) && releases[k].1 == released_version(mode, targets[k].1, rc_num as nat);
            assert(call_ensures(next_rc_number, (name, t), rc_num));
        }
    }
}

/// The level that a package's own commits give it. Without commits, or where the registry does not
/// have the package, there is none. Otherwise it is that of the leftmost number which rises from the
/// base version to the one that the full messages of all commits ask for.
pub proof fn law_level_by_own_commits(
    p: PackageDiff,
    req: UpdateRequest,
    messages: Seq<Seq<char>>,
)
    requires
        messages.len() == p.diff.commits@.len(),
        forall|i: int|
            0 <= i < messages.len() ==> #[trigger] messages[i] == p.diff.commits@[i].message@,
    ensures
        p.diff.commits@.len() == 0 || !p.diff.registry_package_exists ==> p.own_level(req)
            == BumpLevel::NoBump,
        p.diff.commits@.len() > 0 && p.diff.registry_package_exists ==> {
            let base = match p.diff.base_version {
                Some(v) => v@,
                None => p.package.version@,
            };
            let next = incremented(p.updater(req), base, messages);
            &&& p.own_level(req) == BumpLevel::Major <==> base.major < next.major
            &&& p.own_level(req) == BumpLevel::Minor <==> base.major >= next.major && base.minor
                < next.minor
            &&& p.own_level(req) == BumpLevel::Patch <==> base.major >= next.major && base.minor
                >= next.minor && base.patch < next.patch
        },
{
    assert(messages_of(p.diff.commits@) =~= messages);
}

/// The package at place `i` has the one at place `j` among its normal or build dependencies.
pub open spec fn is_dependent(packages: Seq<PackageDiff>, i: int, j: int) -> bool {
    exists|k: int|
        0 <= k < packages[i].package.dependencies@.len() && (
        #[trigger] packages[i].package.dependencies@[k]).name@ == packages[j].package.name@ && (
        packages[i].package.dependencies@[k].kind == DependencyKind::Normal
            || packages[i].package.dependencies@[k].kind == DependencyKind::Build)
}

/// Levels reach every dependent. Where all packages of a project are looked at and none needs itself,
/// the level of a package is not below its own and not below that of any package that it depends on,
/// and it is its own or that of one of those.
pub proof fn law_final_levels(
    project: Project,
    req: UpdateRequest,
    packages: Seq<PackageDiff>,
    own: Seq<BumpLevel>,
    i: int,
)
    requires
        are_acyclic(listed_packages(project, req)),
        bare(packages) == packages_of(project, req),
        0 <= i < packages.len(),
    ensures
        ({
            let order = names_of(packages_of(project, req));
            let level = final_level(packages, own, order, packages[i].package.name@);
            &&& own[i].rank() <= level.rank()
            &&& forall|j: int|
                0 <= j < packages.len() && is_dependent(packages, i, j) ==> final_level(
                    packages,
                    own,
                    order,
                    (#[trigger] packages[j]).package.name@,
                ).rank() <= level.rank()
            &&& level == own[i] || exists|j: int|
                0 <= j < packages.len() && is_dependent(packages, i, j) && final_level(
                    packages,
                    own,
                    order,
                    (#[trigger] packages[j]).package.name@,
                ) == level
        }),
{
    let ordered = packages_of(project, req);
    let order = names_of(ordered);
    let entries = package_entries(packages, own);
    let name = packages[i].package.name@;
    let levels = propagated(entries, order);
    law_processing_order_is_release_order(project, req, packages, own);
    law_packages_to_process(project, req, Seq::empty());
    assert forall|a: int| 0 <= a < packages.len() implies order[a] == (
    #[trigger] packages[a]).package.name@ && entry_index(
        entries,
        packages[a].package.name@,
    ) == Some(a) && is_listed(order, packages[a].package.name@) by {
        assert(bare(packages)[a] == ordered[a]);
        assert(order[a] == packages[a].package.name@);
        law_entry_of_a_name(entries, order[a]);
        assert(entries[a].name == order[a]);
        let e = entry_index(entries, order[a])->0;
        assert(bare(packages)[e] == ordered[e]);
        assert(ordered[e].name@ == ordered[a].name@);
    }
    assert(packages[i].package.name@ == name);
    law_levels_settle(entries, order, name);
    let entry = entries[i];
    let dependencies = packages[i].package.dependencies@;
    let from = law_propagated_names(dependencies);
    assert(entry.deps == propagated_names(dependencies));
    let level = final_level(packages, own, order, name);
    assert forall|j: int| 0 <= j < packages.len() && is_dependent(packages, i, j) implies final_level(
        packages,
        own,
        order,
        (#[trigger] packages[j]).package.name@,
    ).rank() <= level.rank() by {
        let k = choose|k: int|
            0 <= k < dependencies.len() && (#[trigger] dependencies[k]).name@
                == packages[j].package.name@ && (dependencies[k].kind == DependencyKind::Normal
                || dependencies[k].kind == DependencyKind::Build);
        assert(from.contains(k));
        let f = choose|f: int| 0 <= f < from.len() && from[f] == k;
        assert(entry.deps[f] == packages[j].package.name@);
        law_propagated_domain(entries, order, packages[j].package.name@);
    }
    if level != own[i] {
        let f = choose|f: int|
            0 <= f < entry.deps.len() && levels.contains_key(#[trigger] entry.deps[f])
                && levels[entry.deps[f]] == levels[name];
        let d = entry.deps[f];
        law_propagated_domain(entries, order, d);
        law_entry_of_a_name(entries, d);
        let j = entry_index(entries, d)->0;
        assert(packages[j].package.name@ == d);
        assert(dependencies[from[f]].name@ == d);
        assert(is_dependent(packages, i, j));
    }
}

/// A package that is released with a new version takes its dependents along: of the packages of a
/// project, each one that the registry has and that depends on it is released too.
pub proof fn law_dependents_are_released_too(
    project: Project,
    req: UpdateRequest,
    packages: Seq<PackageDiff>,
    i: int,
    j: int,
)
    requires
        are_acyclic(listed_packages(project, req)),
        bare(packages) == packages_of(project, req),
        0 <= i < packages.len(),
        0 <= j < packages.len(),
        is_dependent(packages, i, j),
        packages[j].diff.registry_package_exists,
        exists|k: int|
            0 <= k < release_targets(project, req, packages).len() && (
            #[trigger] release_targets(project, req, packages)[k]).0 == j,
    ensures
        exists|k: int|
            0 <= k < release_targets(project, req, packages).len() && (
            #[trigger] release_targets(project, req, packages)[k]).0 == i,
{
    let own = own_levels(req, packages);
    let order = names_of(packages_of(project, req));
    law_stable_targets(packages, own, order, i);
    law_stable_targets(packages, own, order, j);
    law_final_levels(project, req, packages, own, i);
    assert(packages[j].package.name@ == packages[j].package.name@);
}

/// A package that its commits raise is released: in a project, one that the registry has, with commits
/// that give it a level of its own, gets at least that level.
pub proof fn law_changed_packages_are_released(
    project: Project,
    req: UpdateRequest,
    packages: Seq<PackageDiff>,
    i: int,
)
    requires
        are_acyclic(listed_packages(project, req)),
        bare(packages) == packages_of(project, req),
        0 <= i < packages.len(),
        packages[i].own_level(req) != BumpLevel::NoBump,
    ensures
        exists|k: int|
            0 <= k < release_targets(project, req, packages).len() && (
            #[trigger] release_targets(project, req, packages)[k]).0 == i,
{
    let own = own_levels(req, packages);
    let order = names_of(packages_of(project, req));
    law_stable_targets(packages, own, order, i);
    law_final_levels(project, req, packages, own, i);
    assert(own[i] == packages[i].own_level(req));
    let targets = targets_among(packages, own, order, packages.len() as int);
    let k = choose|k: int| 0 <= k < targets.len() && (#[trigger] targets[k]).0 == i;
    assert(release_targets(project, req, packages)[k].0 == i);
}

/// What `stable_targets` gives. There is an update of a package exactly where the registry does not have
/// it or its level after propagation is a bump. A new package keeps the version in its manifest, and
/// another gets its base version with the number of that level raised by one, those to the right of it
/// zero and no prerelease. Updates come in the order of the packages, one of each at most.
pub proof fn law_given_stable_targets(
    packages_diffs: &Vec<PackageDiff>,
    own_bumps: &Vec<BumpLevel>,
    ordered_names: &Vec<String>,
    r: Vec<PlannedUpdate>,
    i: int,
)
    requires
        call_ensures(stable_targets, (packages_diffs, own_bumps, ordered_names), r),
        0 <= i < packages_diffs@.len(),
    ensures
        ({
            let p = packages_diffs@[i];
            let levels = propagated(
                package_entries(packages_diffs@, own_bumps@),
                views(ordered_names@),
            );
            let name = p.package.name@;
            let is_bumped = levels.contains_key(name) && levels[name] != BumpLevel::NoBump;
            let base = match p.diff.base_version {
                Some(v) => v@,
                None => p.package.version@,
            };
            &&& !p.diff.registry_package_exists || is_bumped <==> exists|k: int|
                0 <= k < r@.len() && (#[trigger] r@[k]).index == i
            &&& forall|k: int| 0 <= k < r@.len() ==> (#[trigger] r@[k]).index < packages_diffs@.len()
            &&& forall|a: int, b: int|
                0 <= a < b < r@.len() ==> (#[trigger] r@[a]).index < (#[trigger] r@[b]).index
            &&& forall|k: int|
                0 <= k < r@.len() && (#[trigger] r@[k]).index == i ==> {
                    let v = r@[k].version@;
                    &&& !p.diff.registry_package_exists ==> v == p.package.version@
                    &&& p.diff.registry_package_exists ==> v.pre.len() == 0 && v.build == base.build
                    &&& p.diff.registry_package_exists && levels[name] == BumpLevel::Major
                        ==> v.major == base.major + 1 && v.minor == 0 && v.patch == 0
                    &&& p.diff.registry_package_exists && levels[name] == BumpLevel::Minor
                        ==> v.major == base.major && v.minor == base.minor + 1 && v.patch == 0
                    &&& p.diff.registry_package_exists && levels[name] == BumpLevel::Patch
                        ==> v.major == base.major && v.minor == base.minor && v.patch == base.patch
                        + 1
                }
        }),
{
    let targets = planned(r@);
    law_stable_targets(packages_diffs@, own_bumps@, views(ordered_names@), i);
    assert(targets.len() == r@.len());
    assert forall|k: int| 0 <= k < r@.len() implies (#[trigger] r@[k]).index == targets[k].0
        && r@[k].version@ == targets[k].1 by {}
    if exists|k: int| 0 <= k < targets.len() && (#[trigger] targets[k]).0 == i {
        let k = choose|k: int| 0 <= k < targets.len() && (#[trigger] targets[k]).0 == i;
        assert(r@[k].index == i);
    }
    if exists|k: int| 0 <= k < r@.len() && (#[trigger] r@[k]).index == i {
        let k = choose|k: int| 0 <= k < r@.len() && (#[trigger] r@[k]).index == i;
        assert(targets[k].0 == i);
    }
}

/// The level of a package by its own commits: none without commits, and none where the registry does
/// not have the package, whatever its rules. With commits since a stable version there is always one.
/// It fails only for a package with commits whose rules cannot be used.
pub proof fn law_given_own_level(
    updater: &Updater,
    p: &PackageDiff,
    r: Result<BumpLevel, UpdateError>,
)
    requires
        call_ensures(Updater::own_bump, (updater, p), r),
    ensures
        p.diff.commits@.len() == 0 || !p.diff.registry_package_exists ==> r is Ok && r->Ok_0
            == BumpLevel::NoBump,
        p.diff.commits@.len() > 0 && p.diff.registry_package_exists ==> (r is Ok <==> p.updater(
            *updater.req,
        ).valid()),
        r is Ok && p.diff.commits@.len() > 0 && p.diff.registry_package_exists && p.base().pre.len()
            == 0 ==> r->Ok_0 != BumpLevel::NoBump,
        r matches Ok(level) ==> level == p.own_level(*updater.req),
{
}

/// The levels of packages by their own commits stand at the places of the packages.
pub proof fn law_given_own_levels(
    updater: &Updater,
    packages_diffs: &Vec<PackageDiff>,
    r: Result<Vec<BumpLevel>, UpdateError>,
)
    requires
        call_ensures(Updater::own_bumps, (updater, packages_diffs), r),
        r is Ok,
    ensures
        r->Ok_0@.len() == packages_diffs@.len(),
        forall|i: int|
            0 <= i < packages_diffs@.len() ==> #[trigger] r->Ok_0@[i]
                == packages_diffs@[i].own_level(*updater.req),
{
}

/// The releases that are given in the modes for release candidates and stable versions: one for each
/// package that the registry does not have, or that has a level after propagation, and for no other,
/// in the order of the packages. A stable release of a package that the registry has is its base
/// version with the number of its level raised by one.
pub proof fn law_given_releases<F: Fn(&str, &Version) -> u64>(
    updater: &Updater,
    packages_diffs: &Vec<PackageDiff>,
    next_rc_number: F,
    r: Result<Vec<PlannedUpdate>, UpdateError>,
    i: int,
)
    requires
        call_ensures(
            Updater::packages_to_update_rc_stable::<F>,
            (updater, packages_diffs, next_rc_number),
            r,
        ),
        r is Ok,
        0 <= i < packages_diffs@.len(),
    ensures
        ({
            let updates = r->Ok_0@;
            let p = packages_diffs@[i];
            let level = final_level(
                packages_diffs@,
                own_levels(*updater.req, packages_diffs@),
                names_of(packages_of(*updater.project, *updater.req)),
                p.package.name@,
            );
            let base = p.base();
            &&& !p.diff.registry_package_exists || level != BumpLevel::NoBump <==> exists|k: int|
                0 <= k < updates.len() && (#[trigger] updates[k]).index == i
            &&& forall|a: int, b: int|
                0 <= a < b < updates.len() ==> (#[trigger] updates[a]).index < (
                #[trigger] updates[b]).index
            &&& forall|k: int|
                0 <= k < updates.len() && (#[trigger] updates[k]).index == i
                    ==> {
                    let v = updates[k].version@;
                    &&& !p.diff.registry_package_exists ==> v.major == p.package.version@.major
                        && v.minor == p.package.version@.minor && v.patch
                        == p.package.version@.patch
                    &&& p.diff.registry_package_exists && level == BumpLevel::Major ==> v.major
                        == base.major + 1 && v.minor == 0 && v.patch == 0
                    &&& p.diff.registry_package_exists && level == BumpLevel::Minor ==> v.major
                        == base.major && v.minor == base.minor + 1 && v.patch == 0
                    &&& p.diff.registry_package_exists && level == BumpLevel::Patch ==> v.major
                        == base.major && v.minor == base.minor && v.patch == base.patch + 1
                    &&& updater.req.release_mode == ReleaseMode::Stable
                        && p.diff.registry_package_exists ==> v.pre.len() == 0
                    &&& updater.req.release_mode == ReleaseMode::Rc ==> v.pre.len() > 3
                }
        }),
{
    let updates = r->Ok_0@;
    let req = *updater.req;
    let targets = release_targets(*updater.project, req, packages_diffs@);
    let own = own_levels(req, packages_diffs@);
    let order = names_of(packages_of(*updater.project, req));
    law_stable_targets(packages_diffs@, own, order, i);
    law_releases_of_targets(
        req.release_mode,
        next_rc_number,
        packages_diffs@,
        targets,
        planned(updates),
    );
    assert(planned(updates).len() == updates.len());
    assert forall|k: int| 0 <= k < updates.len() implies (#[trigger] updates[k]).index
        == targets[k].0 && updates[k].version@ == planned(updates)[k].1 && planned(updates)[k].0
        == targets[k].0 by {
        assert(planned(updates)[k].0 == updates[k].index);
    }
    if exists|k: int| 0 <= k < targets.len() && (#[trigger] targets[k]).0 == i {
        let k = choose|k: int| 0 <= k < targets.len() && (#[trigger] targets[k]).0 == i;
        assert(updates[k].index == i);
    }
    if exists|k: int| 0 <= k < updates.len() && (#[trigger] updates[k]).index == i {
        let k = choose|k: int| 0 <= k < updates.len() && (#[trigger] updates[k]).index == i;
        assert(targets[k].0 == i);
    }
    assert forall|k: int| 0 <= k < updates.len() && (#[trigger] updates[k]).index == i implies {
        let v = updates[k].version@;
        &&& v.major == targets[k].1.major && v.minor == targets[k].1.minor && v.patch
            == targets[k].1.patch
        &&& req.release_mode != ReleaseMode::Rc ==> v == targets[k].1
        &&& req.release_mode == ReleaseMode::Rc ==> v.pre.len() > 3
    } by {
        assert(targets[k].0 == i);
        assert(planned(updates)[k].1 == updates[k].version@);
        if req.release_mode == ReleaseMode::Rc {
            let (name, t, n) = choose|name: &str, t: &Version, rc_num: u64|
                name@ == packages_diffs@[planned(updates)[k].0].package.name@ && t@ == targets[k].1
                    && #[trigger] call_ensures(next_rc_number, (name, t), rc_num)
                    && planned(updates)[k].1.pre == seq!['r', 'c', '.'] + decimal(rc_num as nat);
            crate::decimal::lemma_decimal(n as nat);
        }
    }
    assert forall|a: int, b: int| 0 <= a < b < updates.len() implies (#[trigger] updates[a]).index
        < (#[trigger] updates[b]).index by {
        assert(targets[a].0 < targets[b].0);
    }
}

/// Levels are handed on in the order in which packages are processed: the names are those of the
/// processed packages, place by place.
pub proof fn law_order_of_names(updater: &Updater, r: Vec<String>, packages: Vec<&Package>)
    requires
        call_ensures(Updater::ordered_names, (updater,), r),
        call_ensures(Updater::packages_to_process, (updater,), packages),
    ensures
        r@.len() == packages@.len(),
        forall|i: int| 0 <= i < r@.len() ==> (#[trigger] r@[i])@ == packages@[i].name@,
{
    let names = names_of(packages_of(*updater.project, *updater.req));
    assert(views(r@).len() == r@.len());
    assert(referenced(packages@).len() == packages@.len());
    assert forall|i: int| 0 <= i < r@.len() implies (#[trigger] r@[i])@ == packages@[i].name@ by {
        assert(views(r@)[i] == r@[i]@);
        assert(names[i] == referenced(packages@)[i].name@);
    }
}

} // verus!
