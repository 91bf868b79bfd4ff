//! Packages that are updated because their dependencies are.
use vstd::prelude::*;
use vstd::string::*;

use crate::diff::{Commit, NO_COMMIT_ID};
use crate::package::Package;
#[allow(unused_imports)]
use crate::increment::{law_increment_of_a_part, VersionIncrement};
use crate::semver::{Version, VersionView};
#[allow(unused_imports)]
use crate::semver::law_order_same;
#[allow(unused_imports)]
use crate::processing::referenced;
use crate::text::{join, same_text};
#[allow(unused_imports)]
use crate::text::{joined, views};

verus! {

/// A package with a new version.
#[derive(Debug)]
pub struct ChangedPackage {
    pub name: String,
    pub version: Version,
}

/// The names and new versions of `changed`.
pub open spec fn changed_views(changed: Seq<ChangedPackage>) -> Seq<(Seq<char>, VersionView)> {
    changed.map_values(|c: ChangedPackage| (c.name@, c.version@))
}

/// A package called `name` is among `changed`.
pub open spec fn is_changed(changed: Seq<(Seq<char>, VersionView)>, name: Seq<char>) -> bool {
    exists|i: int| 0 <= i < changed.len() && (#[trigger] changed[i]).0 == name
}

/// Whether a package called `name` is among `changed`.
fn contains_changed(changed: &Vec<ChangedPackage>, name: &str) -> (r: bool)
    ensures
        r == is_changed(changed_views(changed@), name@),
{
    let ghost all = changed_views(changed@);
    for i in 0..changed.len()
        invariant
            all == changed_views(changed@),
            forall|j: int| 0 <= j < i ==> (#[trigger] all[j]).0 != name@,
    {
        assert(all[i as int].0 == changed@[i as int].name@);
        if same_text(changed[i].name.as_str(), name) {
            return true;
        }
    }
    false
}

impl VersionView {
    /// The version of a package whose dependencies changed: the next prerelease of a prerelease,
    /// else the next patch version.
    pub open spec fn next_dependent(self) -> VersionView {
        if self.is_stable() {
            self.next_patch()
        } else {
            self.next_pre()
        }
    }

    /// The number that an update because of dependencies raises is below its limit.
    pub open spec fn can_follow(self) -> bool {
        if self.is_stable() {
            self.patch < u64::MAX
        } else {
            self.can_increment()
        }
    }
}

/// A package that follows its dependencies gets a higher version. A stable version keeps its first
/// two numbers and its build metadata, its patch is one higher, and it stays stable. Of a prerelease,
/// the prerelease alone changes.
pub proof fn law_dependent_version(v: VersionView)
    requires
        v.valid(),
    ensures
        v.lower(v.next_dependent()),
        v.next_dependent().major == v.major,
        v.next_dependent().minor == v.minor,
        v.next_dependent().build == v.build,
        v.pre.len() == 0 ==> v.next_dependent().patch == v.patch + 1
            && v.next_dependent().pre.len() == 0,
        v.pre.len() > 0 ==> v.next_dependent().patch == v.patch && v.next_dependent().pre.len() > 0
            && v.next_dependent().pre != v.pre,
{
    if v.pre.len() == 0 {
        law_increment_of_a_part(v, VersionIncrement::Patch);
    } else {
        law_increment_of_a_part(v, VersionIncrement::Prerelease);
        law_order_same(v, v);
    }
}

/// The message of the commit that stands for the update of the dependencies `deps`.
pub open spec fn dependency_message(deps: Seq<Seq<char>>) -> Seq<char> {
    "chore: updated the following local packages: "@ + joined(deps, ", "@)
}

/// A package that is updated because its dependencies are.
#[derive(Debug)]
pub struct DependentUpdate {
    /// The place of the package.
    pub index: usize,
    /// Its new version.
    pub version: Version,
    /// The commit that stands for the update of its dependencies.
    pub commit: Commit,
}

/// The commit that stands for the update of the dependencies `deps` of a package, and the new
/// version of the package.
pub fn calculate_package_update_result(deps: &Vec<String>, p: &Package) -> (r: (Commit, Version))
    requires
        p.version@.can_follow(),
    ensures
        r.0.id@ == NO_COMMIT_ID@,
        r.0.message@ == dependency_message(views(deps@)),
        r.1@ == p.version@.next_dependent(),
        p.version@.lower(r.1@),
{
    proof {
        use_type_invariant(&p.version);
        law_dependent_version(p.version@);
    }
    let mut message = "chore: updated the following local packages: ".to_owned();
    message.append(join(deps, ", ").as_str());
    let commit = Commit::new(NO_COMMIT_ID.to_owned(), message);
    let next_version = if p.version.is_prerelease() {
        p.version.increment_prerelease()
    } else {
        p.version.increment_patch()
    };
    (commit, next_version)
}

/// Which of the changed packages a package has to follow: from the place of the package and the
/// changed packages so far to the names of those that it depends on in their old version.
pub type Followed = spec_fn(int, Seq<(Seq<char>, VersionView)>) -> Seq<Seq<char>>;

/// The names that an answer holds; none where there is no answer.
pub open spec fn answered_names(answer: Option<Vec<String>>) -> Seq<Seq<char>> {
    match answer {
        Some(names) => views(names@),
        None => Seq::empty(),
    }
}

/// The answers of `dependencies_to_update` are those of `followed`.
pub open spec fn answers_as<F: Fn(&Package, &Vec<ChangedPackage>) -> Option<Vec<String>>>(
    dependencies_to_update: F,
    packages: Seq<Package>,
    followed: Followed,
) -> bool {
    forall|i: int, changed: &Vec<ChangedPackage>, answer: Option<Vec<String>>|
        0 <= i < packages.len() && #[trigger] call_ensures(
            dependencies_to_update,
            (&packages[i], changed),
            answer,
        ) ==> answered_names(answer) == followed(i, changed_views(changed@))
}

/// The packages that have to follow others can be raised for it: none of them for which
/// `dependencies_to_update` may name packages has its version at the limit.
pub open spec fn followers_have_room<
    F: Fn(&Package, &Vec<ChangedPackage>) -> Option<Vec<String>>,
>(dependencies_to_update: F, packages: Seq<Package>) -> bool {
    forall|i: int, changed: &Vec<ChangedPackage>, answer: Option<Vec<String>>|
        0 <= i < packages.len() && #[trigger] call_ensures(
            dependencies_to_update,
            (&packages[i], changed),
            answer,
        ) && answered_names(answer).len() > 0 ==> packages[i].version@.can_follow()
}

/// The packages changed so far: `initial`, and behind them those of `packages` that `found`
/// gives the places of.
pub open spec fn changed_so_far(
    packages: Seq<Package>,
    initial: Seq<(Seq<char>, VersionView)>,
    found: Seq<(int, Seq<Seq<char>>)>,
) -> Seq<(Seq<char>, VersionView)> {
    initial + found.map_values(
        |u: (int, Seq<Seq<char>>)|
            (packages[u.0].name@, packages[u.0].version@.next_dependent()),
    )
}

/// What is found once the first `n` of `packages` were asked in turn, each with what changed
/// until then: the places of the packages to update, with the names of the packages that they
/// follow.
pub open spec fn found_in_round(
    packages: Seq<Package>,
    initial: Seq<(Seq<char>, VersionView)>,
    followed: Followed,
    found: Seq<(int, Seq<Seq<char>>)>,
    n: int,
) -> Seq<(int, Seq<Seq<char>>)>
    decreases n,
{
    if n <= 0 {
        found
    } else {
        let before = found_in_round(packages, initial, followed, found, n - 1);
        let changed = changed_so_far(packages, initial, before);
        let deps = followed(n - 1, changed);
        if is_changed(changed, packages[n - 1].name@) || deps.len() == 0 {
            before
        } else {
            before.push((n - 1, deps))
        }
    }
}

/// What is found in rounds over all `packages`, until a round finds nothing more.
pub open spec fn found_in_rounds(
    packages: Seq<Package>,
    initial: Seq<(Seq<char>, VersionView)>,
    followed: Followed,
    found: Seq<(int, Seq<Seq<char>>)>,
    rounds: nat,
) -> Seq<(int, Seq<Seq<char>>)>
    decreases rounds,
{
    let more = found_in_round(packages, initial, followed, found, packages.len() as int);
    if rounds == 0 || more.len() == found.len() {
        found
    } else {
        found_in_rounds(packages, initial, followed, more, (rounds - 1) as nat)
    }
}

/// The packages to update because they follow one of `initial`, directly or through others: their
/// places, with the names of the packages that they follow.
pub open spec fn dependents_of(
    packages: Seq<Package>,
    initial: Seq<(Seq<char>, VersionView)>,
    followed: Followed,
) -> Seq<(int, Seq<Seq<char>>)> {
    found_in_rounds(packages, initial, followed, Seq::empty(), packages.len() + 1)
}

/// `u` is the update of the package at `found.0` that follows the packages called `found.1`.
pub open spec fn is_dependent_update(
    packages: Seq<Package>,
    u: DependentUpdate,
    found: (int, Seq<Seq<char>>),
) -> bool {
    &&& u.index == found.0
    &&& u.version@ == packages[found.0].version@.next_dependent()
    &&& u.commit.id@ == NO_COMMIT_ID@
    &&& u.commit.message@ == dependency_message(found.1)
}

/// `updates` are the updates that `found` stands for.
pub open spec fn are_dependent_updates(
    packages: Seq<Package>,
    updates: Seq<DependentUpdate>,
    found: Seq<(int, Seq<Seq<char>>)>,
) -> bool {
    &&& updates.len() == found.len()
    &&& forall|k: int|
        0 <= k < updates.len() ==> is_dependent_update(packages, #[trigger] updates[k], found[k])
}

/// No package is found that changed before, and so none is found twice.
pub open spec fn is_found_once(
    packages: Seq<Package>,
    initial: Seq<(Seq<char>, VersionView)>,
    found: Seq<(int, Seq<Seq<char>>)>,
) -> bool {
    forall|k: int|
        0 <= k < found.len() ==> {
            let i = (#[trigger] found[k]).0;
            &&& 0 <= i < packages.len()
            &&& found[k].1.len() > 0
            &&& !is_changed(
                changed_so_far(packages, initial, found.take(k)),
                packages[i].name@,
            )
        }
}

/// What was found is sound: every package follows something that changed before it, none changed
/// before, and none is found twice.
pub open spec fn is_sound(
    packages: Seq<Package>,
    initial: Seq<(Seq<char>, VersionView)>,
    followed: Followed,
    found: Seq<(int, Seq<Seq<char>>)>,
) -> bool {
    &&& is_found_once(packages, initial, found)
    &&& forall|k: int|
        0 <= k < found.len() ==> (#[trigger] found[k]).1 == followed(
            found[k].0,
            changed_so_far(packages, initial, found.take(k)),
        )
}

/// One more package is found.
proof fn lemma_found_one_more(
    packages: Seq<Package>,
    initial: Seq<(Seq<char>, VersionView)>,
    found: Seq<(int, Seq<Seq<char>>)>,
    i: int,
    deps: Seq<Seq<char>>,
)
    requires
        is_found_once(packages, initial, found),
        0 <= i < packages.len(),
        deps.len() > 0,
        !is_changed(changed_so_far(packages, initial, found), packages[i].name@),
    ensures
        is_found_once(packages, initial, found.push((i, deps))),
        changed_so_far(packages, initial, found.push((i, deps))) == changed_so_far(
            packages,
            initial,
            found,
        ).push((packages[i].name@, packages[i].version@.next_dependent())),
        forall|k: int| 0 <= k <= found.len() ==> #[trigger] found.push((i, deps)).take(k) == found.take(k),
        found.take(found.len() as int) == found,
{
    let now = found.push((i, deps));
    assert forall|k: int| 0 <= k <= found.len() implies #[trigger] now.take(k) == found.take(k) by {
        assert(now.take(k) =~= found.take(k));
    }
    assert(found.take(found.len() as int) =~= found);
    assert forall|k: int| 0 <= k < now.len() implies ({
        let i = (#[trigger] now[k]).0;
        &&& 0 <= i < packages.len()
        &&& now[k].1.len() > 0
        &&& !is_changed(changed_so_far(packages, initial, now.take(k)), packages[i].name@)
    }) by {
        assert(now.take(k) == found.take(k));
        if k < found.len() {
            assert(now[k] == found[k]);
        }
    }
    assert(changed_so_far(packages, initial, now) =~= changed_so_far(packages, initial, found).push(
        (packages[i].name@, packages[i].version@.next_dependent()),
    ));
}

/// A round keeps what was found, and what it finds is sound.
proof fn lemma_round(
    packages: Seq<Package>,
    initial: Seq<(Seq<char>, VersionView)>,
    followed: Followed,
    found: Seq<(int, Seq<Seq<char>>)>,
    n: int,
)
    requires
        0 <= n <= packages.len(),
        is_sound(packages, initial, followed, found),
    ensures
        found.is_prefix_of(found_in_round(packages, initial, followed, found, n)),
        is_sound(
            packages,
            initial,
            followed,
            found_in_round(packages, initial, followed, found, n),
        ),
    decreases n,
{
    if n > 0 {
        lemma_round(packages, initial, followed, found, n - 1);
        let before = found_in_round(packages, initial, followed, found, n - 1);
        let now = found_in_round(packages, initial, followed, found, n);
        let changed = changed_so_far(packages, initial, before);
        let deps = followed(n - 1, changed);
        if !is_changed(changed, packages[n - 1].name@) && deps.len() > 0 {
            lemma_found_one_more(packages, initial, before, n - 1, deps);
            assert forall|k: int| 0 <= k < now.len() implies (#[trigger] now[k]).1 == followed(
                now[k].0,
                changed_so_far(packages, initial, now.take(k)),
            ) by {
                assert(now.take(k) == before.take(k));
                if k < before.len() {
                    assert(now[k] == before[k]);
                }
            }
        }
        assert(found =~= now.take(found.len() as int));
    }
}

/// No more packages are found than there are.
proof fn lemma_found_at_most_all(
    packages: Seq<Package>,
    initial: Seq<(Seq<char>, VersionView)>,
    found: Seq<(int, Seq<Seq<char>>)>,
)
    requires
        is_found_once(packages, initial, found),
    ensures
        found.len() <= packages.len(),
{
    let places = found.map_values(|u: (int, Seq<Seq<char>>)| u.0);
    assert forall|a: int, b: int| 0 <= a < b < places.len() implies places[a] != places[b] by {
        let changed = changed_so_far(packages, initial, found.take(b));
        let i = found[b].0;
        let j = found[a].0;
        assert(changed[initial.len() + a].0 == packages[j].name@) by {
            assert(found.take(b)[a] == found[a]);
        }
    }
    assert(places.no_duplicates());
    places.unique_seq_to_set();
    let range = vstd::set_lib::set_int_range(0, packages.len() as int);
    vstd::set_lib::lemma_int_range(0, packages.len() as int);
    assert(places.to_set().subset_of(range)) by {
        assert forall|x: int| places.to_set().contains(x) implies range.contains(x) by {
            let k = choose|k: int| 0 <= k < places.len() && places[k] == x;
            assert(found[k].0 == x);
        }
    }
    vstd::set_lib::lemma_len_subset(places.to_set(), range);
}

/// A round that finds nothing more leaves no package to ask again.
proof fn lemma_last_round(
    packages: Seq<Package>,
    initial: Seq<(Seq<char>, VersionView)>,
    followed: Followed,
    found: Seq<(int, Seq<Seq<char>>)>,
    n: int,
    i: int,
)
    requires
        0 <= i < n <= packages.len(),
        is_sound(packages, initial, followed, found),
        found_in_round(packages, initial, followed, found, n).len() == found.len(),
    ensures
        found_in_round(packages, initial, followed, found, n) == found,
        is_changed(changed_so_far(packages, initial, found), packages[i].name@) || followed(
            i,
            changed_so_far(packages, initial, found),
        ).len() == 0,
    decreases n,
{
    lemma_round(packages, initial, followed, found, n - 1);
    let before = found_in_round(packages, initial, followed, found, n - 1);
    assert(before =~= found);
    if i < n - 1 {
        lemma_last_round(packages, initial, followed, found, n - 1, i);
    }
}

/// What the rounds find is sound, and as many rounds as there are packages are enough.
proof fn lemma_rounds(
    packages: Seq<Package>,
    initial: Seq<(Seq<char>, VersionView)>,
    followed: Followed,
    found: Seq<(int, Seq<Seq<char>>)>,
    rounds: nat,
)
    requires
        is_sound(packages, initial, followed, found),
        rounds + found.len() >= packages.len() + 1,
    ensures
        ({
            let all = found_in_rounds(packages, initial, followed, found, rounds);
            &&& is_sound(packages, initial, followed, all)
            &&& found_in_round(packages, initial, followed, all, packages.len() as int).len()
                == all.len()
        }),
    decreases rounds,
{
    lemma_found_at_most_all(packages, initial, found);
    lemma_round(packages, initial, followed, found, packages.len() as int);
    let more = found_in_round(packages, initial, followed, found, packages.len() as int);
    if more.len() != found.len() {
        lemma_rounds(packages, initial, followed, more, (rounds - 1) as nat);
    }
}

/// Updates reach every dependent: once the search is over, a package that did not change follows
/// none of the packages that did.
pub proof fn law_dependents_are_complete(
    packages: Seq<Package>,
    initial: Seq<(Seq<char>, VersionView)>,
    followed: Followed,
    i: int,
)
    requires
        0 <= i < packages.len(),
    ensures
        ({
            let changed = changed_so_far(
                packages,
                initial,
                dependents_of(packages, initial, followed),
            );
            is_changed(changed, packages[i].name@) || followed(i, changed).len() == 0
        }),
{
    let found = dependents_of(packages, initial, followed);
    lemma_rounds(packages, initial, followed, Seq::empty(), packages.len() + 1);
    lemma_last_round(packages, initial, followed, found, packages.len() as int, i);
}

/// Only dependents are updated: each of them follows a package that changed before it. None of
/// them changed before, so that no package is updated twice.
pub proof fn law_dependents_are_sound(
    packages: Seq<Package>,
    initial: Seq<(Seq<char>, VersionView)>,
    followed: Followed,
)
    ensures
        is_sound(packages, initial, followed, dependents_of(packages, initial, followed)),
{
    lemma_rounds(packages, initial, followed, Seq::empty(), packages.len() + 1);
}

/// `dependencies_to_update` was asked about `p` with `changed`, and answered with `deps`.
pub open spec fn was_answered<F: Fn(&Package, &Vec<ChangedPackage>) -> Option<Vec<String>>>(
    dependencies_to_update: F,
    p: Package,
    changed: Seq<(Seq<char>, VersionView)>,
    deps: Seq<Seq<char>>,
) -> bool {
    exists|c: &Vec<ChangedPackage>, answer: Option<Vec<String>>|
        changed_views(c@) == changed && #[trigger] call_ensures(
            dependencies_to_update,
            (&p, c),
            answer,
        ) && answered_names(answer) == deps
}

/// What the search found rests on the answers that were given: each package that was found
/// follows what changed before it, and each other package was asked with all that changed, and
/// follows none of it.
pub open spec fn rests_on_answers<F: Fn(&Package, &Vec<ChangedPackage>) -> Option<Vec<String>>>(
    dependencies_to_update: F,
    packages: Seq<Package>,
    initial: Seq<(Seq<char>, VersionView)>,
    found: Seq<(int, Seq<Seq<char>>)>,
) -> bool {
    &&& is_found_once(packages, initial, found)
    &&& forall|k: int|
        0 <= k < found.len() ==> was_answered(
            dependencies_to_update,
            packages[(#[trigger] found[k]).0],
            changed_so_far(packages, initial, found.take(k)),
            found[k].1,
        )
    &&& forall|i: int|
        0 <= i < packages.len() ==> {
            let changed = changed_so_far(packages, initial, found);
            is_changed(changed, (#[trigger] packages[i]).name@) || was_answered(
                dependencies_to_update,
                packages[i],
                changed,
                Seq::empty(),
            )
        }
}

/// The updates of the packages that depend on `initial_changed_packages`, directly or through
/// other packages that are updated.
///
/// Of `packages_to_check_for_deps`, those are updated for which `dependencies_to_update` names
/// packages among those that changed so far. It may fail to answer; then the package stays as
/// long as it does. Packages are asked in rounds, until no more of them is updated.
pub fn dependent_packages_update<F: Fn(&Package, &Vec<ChangedPackage>) -> Option<Vec<String>>>(
    packages_to_check_for_deps: &Vec<&Package>,
    initial_changed_packages: Vec<ChangedPackage>,
    dependencies_to_update: F,
) -> (r: Vec<DependentUpdate>)
    requires
        followers_have_room(dependencies_to_update, referenced(packages_to_check_for_deps@)),
        forall|p: &Package, changed: &Vec<ChangedPackage>|
            call_requires(dependencies_to_update, (p, changed)),
    ensures
        exists|found: Seq<(int, Seq<Seq<char>>)>| #[trigger]
            are_dependent_updates(referenced(packages_to_check_for_deps@), r@, found)
                && rests_on_answers(
                dependencies_to_update,
                referenced(packages_to_check_for_deps@),
                changed_views(initial_changed_packages@),
                found,
            ),
        forall|followed: Followed|
            #![trigger dependents_of(
                referenced(packages_to_check_for_deps@),
                changed_views(initial_changed_packages@),
                followed,
            )]
            answers_as(dependencies_to_update, referenced(packages_to_check_for_deps@), followed)
                ==> are_dependent_updates(
                referenced(packages_to_check_for_deps@),
                r@,
                dependents_of(
                    referenced(packages_to_check_for_deps@),
                    changed_views(initial_changed_packages@),
                    followed,
                ),
            ),
{
    let packages = packages_to_check_for_deps;
    let ghost all = referenced(packages@);
    let ghost initial = changed_views(initial_changed_packages@);
    let ghost f = dependencies_to_update;
    let ghost mut found: Seq<(int, Seq<Seq<char>>)> = Seq::empty();
    let ghost mut rounds: nat = all.len() + 1;
    let mut changed = initial_changed_packages;
    let mut result: Vec<DependentUpdate> = Vec::new();
    assert(changed_so_far(all, initial, found) =~= initial);
    loop
        invariant_except_break
            rounds + found.len() >= all.len() + 1,
            forall|followed: Followed| #[trigger]
                answers_as(f, all, followed) ==> found_in_rounds(
                    all,
                    initial,
                    followed,
                    found,
                    rounds,
                ) == dependents_of(all, initial, followed),
        invariant
            all == referenced(packages@),
            all.len() == packages@.len(),
            f == dependencies_to_update,
            followers_have_room(f, all),
            forall|p: &Package, changed: &Vec<ChangedPackage>|
                call_requires(dependencies_to_update, (p, changed)),
            are_dependent_updates(all, result@, found),
            changed_views(changed@) == changed_so_far(all, initial, found),
            is_found_once(all, initial, found),
            forall|k: int|
                0 <= k < found.len() ==> was_answered(
                    f,
                    all[(#[trigger] found[k]).0],
                    changed_so_far(all, initial, found.take(k)),
                    found[k].1,
                ),
        ensures
            forall|i: int|
                0 <= i < all.len() ==> is_changed(
                    changed_so_far(all, initial, found),
                    (#[trigger] all[i]).name@,
                ) || was_answered(f, all[i], changed_so_far(all, initial, found), Seq::empty()),
            forall|followed: Followed| #[trigger]
                answers_as(f, all, followed) ==> found == dependents_of(all, initial, followed),
        decreases all.len() + 1 - found.len(),
    {
        let ghost start = found;
        let updated_before: usize = result.len();
        for i in 0..packages.len()
            invariant
                all == referenced(packages@),
                all.len() == packages@.len(),
                f == dependencies_to_update,
                followers_have_room(f, all),
                forall|p: &Package, changed: &Vec<ChangedPackage>|
                    call_requires(dependencies_to_update, (p, changed)),
                are_dependent_updates(all, result@, found),
                changed_views(changed@) == changed_so_far(all, initial, found),
                is_found_once(all, initial, found),
                forall|k: int|
                    0 <= k < found.len() ==> was_answered(
                        f,
                        all[(#[trigger] found[k]).0],
                        changed_so_far(all, initial, found.take(k)),
                        found[k].1,
                    ),
                start.is_prefix_of(found),
                found.len() == start.len() ==> forall|j: int|
                    0 <= j < i ==> is_changed(
                        changed_so_far(all, initial, found),
                        (#[trigger] all[j]).name@,
                    ) || was_answered(f, all[j], changed_so_far(all, initial, found), Seq::empty()),
                forall|followed: Followed| #[trigger]
                    answers_as(f, all, followed) ==> found == found_in_round(
                        all,
                        initial,
                        followed,
                        start,
                        i as int,
                    ),
        {
            let p = packages[i];
            let ghost before = found;
            let ghost so_far = changed_so_far(all, initial, found);
            assert(all[i as int] == *p);
            if !contains_changed(&changed, p.name.as_str()) {
                let answer = dependencies_to_update(p, &changed);
                let ghost deps_named = answered_names(answer);
                assert(was_answered(f, *p, so_far, deps_named));
                if let Some(deps) = answer {
                    if deps.len() > 0 {
                        assert(views(deps@).len() == deps@.len());
                        assert(call_ensures(f, (&all[i as int], &changed), answer));
                        let (commit, version) = calculate_package_update_result(&deps, p);
                        let ghost updates_before = result@;
                        let ghost changed_before = changed@;
                        changed.push(
                            ChangedPackage { name: p.name.clone(), version: version.clone() },
                        );
                        result.push(DependentUpdate { index: i, version, commit });
                        proof {
                            assert(deps_named == views(deps@));
                            assert(deps_named.len() == deps@.len());
                            lemma_found_one_more(all, initial, found, i as int, deps_named);
                            found = found.push((i as int, deps_named));
                            assert(changed_views(changed@) =~= changed_views(changed_before).push(
                                (p.name@, p.version@.next_dependent()),
                            ));
                            assert forall|k: int| 0 <= k < found.len() implies was_answered(
                                f,
                                all[(#[trigger] found[k]).0],
                                changed_so_far(all, initial, found.take(k)),
                                found[k].1,
                            ) by {
                                assert(found.take(k) == before.take(k));
                                if k < before.len() {
                                    assert(found[k] == before[k]);
                                }
                            }
                            assert forall|k: int| 0 <= k < result@.len() implies is_dependent_update(
                                all,
                                #[trigger] result@[k],
                                found[k],
                            ) by {
                                if k < before.len() {
                                    assert(result@[k] == updates_before[k]);
                                    assert(found[k] == before[k]);
                                }
                            }
                        }
                    }
                }
                assert(found == before ==> deps_named =~= Seq::<Seq<char>>::empty());
            }
        }
        proof {
            assert forall|followed: Followed| #[trigger] answers_as(f, all, followed) implies found
                == found_in_round(all, initial, followed, start, all.len() as int) by {}
            if rounds > 0 {
                rounds = (rounds - 1) as nat;
            }
            lemma_found_at_most_all(all, initial, start);
            lemma_found_at_most_all(all, initial, found);
        }
        if result.len() == updated_before {
            assert(found =~= start);
            break;
        }
    }
    result
}

/// What the update of a package because of its dependencies is. Its version is higher: a stable version
/// gets a patch that is one higher, and of a prerelease only the prerelease changes. The commit that
/// stands for it is none of the repository's, and its message names every dependency.
pub proof fn law_update_of_a_dependent(deps: &Vec<String>, p: &Package, r: (Commit, Version))
    requires
        call_ensures(calculate_package_update_result, (deps, p), r),
        p.version@.valid(),
    ensures
        ({
            let (old_version, new_version) = (p.version@, r.1@);
            &&& old_version.lower(new_version)
            &&& new_version.major == old_version.major
            &&& new_version.minor == old_version.minor
            &&& new_version.build == old_version.build
            &&& old_version.pre.len() == 0 ==> new_version.patch == old_version.patch + 1
                && new_version.pre.len() == 0
            &&& old_version.pre.len() > 0 ==> new_version.patch == old_version.patch
                && new_version.pre.len() > 0
        }),
        r.0.id@ == NO_COMMIT_ID@,
        r.0.message@ == "chore: updated the following local packages: "@ + joined(
            views(deps@),
            ", "@,
        ),
{
    law_dependent_version(p.version@);
}

/// What changed so far is what changed at first, and behind it each package that was found, in turn,
/// with its name and its new version, which is higher than the one in its manifest.
pub proof fn law_changed_so_far(
    packages: Seq<Package>,
    initial: Seq<(Seq<char>, VersionView)>,
    found: Seq<(int, Seq<Seq<char>>)>,
)
    ensures
        ({
            let changed = changed_so_far(packages, initial, found);
            &&& changed.len() == initial.len() + found.len()
            &&& forall|k: int| 0 <= k < initial.len() ==> #[trigger] changed[k] == initial[k]
            &&& forall|k: int|
                0 <= k < found.len() ==> (#[trigger] changed[initial.len() + k]).0 == packages[found[k].0].name@
                    && (packages[found[k].0].version@.valid()
                    ==> packages[found[k].0].version@.lower(changed[initial.len() + k].1)
                    && packages[found[k].0].version@.major == changed[initial.len() + k].1.major
                    && packages[found[k].0].version@.minor == changed[initial.len() + k].1.minor)
        }),
{
    let changed = changed_so_far(packages, initial, found);
    assert forall|k: int| 0 <= k < found.len() implies (
    #[trigger] changed[initial.len() + k]).0 == packages[found[k].0].name@ && (
    packages[found[k].0].version@.valid() ==> packages[found[k].0].version@.lower(
        changed[initial.len() + k].1,
    ) && packages[found[k].0].version@.major == changed[initial.len() + k].1.major
        && packages[found[k].0].version@.minor == changed[initial.len() + k].1.minor) by {
        if packages[found[k].0].version@.valid() {
            law_dependent_version(packages[found[k].0].version@);
        }
    }
}

/// Who is found, and why. Each package that is found is one of the packages, no name is found that
/// changed at first, and none is found twice. It follows packages among what changed before it, at
/// least one, and the names are those that it was said to follow.
pub proof fn law_who_is_found(
    packages: Seq<Package>,
    initial: Seq<(Seq<char>, VersionView)>,
    followed: Followed,
)
    ensures
        ({
            let found = dependents_of(packages, initial, followed);
            let changed = changed_so_far(packages, initial, found);
            &&& forall|k: int|
                0 <= k < found.len() ==> 0 <= (#[trigger] found[k]).0 < packages.len()
                    && found[k].1.len() > 0 && found[k].1 == followed(
                    found[k].0,
                    changed.take(initial.len() + k),
                )
            &&& forall|a: int, b: int|
                0 <= a < b < found.len() ==> packages[(#[trigger] found[a]).0].name@
                    != packages[(#[trigger] found[b]).0].name@
            &&& forall|a: int, k: int|
                0 <= a < initial.len() && 0 <= k < found.len() ==> (#[trigger] initial[a]).0
                    != packages[(#[trigger] found[k]).0].name@
        }),
{
    let found = dependents_of(packages, initial, followed);
    let changed = changed_so_far(packages, initial, found);
    law_dependents_are_sound(packages, initial, followed);
    assert forall|k: int| 0 <= k < found.len() implies #[trigger] changed_so_far(
        packages,
        initial,
        found.take(k),
    ) == changed.take(initial.len() + k) by {
        assert(changed_so_far(packages, initial, found.take(k)) =~= changed.take(
            initial.len() + k,
        ));
    }
    assert forall|k: int| 0 <= k < found.len() implies 0 <= (#[trigger] found[k]).0
        < packages.len() && found[k].1.len() > 0 && found[k].1 == followed(
        found[k].0,
        changed.take(initial.len() + k),
    ) by {
        assert(changed_so_far(packages, initial, found.take(k)) == changed.take(
            initial.len() + k,
        ));
    }
    assert forall|a: int, b: int| 0 <= a < b < found.len() implies packages[(
    #[trigger] found[a]).0].name@ != packages[(#[trigger] found[b]).0].name@ by {
        let before = changed_so_far(packages, initial, found.take(b));
        assert(before == changed.take(initial.len() + b));
        assert(found.take(b)[a] == found[a]);
        assert(before[initial.len() + a].0 == packages[found[a].0].name@);
    }
    assert forall|a: int, k: int| 0 <= a < initial.len() && 0 <= k < found.len() implies (
    #[trigger] initial[a]).0 != packages[(#[trigger] found[k]).0].name@ by {
        let before = changed_so_far(packages, initial, found.take(k));
        assert(before[a] == initial[a]);
    }
}

/// Who is left: a package that is not found, and whose name did not change at first, follows nothing of
/// all that changed.
pub proof fn law_who_is_left(
    packages: Seq<Package>,
    initial: Seq<(Seq<char>, VersionView)>,
    followed: Followed,
    i: int,
)
    requires
        0 <= i < packages.len(),
        forall|k: int|
            0 <= k < dependents_of(packages, initial, followed).len() ==> packages[(
            #[trigger] dependents_of(packages, initial, followed)[k]).0].name@ != packages[i].name@,
        forall|a: int| 0 <= a < initial.len() ==> (#[trigger] initial[a]).0 != packages[i].name@,
    ensures
        followed(
            i,
            changed_so_far(packages, initial, dependents_of(packages, initial, followed)),
        ).len() == 0,
{
    let found = dependents_of(packages, initial, followed);
    let changed = changed_so_far(packages, initial, found);
    law_dependents_are_complete(packages, initial, followed, i);
    if is_changed(changed, packages[i].name@) {
        let c = choose|c: int|
            0 <= c < changed.len() && (#[trigger] changed[c]).0 == packages[i].name@;
        if c < initial.len() {
            assert(initial[c].0 == packages[i].name@);
        } else {
            assert(packages[found[c - initial.len()].0].name@ == packages[i].name@);
        }
    }
}

/// `c` holds what changed at first, and behind it the first `k` of `updates`, by name and new version.
pub open spec fn is_changed_list(
    packages: Seq<Package>,
    initial: Seq<ChangedPackage>,
    updates: Seq<DependentUpdate>,
    k: int,
    c: Seq<ChangedPackage>,
) -> bool {
    &&& c.len() == initial.len() + k
    &&& forall|a: int|
        0 <= a < initial.len() ==> (#[trigger] c[a]).name@ == initial[a].name@ && c[a].version@
            == initial[a].version@
    &&& forall|j: int|
        0 <= j < k ==> (#[trigger] c[initial.len() + j]).name@ == packages[updates[j].index as int].name@
            && c[initial.len() + j].version@ == updates[j].version@
}

/// A list with the names and versions of what changed so far holds just that.
proof fn lemma_changed_list(
    packages: Seq<Package>,
    initial: Seq<ChangedPackage>,
    updates: Seq<DependentUpdate>,
    found: Seq<(int, Seq<Seq<char>>)>,
    k: int,
    c: Seq<ChangedPackage>,
)
    requires
        are_dependent_updates(packages, updates, found),
        0 <= k <= found.len(),
        changed_views(c) == changed_so_far(packages, changed_views(initial), found.take(k)),
    ensures
        is_changed_list(packages, initial, updates, k, c),
{
    let all = changed_so_far(packages, changed_views(initial), found.take(k));
    assert(changed_views(c).len() == c.len());
    assert forall|a: int| 0 <= a < initial.len() implies (#[trigger] c[a]).name@
        == initial[a].name@ && c[a].version@ == initial[a].version@ by {
        assert(changed_views(c)[a] == all[a]);
        assert(all[a] == changed_views(initial)[a]);
    }
    assert forall|j: int| 0 <= j < k implies (#[trigger] c[initial.len() + j]).name@
        == packages[updates[j].index as int].name@ && c[initial.len() + j].version@
        == updates[j].version@ by {
        assert(changed_views(c)[initial.len() + j] == all[initial.len() + j]);
        assert(found.take(k)[j] == found[j]);
        assert(is_dependent_update(packages, updates[j], found[j]));
    }
}

/// What the search for dependents gives, whatever the answers. Each update is one of the packages that
/// were to be checked; no name comes twice, and none that changed at first. Its version is higher than
/// the one in the manifest, by the patch alone or by the prerelease alone. It rests on an answer that
/// was given for this package and for all that changed before it, by names and new versions, and that
/// named at least one package; the message of its commit names just those.
pub proof fn law_given_dependents<F: Fn(&Package, &Vec<ChangedPackage>) -> Option<Vec<String>>>(
    packages: &Vec<&Package>,
    initial: Vec<ChangedPackage>,
    dependencies_to_update: F,
    r: Vec<DependentUpdate>,
    k: int,
)
    requires
        call_ensures(
            dependent_packages_update::<F>,
            (packages, initial, dependencies_to_update),
            r,
        ),
        0 <= k < r@.len(),
    ensures
        ({
            let u = r@[k];
            let p = *packages@[u.index as int];
            &&& u.index < packages@.len()
            &&& u.commit.id@ == NO_COMMIT_ID@
            &&& p.version@.valid() ==> {
                &&& p.version@.lower(u.version@)
                &&& u.version@.major == p.version@.major
                &&& u.version@.minor == p.version@.minor
                &&& u.version@.build == p.version@.build
                &&& p.version@.pre.len() == 0 ==> u.version@.patch == p.version@.patch + 1
                    && u.version@.pre.len() == 0
                &&& p.version@.pre.len() > 0 ==> u.version@.patch == p.version@.patch
                    && u.version@.pre.len() > 0
            }
            &&& forall|j: int|
                0 <= j < r@.len() && j != k ==> packages@[(#[trigger] r@[j]).index as int].name@
                    != p.name@
            &&& forall|a: int| 0 <= a < initial@.len() ==> (#[trigger] initial@[a]).name@ != p.name@
            &&& exists|c: &Vec<ChangedPackage>, answer: Option<Vec<String>>|
                #[trigger] call_ensures(dependencies_to_update, (&p, c), answer)
                    && is_changed_list(referenced(packages@), initial@, r@, k, c@) && answer is Some
                    && answer->0@.len() > 0 && u.commit.message@
                    == "chore: updated the following local packages: "@ + joined(
                    views(answer->0@),
                    ", "@,
                )
        }),
{
    let all = referenced(packages@);
    let first = changed_views(initial@);
    let found = choose|found: Seq<(int, Seq<Seq<char>>)>| #[trigger]
        are_dependent_updates(all, r@, found) && rests_on_answers(
            dependencies_to_update,
            all,
            first,
            found,
        );
    let u = r@[k];
    assert(is_dependent_update(all, u, found[k]));
    assert(0 <= found[k].0 < all.len());
    let p = all[found[k].0];
    assert(p == *packages@[u.index as int]);
    if p.version@.valid() {
        law_dependent_version(p.version@);
    }
    assert forall|j: int| 0 <= j < r@.len() && j != k implies packages@[(
    #[trigger] r@[j]).index as int].name@ != p.name@ by {
        assert(is_dependent_update(all, r@[j], found[j]));
        assert(0 <= found[j].0 < all.len());
        let (x, y) = if j < k {
            (j, k)
        } else {
            (k, j)
        };
        let before = changed_so_far(all, first, found.take(y));
        assert(found.take(y)[x] == found[x]);
        assert(before[first.len() + x].0 == all[found[x].0].name@);
        assert(!is_changed(before, all[found[y].0].name@));
    }
    assert forall|a: int| 0 <= a < initial@.len() implies (#[trigger] initial@[a]).name@
        != p.name@ by {
        let before = changed_so_far(all, first, found.take(k));
        assert(before[a] == first[a]);
        assert(first[a].0 == initial@[a].name@);
    }
    assert(was_answered(
        dependencies_to_update,
        all[found[k].0],
        changed_so_far(all, first, found.take(k)),
        found[k].1,
    ));
    let (c, answer) = choose|c: &Vec<ChangedPackage>, answer: Option<Vec<String>>|
        changed_views(c@) == changed_so_far(all, first, found.take(k)) && #[trigger] call_ensures(
            dependencies_to_update,
            (&p, c),
            answer,
        ) && answered_names(answer) == found[k].1;
    lemma_changed_list(all, initial@, r@, found, k, c@);
    assert(call_ensures(dependencies_to_update, (&p, c), answer));
}

/// Who is left by the search for dependents: a package whose name neither changed at first nor is that
/// of an update was asked about, with all that changed, and no package was named for it.
pub proof fn law_left_by_the_search<F: Fn(&Package, &Vec<ChangedPackage>) -> Option<Vec<String>>>(
    packages: &Vec<&Package>,
    initial: Vec<ChangedPackage>,
    dependencies_to_update: F,
    r: Vec<DependentUpdate>,
    i: int,
)
    requires
        call_ensures(
            dependent_packages_update::<F>,
            (packages, initial, dependencies_to_update),
            r,
        ),
        0 <= i < packages@.len(),
        forall|k: int|
            0 <= k < r@.len() ==> packages@[(#[trigger] r@[k]).index as int].name@
                != packages@[i].name@,
        forall|a: int|
            0 <= a < initial@.len() ==> (#[trigger] initial@[a]).name@ != packages@[i].name@,
    ensures
        exists|c: &Vec<ChangedPackage>, answer: Option<Vec<String>>|
            #[trigger] call_ensures(dependencies_to_update, (packages@[i], c), answer)
                && is_changed_list(referenced(packages@), initial@, r@, r@.len() as int, c@) && (
            answer is None || answer->0@.len() == 0),
{
    let all = referenced(packages@);
    let first = changed_views(initial@);
    let found = choose|found: Seq<(int, Seq<Seq<char>>)>| #[trigger]
        are_dependent_updates(all, r@, found) && rests_on_answers(
            dependencies_to_update,
            all,
            first,
            found,
        );
    let changed = changed_so_far(all, first, found);
    assert(found.take(found.len() as int) =~= found);
    assert(all[i] == *packages@[i]);
    if is_changed(changed, all[i].name@) {
        let c = choose|c: int| 0 <= c < changed.len() && (#[trigger] changed[c]).0 == all[i].name@;
        if c < first.len() {
            assert(first[c].0 == initial@[c].name@);
        } else {
            let k = c - first.len();
            assert(is_dependent_update(all, r@[k], found[k]));
            assert(0 <= found[k].0 < all.len());
            assert(packages@[r@[k].index as int].name@ == all[i].name@);
        }
    }
    assert(was_answered(dependencies_to_update, all[i], changed, Seq::empty()));
    let (c, answer) = choose|c: &Vec<ChangedPackage>, answer: Option<Vec<String>>|
        changed_views(c@) == changed && #[trigger] call_ensures(
            dependencies_to_update,
            (&all[i], c),
            answer,
        ) && answered_names(answer) == Seq::<Seq<char>>::empty();
    lemma_changed_list(all, initial@, r@, found, found.len() as int, c@);
    assert(call_ensures(dependencies_to_update, (packages@[i], c), answer));
    if let Some(names) = answer {
        assert(views(names@).len() == names@.len());
    }
}

/// The package at place `m` is passed over once `found` was found: it changed already, or it follows
/// nothing that changed.
pub open spec fn is_passed(
    packages: Seq<Package>,
    initial: Seq<(Seq<char>, VersionView)>,
    followed: Followed,
    found: Seq<(int, Seq<Seq<char>>)>,
    m: int,
) -> bool {
    let changed = changed_so_far(packages, initial, found);
    is_changed(changed, packages[m].name@) || followed(m, changed).len() == 0
}

/// What is found at `k` comes in its turn: all packages between the one found before it and this one,
/// going on and from the first again behind the last, are passed over.
pub open spec fn is_in_turn(
    packages: Seq<Package>,
    initial: Seq<(Seq<char>, VersionView)>,
    followed: Followed,
    found: Seq<(int, Seq<Seq<char>>)>,
    k: int,
) -> bool {
    let start = if k == 0 {
        0
    } else {
        found[k - 1].0 + 1
    };
    let at = found[k].0;
    forall|m: int|
        0 <= m < packages.len() && (if start <= at {
            start <= m < at
        } else {
            start <= m || m < at
        }) ==> #[trigger] is_passed(packages, initial, followed, found.take(k), m)
}

/// Dependents are found in turn: the first is the first package that follows what changed at first,
/// and each other is the next in turn that follows what changed until then.
pub proof fn law_found_in_turn(
    packages: Seq<Package>,
    initial: Seq<(Seq<char>, VersionView)>,
    followed: Followed,
    k: int,
)
    requires
        0 <= k < dependents_of(packages, initial, followed).len(),
    ensures
        is_in_turn(packages, initial, followed, dependents_of(packages, initial, followed), k),
{
    lemma_rounds_in_turn(packages, initial, followed, Seq::empty(), packages.len() + 1);
}

/// What was found came in turn, and those behind the last that was found are passed over.
spec fn are_in_turn(
    packages: Seq<Package>,
    initial: Seq<(Seq<char>, VersionView)>,
    followed: Followed,
    found: Seq<(int, Seq<Seq<char>>)>,
    n: int,
) -> bool {
    &&& forall|k: int|
        0 <= k < found.len() ==> #[trigger] is_in_turn(packages, initial, followed, found, k)
    &&& found.len() > 0 ==> forall|m: int|
        found.last().0 < m < n ==> #[trigger] is_passed(packages, initial, followed, found, m)
}

/// A round finds packages in turn.
proof fn lemma_round_in_turn(
    packages: Seq<Package>,
    initial: Seq<(Seq<char>, VersionView)>,
    followed: Followed,
    found: Seq<(int, Seq<Seq<char>>)>,
    n: int,
)
    requires
        0 <= n <= packages.len(),
        are_in_turn(packages, initial, followed, found, packages.len() as int),
    ensures
        ({
            let now = found_in_round(packages, initial, followed, found, n);
            &&& now.len() >= found.len()
            &&& now.len() == found.len() ==> now == found && forall|m: int|
                0 <= m < n ==> #[trigger] is_passed(packages, initial, followed, found, m)
            &&& now.len() > found.len() ==> now.last().0 < n && are_in_turn(
                packages,
                initial,
                followed,
                now,
                n,
            )
        }),
    decreases n,
{
    if n > 0 {
        lemma_round_in_turn(packages, initial, followed, found, n - 1);
        let before = found_in_round(packages, initial, followed, found, n - 1);
        let now = found_in_round(packages, initial, followed, found, n);
        let changed = changed_so_far(packages, initial, before);
        if is_changed(changed, packages[n - 1].name@) || followed(n - 1, changed).len() == 0 {
            assert(is_passed(packages, initial, followed, before, n - 1));
        } else {
            assert forall|k: int| 0 <= k < now.len() implies #[trigger] is_in_turn(
                packages,
                initial,
                followed,
                now,
                k,
            ) by {
                assert(now.take(k) =~= before.take(k));
                if k < before.len() {
                    assert(is_in_turn(packages, initial, followed, before, k));
                    assert(now[k] == before[k]);
                    if k > 0 {
                        assert(now[k - 1] == before[k - 1]);
                    }
                } else {
                    assert(before.take(k) =~= before);
                    if k > 0 {
                        assert(now[k - 1] == before.last());
                    }
                }
            }
        }
    }
}

/// Rounds find packages in turn.
proof fn lemma_rounds_in_turn(
    packages: Seq<Package>,
    initial: Seq<(Seq<char>, VersionView)>,
    followed: Followed,
    found: Seq<(int, Seq<Seq<char>>)>,
    rounds: nat,
)
    requires
        are_in_turn(packages, initial, followed, found, packages.len() as int),
    ensures
        are_in_turn(
            packages,
            initial,
            followed,
            found_in_rounds(packages, initial, followed, found, rounds),
            packages.len() as int,
        ),
    decreases rounds,
{
    let more = found_in_round(packages, initial, followed, found, packages.len() as int);
    lemma_round_in_turn(packages, initial, followed, found, packages.len() as int);
    if rounds > 0 && more.len() != found.len() {
        lemma_rounds_in_turn(packages, initial, followed, more, (rounds - 1) as nat);
    }
}

} // verus!
