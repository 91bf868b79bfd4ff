//! Which packages are processed, and in which order.
use vstd::prelude::*;
use vstd::string::*;

use crate::package::Package;
#[allow(unused_imports)]
use crate::package::propagated_names;
use crate::request::Project;
#[allow(unused_imports)]
use crate::request::UpdateRequest;
use crate::text::same_text;
#[allow(unused_imports)]
use crate::text::views;
use crate::updater::{contains_name, Updater};

verus! {

/// A package called `name` is among `packages`.
pub open spec fn has_package(packages: Seq<Package>, name: Seq<char>) -> bool {
    exists|i: int| 0 <= i < packages.len() && (#[trigger] packages[i]).name@ == name
}

/// `packages` without those whose name stood before.
pub open spec fn first_of_each_name(packages: Seq<Package>) -> Seq<Package>
    decreases packages.len(),
{
    if packages.len() == 0 {
        Seq::empty()
    } else {
        let before = first_of_each_name(packages.drop_last());
        if has_package(before, packages.last().name@) {
            before
        } else {
            before.push(packages.last())
        }
    }
}

/// Those of `packages` that are released from git alone.
pub open spec fn git_only_packages(req: UpdateRequest, packages: Seq<Package>) -> Seq<Package>
    decreases packages.len(),
{
    if packages.len() == 0 {
        Seq::empty()
    } else {
        let before = git_only_packages(req, packages.drop_last());
        if req.config(packages.last().name@).generic.git_only {
            before.push(packages.last())
        } else {
            before
        }
    }
}

/// The packages to process, as they are listed: those that can be published, in their order, and
/// behind them those that are released from git alone; each name once.
pub open spec fn listed_packages(project: Project, req: UpdateRequest) -> Seq<Package> {
    first_of_each_name(
        project.publishable_packages@ + git_only_packages(req, project.workspace_packages@),
    )
}

/// `p` has a package called `name` among its normal and build dependencies.
pub open spec fn needs(p: Package, name: Seq<char>) -> bool {
    propagated_names(p.dependencies@).contains(name)
}

/// The package at place `i` needs none of the other `packages`.
pub open spec fn is_ready(packages: Seq<Package>, i: int) -> bool {
    forall|j: int|
        0 <= j < packages.len() && j != i ==> !needs(packages[i], (#[trigger] packages[j]).name@)
}

/// The first place from `j` on of another package that the one at place `i` needs; behind all where
/// there is none.
pub open spec fn needed_place(packages: Seq<Package>, i: int, j: int) -> int
    decreases packages.len() - j,
{
    if j >= packages.len() {
        packages.len() as int
    } else if j != i && needs(packages[i], packages[j].name@) {
        j
    } else {
        needed_place(packages, i, j + 1)
    }
}

/// The place of a package that needs none of the others, found by going on from the one at place
/// `i`, in at most `steps` steps, to the first that each needs. There is none where this leads in a
/// circle.
pub open spec fn start_place(packages: Seq<Package>, i: int, steps: nat) -> Option<int>
    decreases steps,
{
    if is_ready(packages, i) {
        Some(i)
    } else if steps == 0 {
        None
    } else {
        start_place(packages, needed_place(packages, i, 0), (steps - 1) as nat)
    }
}

/// The place of the package that comes first of all, where the first `n` of `packages` can be
/// published and the others are released from git alone. It is the first package, or one that has
/// to come before it. Of those that are released from git alone, it is their first where that one
/// needs nothing, so that they keep their order too.
pub open spec fn next_place(packages: Seq<Package>, n: nat) -> int {
    match start_place(packages, 0, packages.len()) {
        Some(i) => if n <= i && is_ready(packages, n as int) {
            n as int
        } else {
            i
        },
        None => 0,
    }
}

/// How many of the first `n` packages are left without the one at place `i`.
pub open spec fn count_without(n: nat, i: int) -> nat {
    if i < n {
        (n - 1) as nat
    } else {
        n
    }
}

/// A needed package is another one, and there is none where a package is ready.
pub proof fn lemma_needed_place(packages: Seq<Package>, i: int, j: int)
    requires
        0 <= j,
    ensures
        ({
            let k = needed_place(packages, i, j);
            &&& k < packages.len() ==> j <= k && k != i && needs(packages[i], packages[k].name@)
            &&& k <= packages.len()
            &&& k == packages.len() <==> forall|m: int|
                j <= m < packages.len() && m != i ==> !needs(
                    packages[i],
                    (#[trigger] packages[m]).name@,
                )
        }),
    decreases packages.len() - j,
{
    if j < packages.len() {
        if j != i && needs(packages[i], packages[j].name@) {
            assert(needed_place(packages, i, j) == j);
        } else {
            lemma_needed_place(packages, i, j + 1);
        }
    }
}

/// At place `k` of `chain` stands the place of a package that needs the one at the next place.
pub open spec fn is_link(packages: Seq<Package>, chain: Seq<int>, k: int) -> bool {
    needs(packages[chain[k]], packages[chain[k + 1]].name@)
}

/// `chain` leads from the package at place `a` to the one at place `b`, by what each needs.
pub open spec fn is_chain(packages: Seq<Package>, chain: Seq<int>, a: int, b: int) -> bool {
    &&& chain.len() >= 2
    &&& chain[0] == a
    &&& chain.last() == b
    &&& forall|k: int| 0 <= k < chain.len() ==> 0 <= #[trigger] chain[k] < packages.len()
    &&& forall|k: int| 0 <= k < chain.len() - 1 ==> #[trigger] is_link(packages, chain, k)
}

/// The package at place `a` needs the one at place `b`, directly or through others.
pub open spec fn needs_through(packages: Seq<Package>, a: int, b: int) -> bool {
    exists|chain: Seq<int>| is_chain(packages, chain, a, b)
}

/// What is needed by a needed package is needed.
proof fn lemma_needs_through(packages: Seq<Package>, a: int, m: int, b: int)
    requires
        0 <= a < packages.len(),
        0 <= m < packages.len(),
        needs(packages[a], packages[m].name@),
        m == b || needs_through(packages, m, b),
    ensures
        needs_through(packages, a, b),
{
    if m == b {
        let chain = seq![a, b];
        assert(is_link(packages, chain, 0));
        assert(is_chain(packages, chain, a, b));
    } else {
        let chain = choose|chain: Seq<int>| is_chain(packages, chain, m, b);
        let longer = seq![a] + chain;
        assert forall|k: int| 0 <= k < longer.len() - 1 implies #[trigger] is_link(
            packages,
            longer,
            k,
        ) by {
            if k > 0 {
                assert(is_link(packages, chain, k - 1));
            }
        }
        assert(is_chain(packages, longer, a, b));
    }
}

/// The place where a release starts is that of a ready package, which the one at `i` needs.
pub proof fn lemma_start_place(packages: Seq<Package>, i: int, steps: nat)
    requires
        0 <= i < packages.len(),
    ensures
        start_place(packages, i, steps) matches Some(k) ==> {
            &&& 0 <= k < packages.len()
            &&& is_ready(packages, k)
            &&& k == i || needs_through(packages, i, k)
        },
    decreases steps,
{
    if !is_ready(packages, i) && steps > 0 {
        let j = needed_place(packages, i, 0);
        lemma_needed_place(packages, i, 0);
        lemma_start_place(packages, j, (steps - 1) as nat);
        if let Some(k) = start_place(packages, i, steps) {
            lemma_needs_through(packages, i, j, k);
        }
    }
}

/// The place is one of `packages`.
pub proof fn lemma_next_place(packages: Seq<Package>, n: nat)
    requires
        packages.len() > 0,
    ensures
        0 <= next_place(packages, n) < packages.len(),
{
    lemma_start_place(packages, 0, packages.len());
}

/// `packages` in release order, where the first `n` of them can be published and the others are
/// released from git alone: time and again, the first package, behind those that it needs.
pub open spec fn release_ordered(packages: Seq<Package>, n: nat) -> Seq<Package>
    decreases packages.len(),
{
    if packages.len() == 0 {
        Seq::empty()
    } else {
        let i = next_place(packages, n);
        proof {
            lemma_next_place(packages, n);
        }
        seq![packages[i]] + release_ordered(packages.remove(i), count_without(n, i))
    }
}

/// How many of the listed packages can be published: they are the first ones.
pub open spec fn publishable_count(project: Project) -> nat {
    first_of_each_name(project.publishable_packages@).len()
}

/// The packages to process, dependencies before dependents.
pub open spec fn packages_of(project: Project, req: UpdateRequest) -> Seq<Package> {
    release_ordered(listed_packages(project, req), publishable_count(project))
}

/// In `ordered`, the package at place `b` of `packages` stands before the one at the earlier place
/// `a`.
pub open spec fn overtakes(packages: Seq<Package>, ordered: Seq<Package>, a: int, b: int) -> bool {
    0 <= a < b < packages.len() && exists|x: int, y: int|
        0 <= x < y < ordered.len() && #[trigger] ordered[x] == packages[b] && #[trigger] ordered[y]
            == packages[a]
}

/// No package stands before one that it needs.
pub open spec fn stand_in_release_order(packages: Seq<Package>) -> bool {
    forall|i: int, j: int|
        0 <= i < j < packages.len() ==> !needs(
            #[trigger] packages[i],
            (#[trigger] packages[j]).name@,
        )
}

/// By `rank`, each of `packages` is above those that it needs.
pub open spec fn are_ranked(packages: Seq<Package>, rank: spec_fn(Seq<char>) -> nat) -> bool {
    forall|i: int, j: int|
        0 <= i < packages.len() && 0 <= j < packages.len() && needs(
            #[trigger] packages[i],
            (#[trigger] packages[j]).name@,
        ) ==> rank(packages[j].name@) < rank(packages[i].name@)
}

/// None of `packages` needs itself, directly or through others.
pub open spec fn are_acyclic(packages: Seq<Package>) -> bool {
    exists|rank: spec_fn(Seq<char>) -> nat| are_ranked(packages, rank)
}

/// The packages that references lead to.
pub open spec fn referenced(packages: Seq<&Package>) -> Seq<Package> {
    packages.map_values(|p: &Package| *p)
}

/// The names of `packages`.
pub open spec fn names_of(packages: Seq<Package>) -> Seq<Seq<char>> {
    packages.map_values(|p: Package| p.name@)
}

/// No two of `packages` have the same name.
pub open spec fn have_distinct_names(packages: Seq<Package>) -> bool {
    forall|i: int, j: int|
        0 <= i < j < packages.len() ==> (#[trigger] packages[i]).name@ != (
        #[trigger] packages[j]).name@
}

/// The packages that are the first of their name have distinct names.
proof fn lemma_first_names_are_distinct(packages: Seq<Package>)
    ensures
        have_distinct_names(first_of_each_name(packages)),
    decreases packages.len(),
{
    if packages.len() > 0 {
        let before = first_of_each_name(packages.drop_last());
        let now = first_of_each_name(packages);
        lemma_first_names_are_distinct(packages.drop_last());
        assert forall|i: int, j: int| 0 <= i < j < now.len() implies (#[trigger] now[i]).name@ != (
        #[trigger] now[j]).name@ by {
            assert(now[i] == before[i]);
            if j < before.len() {
                assert(now[j] == before[j]);
            }
        }
    }
}

/// No name is lost among the packages that are the first of their name.
proof fn lemma_first_names_are_kept(packages: Seq<Package>, name: Seq<char>)
    ensures
        has_package(first_of_each_name(packages), name) <==> has_package(packages, name),
    decreases packages.len(),
{
    if packages.len() > 0 {
        let less = packages.drop_last();
        let before = first_of_each_name(less);
        let now = first_of_each_name(packages);
        lemma_first_names_are_kept(less, name);
        if has_package(packages, name) {
            let i = choose|i: int|
                0 <= i < packages.len() && (#[trigger] packages[i]).name@ == name;
            if i < less.len() {
                assert(less[i].name@ == name);
                let k = choose|k: int| 0 <= k < before.len() && (#[trigger] before[k]).name@ == name;
                assert(now[k].name@ == name);
            } else if has_package(before, name) {
                let k = choose|k: int| 0 <= k < before.len() && (#[trigger] before[k]).name@ == name;
                assert(now[k].name@ == name);
            } else {
                assert(now[now.len() - 1].name@ == name);
            }
        }
        if has_package(now, name) {
            let k = choose|k: int| 0 <= k < now.len() && (#[trigger] now[k]).name@ == name;
            if k < before.len() {
                assert(before[k].name@ == name);
                let i = choose|i: int| 0 <= i < less.len() && (#[trigger] less[i]).name@ == name;
                assert(packages[i].name@ == name);
            } else {
                assert(packages[packages.len() - 1].name@ == name);
            }
        }
    }
}

/// The first of each name in a list come first among those of a longer one.
proof fn lemma_first_names_prefix(packages: Seq<Package>, more: Seq<Package>)
    ensures
        first_of_each_name(packages).is_prefix_of(first_of_each_name(packages + more)),
    decreases more.len(),
{
    if more.len() == 0 {
        assert(packages + more =~= packages);
    } else {
        lemma_first_names_prefix(packages, more.drop_last());
        assert((packages + more).drop_last() =~= packages + more.drop_last());
    }
}

/// Publishable packages are listed first, each name once.
pub proof fn law_listed_packages(project: Project, req: UpdateRequest)
    ensures
        have_distinct_names(listed_packages(project, req)),
        publishable_count(project) <= listed_packages(project, req).len(),
        listed_packages(project, req).take(publishable_count(project) as int)
            == first_of_each_name(project.publishable_packages@),
{
    let publishable = project.publishable_packages@;
    let others = git_only_packages(req, project.workspace_packages@);
    lemma_first_names_are_distinct(publishable + others);
    lemma_first_names_prefix(publishable, others);
}

/// Release order neither loses nor adds a package.
proof fn lemma_ordered_has(packages: Seq<Package>, n: nat, p: Package)
    ensures
        release_ordered(packages, n).contains(p) <==> packages.contains(p),
        release_ordered(packages, n).len() == packages.len(),
    decreases packages.len(),
{
    if packages.len() > 0 {
        let i = next_place(packages, n);
        lemma_next_place(packages, n);
        let rest = packages.remove(i);
        let left = count_without(n, i);
        let tail = release_ordered(rest, left);
        let now = release_ordered(packages, n);
        lemma_ordered_has(rest, left, p);
        assert(now == seq![packages[i]] + tail);
        if now.contains(p) {
            let k = choose|k: int| 0 <= k < now.len() && now[k] == p;
            if k == 0 {
                assert(packages[i] == p);
            } else {
                assert(tail[k - 1] == p);
                assert(rest.contains(p));
                let m = choose|m: int| 0 <= m < rest.len() && rest[m] == p;
                assert(packages[if m < i {
                    m
                } else {
                    m + 1
                }] == p);
            }
        }
        if packages.contains(p) {
            let m = choose|m: int| 0 <= m < packages.len() && packages[m] == p;
            if m == i {
                assert(now[0] == p);
            } else {
                assert(rest[if m < i {
                    m
                } else {
                    m - 1
                }] == p);
                assert(tail.contains(p));
                let k = choose|k: int| 0 <= k < tail.len() && tail[k] == p;
                assert(now[k + 1] == p);
            }
        }
    }
}

/// The place in `packages` of the package at place `j` without the one at place `i`.
spec fn place_before(i: int, j: int) -> int {
    if j < i {
        j
    } else {
        j + 1
    }
}

/// Without one package, names stay distinct.
proof fn lemma_rest_is_distinct(packages: Seq<Package>, i: int)
    requires
        have_distinct_names(packages),
        0 <= i < packages.len(),
    ensures
        have_distinct_names(packages.remove(i)),
{
    let rest = packages.remove(i);
    assert forall|a: int, b: int| 0 <= a < b < rest.len() implies (#[trigger] rest[a]).name@ != (
    #[trigger] rest[b]).name@ by {
        assert(rest[a] == packages[place_before(i, a)] && rest[b] == packages[place_before(i, b)]);
    }
}

/// In release order, names stay distinct.
proof fn lemma_ordered_names_are_distinct(packages: Seq<Package>, n: nat)
    requires
        have_distinct_names(packages),
    ensures
        have_distinct_names(release_ordered(packages, n)),
    decreases packages.len(),
{
    if packages.len() > 0 {
        let i = next_place(packages, n);
        lemma_next_place(packages, n);
        let rest = packages.remove(i);
        let left = count_without(n, i);
        let tail = release_ordered(rest, left);
        let now = release_ordered(packages, n);
        lemma_rest_is_distinct(packages, i);
        lemma_ordered_names_are_distinct(rest, left);
        assert forall|a: int, b: int| 0 <= a < b < now.len() implies (#[trigger] now[a]).name@ != (
        #[trigger] now[b]).name@ by {
            assert(now[b] == tail[b - 1]);
            if a > 0 {
                assert(now[a] == tail[a - 1]);
            } else {
                lemma_ordered_has(rest, left, tail[b - 1]);
                assert(tail.contains(tail[b - 1]));
                let m = choose|m: int| 0 <= m < rest.len() && rest[m] == tail[b - 1];
                let x = if m < i {
                    m
                } else {
                    m + 1
                };
                assert(packages[x] == tail[b - 1] && packages[i] == now[0]);
            }
        }
    }
}

/// The packages to process are the publishable ones and those that are released from git alone,
/// each name once.
pub proof fn law_packages_to_process(project: Project, req: UpdateRequest, name: Seq<char>)
    ensures
        have_distinct_names(packages_of(project, req)),
        has_package(packages_of(project, req), name) <==> has_package(
            project.publishable_packages@,
            name,
        ) || has_package(git_only_packages(req, project.workspace_packages@), name),
{
    let publishable = project.publishable_packages@;
    let others = git_only_packages(req, project.workspace_packages@);
    let all = publishable + others;
    let listed = listed_packages(project, req);
    let ordered = packages_of(project, req);
    let n = publishable_count(project);
    lemma_first_names_are_distinct(all);
    lemma_ordered_names_are_distinct(listed, n);
    lemma_first_names_are_kept(all, name);
    assert(has_package(ordered, name) <==> has_package(listed, name)) by {
        if has_package(ordered, name) {
            let i = choose|i: int| 0 <= i < ordered.len() && (#[trigger] ordered[i]).name@ == name;
            lemma_ordered_has(listed, n, ordered[i]);
            assert(ordered.contains(ordered[i]));
            let k = choose|k: int| 0 <= k < listed.len() && listed[k] == ordered[i];
            assert(listed[k].name@ == name);
        }
        if has_package(listed, name) {
            let i = choose|i: int| 0 <= i < listed.len() && (#[trigger] listed[i]).name@ == name;
            lemma_ordered_has(listed, n, listed[i]);
            assert(listed.contains(listed[i]));
            let k = choose|k: int| 0 <= k < ordered.len() && ordered[k] == listed[i];
            assert(ordered[k].name@ == name);
        }
    }
    if has_package(all, name) {
        let i = choose|i: int| 0 <= i < all.len() && (#[trigger] all[i]).name@ == name;
        if i < publishable.len() {
            assert(publishable[i].name@ == name);
        } else {
            assert(others[i - publishable.len()].name@ == name);
        }
    }
    if has_package(publishable, name) {
        let i = choose|i: int|
            0 <= i < publishable.len() && (#[trigger] publishable[i]).name@ == name;
        assert(all[i].name@ == name);
    }
    if has_package(others, name) {
        let i = choose|i: int| 0 <= i < others.len() && (#[trigger] others[i]).name@ == name;
        assert(all[publishable.len() + i].name@ == name);
    }
}

/// How many of the first `n` of `packages` rank below `r`.
spec fn count_below(
    packages: Seq<Package>,
    rank: spec_fn(Seq<char>) -> nat,
    r: nat,
    n: nat,
) -> nat
    decreases n,
{
    if n == 0 {
        0
    } else {
        count_below(packages, rank, r, (n - 1) as nat) + (if rank(packages[n - 1].name@) < r {
            1nat
        } else {
            0nat
        })
    }
}

/// Fewer packages rank below one that ranks below another.
proof fn lemma_count_below(
    packages: Seq<Package>,
    rank: spec_fn(Seq<char>) -> nat,
    j: int,
    r: nat,
    n: nat,
)
    requires
        0 <= j,
        rank(packages[j].name@) < r,
    ensures
        count_below(packages, rank, rank(packages[j].name@), n) + (if j < n {
            1nat
        } else {
            0nat
        }) <= count_below(packages, rank, r, n) <= n,
    decreases n,
{
    if n > 0 {
        lemma_count_below(packages, rank, j, r, (n - 1) as nat);
    }
}

/// Among ranked packages, going from each to one that it needs comes to an end.
proof fn lemma_ranked_start(
    packages: Seq<Package>,
    rank: spec_fn(Seq<char>) -> nat,
    i: int,
    steps: nat,
)
    requires
        are_ranked(packages, rank),
        0 <= i < packages.len(),
        count_below(packages, rank, rank(packages[i].name@), packages.len()) <= steps,
    ensures
        start_place(packages, i, steps) is Some,
    decreases steps,
{
    if !is_ready(packages, i) {
        let j = needed_place(packages, i, 0);
        lemma_needed_place(packages, i, 0);
        assert(needs(packages[i], packages[j].name@));
        lemma_count_below(packages, rank, j, rank(packages[i].name@), packages.len());
        lemma_ranked_start(packages, rank, j, (steps - 1) as nat);
    }
}

/// No more than all packages rank below `r`.
proof fn lemma_count_below_all(
    packages: Seq<Package>,
    rank: spec_fn(Seq<char>) -> nat,
    r: nat,
    n: nat,
)
    ensures
        count_below(packages, rank, r, n) <= n,
    decreases n,
{
    if n > 0 {
        lemma_count_below_all(packages, rank, r, (n - 1) as nat);
    }
}

/// Among ranked packages, the one that comes first of all is ready.
proof fn lemma_ranked_next(packages: Seq<Package>, n: nat, rank: spec_fn(Seq<char>) -> nat)
    requires
        packages.len() > 0,
        are_ranked(packages, rank),
    ensures
        start_place(packages, 0, packages.len()) is Some,
        is_ready(packages, next_place(packages, n)),
{
    lemma_count_below_all(packages, rank, rank(packages[0].name@), packages.len());
    lemma_ranked_start(packages, rank, 0, packages.len());
    lemma_start_place(packages, 0, packages.len());
}

/// Without one package, the others stay ranked.
proof fn lemma_rest_is_ranked(packages: Seq<Package>, i: int, rank: spec_fn(Seq<char>) -> nat)
    requires
        are_ranked(packages, rank),
        0 <= i < packages.len(),
    ensures
        are_ranked(packages.remove(i), rank),
{
    let rest = packages.remove(i);
    assert forall|a: int, b: int|
        0 <= a < rest.len() && 0 <= b < rest.len() && needs(
            #[trigger] rest[a],
            (#[trigger] rest[b]).name@,
        ) implies rank(rest[b].name@) < rank(rest[a].name@) by {
        assert(rest[a] == packages[place_before(i, a)] && rest[b] == packages[place_before(i, b)]);
    }
}

/// Ranked packages in release order: no package stands before one that it needs.
proof fn lemma_ranked_in_order(packages: Seq<Package>, n: nat, rank: spec_fn(Seq<char>) -> nat)
    requires
        are_ranked(packages, rank),
    ensures
        stand_in_release_order(release_ordered(packages, n)),
    decreases packages.len(),
{
    if packages.len() > 0 {
        let i = next_place(packages, n);
        lemma_next_place(packages, n);
        lemma_ranked_next(packages, n, rank);
        let rest = packages.remove(i);
        let left = count_without(n, i);
        let tail = release_ordered(rest, left);
        let now = release_ordered(packages, n);
        lemma_rest_is_ranked(packages, i, rank);
        lemma_ranked_in_order(rest, left, rank);
        assert forall|a: int, b: int| 0 <= a < b < now.len() implies !needs(
            #[trigger] now[a],
            (#[trigger] now[b]).name@,
        ) by {
            assert(now[b] == tail[b - 1]);
            if a > 0 {
                assert(now[a] == tail[a - 1]);
            } else {
                lemma_ordered_has(rest, left, tail[b - 1]);
                assert(tail.contains(tail[b - 1]));
                let k = choose|k: int| 0 <= k < rest.len() && rest[k] == tail[b - 1];
                assert(packages[place_before(i, k)] == tail[b - 1]);
            }
        }
    }
}

/// Packages are processed in release order, dependencies before dependents, whether they are
/// published or released from git alone. None of them needs itself, so that there is such an order.
pub proof fn law_release_order(project: Project, req: UpdateRequest)
    requires
        are_acyclic(listed_packages(project, req)),
    ensures
        stand_in_release_order(packages_of(project, req)),
        forall|i: int|
            0 <= i < packages_of(project, req).len() ==> !needs(
                #[trigger] packages_of(project, req)[i],
                packages_of(project, req)[i].name@,
            ),
{
    let listed = listed_packages(project, req);
    let ordered = packages_of(project, req);
    let n = publishable_count(project);
    let rank = choose|rank: spec_fn(Seq<char>) -> nat| are_ranked(listed, rank);
    lemma_ranked_in_order(listed, n, rank);
    assert forall|i: int| 0 <= i < ordered.len() implies !needs(
        #[trigger] ordered[i],
        ordered[i].name@,
    ) by {
        lemma_ordered_has(listed, n, ordered[i]);
        assert(ordered.contains(ordered[i]));
        let k = choose|k: int| 0 <= k < listed.len() && listed[k] == ordered[i];
        assert(!needs(listed[k], listed[k].name@));
    }
}

/// What is needed, directly or through others, ranks lower.
proof fn lemma_needed_ranks_lower(
    packages: Seq<Package>,
    rank: spec_fn(Seq<char>) -> nat,
    chain: Seq<int>,
    a: int,
    b: int,
)
    requires
        are_ranked(packages, rank),
        is_chain(packages, chain, a, b),
    ensures
        rank(packages[b].name@) < rank(packages[a].name@),
    decreases chain.len(),
{
    assert(is_link(packages, chain, 0));
    assert(needs(packages[chain[0]], packages[chain[1]].name@));
    if chain.len() > 2 {
        let shorter = chain.skip(1);
        assert forall|k: int| 0 <= k < shorter.len() - 1 implies #[trigger] is_link(
            packages,
            shorter,
            k,
        ) by {
            assert(is_link(packages, chain, k + 1));
        }
        lemma_needed_ranks_lower(packages, rank, shorter, chain[1], b);
    }
}

/// What is needed among packages without the one at place `k` is needed among all.
proof fn lemma_needs_through_rest(packages: Seq<Package>, k: int, a: int, b: int)
    requires
        0 <= k < packages.len(),
        needs_through(packages.remove(k), a, b),
    ensures
        needs_through(packages, place_before(k, a), place_before(k, b)),
{
    let rest = packages.remove(k);
    let chain = choose|chain: Seq<int>| is_chain(rest, chain, a, b);
    let places = chain.map_values(|i: int| place_before(k, i));
    assert forall|i: int| 0 <= i < places.len() implies 0 <= #[trigger] places[i] < packages.len()
        && packages[places[i]] == rest[chain[i]] by {
        assert(0 <= chain[i] < rest.len());
    }
    assert forall|i: int| 0 <= i < places.len() - 1 implies #[trigger] is_link(
        packages,
        places,
        i,
    ) by {
        assert(is_link(rest, chain, i));
        assert(packages[places[i]] == rest[chain[i]]);
        assert(packages[places[i + 1]] == rest[chain[i + 1]]);
    }
    assert(is_chain(packages, places, place_before(k, a), place_before(k, b)));
}

/// `d` is `b`, or else `b` goes ahead of a package that can be published so that the packages which
/// are released from git alone, those behind the first `n`, keep their order: `d` is a later one.
pub open spec fn goes_ahead_for(n: nat, a: int, b: int, d: int) -> bool {
    d == b || a < n <= b < d
}

/// A package that overtakes another, but is not the first of all, does so among the rest.
proof fn lemma_overtakes_in_rest(
    packages: Seq<Package>,
    n: nat,
    a: int,
    b: int,
    x: int,
    y: int,
) -> (places: (int, int))
    requires
        have_distinct_names(packages),
        0 <= a < b < packages.len(),
        0 < x < y < release_ordered(packages, n).len(),
        release_ordered(packages, n)[x] == packages[b],
        release_ordered(packages, n)[y] == packages[a],
    ensures
        ({
            let k = next_place(packages, n);
            let rest = packages.remove(k);
            let (i, j) = places;
            &&& overtakes(rest, release_ordered(rest, count_without(n, k)), i, j)
            &&& place_before(k, i) == a
            &&& place_before(k, j) == b
        }),
{
    let k = next_place(packages, n);
    lemma_next_place(packages, n);
    let rest = packages.remove(k);
    let left = count_without(n, k);
    let tail = release_ordered(rest, left);
    assert(tail[x - 1] == packages[b] && tail[y - 1] == packages[a]);
    lemma_ordered_has(rest, left, packages[a]);
    lemma_ordered_has(rest, left, packages[b]);
    assert(tail.contains(tail[x - 1]) && tail.contains(tail[y - 1]));
    let i = choose|i: int| 0 <= i < rest.len() && rest[i] == packages[a];
    let j = choose|j: int| 0 <= j < rest.len() && rest[j] == packages[b];
    assert(packages[place_before(k, i)] == packages[a]);
    assert(packages[place_before(k, j)] == packages[b]);
    assert(place_before(k, i) == a && place_before(k, j) == b);
    (i, j)
}

/// A package overtakes an earlier one only where that one, or one before it, needs it.
proof fn lemma_overtaking(packages: Seq<Package>, n: nat, a: int, b: int)
    requires
        have_distinct_names(packages),
        overtakes(packages, release_ordered(packages, n), a, b),
    ensures
        exists|c: int, d: int|
            0 <= c <= a && 0 <= d < packages.len() && goes_ahead_for(n, a, b, d)
                && #[trigger] needs_through(packages, c, d),
    decreases packages.len(),
{
    let k = next_place(packages, n);
    lemma_next_place(packages, n);
    lemma_start_place(packages, 0, packages.len());
    let rest = packages.remove(k);
    let left = count_without(n, k);
    let tail = release_ordered(rest, left);
    let now = release_ordered(packages, n);
    let (x, y) = choose|x: int, y: int|
        0 <= x < y < now.len() && #[trigger] now[x] == packages[b] && #[trigger] now[y]
            == packages[a];
    if x == 0 {
        assert(b == k);
        let d = start_place(packages, 0, packages.len())->0;
        assert(goes_ahead_for(n, a, b, d));
        assert(needs_through(packages, 0, d));
    } else {
        let (i, j) = lemma_overtakes_in_rest(packages, n, a, b, x, y);
        lemma_rest_is_distinct(packages, k);
        lemma_overtaking(rest, left, i, j);
        let (c, d) = choose|c: int, d: int|
            0 <= c <= i && 0 <= d < rest.len() && goes_ahead_for(left, i, j, d)
                && #[trigger] needs_through(rest, c, d);
        lemma_needs_through_rest(packages, k, c, d);
        assert(goes_ahead_for(n, a, b, place_before(k, d)));
    }
}

/// A package overtakes an earlier listed one only where that one, or one listed before it, needs it
/// directly or through others. The only others are packages that are released from git alone: they
/// overtake publishable ones together with a later one of them that is needed there.
pub proof fn law_overtaking(project: Project, req: UpdateRequest, a: int, b: int)
    requires
        overtakes(listed_packages(project, req), packages_of(project, req), a, b),
    ensures
        exists|c: int, d: int|
            0 <= c <= a && 0 <= d < listed_packages(project, req).len() && goes_ahead_for(
                publishable_count(project),
                a,
                b,
                d,
            ) && #[trigger] needs_through(listed_packages(project, req), c, d),
{
    law_listed_packages(project, req);
    lemma_overtaking(listed_packages(project, req), publishable_count(project), a, b);
}

/// By `rank`, the packages from place `i` to place `j` are listed from low to high.
pub open spec fn rank_rises(
    packages: Seq<Package>,
    rank: spec_fn(Seq<char>) -> nat,
    i: int,
    j: int,
) -> bool {
    forall|a: int, b: int|
        i <= a < b < j ==> rank((#[trigger] packages[a]).name@) < rank(
            (#[trigger] packages[b]).name@,
        )
}

/// One of the first `n` of `packages` has the lowest rank among them.
proof fn lemma_lowest_rank(
    packages: Seq<Package>,
    rank: spec_fn(Seq<char>) -> nat,
    n: int,
) -> (m: int)
    requires
        0 < n <= packages.len(),
    ensures
        0 <= m < n,
        forall|j: int|
            0 <= j < n ==> rank(packages[m].name@) <= rank((#[trigger] packages[j]).name@),
    decreases n,
{
    if n == 1 {
        0
    } else {
        let m = lemma_lowest_rank(packages, rank, n - 1);
        if rank(packages[n - 1].name@) < rank(packages[m].name@) {
            n - 1
        } else {
            m
        }
    }
}

/// Where both lists agree with the packages' needs, the first package of one of them comes first.
proof fn lemma_first_of_a_list(packages: Seq<Package>, n: nat, rank: spec_fn(Seq<char>) -> nat)
    requires
        packages.len() > 0,
        n <= packages.len(),
        are_ranked(packages, rank),
        rank_rises(packages, rank, 0, n as int),
        rank_rises(packages, rank, n as int, packages.len() as int),
    ensures
        next_place(packages, n) == 0 || next_place(packages, n) == n,
{
    lemma_ranked_next(packages, n, rank);
    lemma_start_place(packages, 0, packages.len());
    let t = start_place(packages, 0, packages.len())->0;
    let m = lemma_lowest_rank(packages, rank, packages.len() as int);
    if t != 0 {
        let chain = choose|chain: Seq<int>| is_chain(packages, chain, 0, t);
        lemma_needed_ranks_lower(packages, rank, chain, 0, t);
        assert(n <= t);
        assert(m >= n) by {
            assert(rank(packages[m].name@) <= rank(packages[t].name@));
            if 0 < m < n {
                assert(rank(packages[0].name@) < rank(packages[m].name@));
            }
        }
        if m > n {
            assert(rank(packages[n as int].name@) < rank(packages[m].name@));
        }
        assert(rank(packages[m].name@) <= rank(packages[n as int].name@));
        assert(m == n);
        assert forall|j: int| 0 <= j < packages.len() && j != n implies !needs(
            packages[n as int],
            (#[trigger] packages[j]).name@,
        ) by {
            assert(rank(packages[m].name@) <= rank(packages[j].name@));
        }
    }
}

/// Without the first package of one of the lists, both lists still rise.
proof fn lemma_rest_rises(packages: Seq<Package>, n: nat, rank: spec_fn(Seq<char>) -> nat, k: int)
    requires
        n <= packages.len(),
        k == 0 || k == n,
        k < packages.len(),
        rank_rises(packages, rank, 0, n as int),
        rank_rises(packages, rank, n as int, packages.len() as int),
    ensures
        rank_rises(packages.remove(k), rank, 0, count_without(n, k) as int),
        rank_rises(
            packages.remove(k),
            rank,
            count_without(n, k) as int,
            packages.len() - 1,
        ),
{
    let rest = packages.remove(k);
    let left = count_without(n, k) as int;
    assert forall|e: int, f: int| 0 <= e < f < left implies rank((#[trigger] rest[e]).name@) < rank(
        (#[trigger] rest[f]).name@,
    ) by {
        assert(rest[e] == packages[place_before(k, e)]);
        assert(rest[f] == packages[place_before(k, f)]);
    }
    assert forall|e: int, f: int| left <= e < f < packages.len() - 1 implies rank(
        (#[trigger] rest[e]).name@,
    ) < rank((#[trigger] rest[f]).name@) by {
        assert(rest[e] == packages[place_before(k, e)]);
        assert(rest[f] == packages[place_before(k, f)]);
    }
}

/// Both lists keep their order where they agree with the packages' needs.
proof fn lemma_lists_keep_their_order(
    packages: Seq<Package>,
    n: nat,
    rank: spec_fn(Seq<char>) -> nat,
    a: int,
    b: int,
)
    requires
        have_distinct_names(packages),
        n <= packages.len(),
        are_ranked(packages, rank),
        rank_rises(packages, rank, 0, n as int),
        rank_rises(packages, rank, n as int, packages.len() as int),
        a < n <==> b < n,
    ensures
        !overtakes(packages, release_ordered(packages, n), a, b),
        stand_in_release_order(release_ordered(packages, n)),
    decreases packages.len(),
{
    lemma_ranked_in_order(packages, n, rank);
    let now = release_ordered(packages, n);
    if overtakes(packages, now, a, b) {
        let k = next_place(packages, n);
        lemma_next_place(packages, n);
        lemma_first_of_a_list(packages, n, rank);
        let rest = packages.remove(k);
        let left = count_without(n, k);
        let tail = release_ordered(rest, left);
        let (x, y) = choose|x: int, y: int|
            0 <= x < y < now.len() && #[trigger] now[x] == packages[b] && #[trigger] now[y]
                == packages[a];
        if x == 0 {
            assert(b == k);
        } else {
            let (i, j) = lemma_overtakes_in_rest(packages, n, a, b, x, y);
            lemma_rest_is_distinct(packages, k);
            lemma_rest_is_ranked(packages, k, rank);
            lemma_rest_rises(packages, n, rank, k);
            lemma_lists_keep_their_order(rest, left, rank, i, j);
        }
    }
}

/// Both lists keep their order: where some order keeps that of the publishable packages and that of
/// the packages which are released from git alone, and has dependencies before dependents, then so
/// does the order in which they are processed. `rank` is such an order.
pub proof fn law_lists_keep_their_order(
    project: Project,
    req: UpdateRequest,
    rank: spec_fn(Seq<char>) -> nat,
    a: int,
    b: int,
)
    requires
        are_ranked(listed_packages(project, req), rank),
        rank_rises(listed_packages(project, req), rank, 0, publishable_count(project) as int),
        rank_rises(
            listed_packages(project, req),
            rank,
            publishable_count(project) as int,
            listed_packages(project, req).len() as int,
        ),
        a < publishable_count(project) <==> b < publishable_count(project),
    ensures
        !overtakes(listed_packages(project, req), packages_of(project, req), a, b),
        stand_in_release_order(packages_of(project, req)),
{
    law_listed_packages(project, req);
    lemma_lists_keep_their_order(
        listed_packages(project, req),
        publishable_count(project),
        rank,
        a,
        b,
    );
}

/// Packages in release order keep their order.
proof fn lemma_listed_order_is_kept(packages: Seq<Package>, n: nat)
    requires
        stand_in_release_order(packages),
    ensures
        release_ordered(packages, n) == packages,
    decreases packages.len(),
{
    if packages.len() > 0 {
        assert(is_ready(packages, 0));
        assert(next_place(packages, n) == 0);
        let rest = packages.remove(0);
        assert forall|a: int, b: int| 0 <= a < b < rest.len() implies !needs(
            #[trigger] rest[a],
            (#[trigger] rest[b]).name@,
        ) by {
            assert(rest[a] == packages[a + 1] && rest[b] == packages[b + 1]);
        }
        lemma_listed_order_is_kept(rest, count_without(n, 0));
        assert(seq![packages[0]] + rest =~= packages);
    } else {
        assert(release_ordered(packages, n) =~= packages);
    }
}

/// A release order is kept: packages that are listed in one are processed as they are listed.
pub proof fn law_listed_order_is_kept(project: Project, req: UpdateRequest)
    requires
        stand_in_release_order(listed_packages(project, req)),
    ensures
        packages_of(project, req) == listed_packages(project, req),
{
    lemma_listed_order_is_kept(listed_packages(project, req), publishable_count(project));
}

/// The first place of another package that the one at place `i` needs; behind all where there is
/// none.
fn first_needed(packages: &Vec<&Package>, i: usize) -> (r: usize)
    requires
        i < packages@.len(),
    ensures
        r <= packages@.len(),
        r == needed_place(referenced(packages@), i as int, 0),
        r == packages@.len() <==> is_ready(referenced(packages@), i as int),
{
    let ghost all = referenced(packages@);
    let names = packages[i].dependency_names();
    let ghost needed = views(names@);
    assert(all[i as int] == *packages@[i as int]);
    proof {
        lemma_needed_place(all, i as int, 0);
    }
    for j in 0..packages.len()
        invariant
            i < packages@.len(),
            all == referenced(packages@),
            all.len() == packages@.len(),
            needed == views(names@),
            needed == propagated_names(all[i as int].dependencies@),
            needed_place(all, i as int, 0) == needed_place(all, i as int, j as int),
            needed_place(all, i as int, 0) == all.len() <==> is_ready(all, i as int),
    {
        assert(all[j as int] == *packages@[j as int]);
        if j != i && contains_name(&names, packages[j].name.as_str()) {
            proof {
                let k = choose|k: int|
                    0 <= k < names@.len() && (#[trigger] names@[k])@ == all[j as int].name@;
                assert(needed[k] == all[j as int].name@);
                assert(needs(all[i as int], all[j as int].name@));
            }
            return j;
        }
        proof {
            if j != i && needs(all[i as int], all[j as int].name@) {
                let k = choose|k: int|
                    0 <= k < needed.len() && needed[k] == all[j as int].name@;
                assert(names@[k]@ == all[j as int].name@);
            }
        }
    }
    packages.len()
}

/// The place of a package that needs none of the others, and that the first one needs.
fn first_start(packages: &Vec<&Package>) -> (r: Option<usize>)
    requires
        packages@.len() > 0,
    ensures
        match (r, start_place(referenced(packages@), 0, packages@.len())) {
            (Some(i), Some(k)) => i == k && i < packages@.len(),
            (None, None) => true,
            _ => false,
        },
{
    let ghost all = referenced(packages@);
    let mut i: usize = 0;
    let mut steps: usize = packages.len();
    loop
        invariant
            all == referenced(packages@),
            all.len() == packages@.len(),
            i < packages@.len(),
            start_place(all, 0, packages@.len()) == start_place(all, i as int, steps as nat),
        decreases steps,
    {
        let j: usize = first_needed(packages, i);
        if j == packages.len() {
            return Some(i);
        }
        if steps == 0 {
            return None;
        }
        i = j;
        steps = steps - 1;
    }
}

/// The place of the package that comes first of all, where the first `n` of `packages` can be
/// published.
fn next_package(packages: &Vec<&Package>, n: usize) -> (r: usize)
    requires
        packages@.len() > 0,
    ensures
        r < packages@.len(),
        r == next_place(referenced(packages@), n as nat),
{
    match first_start(packages) {
        Some(i) => if n <= i && first_needed(packages, n) == packages.len() {
            n
        } else {
            i
        },
        None => 0,
    }
}

/// The packages in release order, where the first `n` of them can be published.
fn in_release_order<'a>(packages: Vec<&'a Package>, n: usize) -> (r: Vec<&'a Package>)
    ensures
        referenced(r@) == release_ordered(referenced(packages@), n as nat),
{
    let ghost all = release_ordered(referenced(packages@), n as nat);
    let mut rest = packages;
    let mut left: usize = n;
    let mut out: Vec<&'a Package> = Vec::new();
    assert(referenced(out@) + all =~= all);
    while rest.len() > 0
        invariant
            referenced(out@) + release_ordered(referenced(rest@), left as nat) == all,
        decreases rest@.len(),
    {
        let ghost before = referenced(rest@);
        let ghost count = left as nat;
        let ghost done = out@;
        let place: usize = next_package(&rest, left);
        let p = rest.remove(place);
        out.push(p);
        if place < left {
            left = left - 1;
        }
        proof {
            assert(before[place as int] == *p);
            assert(referenced(rest@) =~= before.remove(place as int));
            assert(left as nat == count_without(count, place as int));
            assert(referenced(out@) =~= referenced(done).push(*p));
            assert(referenced(out@) + release_ordered(referenced(rest@), left as nat)
                =~= referenced(done) + (seq![*p] + release_ordered(
                before.remove(place as int),
                left as nat,
            )));
        }
    }
    assert(referenced(rest@) =~= Seq::<Package>::empty());
    assert(referenced(out@) + Seq::<Package>::empty() =~= referenced(out@));
    out
}

/// Whether a package called `name` is among `packages`.
fn contains_package(packages: &Vec<&Package>, name: &str) -> (r: bool)
    ensures
        r == has_package(referenced(packages@), name@),
{
    let ghost all = referenced(packages@);
    for i in 0..packages.len()
        invariant
            all == referenced(packages@),
            forall|j: int| 0 <= j < i ==> (#[trigger] all[j]).name@ != name@,
    {
        assert(all[i as int] == *packages@[i as int]);
        if same_text(packages[i].name.as_str(), name) {
            return true;
        }
    }
    false
}

impl<'a> Updater<'a> {
    /// The packages that are either publishable or released from git alone, each name once, in
    /// release order: dependencies stand before dependents, unless packages need each other. Apart
    /// from that, publishable packages come first, and both kinds keep the order of the project.
    pub fn packages_to_process(&self) -> (r: Vec<&'a Package>)
        ensures
            referenced(r@) == packages_of(*self.project, *self.req),
            are_acyclic(listed_packages(*self.project, *self.req)) ==> stand_in_release_order(
                referenced(r@),
            ),
    {
        let mut out: Vec<&'a Package> = Vec::new();
        let project = self.project;
        let publishable = &project.publishable_packages;
        let workspace = &project.workspace_packages;
        assert(referenced(out@) =~= first_of_each_name(publishable@.take(0)));
        for i in 0..publishable.len()
            invariant
                referenced(out@) == first_of_each_name(publishable@.take(i as int)),
        {
            let ghost now = publishable@.take(i + 1);
            let ghost before = out@;
            assert(now.drop_last() =~= publishable@.take(i as int));
            assert(now.last() == publishable@[i as int]);
            let p = &publishable[i];
            if !contains_package(&out, p.name.as_str()) {
                out.push(p);
                assert(referenced(out@) =~= referenced(before).push(*p));
            }
        }
        assert(publishable@.take(publishable@.len() as int) =~= publishable@);
        let n: usize = out.len();
        assert(n == publishable_count(*project)) by {
            assert(referenced(out@).len() == out@.len());
        }
        assert(publishable@ + git_only_packages(*self.req, workspace@.take(0)) =~= publishable@);
        for i in 0..workspace.len()
            invariant
                referenced(out@) == first_of_each_name(
                    publishable@ + git_only_packages(*self.req, workspace@.take(i as int)),
                ),
        {
            let ghost now = workspace@.take(i + 1);
            let ghost before = out@;
            assert(now.drop_last() =~= workspace@.take(i as int));
            assert(now.last() == workspace@[i as int]);
            let p = &workspace[i];
            if self.req.should_use_git_only(p.name.as_str()) {
                let ghost all = publishable@ + git_only_packages(*self.req, now);
                assert(all.drop_last() =~= publishable@ + git_only_packages(
                    *self.req,
                    workspace@.take(i as int),
                ));
                assert(all.last() == *p);
                if !contains_package(&out, p.name.as_str()) {
                    out.push(p);
                    assert(referenced(out@) =~= referenced(before).push(*p));
                }
            }
        }
        assert(workspace@.take(workspace@.len() as int) =~= workspace@);
        proof {
            if are_acyclic(listed_packages(*self.project, *self.req)) {
                law_release_order(*self.project, *self.req);
            }
        }
        in_release_order(out, n)
    }
}

/// A package of the workspace is released from git alone where its settings say so.
pub proof fn law_git_only_packages(req: UpdateRequest, packages: Seq<Package>) -> (from: Seq<int>)
    ensures
        git_only_packages(req, packages).len() == from.len(),
        forall|k: int|
            0 <= k < from.len() ==> 0 <= #[trigger] from[k] < packages.len() && req.config(
                packages[from[k]].name@,
            ).generic.git_only && git_only_packages(req, packages)[k] == packages[from[k]],
        forall|a: int, b: int| 0 <= a < b < from.len() ==> from[a] < from[b],
        forall|i: int|
            0 <= i < packages.len() && req.config(
                (#[trigger] packages[i]).name@,
            ).generic.git_only ==> from.contains(i),
    decreases packages.len(),
{
    if packages.len() == 0 {
        Seq::empty()
    } else {
        let less = packages.drop_last();
        let before = law_git_only_packages(req, less);
        let last = packages.len() - 1;
        let from = if req.config(packages[last].name@).generic.git_only {
            before.push(last)
        } else {
            before
        };
        assert forall|k: int| 0 <= k < from.len() implies 0 <= #[trigger] from[k] < packages.len()
            && req.config(packages[from[k]].name@).generic.git_only && git_only_packages(
            req,
            packages,
        )[k] == packages[from[k]] by {
            if k < before.len() {
                assert(from[k] == before[k]);
                assert(less[before[k]] == packages[before[k]]);
            }
        }
        assert forall|i: int|
            0 <= i < packages.len() && req.config(
                (#[trigger] packages[i]).name@,
            ).generic.git_only implies from.contains(i) by {
            if i < last {
                assert(less[i] == packages[i]);
                assert(before.contains(i));
                let k = choose|k: int| 0 <= k < before.len() && before[k] == i;
                assert(from[k] == i);
            } else {
                assert(from[from.len() - 1] == i);
            }
        }
        from
    }
}

/// Which packages are processed: a name is that of a processed package exactly where a publishable
/// package has it, or a package of the workspace that is released from git alone. Each name comes
/// once, and where none of the packages needs itself, none stands before one that it needs.
pub proof fn law_processed_packages(
    updater: &Updater,
    r: Vec<&Package>,
    name: Seq<char>,
)
    requires
        call_ensures(Updater::packages_to_process, (updater,), r),
    ensures
        (exists|k: int| 0 <= k < r@.len() && (#[trigger] r@[k]).name@ == name) <==> (exists|i: int|
            0 <= i < updater.project.publishable_packages@.len() && (
            #[trigger] updater.project.publishable_packages@[i]).name@ == name) || (exists|i: int|
            0 <= i < updater.project.workspace_packages@.len() && (
            #[trigger] updater.project.workspace_packages@[i]).name@ == name && updater.req.config(
                name,
            ).generic.git_only),
        forall|a: int, b: int|
            0 <= a < b < r@.len() ==> (#[trigger] r@[a]).name@ != (#[trigger] r@[b]).name@,
        are_acyclic(listed_packages(*updater.project, *updater.req)) ==> forall|a: int, b: int|
            0 <= a < b < r@.len() ==> !propagated_names(
                (#[trigger] r@[a]).dependencies@,
            ).contains((#[trigger] r@[b]).name@),
{
    let (project, req) = (*updater.project, *updater.req);
    let all = packages_of(project, req);
    let others = git_only_packages(req, project.workspace_packages@);
    assert(referenced(r@) == all);
    assert(all.len() == r@.len());
    assert forall|k: int| 0 <= k < all.len() implies all[k] == *(#[trigger] r@[k]) by {
        assert(referenced(r@)[k] == *r@[k]);
    }
    law_packages_to_process(project, req, name);
    let from = law_git_only_packages(req, project.workspace_packages@);
    if has_package(all, name) {
        let k = choose|k: int| 0 <= k < all.len() && (#[trigger] all[k]).name@ == name;
        assert(r@[k].name@ == name);
    }
    if exists|k: int| 0 <= k < r@.len() && (#[trigger] r@[k]).name@ == name {
        let k = choose|k: int| 0 <= k < r@.len() && (#[trigger] r@[k]).name@ == name;
        assert(all[k].name@ == name);
    }
    if has_package(others, name) {
        let k = choose|k: int| 0 <= k < others.len() && (#[trigger] others[k]).name@ == name;
        assert(project.workspace_packages@[from[k]].name@ == name);
    }
    if exists|i: int|
        0 <= i < project.workspace_packages@.len() && (
        #[trigger] project.workspace_packages@[i]).name@ == name && req.config(
            name,
        ).generic.git_only {
        let i = choose|i: int|
            0 <= i < project.workspace_packages@.len() && (
            #[trigger] project.workspace_packages@[i]).name@ == name && req.config(
                name,
            ).generic.git_only;
        assert(from.contains(i));
        let k = choose|k: int| 0 <= k < from.len() && from[k] == i;
        assert(others[k].name@ == name);
    }
    if are_acyclic(listed_packages(project, req)) {
        assert forall|a: int, b: int| 0 <= a < b < r@.len() implies !propagated_names(
            (#[trigger] r@[a]).dependencies@,
        ).contains((#[trigger] r@[b]).name@) by {
            assert(!needs(all[a], all[b].name@));
        }
    }
}

/// Of packages with the same name the first is taken, and those that are taken keep their order. `from`
/// are their places.
pub proof fn law_first_of_each_name(packages: Seq<Package>) -> (from: Seq<int>)
    ensures
        first_of_each_name(packages).len() == from.len(),
        forall|a: int, b: int| 0 <= a < b < from.len() ==> from[a] < from[b],
        forall|k: int|
            0 <= k < from.len() ==> 0 <= #[trigger] from[k] < packages.len() && first_of_each_name(
                packages,
            )[k] == packages[from[k]] && !has_package(
                packages.take(from[k]),
                packages[from[k]].name@,
            ),
        forall|i: int|
            0 <= i < packages.len() && !has_package(
                packages.take(i),
                (#[trigger] packages[i]).name@,
            ) ==> from.contains(i),
    decreases packages.len(),
{
    if packages.len() == 0 {
        Seq::empty()
    } else {
        let less = packages.drop_last();
        let last = packages.len() - 1;
        let before = law_first_of_each_name(less);
        let taken = first_of_each_name(less);
        lemma_first_names_are_kept(less, packages[last].name@);
        assert(packages.take(last) =~= less);
        let from = if has_package(taken, packages[last].name@) {
            before
        } else {
            before.push(last)
        };
        assert forall|k: int| 0 <= k < from.len() implies 0 <= #[trigger] from[k] < packages.len()
            && first_of_each_name(packages)[k] == packages[from[k]] && !has_package(
            packages.take(from[k]),
            packages[from[k]].name@,
        ) by {
            if k < before.len() {
                assert(from[k] == before[k]);
                assert(less[before[k]] == packages[before[k]]);
                assert(packages.take(before[k]) =~= less.take(before[k]));
            }
        }
        assert forall|i: int|
            0 <= i < packages.len() && !has_package(
                packages.take(i),
                (#[trigger] packages[i]).name@,
            ) implies from.contains(i) by {
            if i < last {
                assert(less[i] == packages[i]);
                assert(packages.take(i) =~= less.take(i));
                assert(before.contains(i));
                let k = choose|k: int| 0 <= k < before.len() && before[k] == i;
                assert(from[k] == i);
            } else {
                assert(from[from.len() - 1] == i);
            }
        }
        from
    }
}

/// A processed package is the first of its name: among the publishable packages, and behind them among
/// those of the workspace that are released from git alone.
pub proof fn law_chosen_packages(updater: &Updater, r: Vec<&Package>, k: int)
    requires
        call_ensures(Updater::packages_to_process, (updater,), r),
        0 <= k < r@.len(),
    ensures
        ({
            let all = updater.project.publishable_packages@ + git_only_packages(
                *updater.req,
                updater.project.workspace_packages@,
            );
            exists|i: int|
                0 <= i < all.len() && #[trigger] all[i] == *r@[k] && forall|j: int|
                    0 <= j < i ==> (#[trigger] all[j]).name@ != r@[k].name@
        }),
{
    let (project, req) = (*updater.project, *updater.req);
    let all = project.publishable_packages@ + git_only_packages(req, project.workspace_packages@);
    let listed = listed_packages(project, req);
    let ordered = packages_of(project, req);
    assert(referenced(r@)[k] == *r@[k]);
    assert(ordered[k] == *r@[k]);
    assert(ordered.contains(ordered[k]));
    lemma_ordered_has(listed, publishable_count(project), ordered[k]);
    let m = choose|m: int| 0 <= m < listed.len() && listed[m] == ordered[k];
    let from = law_first_of_each_name(all);
    let i = from[m];
    assert(all[i] == *r@[k]);
    assert forall|j: int| 0 <= j < i implies (#[trigger] all[j]).name@ != r@[k].name@ by {
        assert(all.take(i)[j] == all[j]);
    }
}

} // verus!
