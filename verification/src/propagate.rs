//! Propagation of bump levels from packages to those that depend on them.
use vstd::hash_map::StringHashMap;
use vstd::prelude::*;
use vstd::string::*;

#[allow(unused_imports)]
use crate::text::views;
use crate::version::BumpLevel;

verus! {

/// A package as far as propagation depends on it.
pub struct Entry {
    pub name: Seq<char>,
    /// The level of the package by its own changes.
    pub own: BumpLevel,
    /// The names of its dependencies.
    pub deps: Seq<Seq<char>>,
}

/// The packages that tuples of name, own level and dependency names stand for.
pub open spec fn entries_of(entries: Seq<(String, BumpLevel, Vec<String>)>) -> Seq<Entry> {
    entries.map_values(
        |e: (String, BumpLevel, Vec<String>)|
            Entry { name: e.0@, own: e.1, deps: views(e.2@) },
    )
}

/// The place of the package called `name` among `entries`: the last of them with that name.
pub open spec fn entry_index(
    entries: Seq<Entry>,
    name: Seq<char>,
) -> Option<int>
    decreases entries.len(),
{
    if entries.len() == 0 {
        None
    } else if entries.last().name == name {
        Some(entries.len() - 1)
    } else {
        entry_index(entries.drop_last(), name)
    }
}

/// The highest of the levels that are known of `deps`.
pub open spec fn highest_known(deps: Seq<Seq<char>>, known: Map<Seq<char>, BumpLevel>) -> BumpLevel
    decreases deps.len(),
{
    if deps.len() == 0 {
        BumpLevel::NoBump
    } else {
        let before = highest_known(deps.drop_last(), known);
        if known.contains_key(deps.last()) {
            before.higher(known[deps.last()])
        } else {
            before
        }
    }
}

/// The level of a package: the highest of its own and of those that are known of its
/// dependencies.
pub open spec fn level_of(
    entry: Entry,
    known: Map<Seq<char>, BumpLevel>,
) -> BumpLevel {
    entry.own.higher(highest_known(entry.deps, known))
}

/// The levels after the packages called `names` got theirs, one after the other.
pub open spec fn propagated(
    entries: Seq<Entry>,
    names: Seq<Seq<char>>,
) -> Map<Seq<char>, BumpLevel>
    decreases names.len(),
{
    if names.len() == 0 {
        Map::empty()
    } else {
        let before = propagated(entries, names.drop_last());
        let name = names.last();
        match entry_index(entries, name) {
            Some(i) => before.insert(name, level_of(entries[i], before)),
            None => before,
        }
    }
}

/// The highest of the levels that are known of `deps`.
fn highest_known_level(deps: &Vec<String>, known: &StringHashMap<BumpLevel>) -> (r: BumpLevel)
    ensures
        r == highest_known(views(deps@), known@),
{
    let mut highest = BumpLevel::NoBump;
    let ghost all = views(deps@);
    for i in 0..deps.len()
        invariant
            all == views(deps@),
            highest == highest_known(all.take(i as int), known@),
    {
        let ghost now = all.take(i + 1);
        assert(now.drop_last() =~= all.take(i as int));
        assert(now.last() == deps@[i as int]@);
        if let Some(level) = known.get(deps[i].as_str()) {
            highest = highest.max(*level);
        }
    }
    assert(all.take(deps@.len() as int) =~= all);
    highest
}

/// Propagates bump levels through the dependency graph.
///
/// `entries` holds the name, the own level and the names of the dependencies of each package.
/// `ordered_names` are the names of the packages, dependencies before dependents. The result
/// maps the names to the propagated levels.
pub fn propagate_bumps(
    entries: &Vec<(String, BumpLevel, Vec<String>)>,
    ordered_names: &Vec<String>,
) -> (r: StringHashMap<BumpLevel>)
    ensures
        r@ == propagated(entries_of(entries@), views(ordered_names@)),
{
    let ghost all = entries_of(entries@);
    let ghost names = views(ordered_names@);
    let mut indices: StringHashMap<usize> = StringHashMap::new();
    for i in 0..entries.len()
        invariant
            all == entries_of(entries@),
            forall|name: Seq<char>| #[trigger]
                indices@.contains_key(name) <==> entry_index(all.take(i as int), name) is Some,
            forall|name: Seq<char>| #[trigger]
                indices@.contains_key(name) ==> entry_index(all.take(i as int), name) == Some(
                    indices@[name] as int,
                ),
    {
        let ghost now = all.take(i + 1);
        assert(now.drop_last() =~= all.take(i as int));
        assert(now.last().name == entries@[i as int].0@);
        indices.insert(entries[i].0.clone(), i);
    }
    assert(all.take(entries@.len() as int) =~= all);
    let mut final_bumps: StringHashMap<BumpLevel> = StringHashMap::new();
    for i in 0..ordered_names.len()
        invariant
            all == entries_of(entries@),
            names == views(ordered_names@),
            forall|name: Seq<char>| #[trigger]
                indices@.contains_key(name) <==> entry_index(all, name) is Some,
            forall|name: Seq<char>| #[trigger]
                indices@.contains_key(name) ==> entry_index(all, name) == Some(
                    indices@[name] as int,
                ),
            final_bumps@ == propagated(all, names.take(i as int)),
    {
        let ghost now = names.take(i + 1);
        assert(now.drop_last() =~= names.take(i as int));
        assert(now.last() == ordered_names@[i as int]@);
        let name = &ordered_names[i];
        if let Some(index) = indices.get(name.as_str()) {
            proof {
                lemma_entry_index(all, name@);
            }
            let entry = &entries[*index];
            let level = entry.1.max(highest_known_level(&entry.2, &final_bumps));
            final_bumps.insert(name.clone(), level);
        }
    }
    assert(names.take(ordered_names@.len() as int) =~= names);
    final_bumps
}

/// The place of a package is one of its entries.
pub proof fn lemma_entry_index(entries: Seq<Entry>, name: Seq<char>)
    ensures
        entry_index(entries, name) matches Some(i) ==> 0 <= i < entries.len() && entries[i].name
            == name,
    decreases entries.len(),
{
    if entries.len() > 0 && entries.last().name != name {
        lemma_entry_index(entries.drop_last(), name);
    }
}

/// In `names`, each package with an entry stands once.
pub open spec fn stand_once(entries: Seq<Entry>, names: Seq<Seq<char>>) -> bool {
    forall|i: int, j: int|
        0 <= i < j < names.len() && entry_index(entries, names[i]) is Some ==> #[trigger] names[i]
            != #[trigger] names[j]
}

/// `names` is an order in which each package with an entry stands once and behind its
/// dependencies. Names without an entry may stand anywhere.
pub open spec fn is_release_order(
    entries: Seq<Entry>,
    names: Seq<Seq<char>>,
) -> bool {
    &&& stand_once(entries, names)
    &&& forall|i: int, j: int|
        0 <= i < names.len() && 0 <= j < names.len() && depends_on(
            entries,
            #[trigger] names[i],
            #[trigger] names[j],
        ) && entry_index(entries, names[j]) is Some ==> j < i
}

/// The package called `name` has one called `dep` among its dependencies.
pub open spec fn depends_on(
    entries: Seq<Entry>,
    name: Seq<char>,
    dep: Seq<char>,
) -> bool {
    entry_index(entries, name) matches Some(i) && exists|k: int|
        0 <= k < entries[i].deps.len() && #[trigger] entries[i].deps[k] == dep
}

/// `name` is among `names`.
pub open spec fn is_listed(names: Seq<Seq<char>>, name: Seq<char>) -> bool {
    exists|i: int| 0 <= i < names.len() && #[trigger] names[i] == name
}

/// The packages that get a level are those with an entry that stand in the order.
pub proof fn law_propagated_domain(
    entries: Seq<Entry>,
    names: Seq<Seq<char>>,
    name: Seq<char>,
)
    ensures
        propagated(entries, names).contains_key(name) <==> is_listed(names, name) && entry_index(
            entries,
            name,
        ) is Some,
    decreases names.len(),
{
    if names.len() > 0 {
        law_propagated_domain(entries, names.drop_last(), name);
        if is_listed(names.drop_last(), name) {
            let i = choose|i: int|
                0 <= i < names.len() - 1 && #[trigger] names.drop_last()[i] == name;
            assert(names[i] == name);
        }
        if names.last() == name {
            assert(names[names.len() - 1] == name);
        } else if is_listed(names, name) {
            let i = choose|i: int| 0 <= i < names.len() && #[trigger] names[i] == name;
            assert(names.drop_last()[i] == name);
        }
    }
}

/// Once a package got its level, the packages behind it do not change it.
proof fn lemma_level_stays(
    entries: Seq<Entry>,
    names: Seq<Seq<char>>,
    i: int,
)
    requires
        0 <= i < names.len(),
        stand_once(entries, names),
        entry_index(entries, names[i]) is Some,
    ensures
        propagated(entries, names).contains_key(names[i]),
        propagated(entries, names)[names[i]] == level_of(
            entries[entry_index(entries, names[i])->0],
            propagated(entries, names.take(i)),
        ),
    decreases names.len(),
{
    if i == names.len() - 1 {
        assert(names.take(i) =~= names.drop_last());
    } else {
        let less = names.drop_last();
        assert(less[i] == names[i]);
        assert forall|a: int, b: int|
            0 <= a < b < less.len() && entry_index(entries, less[a]) is Some implies #[trigger] less[a]
            != #[trigger] less[b] by {
            assert(less[a] == names[a] && less[b] == names[b]);
        }
        lemma_level_stays(entries, less, i);
        assert(less.take(i) =~= names.take(i));
        assert(names[i] != names[names.len() - 1]);
    }
}

/// Levels that are the same for each dependency have the same highest.
proof fn lemma_highest_known_same(
    deps: Seq<Seq<char>>,
    a: Map<Seq<char>, BumpLevel>,
    b: Map<Seq<char>, BumpLevel>,
)
    requires
        forall|k: int|
            0 <= k < deps.len() ==> {
                let d = #[trigger] deps[k];
                &&& a.contains_key(d) <==> b.contains_key(d)
                &&& a.contains_key(d) ==> a[d] == b[d]
            },
    ensures
        highest_known(deps, a) == highest_known(deps, b),
    decreases deps.len(),
{
    if deps.len() > 0 {
        let less = deps.drop_last();
        assert forall|k: int| 0 <= k < less.len() implies {
            let d = #[trigger] less[k];
            &&& a.contains_key(d) <==> b.contains_key(d)
            &&& a.contains_key(d) ==> a[d] == b[d]
        } by {
            assert(less[k] == deps[k]);
        }
        lemma_highest_known_same(less, a, b);
        assert(deps[deps.len() - 1] == deps.last());
    }
}

/// One pass is enough: in a release order, the level of each package is the highest of its own
/// and of the final levels of its dependencies.
pub proof fn law_single_pass(
    entries: Seq<Entry>,
    names: Seq<Seq<char>>,
    i: int,
)
    requires
        is_release_order(entries, names),
        0 <= i < names.len(),
        entry_index(entries, names[i]) is Some,
    ensures
        propagated(entries, names).contains_key(names[i]),
        propagated(entries, names)[names[i]] == level_of(
            entries[entry_index(entries, names[i])->0],
            propagated(entries, names),
        ),
{
    let name = names[i];
    let e = entry_index(entries, name)->0;
    let deps = entries[e].deps;
    let before = propagated(entries, names.take(i));
    let after = propagated(entries, names);
    lemma_level_stays(entries, names, i);
    assert forall|k: int| 0 <= k < deps.len() implies {
        let d = #[trigger] deps[k];
        &&& before.contains_key(d) <==> after.contains_key(d)
        &&& before.contains_key(d) ==> before[d] == after[d]
    } by {
        let d = deps[k];
        law_propagated_domain(entries, names.take(i), d);
        law_propagated_domain(entries, names, d);
        assert(depends_on(entries, name, d));
        if is_listed(names, d) && entry_index(entries, d) is Some {
            let j = choose|j: int| 0 <= j < names.len() && #[trigger] names[j] == d;
            assert(depends_on(entries, names[i], names[j]));
            assert(j < i);
            let first = names.take(i);
            assert(first[j] == d);
            lemma_level_stays(entries, names, j);
            assert(first.take(j) =~= names.take(j));
            assert forall|a: int, b: int|
                0 <= a < b < first.len() && entry_index(entries, first[a]) is Some implies
                #[trigger] first[a] != #[trigger] first[b] by {
                assert(first[a] == names[a] && first[b] == names[b]);
            }
            lemma_level_stays(entries, first, j);
        } else if is_listed(names.take(i), d) {
            let j = choose|j: int| 0 <= j < i && #[trigger] names.take(i)[j] == d;
            assert(names[j] == d);
        }
    }
    lemma_highest_known_same(deps, before, after);
}

/// A known dependency's level is not above the highest.
proof fn lemma_highest_known_bound(deps: Seq<Seq<char>>, known: Map<Seq<char>, BumpLevel>, k: int)
    requires
        0 <= k < deps.len(),
        known.contains_key(deps[k]),
    ensures
        known[deps[k]].rank() <= highest_known(deps, known).rank(),
    decreases deps.len(),
{
    if k < deps.len() - 1 {
        assert(deps.drop_last()[k] == deps[k]);
        lemma_highest_known_bound(deps.drop_last(), known, k);
    }
}

/// The highest level is that of one of the dependencies, unless there is no bump.
proof fn lemma_highest_known_reached(deps: Seq<Seq<char>>, known: Map<Seq<char>, BumpLevel>) -> (k: int)
    requires
        highest_known(deps, known) != BumpLevel::NoBump,
    ensures
        0 <= k < deps.len(),
        known.contains_key(deps[k]),
        known[deps[k]] == highest_known(deps, known),
    decreases deps.len(),
{
    let before = highest_known(deps.drop_last(), known);
    if known.contains_key(deps.last()) && before.rank() < known[deps.last()].rank() {
        deps.len() - 1
    } else {
        let k = lemma_highest_known_reached(deps.drop_last(), known);
        assert(deps.drop_last()[k] == deps[k]);
        k
    }
}

/// `a` and `b` are the same packages, and those with a level of their own in `a` have one in `b`.
pub open spec fn are_raised_within(a: Seq<Entry>, b: Seq<Entry>) -> bool {
    &&& a.len() == b.len()
    &&& forall|i: int|
        0 <= i < a.len() ==> {
            &&& (#[trigger] a[i]).name == b[i].name
            &&& a[i].deps == b[i].deps
            &&& a[i].own != BumpLevel::NoBump ==> b[i].own != BumpLevel::NoBump
        }
}

/// Which packages are raised depends only on which have a level of their own: where more packages
/// have one, no fewer are raised.
pub proof fn law_raised_packages(
    a: Seq<Entry>,
    b: Seq<Entry>,
    names: Seq<Seq<char>>,
    name: Seq<char>,
)
    requires
        are_raised_within(a, b),
        propagated(a, names).contains_key(name),
        propagated(a, names)[name] != BumpLevel::NoBump,
    ensures
        propagated(b, names).contains_key(name),
        propagated(b, names)[name] != BumpLevel::NoBump,
    decreases names.len(),
{
    if names.len() > 0 {
        let less = names.drop_last();
        let before_a = propagated(a, less);
        let before_b = propagated(b, less);
        lemma_same_places(a, b, names.last());
        if names.last() == name && entry_index(a, name) is Some {
            let i = entry_index(a, name)->0;
            lemma_entry_index(a, name);
            if a[i].own == BumpLevel::NoBump {
                let k = lemma_highest_known_reached(a[i].deps, before_a);
                law_raised_packages(a, b, less, a[i].deps[k]);
                lemma_highest_known_bound(b[i].deps, before_b, k);
            }
        } else {
            law_raised_packages(a, b, less, name);
        }
    }
}

/// Packages with the same names stand at the same places.
proof fn lemma_same_places(a: Seq<Entry>, b: Seq<Entry>, name: Seq<char>)
    requires
        are_raised_within(a, b),
    ensures
        entry_index(a, name) == entry_index(b, name),
    decreases a.len(),
{
    if a.len() > 0 {
        let (x, y) = (a.drop_last(), b.drop_last());
        assert(a[a.len() - 1].name == b[b.len() - 1].name);
        assert forall|i: int| 0 <= i < x.len() implies {
            &&& (#[trigger] x[i]).name == y[i].name
            &&& x[i].deps == y[i].deps
            &&& x[i].own != BumpLevel::NoBump ==> y[i].own != BumpLevel::NoBump
        } by {
            assert(x[i] == a[i] && y[i] == b[i]);
        }
        lemma_same_places(x, y, name);
    }
}

/// A package gets at least its own level, and at least the level of each package that it
/// depends on.
pub proof fn law_bumps_reach_dependents(
    entries: Seq<Entry>,
    names: Seq<Seq<char>>,
    name: Seq<char>,
    dep: Seq<char>,
)
    requires
        is_release_order(entries, names),
        propagated(entries, names).contains_key(name),
    ensures
        entries[entry_index(entries, name)->0].own.rank() <= propagated(entries, names)[name].rank(),
        depends_on(entries, name, dep) && propagated(entries, names).contains_key(dep)
            ==> propagated(entries, names)[dep].rank() <= propagated(entries, names)[name].rank(),
{
    law_propagated_domain(entries, names, name);
    let i = choose|i: int| 0 <= i < names.len() && #[trigger] names[i] == name;
    law_single_pass(entries, names, i);
    let e = entry_index(entries, name)->0;
    let after = propagated(entries, names);
    if depends_on(entries, name, dep) && after.contains_key(dep) {
        let k = choose|k: int|
            0 <= k < entries[e].deps.len() && #[trigger] entries[e].deps[k] == dep;
        lemma_highest_known_bound(entries[e].deps, after, k);
    }
}

/// `path` leads from a package to one that it depends on, directly or through others. Each
/// package on it gets a level.
pub open spec fn is_dependency_path(
    entries: Seq<Entry>,
    names: Seq<Seq<char>>,
    path: Seq<Seq<char>>,
) -> bool {
    &&& path.len() > 0
    &&& forall|i: int|
        0 <= i < path.len() ==> propagated(entries, names).contains_key(#[trigger] path[i])
    &&& forall|i: int|
        0 <= i < path.len() - 1 ==> depends_on(entries, #[trigger] path[i], path[i + 1])
}

/// The own level of the package called `name`.
pub open spec fn own_level(
    entries: Seq<Entry>,
    name: Seq<char>,
) -> BumpLevel {
    entries[entry_index(entries, name)->0].own
}

/// Levels travel along every path: a package gets at least the own level of each package that
/// it depends on, directly or through others.
pub proof fn law_bumps_are_transitive(
    entries: Seq<Entry>,
    names: Seq<Seq<char>>,
    path: Seq<Seq<char>>,
)
    requires
        is_release_order(entries, names),
        is_dependency_path(entries, names, path),
    ensures
        own_level(entries, path.last()).rank() <= propagated(entries, names)[path[0]].rank(),
    decreases path.len(),
{
    let after = propagated(entries, names);
    assert(after.contains_key(path[0]));
    if path.len() == 1 {
        law_bumps_reach_dependents(entries, names, path[0], path[0]);
    } else {
        let rest = path.skip(1);
        assert forall|i: int| 0 <= i < rest.len() implies after.contains_key(#[trigger] rest[i]) by {
            assert(rest[i] == path[i + 1]);
        }
        assert forall|i: int| 0 <= i < rest.len() - 1 implies depends_on(
            entries,
            #[trigger] rest[i],
            rest[i + 1],
        ) by {
            assert(rest[i] == path[i + 1]);
            assert(rest[i + 1] == path[i + 2]);
        }
        law_bumps_are_transitive(entries, names, rest);
        assert(rest.last() == path.last());
        assert(rest[0] == path[1]);
        assert(depends_on(entries, path[0], path[1]));
        assert(after.contains_key(path[1]));
        law_bumps_reach_dependents(entries, names, path[0], path[1]);
    }
}

/// Levels come from nowhere else: the level of a package is its own or that of a package that
/// it depends on, directly or through others.
pub proof fn law_bumps_have_a_source(
    entries: Seq<Entry>,
    names: Seq<Seq<char>>,
    name: Seq<char>,
) -> (path: Seq<Seq<char>>)
    requires
        is_release_order(entries, names),
        propagated(entries, names).contains_key(name),
    ensures
        is_dependency_path(entries, names, path),
        path[0] == name,
        own_level(entries, path.last()) == propagated(entries, names)[name],
{
    law_propagated_domain(entries, names, name);
    let i = choose|i: int| 0 <= i < names.len() && #[trigger] names[i] == name;
    lemma_source(entries, names, i)
}

/// The level of the package at place `i` of the order comes from a package on a path from it.
proof fn lemma_source(
    entries: Seq<Entry>,
    names: Seq<Seq<char>>,
    i: int,
) -> (path: Seq<Seq<char>>)
    requires
        is_release_order(entries, names),
        0 <= i < names.len(),
        entry_index(entries, names[i]) is Some,
    ensures
        is_dependency_path(entries, names, path),
        path[0] == names[i],
        own_level(entries, path.last()) == propagated(entries, names)[names[i]],
    decreases i,
{
    let name = names[i];
    let after = propagated(entries, names);
    law_single_pass(entries, names, i);
    let e = entry_index(entries, name)->0;
    let own = entries[e].own;
    if after[name] == own {
        seq![name]
    } else {
        let deps = entries[e].deps;
        let k = lemma_highest_known_reached(deps, after);
        let d = deps[k];
        assert(depends_on(entries, name, d));
        law_propagated_domain(entries, names, d);
        let j = choose|j: int| 0 <= j < names.len() && #[trigger] names[j] == d;
        assert(depends_on(entries, names[i], names[j]));
        let rest = lemma_source(entries, names, j);
        let path = seq![name] + rest;
        assert forall|x: int| 0 <= x < path.len() implies after.contains_key(#[trigger] path[x]) by {
            if x > 0 {
                assert(path[x] == rest[x - 1]);
            }
        }
        assert forall|x: int| 0 <= x < path.len() - 1 implies depends_on(
            entries,
            #[trigger] path[x],
            path[x + 1],
        ) by {
            assert(path[x + 1] == rest[x]);
            if x > 0 {
                assert(path[x] == rest[x - 1]);
                assert(depends_on(entries, rest[x - 1], rest[x]));
            }
        }
        assert(path.last() == rest.last());
        path
    }
}

/// Of entries with the same name, the last one counts.
pub proof fn law_entry_of_a_name(entries: Seq<Entry>, name: Seq<char>)
    ensures
        entry_index(entries, name) is Some <==> exists|i: int|
            0 <= i < entries.len() && (#[trigger] entries[i]).name == name,
        entry_index(entries, name) matches Some(i) ==> 0 <= i < entries.len() && entries[i].name
            == name && forall|j: int| i < j < entries.len() ==> (#[trigger] entries[j]).name != name,
    decreases entries.len(),
{
    if entries.len() > 0 {
        let less = entries.drop_last();
        law_entry_of_a_name(less, name);
        if entries.last().name != name {
            if let Some(i) = entry_index(less, name) {
                assert(entries[i] == less[i]);
                assert forall|j: int| i < j < entries.len() implies (#[trigger] entries[j]).name
                    != name by {
                    if j < less.len() {
                        assert(less[j] == entries[j]);
                    }
                }
            } else if exists|i: int| 0 <= i < entries.len() && (#[trigger] entries[i]).name == name {
                let i = choose|i: int|
                    0 <= i < entries.len() && (#[trigger] entries[i]).name == name;
                assert(less[i] == entries[i]);
            }
        } else {
            assert(entries[entries.len() - 1].name == name);
        }
    }
}

/// Levels settle: in a release order, the level of a package is not below its own, not below that of
/// any dependency with a level, and it is its own or that of one of those dependencies.
pub proof fn law_levels_settle(entries: Seq<Entry>, names: Seq<Seq<char>>, name: Seq<char>)
    requires
        is_release_order(entries, names),
        is_listed(names, name),
        entry_index(entries, name) is Some,
    ensures
        ({
            let levels = propagated(entries, names);
            let entry = entries[entry_index(entries, name)->0];
            &&& levels.contains_key(name)
            &&& entry.own.rank() <= levels[name].rank()
            &&& forall|k: int|
                0 <= k < entry.deps.len() && levels.contains_key(#[trigger] entry.deps[k])
                    ==> levels[entry.deps[k]].rank() <= levels[name].rank()
            &&& levels[name] == entry.own || exists|k: int|
                0 <= k < entry.deps.len() && levels.contains_key(#[trigger] entry.deps[k])
                    && levels[entry.deps[k]] == levels[name]
        }),
{
    let i = choose|i: int| 0 <= i < names.len() && #[trigger] names[i] == name;
    law_single_pass(entries, names, i);
    let levels = propagated(entries, names);
    let entry = entries[entry_index(entries, name)->0];
    assert forall|k: int|
        0 <= k < entry.deps.len() && levels.contains_key(
            #[trigger] entry.deps[k],
        ) implies levels[entry.deps[k]].rank() <= levels[name].rank() by {
        lemma_highest_known_bound(entry.deps, levels, k);
    }
    if levels[name] != entry.own {
        let k = lemma_highest_known_reached(entry.deps, levels);
        assert(levels.contains_key(entry.deps[k]));
    }
}

/// The levels that are given. In an order in which every package stands behind its dependencies, the
/// level of a package is at least its own and at least that of each of its dependencies that has one,
/// and it is one of these: nothing else raises it. A package without an entry, or out of the order,
/// gets none.
pub proof fn law_given_levels(
    entries: &Vec<(String, BumpLevel, Vec<String>)>,
    ordered_names: &Vec<String>,
    r: StringHashMap<BumpLevel>,
    i: int,
)
    requires
        call_ensures(propagate_bumps, (entries, ordered_names), r),
        is_release_order(entries_of(entries@), views(ordered_names@)),
        0 <= i < entries@.len(),
        forall|j: int| i < j < entries@.len() ==> (#[trigger] entries@[j]).0@ != entries@[i].0@,
    ensures
        ({
            let name = entries@[i].0@;
            let deps = entries@[i].2@;
            &&& r@.contains_key(name) <==> exists|k: int|
                0 <= k < ordered_names@.len() && (#[trigger] ordered_names@[k])@ == name
            &&& r@.contains_key(name) ==> {
                &&& entries@[i].1.rank() <= r@[name].rank()
                &&& forall|k: int|
                    0 <= k < deps.len() && r@.contains_key((#[trigger] deps[k])@)
                        ==> r@[deps[k]@].rank() <= r@[name].rank()
                &&& r@[name] == entries@[i].1 || exists|k: int|
                    0 <= k < deps.len() && r@.contains_key((#[trigger] deps[k])@) && r@[deps[k]@]
                        == r@[name]
            }
        }),
{
    let all = entries_of(entries@);
    let names = views(ordered_names@);
    let name = entries@[i].0@;
    let deps = entries@[i].2@;
    assert(all[i].name == name);
    law_entry_of_a_name(all, name);
    let at = entry_index(all, name)->0;
    assert(all[at].name == entries@[at].0@);
    assert(at == i) by {
        if at > i {
            assert(entries@[at].0@ != name);
        }
    }
    law_propagated_domain(all, names, name);
    assert(names.len() == ordered_names@.len());
    if is_listed(names, name) {
        let k = choose|k: int| 0 <= k < names.len() && #[trigger] names[k] == name;
        assert(ordered_names@[k]@ == name);
    }
    if exists|k: int| 0 <= k < ordered_names@.len() && (#[trigger] ordered_names@[k])@ == name {
        let k = choose|k: int|
            0 <= k < ordered_names@.len() && (#[trigger] ordered_names@[k])@ == name;
        assert(names[k] == name);
    }
    if r@.contains_key(name) {
        law_levels_settle(all, names, name);
        assert(all[i].deps.len() == deps.len());
        assert forall|k: int| 0 <= k < deps.len() && r@.contains_key(
            (#[trigger] deps[k])@,
        ) implies r@[deps[k]@].rank() <= r@[name].rank() by {
            assert(all[i].deps[k] == deps[k]@);
        }
        if r@[name] != entries@[i].1 {
            let k = choose|k: int|
                0 <= k < all[i].deps.len() && r@.contains_key(#[trigger] all[i].deps[k])
                    && r@[all[i].deps[k]] == r@[name];
            assert(all[i].deps[k] == deps[k]@);
        }
    }
}

} // verus!
