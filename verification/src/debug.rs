//! Diagnosis of where the walk through a package's history stops.
use vstd::prelude::*;
use vstd::string::*;

use crate::decimal::decimal_text;
#[allow(unused_imports)]
use crate::decimal::{decimal, law_number_of_decimal};
#[allow(unused_imports)]
use crate::increment::optional_text;
use crate::semver::Version;
#[allow(unused_imports)]
use crate::semver::{law_order_same, law_order_swap};
use crate::text::{first_line, same_text, take_chars};
#[allow(unused_imports)]
use crate::text::{first_line_of, law_first_line, views};

verus! {

/// What the user asks for.
#[derive(Debug)]
pub struct DebugOptions {
    /// The path of the workspace.
    pub workspace: String,
    /// The only package to look at, where it is not all of them.
    pub package: Option<String>,
    /// Whether to pretend that the local version has no tag.
    pub simulate_unpublished: bool,
}

/// What the flags `args` ask for, read in order; a later package replaces an earlier one, and what
/// is no flag is skipped.
pub open spec fn flags_of(
    args: Seq<Seq<char>>,
    package: Option<Seq<char>>,
    simulate_unpublished: bool,
) -> (Option<Seq<char>>, bool)
    decreases args.len(),
{
    if args.len() == 0 {
        (package, simulate_unpublished)
    } else if args[0] == "--package"@ && args.len() >= 2 {
        flags_of(args.skip(2), Some(args[1]), simulate_unpublished)
    } else if args[0] == "--simulate-unpublished"@ {
        flags_of(args.skip(1), package, true)
    } else {
        flags_of(args.skip(1), package, simulate_unpublished)
    }
}

/// A package is named behind each flag that asks for one.
pub open spec fn are_complete(args: Seq<Seq<char>>) -> bool
    decreases args.len(),
{
    if args.len() == 0 {
        true
    } else if args[0] == "--package"@ {
        args.len() >= 2 && are_complete(args.skip(2))
    } else {
        are_complete(args.skip(1))
    }
}

/// Whether a package is named behind each flag of the command line that asks for one.
pub fn are_args_complete(args: &Vec<String>) -> (r: bool)
    requires
        args@.len() >= 2,
    ensures
        r == are_complete(views(args@).skip(2)),
{
    let ghost all = views(args@);
    let mut i: usize = 2;
    while i < args.len()
        invariant
            2 <= i <= args@.len(),
            all == views(args@),
            all.len() == args@.len(),
            are_complete(all.skip(2)) == are_complete(all.skip(i as int)),
        decreases args@.len() - i,
    {
        proof {
            let rest = all.skip(i as int);
            assert(rest[0] == args@[i as int]@);
            assert(rest.skip(1) =~= all.skip(i + 1));
            if rest.len() >= 2 {
                assert(rest.skip(2) =~= all.skip(i + 2));
            }
        }
        if same_text(args[i].as_str(), "--package") {
            if i + 1 == args.len() {
                return false;
            }
            i = i + 2;
        } else {
            i = i + 1;
        }
    }
    true
}

/// What the command line asks for. The first of `args` is the program, and the second the
/// workspace; without it there is nothing to do.
pub fn parse_args(args: &Vec<String>) -> (r: Option<DebugOptions>)
    requires
        args@.len() >= 2 ==> are_complete(views(args@).skip(2)),
    ensures
        r is Some <==> args@.len() >= 2,
        r matches Some(options) ==> {
            &&& options.workspace@ == args@[1]@
            &&& (optional_text(options.package), options.simulate_unpublished) == flags_of(
                views(args@).skip(2),
                None,
                false,
            )
        },
{
    if args.len() < 2 {
        return None;
    }
    let ghost all = views(args@);
    let mut package: Option<String> = None;
    let mut simulate_unpublished = false;
    let mut i: usize = 2;
    while i < args.len()
        invariant
            2 <= i <= args@.len(),
            all == views(args@),
            all.len() == args@.len(),
            are_complete(all.skip(i as int)),
            flags_of(all.skip(i as int), optional_text(package), simulate_unpublished) == flags_of(
                all.skip(2),
                None,
                false,
            ),
        decreases args@.len() - i,
    {
        let ghost rest = all.skip(i as int);
        proof {
            assert(rest[0] == args@[i as int]@);
            assert(rest.skip(1) =~= all.skip(i + 1));
            if rest.len() >= 2 {
                assert(rest[1] == args@[i + 1]@);
                assert(rest.skip(2) =~= all.skip(i + 2));
            }
        }
        if same_text(args[i].as_str(), "--package") {
            package = Some(args[i + 1].clone());
            i = i + 2;
        } else {
            if same_text(args[i].as_str(), "--simulate-unpublished") {
                proof {
                    reveal_strlit("--package");
                    reveal_strlit("--simulate-unpublished");
                }
                simulate_unpublished = true;
            }
            i = i + 1;
        }
    }
    assert(all.skip(i as int) =~= Seq::<Seq<char>>::empty());
    Some(DebugOptions { workspace: args[1].clone(), package, simulate_unpublished })
}

/// How the local version of a package stands to the published one.
pub fn version_status(local: &Version, registry: &Version) -> (r: &'static str)
    ensures
        r@ == (if registry@.lower(local@) {
            "LOCAL > REGISTRY (version already bumped / unpublished)"@
        } else if local@ == registry@ {
            "LOCAL == REGISTRY (published)"@
        } else {
            "LOCAL < REGISTRY (unexpected!)"@
        }),
{
    if registry.is_lower(local) {
        "LOCAL > REGISTRY (version already bumped / unpublished)"
    } else if *local == *registry {
        "LOCAL == REGISTRY (published)"
    } else {
        "LOCAL < REGISTRY (unexpected!)"
    }
}

/// The tag of the local version that counts: none where an unpublished version is simulated.
pub fn effective_local_tag(simulate_unpublished: bool, local_tag_commit: Option<String>) -> (r:
    Option<String>)
    ensures
        r == (if simulate_unpublished {
            None
        } else {
            local_tag_commit
        }),
{
    if simulate_unpublished {
        None
    } else {
        local_tag_commit
    }
}

/// What makes the walk stop at a commit, its content apart.
#[derive(Debug, Clone, Copy, PartialEq, Eq, Structural)]
pub enum TagStop {
    /// Nothing.
    No,
    /// The tag of the local version.
    LocalTag,
    /// The tag of the published version.
    RegistryTag,
    /// The commit that was published.
    PublishedSha1,
}

impl TagStop {
    /// What is shown for it.
    pub fn label(self) -> (r: &'static str)
        ensures
            r@ == match self {
                TagStop::No => "no"@,
                TagStop::LocalTag => "local_tag"@,
                TagStop::RegistryTag => "reg_tag"@,
                TagStop::PublishedSha1 => "pub_sha1"@,
            },
    {
        match self {
            TagStop::No => "no",
            TagStop::LocalTag => "local_tag",
            TagStop::RegistryTag => "reg_tag",
            TagStop::PublishedSha1 => "pub_sha1",
        }
    }
}

/// Where the walk stops by tags and published commits, in three ways of going about it.
#[derive(Debug, Clone, Copy, PartialEq, Eq, Structural)]
pub struct TagStops {
    /// By the tag of the local version, and by the published commit.
    pub current: TagStop,
    /// By neither.
    pub worst: TagStop,
    /// By the tag of the published version too.
    pub proposed: TagStop,
}

/// What stops the walk at a commit. Each argument says whether the commit is an ancestor: of the
/// commit with the local version's tag, of the one with the published version's tag, and of the one
/// that was published; each where there is such a commit.
pub open spec fn tag_stops(
    local_tag: Option<bool>,
    registry_tag: Option<bool>,
    published: Option<bool>,
) -> TagStops {
    TagStops {
        current: if local_tag == Some(true) {
            TagStop::LocalTag
        } else if published == Some(true) {
            TagStop::PublishedSha1
        } else {
            TagStop::No
        },
        worst: TagStop::No,
        proposed: if local_tag == Some(true) {
            TagStop::LocalTag
        } else if registry_tag == Some(true) {
            TagStop::RegistryTag
        } else if published == Some(true) {
            TagStop::PublishedSha1
        } else {
            TagStop::No
        },
    }
}

/// What stops the walk at a commit. Each argument says whether the commit is an ancestor: of the
/// commit with the local version's tag, of the one with the published version's tag, and of the one
/// that was published; each where there is such a commit.
pub fn check_tag_stop(
    is_ancestor_of_local_tag: Option<bool>,
    is_ancestor_of_registry_tag: Option<bool>,
    is_ancestor_of_published: Option<bool>,
) -> (r: TagStops)
    ensures
        r == tag_stops(
            is_ancestor_of_local_tag,
            is_ancestor_of_registry_tag,
            is_ancestor_of_published,
        ),
{
    let by_local_tag = matches!(is_ancestor_of_local_tag, Some(true));
    let by_registry_tag = matches!(is_ancestor_of_registry_tag, Some(true));
    let by_published = matches!(is_ancestor_of_published, Some(true));
    let current = if by_local_tag {
        TagStop::LocalTag
    } else if by_published {
        TagStop::PublishedSha1
    } else {
        TagStop::No
    };
    let proposed = if by_local_tag {
        TagStop::LocalTag
    } else if by_registry_tag {
        TagStop::RegistryTag
    } else if by_published {
        TagStop::PublishedSha1
    } else {
        TagStop::No
    };
    TagStops { current, worst: TagStop::No, proposed }
}

/// Whether the manifest of a package is the same as the published one. A manifest that cannot be
/// read is not.
pub fn are_cargo_toml_equal_check(local: Option<&Vec<u8>>, registry: Option<&Vec<u8>>) -> (r: bool)
    ensures
        r == (local is Some && registry is Some && local->0@ == registry->0@),
{
    let (a, b) = match (local, registry) {
        (Some(a), Some(b)) => (a, b),
        _ => {
            return false;
        },
    };
    if a.len() != b.len() {
        return false;
    }
    for i in 0..a.len()
        invariant
            local == Some(a),
            registry == Some(b),
            a@.len() == b@.len(),
            forall|j: int| 0 <= j < i ==> a@[j] == b@[j],
    {
        if a[i] != b[i] {
            return false;
        }
    }
    assert(a@ =~= b@);
    true
}

/// How a package compares to the published one.
#[derive(Debug, Clone, Copy, PartialEq, Eq, Structural)]
pub enum Comparison {
    /// The manifests differ already.
    Skipped,
    Equal,
    /// The files differ.
    Different,
    /// The files could not be compared.
    Failed,
}

impl Comparison {
    /// What is shown for it.
    pub fn label(self) -> (r: &'static str)
        ensures
            r@ == match self {
                Comparison::Skipped => "skip"@,
                Comparison::Equal => "EQUAL"@,
                Comparison::Different => "diff(files)"@,
                Comparison::Failed => "ERR"@,
            },
    {
        match self {
            Comparison::Skipped => "skip",
            Comparison::Equal => "EQUAL",
            Comparison::Different => "diff(files)",
            Comparison::Failed => "ERR",
        }
    }

    /// How a package compares whose manifests are the same. `are_equal` says whether the packages
    /// are, where they could be compared.
    pub fn of_packages(are_equal: Option<bool>) -> (r: Comparison)
        ensures
            r == match are_equal {
                Some(true) => Comparison::Equal,
                Some(false) => Comparison::Different,
                None => Comparison::Failed,
            },
    {
        match are_equal {
            Some(true) => Comparison::Equal,
            Some(false) => Comparison::Different,
            None => Comparison::Failed,
        }
    }
}

/// What is shown for the manifest of a package.
pub fn cargo_toml_label(are_equal: bool) -> (r: &'static str)
    ensures
        r@ == (if are_equal {
            "EQUAL"@
        } else {
            "different"@
        }),
{
    if are_equal {
        "EQUAL"
    } else {
        "different"
    }
}

/// The first characters of a commit's hash.
pub fn short_hash(commit_hash: &str) -> (r: &str)
    requires
        commit_hash.is_ascii(),
    ensures
        r@ == commit_hash@.take(if commit_hash@.len() < 8 {
            commit_hash@.len() as int
        } else {
            8
        }),
{
    take_chars(commit_hash, 8)
}

/// The first line of a commit's message, up to 50 characters.
pub open spec fn short_message_of(message: Seq<char>) -> Seq<char> {
    match first_line_of(message) {
        Some(line) => line.take(if line.len() < 50 {
            line.len() as int
        } else {
            50
        }),
        None => Seq::empty(),
    }
}

/// The first line of a commit's message, up to 50 characters.
pub fn short_message(message: &str) -> (r: String)
    ensures
        r@ == short_message_of(message@),
{
    match first_line(message) {
        Some(line) => take_chars(line, 50).to_owned(),
        None => String::new(),
    }
}

/// What is seen at a commit.
#[derive(Debug, Clone, Copy, PartialEq, Eq, Structural)]
pub struct Observation {
    /// How the package compares to the published one.
    pub comparison: Comparison,
    /// What stops the walk, its content apart.
    pub stops: TagStops,
}

impl Observation {
    /// The package is as published.
    pub open spec fn is_equal(self) -> bool {
        self.comparison == Comparison::Equal
    }
}

/// The first commits at which the walk stops, by number.
#[derive(Debug, Clone, Copy, PartialEq, Eq, Structural)]
pub struct FirstStops {
    /// By content alone.
    pub equality: Option<u32>,
    pub current: Option<u32>,
    pub worst: Option<u32>,
    pub proposed: Option<u32>,
}

/// `first`, or `i` where there is no first one yet and the walk stops here.
pub open spec fn first_or(first: Option<u32>, stops: bool, i: u32) -> Option<u32> {
    if first is None && stops {
        Some(i)
    } else {
        first
    }
}

impl FirstStops {
    /// The first stops after the commit `i` was seen.
    pub open spec fn seen(self, i: u32, o: Observation) -> FirstStops {
        FirstStops {
            equality: first_or(self.equality, o.is_equal(), i),
            current: first_or(self.current, o.is_equal() || o.stops.current != TagStop::No, i),
            worst: first_or(self.worst, o.is_equal() || o.stops.worst != TagStop::No, i),
            proposed: first_or(self.proposed, o.is_equal() || o.stops.proposed != TagStop::No, i),
        }
    }

    /// No stop is known yet.
    pub fn new() -> (r: FirstStops)
        ensures
            r == FirstStops::after(Seq::empty()),
    {
        FirstStops { equality: None, current: None, worst: None, proposed: None }
    }

    /// Takes note of what is seen at the commit `i`.
    pub fn observe(&mut self, i: u32, o: Observation)
        ensures
            *final(self) == old(self).seen(i, o),
    {
        let is_equal = o.comparison == Comparison::Equal;
        if is_equal && self.equality.is_none() {
            self.equality = Some(i);
        }
        if (is_equal || o.stops.current != TagStop::No) && self.current.is_none() {
            self.current = Some(i);
        }
        if (is_equal || o.stops.worst != TagStop::No) && self.worst.is_none() {
            self.worst = Some(i);
        }
        if (is_equal || o.stops.proposed != TagStop::No) && self.proposed.is_none() {
            self.proposed = Some(i);
        }
    }

    /// The first stops once `observations` were made, from the first commit on.
    pub open spec fn after(observations: Seq<Observation>) -> FirstStops
        decreases observations.len(),
    {
        if observations.len() == 0 {
            FirstStops { equality: None, current: None, worst: None, proposed: None }
        } else {
            FirstStops::after(observations.drop_last()).seen(
                (observations.len() - 1) as u32,
                observations.last(),
            )
        }
    }
}

/// `first` is the number of the first of `observations` at which `stops` holds, if there is one.
pub open spec fn is_first(
    first: Option<u32>,
    observations: Seq<Observation>,
    stops: spec_fn(Observation) -> bool,
) -> bool {
    match first {
        Some(i) => {
            &&& i < observations.len()
            &&& stops(observations[i as int])
            &&& forall|j: int| 0 <= j < i ==> !stops(#[trigger] observations[j])
        },
        None => forall|j: int| 0 <= j < observations.len() ==> !stops(#[trigger] observations[j]),
    }
}

/// The stops that are kept are the first ones at which the walk stops.
pub proof fn law_first_stops(observations: Seq<Observation>)
    requires
        observations.len() <= u32::MAX,
    ensures
        is_first(
            FirstStops::after(observations).equality,
            observations,
            |o: Observation| o.is_equal(),
        ),
        is_first(
            FirstStops::after(observations).current,
            observations,
            |o: Observation| o.is_equal() || o.stops.current != TagStop::No,
        ),
        is_first(
            FirstStops::after(observations).worst,
            observations,
            |o: Observation| o.is_equal() || o.stops.worst != TagStop::No,
        ),
        is_first(
            FirstStops::after(observations).proposed,
            observations,
            |o: Observation| o.is_equal() || o.stops.proposed != TagStop::No,
        ),
    decreases observations.len(),
{
    if observations.len() > 0 {
        let less = observations.drop_last();
        law_first_stops(less);
        assert forall|j: int| 0 <= j < less.len() implies observations[j] == less[j] by {}
        let before = FirstStops::after(less);
        lemma_first_of_more(before.equality, less, observations, |o: Observation| o.is_equal());
        lemma_first_of_more(
            before.current,
            less,
            observations,
            |o: Observation| o.is_equal() || o.stops.current != TagStop::No,
        );
        lemma_first_of_more(
            before.worst,
            less,
            observations,
            |o: Observation| o.is_equal() || o.stops.worst != TagStop::No,
        );
        lemma_first_of_more(
            before.proposed,
            less,
            observations,
            |o: Observation| o.is_equal() || o.stops.proposed != TagStop::No,
        );
    }
}

/// The first stop with one more observation.
proof fn lemma_first_of_more(
    first: Option<u32>,
    less: Seq<Observation>,
    observations: Seq<Observation>,
    stops: spec_fn(Observation) -> bool,
)
    requires
        0 < observations.len() <= u32::MAX,
        less == observations.drop_last(),
        is_first(first, less, stops),
    ensures
        is_first(
            first_or(first, stops(observations.last()), (observations.len() - 1) as u32),
            observations,
            stops,
        ),
{
    assert forall|j: int| 0 <= j < less.len() implies observations[j] == less[j] by {}
    match first {
        Some(i) => {
            assert(observations[i as int] == less[i as int]);
            assert forall|j: int| 0 <= j < i implies !stops(#[trigger] observations[j]) by {
                assert(observations[j] == less[j]);
            }
        },
        None => {
            assert forall|j: int| 0 <= j < less.len() implies !stops(
                #[trigger] observations[j],
            ) by {
                assert(observations[j] == less[j]);
            }
        },
    }
}

/// `a` is not after `b`; never is after everything.
pub open spec fn is_not_after(a: Option<u32>, b: Option<u32>) -> bool {
    b matches Some(j) ==> a matches Some(i) && i <= j
}

/// The more there is to stop at, the sooner the walk stops: the proposed way not after the current
/// one, and the current one not after content alone. The worst case is content alone.
pub proof fn law_stops_are_ordered(observations: Seq<Observation>)
    requires
        observations.len() <= u32::MAX,
        forall|i: int|
            0 <= i < observations.len() ==> exists|l: Option<bool>, g: Option<bool>, p: Option<bool>|
                (#[trigger] observations[i]).stops == #[trigger] tag_stops(l, g, p),
    ensures
        ({
            let first = FirstStops::after(observations);
            &&& is_not_after(first.proposed, first.current)
            &&& is_not_after(first.current, first.equality)
            &&& first.worst == first.equality
        }),
    decreases observations.len(),
{
    if observations.len() > 0 {
        let less = observations.drop_last();
        assert forall|i: int| 0 <= i < less.len() implies exists|
            l: Option<bool>,
            g: Option<bool>,
            p: Option<bool>,
        |
            (#[trigger] less[i]).stops == #[trigger] tag_stops(l, g, p) by {
            assert(less[i] == observations[i]);
        }
        law_stops_are_ordered(less);
        law_first_stops(less);
        let last = observations[observations.len() - 1];
        assert(last.stops.worst == TagStop::No);
        assert(last.stops.current != TagStop::No ==> last.stops.proposed != TagStop::No);
    }
}

/// How many commits are looked at, at most.
pub const MAX_COMMITS: u32 = 200;

/// The walk through a history that only looks where it would stop.
#[derive(Debug, Clone, Copy, PartialEq, Eq, Structural)]
pub struct DebugWalk {
    /// The number of the current commit, from zero on; none once the walk is over.
    pub current: Option<u32>,
    /// The first stops so far.
    pub first: FirstStops,
}

impl DebugWalk {
    /// The walk after `o` was seen at the current commit.
    pub open spec fn seen(self, o: Observation) -> DebugWalk {
        match self.current {
            Some(i) => DebugWalk { first: self.first.seen(i, o), ..self },
            None => self,
        }
    }

    /// The walk at the previous commit: it is over where there is none, or where enough commits
    /// were looked at.
    pub open spec fn back(self, exists: bool) -> DebugWalk {
        match self.current {
            Some(i) if exists && i + 1 < MAX_COMMITS => DebugWalk {
                current: Some((i + 1) as u32),
                ..self
            },
            _ => DebugWalk { current: None, ..self },
        }
    }

    /// Starts at the newest commit.
    pub fn new() -> (r: DebugWalk)
        ensures
            r == (DebugWalk { current: Some(0u32), first: FirstStops::after(Seq::empty()) }),
    {
        DebugWalk { current: Some(0), first: FirstStops::new() }
    }

    /// Takes note of what is seen at the current commit.
    pub fn observe(&mut self, o: Observation)
        ensures
            *final(self) == old(self).seen(o),
    {
        if let Some(i) = self.current {
            self.first.observe(i, o);
        }
    }

    /// Goes on to the previous commit, which may not exist.
    pub fn go_back(&mut self, exists: bool)
        ensures
            *final(self) == old(self).back(exists),
    {
        match self.current {
            Some(i) if exists && i < MAX_COMMITS - 1 => {
                self.current = Some(i + 1);
            },
            _ => {
                self.current = None;
            },
        }
    }

    /// The walk through a history in which `observations` are made, from the newest commit to the
    /// oldest.
    pub open spec fn through(self, observations: Seq<Observation>) -> DebugWalk
        decreases
                match self.current {
                    Some(i) => MAX_COMMITS + 1 - i,
                    None => 0,
                },
    {
        match self.current {
            Some(i) if i < MAX_COMMITS => self.seen(observations[i as int]).back(
                i + 1 < observations.len(),
            ).through(observations),
            _ => self,
        }
    }
}

/// The walk looks at every commit, up to the limit, and then ends with the first stops among those.
pub proof fn law_debug_walk(observations: Seq<Observation>)
    requires
        observations.len() > 0,
    ensures
        ({
            let n = if observations.len() < MAX_COMMITS {
                observations.len() as int
            } else {
                MAX_COMMITS as int
            };
            DebugWalk { current: Some(0u32), first: FirstStops::after(Seq::empty()) }.through(
                observations,
            ) == (DebugWalk { current: None, first: FirstStops::after(observations.take(n)) })
        }),
{
    assert(observations.take(0) =~= Seq::<Observation>::empty());
    lemma_debug_walk(
        DebugWalk { current: Some(0u32), first: FirstStops::after(Seq::empty()) },
        observations,
        0,
    );
}

/// The walk from the commit `i` on.
proof fn lemma_debug_walk(w: DebugWalk, observations: Seq<Observation>, i: u32)
    requires
        i < observations.len(),
        i < MAX_COMMITS,
        w == (DebugWalk {
            current: Some(i),
            first: FirstStops::after(observations.take(i as int)),
        }),
    ensures
        ({
            let n = if observations.len() < MAX_COMMITS {
                observations.len() as int
            } else {
                MAX_COMMITS as int
            };
            w.through(observations) == (DebugWalk {
                current: None,
                first: FirstStops::after(observations.take(n)),
            })
        }),
    decreases MAX_COMMITS - i,
{
    let now = observations.take(i + 1);
    assert(now.drop_last() =~= observations.take(i as int));
    assert(now.last() == observations[i as int]);
    let next = w.seen(observations[i as int]).back(i + 1 < observations.len());
    assert(next.first == FirstStops::after(now));
    if i + 1 < observations.len() && i + 1 < MAX_COMMITS {
        lemma_debug_walk(next, observations, (i + 1) as u32);
    } else {
        assert(next.through(observations) == next);
    }
}

/// What is shown for the readme of a package. `is_updated` says whether it differs from the
/// published one, where they could be compared.
pub fn readme_label(is_updated: Option<bool>) -> (r: &'static str)
    ensures
        r@ == match is_updated {
            Some(true) => "YES"@,
            Some(false) => "no"@,
            None => "err"@,
        },
{
    match is_updated {
        Some(true) => "YES",
        Some(false) => "no",
        None => "err",
    }
}

/// What is shown for a stop.
pub open spec fn stop_text(stop: Option<u32>) -> Seq<char> {
    match stop {
        Some(n) => "commit #"@ + decimal(n as nat),
        None => "NEVER"@,
    }
}

/// What is shown for a stop.
pub fn fmt_stop(stop: Option<u32>) -> (r: String)
    ensures
        r@ == stop_text(stop),
{
    match stop {
        Some(n) => {
            let mut out = "commit #".to_owned();
            out.append(decimal_text(n as u64).as_str());
            out
        },
        None => "NEVER".to_owned(),
    }
}

/// What the stops say of the walk.
#[derive(Debug, Clone, Copy, PartialEq, Eq, Structural)]
pub struct Findings {
    /// Content alone never stops the walk.
    pub content_never_stops: bool,
    /// The worst case differs from content alone.
    pub worst_differs_from_content: bool,
    /// The walk never stops for an unpublished version.
    pub current_never_stops: bool,
    /// The commit at which only the proposed way stops.
    pub fixed_at: Option<u32>,
}

impl FirstStops {
    /// What the stops say of the walk. `is_unpublished` says whether the local version is ahead of
    /// the published one.
    pub fn findings(&self, is_unpublished: bool) -> (r: Findings)
        ensures
            r.content_never_stops == self.worst is None,
            r.worst_differs_from_content == (self.worst != self.equality),
            r.current_never_stops == (self.current is None && is_unpublished),
            r.fixed_at == (if self.current is None {
                self.proposed
            } else {
                None
            }),
    {
        let worst_differs_from_content = match (self.worst, self.equality) {
            (Some(a), Some(b)) => a != b,
            (None, None) => false,
            _ => true,
        };
        Findings {
            content_never_stops: self.worst.is_none(),
            worst_differs_from_content,
            current_never_stops: self.current.is_none() && is_unpublished,
            fixed_at: if self.current.is_none() {
                self.proposed
            } else {
                None
            },
        }
    }
}

/// What stops the walk at a commit: that it is an ancestor of a commit that it must not pass. The tag
/// of the local version comes first, then the one of the published version, which only the proposed
/// way looks at, then the published commit. The worst case has none of them.
pub proof fn law_tag_stops(
    is_ancestor_of_local_tag: Option<bool>,
    is_ancestor_of_registry_tag: Option<bool>,
    is_ancestor_of_published: Option<bool>,
    r: TagStops,
)
    requires
        call_ensures(
            check_tag_stop,
            (is_ancestor_of_local_tag, is_ancestor_of_registry_tag, is_ancestor_of_published),
            r,
        ),
    ensures
        ({
            let local = is_ancestor_of_local_tag matches Some(b) && b;
            let registry = is_ancestor_of_registry_tag matches Some(b) && b;
            let published = is_ancestor_of_published matches Some(b) && b;
            &&& r.worst is No
            &&& r.current is No <==> !local && !published
            &&& r.proposed is No <==> !local && !registry && !published
            &&& local <==> r.current is LocalTag
            &&& local <==> r.proposed is LocalTag
            &&& r.current !is RegistryTag
            &&& r.proposed is RegistryTag <==> registry && !local
        }),
{
}

/// What the flags of a command line ask for, flag by flag: a package is the one behind the last flag
/// that asks for one, an unpublished version is simulated once that was asked for, and what is no
/// flag changes nothing.
pub proof fn law_flags(
    args: Seq<Seq<char>>,
    package: Option<Seq<char>>,
    simulate_unpublished: bool,
    name: Seq<char>,
    other: Seq<char>,
)
    requires
        other != "--package"@,
        other != "--simulate-unpublished"@,
    ensures
        flags_of(Seq::empty(), package, simulate_unpublished) == (package, simulate_unpublished),
        flags_of(seq!["--package"@, name] + args, package, simulate_unpublished) == flags_of(
            args,
            Some(name),
            simulate_unpublished,
        ),
        flags_of(seq!["--simulate-unpublished"@] + args, package, simulate_unpublished) == flags_of(
            args,
            package,
            true,
        ),
        flags_of(seq![other] + args, package, simulate_unpublished) == flags_of(
            args,
            package,
            simulate_unpublished,
        ),
        are_complete(seq!["--package"@, name] + args) == are_complete(args),
        are_complete(seq!["--simulate-unpublished"@] + args) == are_complete(args),
        are_complete(seq![other] + args) == are_complete(args),
        !are_complete(seq!["--package"@]),
{
    reveal_strlit("--package");
    reveal_strlit("--simulate-unpublished");
    let named = seq!["--package"@, name] + args;
    assert(named.skip(2) =~= args);
    assert(named[0] == "--package"@ && named[1] == name);
    let simulated = seq!["--simulate-unpublished"@] + args;
    assert(simulated.skip(1) =~= args);
    assert(simulated[0] == "--simulate-unpublished"@);
    let skipped = seq![other] + args;
    assert(skipped.skip(1) =~= args);
    assert(skipped[0] == other);
}

/// A version that was simulated stays so, whatever follows.
pub proof fn law_simulation_stays(args: Seq<Seq<char>>, package: Option<Seq<char>>)
    ensures
        flags_of(args, package, true).1,
    decreases args.len(),
{
    if args.len() > 0 {
        if args[0] == "--package"@ && args.len() >= 2 {
            law_simulation_stays(args.skip(2), Some(args[1]));
        } else {
            law_simulation_stays(args.skip(1), package);
        }
    }
}

/// What a command line asks for: nothing without a workspace, which is its second argument.
pub proof fn law_command_line(args: &Vec<String>, r: Option<DebugOptions>)
    requires
        call_ensures(parse_args, (args,), r),
    ensures
        r is Some <==> args@.len() >= 2,
        r matches Some(options) ==> {
            &&& options.workspace@ == args@[1]@
            &&& args@.len() == 2 ==> options.package is None && !options.simulate_unpublished
            &&& args@.len() == 3 ==> options.package is None && options.simulate_unpublished == (
            args@[2]@ == "--simulate-unpublished"@)
            &&& args@.len() == 4 && args@[2]@ == "--package"@ ==> options.package is Some
                && options.package->0@ == args@[3]@ && !options.simulate_unpublished
        },
{
    if args@.len() >= 2 {
        reveal_strlit("--package");
        reveal_strlit("--simulate-unpublished");
        reveal_with_fuel(flags_of, 2);
        let rest = views(args@).skip(2);
        assert(views(args@).len() == args@.len());
        if args@.len() == 3 {
            assert(rest[0] == args@[2]@);
            assert(rest.skip(1) =~= Seq::empty());
        }
        if args@.len() == 4 && args@[2]@ == "--package"@ {
            assert(rest[0] == args@[2]@);
            assert(rest[1] == args@[3]@);
            assert(rest.skip(2) =~= Seq::empty());
        }
    }
}

/// What is shown tells apart what stops the walk, and how packages compare.
pub proof fn law_labels_differ(a: TagStop, b: TagStop, c: Comparison, d: Comparison)
    requires
        a != b,
        c != d,
    ensures
        forall|x: &'static str, y: &'static str|
            call_ensures(TagStop::label, (a,), x) && call_ensures(TagStop::label, (b,), y) ==> x@
                != y@,
        forall|x: &'static str, y: &'static str|
            call_ensures(Comparison::label, (c,), x) && call_ensures(Comparison::label, (d,), y)
                ==> x@ != y@,
{
    reveal_strlit("no");
    reveal_strlit("local_tag");
    reveal_strlit("reg_tag");
    reveal_strlit("pub_sha1");
    reveal_strlit("skip");
    reveal_strlit("EQUAL");
    reveal_strlit("diff(files)");
    reveal_strlit("ERR");
    assert("local_tag"@[0] == 'l');
    assert("reg_tag"@[0] == 'r');
    assert("pub_sha1"@[0] == 'p');
    assert("no"@[0] == 'n');
    assert("skip"@[0] == 's');
    assert("EQUAL"@[1] == 'Q');
    assert("ERR"@[1] == 'R');
    assert("diff(files)"@[0] == 'd');
}

/// How packages compare: they are equal where a comparison says so, and else they are not.
pub proof fn law_comparison(are_equal: Option<bool>, r: Comparison)
    requires
        call_ensures(Comparison::of_packages, (are_equal,), r),
    ensures
        r is Equal <==> are_equal is Some && are_equal->0,
        r is Different <==> are_equal is Some && !are_equal->0,
        r is Failed <==> are_equal is None,
{
}

/// A commit is shown by the first characters of its hash and of the first line of its message: never
/// more than there are, and all of a short one.
pub proof fn law_shown_commits(commit_hash: &str, message: &str, hash: &str, line: String)
    requires
        call_ensures(short_hash, (commit_hash,), hash),
        call_ensures(short_message, (message,), line),
    ensures
        hash@.len() <= 8,
        hash@.is_prefix_of(commit_hash@),
        commit_hash@.len() <= 8 ==> hash@ == commit_hash@,
        commit_hash@.len() > 8 ==> hash@.len() == 8,
        line@.len() <= 50,
        line@.is_prefix_of(message@),
        forall|i: int| 0 <= i < line@.len() ==> #[trigger] line@[i] != '\n',
        line@.len() < 50 && line@.len() < message@.len() ==> message@[line@.len() as int] == '\n' || (
        message@[line@.len() as int] == '\r' && line@.len() + 1 < message@.len()
            && message@[line@.len() as int + 1] == '\n'),
{
    assert(hash@ =~= commit_hash@.subrange(0, hash@.len() as int));
    law_first_line(message@);
    if message@.len() > 0 {
        let whole = first_line_of(message@)->0;
        let n = whole.len() as int;
        if whole == message@ {
        } else if n < message@.len() && message@.take(n + 1) == whole.push('\n') {
            assert(whole.push('\n')[n] == '\n');
            assert(message@.take(n + 1)[n] == message@[n]);
            assert forall|i: int| 0 <= i < n implies whole[i] == message@[i] by {
                assert(whole.push('\n')[i] == message@.take(n + 1)[i]);
            }
        } else {
            let two = whole.push('\r').push('\n');
            assert(two[n] == '\r' && two[n + 1] == '\n');
            assert(message@.take(n + 2)[n] == message@[n]);
            assert(message@.take(n + 2)[n + 1] == message@[n + 1]);
            assert forall|i: int| 0 <= i < n implies whole[i] == message@[i] by {
                assert(two[i] == message@.take(n + 2)[i]);
            }
        }
        assert(line@ =~= message@.subrange(0, line@.len() as int));
    } else {
        assert(line@ =~= message@.subrange(0, 0));
    }
}

/// What is shown for a version: it is ahead of the published one, the same, or below it.
pub proof fn law_version_status(
    local: &Version,
    registry: &Version,
    other: &Version,
    r: &'static str,
    s: &'static str,
)
    requires
        call_ensures(version_status, (local, registry), r),
        call_ensures(version_status, (local, other), s),
        registry@.lower(local@),
        !other@.lower(local@),
    ensures
        r@ != s@,
{
    reveal_strlit("LOCAL > REGISTRY (version already bumped / unpublished)");
    reveal_strlit("LOCAL == REGISTRY (published)");
    reveal_strlit("LOCAL < REGISTRY (unexpected!)");
    assert(r@[6] == '>');
    assert(s@[6] != '>');
}

/// The tag of the local version counts as it is, unless an unpublished version is simulated.
pub proof fn law_effective_tag(
    local_tag_commit: Option<String>,
    r: Option<String>,
    s: Option<String>,
)
    requires
        call_ensures(effective_local_tag, (true, local_tag_commit), r),
        call_ensures(effective_local_tag, (false, local_tag_commit), s),
    ensures
        r is None,
        s == local_tag_commit,
{
}

/// Manifests are the same where both were read and no byte differs.
pub proof fn law_same_manifests(local: Option<&Vec<u8>>, registry: Option<&Vec<u8>>, r: bool)
    requires
        call_ensures(are_cargo_toml_equal_check, (local, registry), r),
    ensures
        local is None || registry is None ==> !r,
        local is Some && registry is Some ==> (r <==> local->0@.len() == registry->0@.len()
            && forall|i: int| 0 <= i < local->0@.len() ==> local->0@[i] == registry->0@[i]),
{
    if local is Some && registry is Some && local->0@.len() == registry->0@.len() && forall|i: int|
        0 <= i < local->0@.len() ==> local->0@[i] == registry->0@[i] {
        assert(local->0@ =~= registry->0@);
    }
}

/// What a finished walk says: content alone never stops it exactly where no commit has the published
/// content, and a commit is named as fixed exactly where only the published version's tag stops it.
pub proof fn law_findings(
    observations: Seq<Observation>,
    first: FirstStops,
    is_unpublished: bool,
    r: Findings,
)
    requires
        observations.len() <= u32::MAX,
        first == FirstStops::after(observations),
        call_ensures(FirstStops::findings, (&first, is_unpublished), r),
        forall|i: int|
            0 <= i < observations.len() ==> (#[trigger] observations[i]).stops.worst is No,
    ensures
        r.content_never_stops <==> forall|i: int|
            0 <= i < observations.len() ==> (#[trigger] observations[i]).comparison !is Equal,
        !r.worst_differs_from_content,
        r.current_never_stops <==> is_unpublished && forall|i: int|
            0 <= i < observations.len() ==> (#[trigger] observations[i]).comparison !is Equal
                && observations[i].stops.current is No,
        r.fixed_at matches Some(i) ==> {
            &&& i < observations.len()
            &&& observations[i as int].stops.proposed !is No
            &&& forall|j: int|
                0 <= j < observations.len() ==> (#[trigger] observations[j]).comparison !is Equal
                    && observations[j].stops.current is No
            &&& forall|j: int| 0 <= j < i ==> (#[trigger] observations[j]).stops.proposed is No
        },
        r.fixed_at is None ==> (exists|j: int|
            0 <= j < observations.len() && ((#[trigger] observations[j]).comparison is Equal
                || observations[j].stops.current !is No)) || (forall|j: int|
            0 <= j < observations.len() ==> (#[trigger] observations[j]).stops.proposed is No),
{
    law_first_stops(observations);
    lemma_worst_is_content(observations);
}

/// The worst case is content alone.
proof fn lemma_worst_is_content(observations: Seq<Observation>)
    requires
        forall|i: int|
            0 <= i < observations.len() ==> (#[trigger] observations[i]).stops.worst is No,
    ensures
        FirstStops::after(observations).worst == FirstStops::after(observations).equality,
    decreases observations.len(),
{
    if observations.len() > 0 {
        let less = observations.drop_last();
        assert forall|i: int| 0 <= i < less.len() implies (#[trigger] less[i]).stops.worst is No by {
            assert(less[i] == observations[i]);
        }
        lemma_worst_is_content(less);
        assert(observations[observations.len() - 1].stops.worst is No);
    }
}

/// Stops are shown by their numbers, so that different stops look different.
pub proof fn law_shown_stops(a: Option<u32>, b: Option<u32>, x: String, y: String)
    requires
        call_ensures(fmt_stop, (a,), x),
        call_ensures(fmt_stop, (b,), y),
    ensures
        x@ == y@ ==> a == b,
        a is None ==> x@ == "NEVER"@,
{
    reveal_strlit("commit #");
    reveal_strlit("NEVER");
    if x@ == y@ {
        if a is Some && b is Some {
            let (m, n) = (a->0 as nat, b->0 as nat);
            assert(x@.skip(8) =~= decimal(m));
            assert(y@.skip(8) =~= decimal(n));
            law_number_of_decimal(m, m + n);
            law_number_of_decimal(n, m + n);
        } else if a is Some {
            assert(x@[0] == 'c');
            assert(y@[0] == 'N');
        } else if b is Some {
            assert(y@[0] == 'c');
            assert(x@[0] == 'N');
        }
    }
}

/// What is seen at a commit is noted as the first stop of each way that stops there and has not
/// stopped before; a first stop that is known stays.
pub proof fn law_observed_commit(first: &mut FirstStops, i: u32, o: Observation)
    requires
        call_ensures(FirstStops::observe, (first, i, o), ()),
    ensures
        old(first).equality is Some ==> final(first).equality == old(first).equality,
        old(first).current is Some ==> final(first).current == old(first).current,
        old(first).worst is Some ==> final(first).worst == old(first).worst,
        old(first).proposed is Some ==> final(first).proposed == old(first).proposed,
        old(first).equality is None ==> final(first).equality == (if o.comparison is Equal {
            Some(i)
        } else {
            None
        }),
        old(first).current is None ==> final(first).current == (if o.comparison is Equal
            || o.stops.current !is No {
            Some(i)
        } else {
            None
        }),
        old(first).worst is None ==> final(first).worst == (if o.comparison is Equal
            || o.stops.worst !is No {
            Some(i)
        } else {
            None
        }),
        old(first).proposed is None ==> final(first).proposed == (if o.comparison is Equal
            || o.stops.proposed !is No {
            Some(i)
        } else {
            None
        }),
{
}

/// The walk goes on to the next number where there is a previous commit and the limit is not reached,
/// and else it is over, for good; the stops that are known stay.
pub proof fn law_walk_goes_back(walk: &mut DebugWalk, is_there: bool)
    requires
        call_ensures(DebugWalk::go_back, (walk, is_there), ()),
    ensures
        final(walk).first == old(walk).first,
        old(walk).current is None || !is_there ==> final(walk).current is None,
        old(walk).current matches Some(i) ==> is_there && i + 1 < 200 ==> final(walk).current
            is Some && final(walk).current->0 == i + 1,
        old(walk).current matches Some(i) ==> i + 1 >= 200 ==> final(walk).current is None,
{
}

/// A command line is complete where no flag that asks for a package stands at its end without one.
pub proof fn law_complete_command_line(args: &Vec<String>, r: bool)
    requires
        call_ensures(are_args_complete, (args,), r),
    ensures
        args@.len() == 2 ==> r,
        args@.len() == 3 ==> (r <==> args@[2]@ != "--package"@),
        args@.len() == 4 && args@[2]@ == "--package"@ ==> r,
{
    let rest = views(args@).skip(2);
    assert(views(args@).len() == args@.len());
    reveal_with_fuel(are_complete, 2);
    if args@.len() == 3 {
        assert(rest[0] == args@[2]@);
        assert(rest.skip(1) =~= Seq::empty());
    }
    if args@.len() == 4 && args@[2]@ == "--package"@ {
        assert(rest[0] == args@[2]@);
        assert(rest.skip(2) =~= Seq::empty());
    }
}

/// What is shown for a readme and for a manifest: the readme was updated, was not, or could not be
/// compared; the manifests are equal or differ. The three and the two look different.
pub proof fn law_shown_files(
    is_updated: Option<bool>,
    other: Option<bool>,
    r: &'static str,
    s: &'static str,
    equal: &'static str,
    different: &'static str,
)
    requires
        call_ensures(readme_label, (is_updated,), r),
        call_ensures(readme_label, (other,), s),
        call_ensures(cargo_toml_label, (true,), equal),
        call_ensures(cargo_toml_label, (false,), different),
    ensures
        r@ == "YES"@ <==> is_updated is Some && is_updated->0,
        r@ == "no"@ <==> is_updated is Some && !is_updated->0,
        r@ == s@ <==> is_updated == other,
        equal@ == "EQUAL"@,
        equal@ != different@,
{
    reveal_strlit("YES");
    reveal_strlit("no");
    reveal_strlit("err");
    reveal_strlit("EQUAL");
    reveal_strlit("different");
    assert("YES"@[0] == 'Y');
    assert("err"@[0] == 'e');
    assert("no"@[0] == 'n');
    assert("different"@[0] == 'd');
    assert("EQUAL"@[0] == 'E');
}

/// What is shown for a version that is the published one, and for one that is lower.
pub proof fn law_status_of_published_versions(
    local: &Version,
    registry: &Version,
    r: &'static str,
)
    requires
        call_ensures(version_status, (local, registry), r),
    ensures
        registry@.lower(local@) ==> "LOCAL > REGISTRY"@.is_prefix_of(r@),
        local@ == registry@ ==> "LOCAL == REGISTRY"@.is_prefix_of(r@),
        local@.lower(registry@) ==> "LOCAL < REGISTRY"@.is_prefix_of(r@),
{
    reveal_strlit("LOCAL > REGISTRY");
    reveal_strlit("LOCAL == REGISTRY");
    reveal_strlit("LOCAL < REGISTRY");
    reveal_strlit("LOCAL > REGISTRY (version already bumped / unpublished)");
    reveal_strlit("LOCAL == REGISTRY (published)");
    reveal_strlit("LOCAL < REGISTRY (unexpected!)");
    law_order_same(local@, registry@);
    law_order_swap(local@, registry@);
    if registry@.lower(local@) {
        assert(r@.subrange(0, "LOCAL > REGISTRY"@.len() as int) =~= "LOCAL > REGISTRY"@);
    } else if local@ == registry@ {
        assert(r@.subrange(0, "LOCAL == REGISTRY"@.len() as int) =~= "LOCAL == REGISTRY"@);
    } else {
        assert(r@.subrange(0, "LOCAL < REGISTRY"@.len() as int) =~= "LOCAL < REGISTRY"@);
    }
}

} // verus!
