//! Next versions and the level of a version bump.
use vstd::prelude::*;

use crate::diff::{Diff, SemverCheck};
#[allow(unused_imports)]
use crate::diff::messages_of;
use crate::increment::{VersionIncrement, VersionUpdater};
#[allow(unused_imports)]
use crate::increment::{incremented, law_breaking_change, law_increment_of_a_part, UpdaterView};
use crate::semver::{Version, VersionView};
#[allow(unused_imports)]
use crate::semver::law_order_same;
#[allow(unused_imports)]
use crate::text::views;

verus! {

/// The version after `version` with the changes that `diff` holds. It stays where none of them
/// needs a new version. An incompatible API is a breaking change, whatever the commits say.
pub open spec fn next_from(version: VersionView, diff: Diff, updater: UpdaterView) -> VersionView {
    if !diff.wants_update() {
        version
    } else if diff.semver_check is Incompatible {
        version.bumped(version.breaking_part())
    } else {
        incremented(updater, version, messages_of(diff.commits@))
    }
}

impl VersionView {
    /// The part that a breaking change increments is below its limit.
    pub open spec fn can_break(self) -> bool {
        match self.breaking_part() {
            VersionIncrement::Major => self.major < u64::MAX,
            VersionIncrement::Minor => self.minor < u64::MAX,
            VersionIncrement::Patch => self.patch < u64::MAX,
            VersionIncrement::Prerelease => self.can_increment(),
        }
    }

    /// No number that the changes of `diff` may raise is at its limit.
    pub open spec fn can_take(self, diff: Diff) -> bool {
        diff.wants_update() ==> if diff.semver_check is Incompatible {
            self.can_break()
        } else {
            self.can_increment()
        }
    }
}

impl Version {
    /// Whether no number that the changes of `diff` may raise is at its limit.
    pub fn can_take(&self, diff: &Diff) -> (r: bool)
        ensures
            r == self@.can_take(*diff),
    {
        if !diff.should_update_version() {
            true
        } else if matches!(diff.semver_check, SemverCheck::Incompatible(_)) {
            match VersionIncrement::breaking(self) {
                VersionIncrement::Major => self.major() < u64::MAX,
                VersionIncrement::Minor => self.minor() < u64::MAX,
                VersionIncrement::Patch => self.patch() < u64::MAX,
                VersionIncrement::Prerelease => self.can_increment(),
            }
        } else {
            self.can_increment()
        }
    }

    /// The version that follows with the changes that `diff` holds, by the rules of
    /// [conventional commits](https://www.conventionalcommits.org/). A version `0.x` stays one,
    /// unless the rules are set otherwise.
    pub fn next_from_diff(&self, diff: &Diff, version_updater: VersionUpdater) -> (r: Version)
        requires
            self@.can_take(*diff),
        ensures
            r@ == next_from(self@, *diff, version_updater@),
            diff.wants_update() && self@.is_stable() ==> r@ == self@.next_major() || r@
                == self@.next_minor() || r@ == self@.next_patch(),
            diff.wants_update() && self@.is_stable() && version_updater@.keeps_major(self@) ==> r@
                == self@.next_minor() || r@ == self@.next_patch(),
            diff.wants_update() && !self@.is_stable() ==> r@ == self@.next_pre(),
            r@ != self@ <==> diff.registry_package_exists && diff.is_version_published
                && diff.commits@.len() > 0,
            r@ != self@ ==> self@.lower(r@),
            r@.build == self@.build,
    {
        proof {
            use_type_invariant(self);
            law_increment_of_a_part(self@, VersionIncrement::Major);
            law_increment_of_a_part(self@, VersionIncrement::Minor);
            law_increment_of_a_part(self@, VersionIncrement::Patch);
            if self@.pre.len() > 0 {
                law_increment_of_a_part(self@, VersionIncrement::Prerelease);
            }
            law_order_same(self@, self@);
        }
        if !diff.should_update_version() {
            self.clone()
        } else if matches!(diff.semver_check, SemverCheck::Incompatible(_)) {
            let increment = VersionIncrement::breaking(self);
            increment.bump(self)
        } else {
            let messages = diff.messages();
            assert(views(messages@).len() == messages@.len());
            version_updater.increment(self, &messages)
        }
    }
}

/// The level of a version bump. The levels are ordered, so that the higher of two can be taken.
#[derive(Debug, Clone, Copy, PartialEq, Eq, Ord, Structural)]
pub enum BumpLevel {
    NoBump,
    Patch,
    Minor,
    Major,
}

impl BumpLevel {
    /// The place of the level among the levels.
    pub open spec fn rank(self) -> int {
        match self {
            BumpLevel::NoBump => 0,
            BumpLevel::Patch => 1,
            BumpLevel::Minor => 2,
            BumpLevel::Major => 3,
        }
    }

    /// The higher of two levels.
    pub open spec fn higher(self, other: BumpLevel) -> BumpLevel {
        if self.rank() < other.rank() {
            other
        } else {
            self
        }
    }

    /// The level of the bump from `base` to `target`: that of the first number which is higher.
    pub open spec fn between(base: VersionView, target: VersionView) -> BumpLevel {
        if target.major > base.major {
            BumpLevel::Major
        } else if target.minor > base.minor {
            BumpLevel::Minor
        } else if target.patch > base.patch {
            BumpLevel::Patch
        } else {
            BumpLevel::NoBump
        }
    }

    /// `base` bumped by this level. The result is stable: a prerelease is gone, whatever the level.
    pub open spec fn applied(self, base: VersionView) -> VersionView {
        match self {
            BumpLevel::Major => base.next_major(),
            BumpLevel::Minor => base.next_minor(),
            BumpLevel::Patch => base.next_patch(),
            BumpLevel::NoBump => VersionView { pre: Seq::empty(), ..base },
        }
    }

    /// The number of `base` that this level raises is below its limit.
    pub open spec fn fits(self, base: VersionView) -> bool {
        match self {
            BumpLevel::Major => base.major < u64::MAX,
            BumpLevel::Minor => base.minor < u64::MAX,
            BumpLevel::Patch => base.patch < u64::MAX,
            BumpLevel::NoBump => true,
        }
    }

    /// Compares `base` and `target` to determine what level of bump occurred.
    pub fn compute(base: &Version, target: &Version) -> (r: Self)
        ensures
            r == BumpLevel::between(base@, target@),
    {
        if target.major() > base.major() {
            BumpLevel::Major
        } else if target.minor() > base.minor() {
            BumpLevel::Minor
        } else if target.patch() > base.patch() {
            BumpLevel::Patch
        } else {
            BumpLevel::NoBump
        }
    }

    /// Applies this bump level to a base version, producing a new stable version.
    pub fn apply(&self, base: &Version) -> (r: Version)
        requires
            self.fits(base@),
        ensures
            r@ == self.applied(base@),
            r@.is_stable(),
    {
        match self {
            BumpLevel::Major => base.increment_major(),
            BumpLevel::Minor => base.increment_minor(),
            BumpLevel::Patch => base.increment_patch(),
            BumpLevel::NoBump => base.without_prerelease(),
        }
    }

    /// The higher of two levels.
    pub fn max(self, other: BumpLevel) -> (r: BumpLevel)
        ensures
            r == self.higher(other),
    {
        if self < other {
            other
        } else {
            self
        }
    }

    /// The place of the level among the levels.
    fn position(self) -> (r: u8)
        ensures
            r == self.rank(),
    {
        match self {
            BumpLevel::NoBump => 0,
            BumpLevel::Patch => 1,
            BumpLevel::Minor => 2,
            BumpLevel::Major => 3,
        }
    }
}

impl PartialOrd for BumpLevel {
    fn partial_cmp(&self, other: &Self) -> (r: Option<core::cmp::Ordering>) {
        let a: u8 = self.position();
        let b: u8 = other.position();
        if a < b {
            Some(core::cmp::Ordering::Less)
        } else if a == b {
            Some(core::cmp::Ordering::Equal)
        } else {
            Some(core::cmp::Ordering::Greater)
        }
    }
}

impl vstd::std_specs::cmp::PartialOrdSpecImpl for BumpLevel {
    open spec fn obeys_partial_cmp_spec() -> bool {
        true
    }

    open spec fn partial_cmp_spec(&self, other: &Self) -> Option<core::cmp::Ordering> {
        if self.rank() < other.rank() {
            Some(core::cmp::Ordering::Less)
        } else if self.rank() == other.rank() {
            Some(core::cmp::Ordering::Equal)
        } else {
            Some(core::cmp::Ordering::Greater)
        }
    }
}

/// The next version rests on whole messages: counted from `version`, it is what the rules make of the
/// full message of each commit, one by one and in order. It is asked for only where the registry has
/// the package in the local version and there are commits, and no incompatible API was found.
pub proof fn law_next_version_rests_on_whole_messages(
    version: VersionView,
    diff: Diff,
    updater: UpdaterView,
    messages: Seq<Seq<char>>,
)
    requires
        messages.len() == diff.commits@.len(),
        forall|i: int|
            0 <= i < messages.len() ==> #[trigger] messages[i] == diff.commits@[i].message@,
    ensures
        diff.registry_package_exists && diff.is_version_published && diff.commits@.len() > 0 && !(
        diff.semver_check is Incompatible) ==> next_from(version, diff, updater) == incremented(
            updater,
            version,
            messages,
        ),
        !diff.registry_package_exists || !diff.is_version_published || diff.commits@.len() == 0
            ==> next_from(version, diff, updater) == version,
{
    assert(messages_of(diff.commits@) =~= messages);
}

/// An incompatible API decides alone: whatever the commits say and however the rules are set, the
/// leftmost number that is not zero is raised, or the prerelease of a prerelease.
pub proof fn law_incompatible_api_decides(
    version: VersionView,
    a: Diff,
    b: Diff,
    a_rules: UpdaterView,
    b_rules: UpdaterView,
)
    requires
        version.valid(),
        a.registry_package_exists && a.is_version_published && a.commits@.len() > 0,
        b.registry_package_exists && b.is_version_published && b.commits@.len() > 0,
        a.semver_check is Incompatible,
        b.semver_check is Incompatible,
    ensures
        next_from(version, a, a_rules) == next_from(version, b, b_rules),
        version.lower(next_from(version, a, a_rules)),
        version.pre.len() == 0 && version.major > 0 ==> next_from(version, a, a_rules)
            == (VersionView {
            major: version.major + 1,
            minor: 0,
            patch: 0,
            pre: Seq::empty(),
            build: version.build,
        }),
        version.pre.len() == 0 && version.major == 0 && version.minor > 0 ==> next_from(
            version,
            a,
            a_rules,
        ) == (VersionView {
            major: 0,
            minor: version.minor + 1,
            patch: 0,
            pre: Seq::empty(),
            build: version.build,
        }),
        version.pre.len() == 0 && version.major == 0 && version.minor == 0 ==> next_from(
            version,
            a,
            a_rules,
        ) == (VersionView {
            major: 0,
            minor: 0,
            patch: version.patch + 1,
            pre: Seq::empty(),
            build: version.build,
        }),
        version.pre.len() > 0 ==> ({
            let next = next_from(version, a, a_rules);
            next == (VersionView { pre: next.pre, ..version }) && next.pre.len() > 0
        }),
{
    law_breaking_change(version);
    let next = next_from(version, a, a_rules);
    if version.pre.len() == 0 {
        assert(next.pre =~= Seq::<char>::empty());
    }
}

/// What a level does to the numbers of a version: it raises its own number by one, those to the right
/// of it start again at zero, and those to the left stay. Without a bump all of them stay. The
/// prerelease is gone in every case, and the build metadata stays.
pub proof fn law_applied_numbers(level: BumpLevel, base: VersionView)
    ensures
        ({
            let r = level.applied(base);
            &&& r.pre.len() == 0
            &&& r.build == base.build
            &&& level == BumpLevel::Major ==> r.major == base.major + 1 && r.minor == 0 && r.patch
                == 0
            &&& level == BumpLevel::Minor ==> r.major == base.major && r.minor == base.minor + 1
                && r.patch == 0
            &&& level == BumpLevel::Patch ==> r.major == base.major && r.minor == base.minor
                && r.patch == base.patch + 1
            &&& level == BumpLevel::NoBump ==> r.major == base.major && r.minor == base.minor
                && r.patch == base.patch
        }),
{
}

/// The level between two versions is that of the leftmost number which rises, and it is there exactly
/// where one of the numbers rises. What stands behind the numbers does not matter.
pub proof fn law_level_between(base: VersionView, target: VersionView, pre: Seq<char>, build: Seq<char>)
    ensures
        BumpLevel::between(base, target) == BumpLevel::Major <==> base.major < target.major,
        BumpLevel::between(base, target) == BumpLevel::Minor <==> base.major >= target.major
            && base.minor < target.minor,
        BumpLevel::between(base, target) == BumpLevel::Patch <==> base.major >= target.major
            && base.minor >= target.minor && base.patch < target.patch,
        BumpLevel::between(base, target) == BumpLevel::NoBump <==> base.major >= target.major
            && base.minor >= target.minor && base.patch >= target.patch,
        BumpLevel::between(VersionView { pre, build, ..base }, target) == BumpLevel::between(
            base,
            target,
        ),
        BumpLevel::between(base, VersionView { pre, build, ..target }) == BumpLevel::between(
            base,
            target,
        ),
{
}

/// The levels rise from no bump over patch and minor to major, and the higher of two is the one that
/// stands behind the other there.
pub proof fn law_levels_rise(level: BumpLevel)
    ensures
        BumpLevel::NoBump.rank() < BumpLevel::Patch.rank() < BumpLevel::Minor.rank()
            < BumpLevel::Major.rank(),
        level.higher(BumpLevel::NoBump) == level,
        level.higher(BumpLevel::Major) == BumpLevel::Major,
        BumpLevel::Patch.higher(BumpLevel::Minor) == BumpLevel::Minor,
        level.higher(level) == level,
{
}

/// The higher of two levels is one of them and below neither, whichever way round.
pub proof fn law_max(a: BumpLevel, b: BumpLevel)
    ensures
        a.higher(b) == a || a.higher(b) == b,
        a.higher(b).rank() >= a.rank(),
        a.higher(b).rank() >= b.rank(),
        a.higher(b) == b.higher(a),
{
}

/// The level of the bump that applying a level makes is that level.
pub proof fn law_compute_of_apply(level: BumpLevel, base: VersionView)
    ensures
        BumpLevel::between(base, level.applied(base)) == level,
{
}

/// Applying the level of the increment that commits ask for gives the version that they ask
/// for, where it is counted from a stable version.
pub proof fn law_apply_of_compute(base: VersionView, next: VersionView)
    requires
        base.is_stable(),
        next == base || next == base.next_major() || next == base.next_minor() || next
            == base.next_patch(),
    ensures
        BumpLevel::between(base, next).applied(base) == next,
{
    assert(base.pre =~= Seq::<char>::empty());
}

/// Any bump raises a version.
pub proof fn law_bump_raises(level: BumpLevel, base: VersionView)
    requires
        level != BumpLevel::NoBump,
    ensures
        base.lower(level.applied(base)),
{
}

/// A higher level never gives a lower version.
pub proof fn law_bump_monotone(low: BumpLevel, high: BumpLevel, base: VersionView)
    requires
        low.rank() < high.rank(),
    ensures
        low.applied(base).lower(high.applied(base)),
{
}

/// Where the next version of a version stands. It differs exactly where the registry has the package in
/// the local version and there are commits, and then it is higher. Only one number rises, by one, and
/// those to the right of it start again at zero; of a prerelease, only the prerelease changes. An
/// incompatible API raises the leftmost number that is not zero. Otherwise it is what the rules make
/// of the full messages of the commits.
pub proof fn law_next_from_diff(
    version: &Version,
    diff: &Diff,
    version_updater: VersionUpdater,
    r: Version,
    messages: Seq<Seq<char>>,
)
    requires
        call_ensures(Version::next_from_diff, (version, diff, version_updater), r),
        version@.valid(),
        messages.len() == diff.commits@.len(),
        forall|i: int|
            0 <= i < messages.len() ==> #[trigger] messages[i] == diff.commits@[i].message@,
    ensures
        ({
            let (v, next) = (version@, r@);
            let is_wanted = diff.registry_package_exists && diff.is_version_published
                && diff.commits@.len() > 0;
            &&& next != v <==> is_wanted
            &&& is_wanted ==> v.lower(next)
            &&& next.build == v.build
            &&& is_wanted && v.pre.len() > 0 ==> next.major == v.major && next.minor == v.minor
                && next.patch == v.patch && next.pre.len() > 0
            &&& is_wanted && v.pre.len() == 0 ==> next.pre.len() == 0 && ((next.major == v.major + 1
                && next.minor == 0 && next.patch == 0) || (next.major == v.major && next.minor
                == v.minor + 1 && next.patch == 0) || (next.major == v.major && next.minor
                == v.minor && next.patch == v.patch + 1))
            &&& is_wanted && v.pre.len() == 0 && diff.semver_check is Incompatible ==> {
                &&& v.major > 0 ==> next.major == v.major + 1
                &&& v.major == 0 && v.minor > 0 ==> next.major == 0 && next.minor == v.minor + 1
                &&& v.major == 0 && v.minor == 0 ==> next.major == 0 && next.minor == 0
            }
            &&& is_wanted && !(diff.semver_check is Incompatible) ==> next == incremented(
                version_updater@,
                v,
                messages,
            )
        }),
{
    law_next_version_rests_on_whole_messages(version@, *diff, version_updater@, messages);
    law_increment_of_a_part(version@, VersionIncrement::Major);
    law_increment_of_a_part(version@, VersionIncrement::Minor);
    law_increment_of_a_part(version@, VersionIncrement::Patch);
    if version@.pre.len() > 0 {
        law_increment_of_a_part(version@, VersionIncrement::Prerelease);
    }
    law_breaking_change(version@);
}

/// What comes of levels: the level between a version and the one that a level makes of it is that
/// level, and the version is stable, whatever it was. Without a bump the numbers stay, with one the
/// version is higher.
pub proof fn law_levels_of_calls(level: &BumpLevel, base: &Version, r: Version, back: BumpLevel)
    requires
        call_ensures(BumpLevel::apply, (level, base), r),
        call_ensures(BumpLevel::compute, (base, &r), back),
    ensures
        back == *level,
        r@.pre.len() == 0,
        r@.build == base@.build,
        *level != BumpLevel::NoBump ==> base@.lower(r@),
        *level == BumpLevel::Major ==> r@.major == base@.major + 1 && r@.minor == 0 && r@.patch
            == 0,
        *level == BumpLevel::Minor ==> r@.major == base@.major && r@.minor == base@.minor + 1
            && r@.patch == 0,
        *level == BumpLevel::Patch ==> r@.major == base@.major && r@.minor == base@.minor && r@.patch
            == base@.patch + 1,
        *level == BumpLevel::NoBump ==> r@.major == base@.major && r@.minor == base@.minor
            && r@.patch == base@.patch,
{
    law_applied_numbers(*level, base@);
    law_compute_of_apply(*level, base@);
    if *level != BumpLevel::NoBump {
        law_bump_raises(*level, base@);
    }
}

/// The level that is computed is that of the leftmost number which is higher in the target.
pub proof fn law_computed_level(base: &Version, target: &Version, r: BumpLevel)
    requires
        call_ensures(BumpLevel::compute, (base, target), r),
    ensures
        r == BumpLevel::Major <==> base@.major < target@.major,
        r == BumpLevel::Minor <==> base@.major >= target@.major && base@.minor < target@.minor,
        r == BumpLevel::Patch <==> base@.major >= target@.major && base@.minor >= target@.minor
            && base@.patch < target@.patch,
{
}

/// The higher of two levels is one of them, it does not matter which comes first, no bump is the
/// lowest and major the highest.
pub proof fn law_higher_level(a: BumpLevel, b: BumpLevel, r: BumpLevel, s: BumpLevel)
    requires
        call_ensures(BumpLevel::max, (a, b), r),
        call_ensures(BumpLevel::max, (b, a), s),
    ensures
        r == s,
        r == a || r == b,
        a == BumpLevel::Major || b == BumpLevel::Major ==> r == BumpLevel::Major,
        a == BumpLevel::NoBump ==> r == b,
        r == BumpLevel::Patch ==> a != BumpLevel::Minor && b != BumpLevel::Minor,
{
}

} // verus!
