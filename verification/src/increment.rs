//! How a version is incremented: by one of its parts, or as commit messages ask for.
use cargo_metadata::semver;
use cargo_metadata::semver::{BuildMetadata, Prerelease};
use next_version::NextVersion as _;
use vstd::prelude::*;
use vstd::string::*;

use crate::decimal::{number_of, parse_u64};
#[allow(unused_imports)]
use crate::decimal::{decimal, is_digit, law_number_of_decimal, lemma_decimal};
#[allow(unused_imports)]
use crate::order::{compare_keys, lemma_lists_last, lemma_lists_longer};
#[allow(unused_imports)]
use crate::rc::lemma_components_append;
use crate::semver::{Version, VersionView};
#[allow(unused_imports)]
use crate::semver::{
    components, identifier_key, identifier_keys, is_identifier, is_identifier_char,
    is_prerelease_text, lemma_components_not_empty, prerelease_order,
};
use crate::text::chars_of;
#[allow(unused_imports)]
use crate::text::views;

verus! {

/// The number behind the last dot of a prerelease, where there is one of at most 32 bits.
pub open spec fn prerelease_number(pre: Seq<char>) -> Option<nat> {
    match pre.index_of_last('.') {
        Some(i) => number_of(pre.skip(i + 1), u32::MAX as nat),
        None => None,
    }
}

/// The prerelease after `pre`: the number behind its last dot is incremented, or `.1` is
/// appended where there is no such number.
pub open spec fn next_prerelease(pre: Seq<char>) -> Seq<char> {
    match prerelease_number(pre) {
        Some(n) => pre.take(pre.index_of_last('.')->0 + 1) + decimal(n + 1),
        None => pre + seq!['.', '1'],
    }
}

impl VersionView {
    /// The next major version. Build metadata stays.
    pub open spec fn next_major(self) -> VersionView {
        VersionView { major: self.major + 1, minor: 0, patch: 0, pre: Seq::empty(), ..self }
    }

    /// The next minor version.
    pub open spec fn next_minor(self) -> VersionView {
        VersionView { minor: self.minor + 1, patch: 0, pre: Seq::empty(), ..self }
    }

    /// The next patch version.
    pub open spec fn next_patch(self) -> VersionView {
        VersionView { patch: self.patch + 1, pre: Seq::empty(), ..self }
    }

    /// The version with the next prerelease.
    pub open spec fn next_pre(self) -> VersionView {
        VersionView { pre: next_prerelease(self.pre), ..self }
    }

    /// No number that an increment may touch is at its limit.
    pub open spec fn can_increment(self) -> bool {
        if self.is_stable() {
            self.has_room()
        } else {
            prerelease_number(self.pre) != Some(u32::MAX as nat)
        }
    }

    /// The part that a breaking change increments: the prerelease where there is one, else the
    /// leftmost number that is not zero, the patch at least.
    pub open spec fn breaking_part(self) -> VersionIncrement {
        if !self.is_stable() {
            VersionIncrement::Prerelease
        } else if self.major > 0 {
            VersionIncrement::Major
        } else if self.minor > 0 {
            VersionIncrement::Minor
        } else {
            VersionIncrement::Patch
        }
    }

    /// The version with one of its parts incremented.
    pub open spec fn bumped(self, part: VersionIncrement) -> VersionView {
        match part {
            VersionIncrement::Major => self.next_major(),
            VersionIncrement::Minor => self.next_minor(),
            VersionIncrement::Patch => self.next_patch(),
            VersionIncrement::Prerelease => self.next_pre(),
        }
    }
}

/// The part of a version to increment.
#[derive(Debug, Clone, Copy, PartialEq, Eq, Structural)]
pub enum VersionIncrement {
    Major,
    Minor,
    Patch,
    Prerelease,
}

/// The next major version, from `next_version::NextVersion::increment_major`: the major number is
/// incremented, the other numbers are zero, the prerelease is gone and the build metadata stays.
#[verifier::external_body]
fn next_major_version(v: &Version) -> (r: Version)
    requires
        v@.valid(),
        v@.major < u64::MAX,
    ensures
        r@ == v@.next_major(),
{
    let pre = Prerelease::new(&v.pre).unwrap();
    let build = BuildMetadata::new(&v.build).unwrap();
    let v = semver::Version { major: v.major, minor: v.minor, patch: v.patch, pre, build };
    let r = v.increment_major();
    Version {
        major: r.major,
        minor: r.minor,
        patch: r.patch,
        pre: r.pre.to_string(),
        build: r.build.to_string(),
    }
}

/// The next minor version, from `next_version::NextVersion::increment_minor`: the minor number is
/// incremented, the patch is zero, the prerelease is gone and the rest stays.
#[verifier::external_body]
fn next_minor_version(v: &Version) -> (r: Version)
    requires
        v@.valid(),
        v@.minor < u64::MAX,
    ensures
        r@ == v@.next_minor(),
{
    let pre = Prerelease::new(&v.pre).unwrap();
    let build = BuildMetadata::new(&v.build).unwrap();
    let v = semver::Version { major: v.major, minor: v.minor, patch: v.patch, pre, build };
    let r = v.increment_minor();
    Version {
        major: r.major,
        minor: r.minor,
        patch: r.patch,
        pre: r.pre.to_string(),
        build: r.build.to_string(),
    }
}

/// The next patch version, from `next_version::NextVersion::increment_patch`: the patch is
/// incremented, the prerelease is gone and the rest stays.
#[verifier::external_body]
fn next_patch_version(v: &Version) -> (r: Version)
    requires
        v@.valid(),
        v@.patch < u64::MAX,
    ensures
        r@ == v@.next_patch(),
{
    let pre = Prerelease::new(&v.pre).unwrap();
    let build = BuildMetadata::new(&v.build).unwrap();
    let v = semver::Version { major: v.major, minor: v.minor, patch: v.patch, pre, build };
    let r = v.increment_patch();
    Version {
        major: r.major,
        minor: r.minor,
        patch: r.patch,
        pre: r.pre.to_string(),
        build: r.build.to_string(),
    }
}

/// The next prerelease, from `next_version::NextVersion::increment_prerelease`: the number behind
/// its last dot is incremented, or `.1` is appended where there is none; the rest stays.
#[verifier::external_body]
fn next_prerelease_version(v: &Version) -> (r: Version)
    requires
        v@.valid(),
        !v@.is_stable(),
        v@.can_increment(),
    ensures
        r@ == v@.next_pre(),
{
    let pre = Prerelease::new(&v.pre).unwrap();
    let build = BuildMetadata::new(&v.build).unwrap();
    let v = semver::Version { major: v.major, minor: v.minor, patch: v.patch, pre, build };
    let r = v.increment_prerelease();
    Version {
        major: r.major,
        minor: r.minor,
        patch: r.patch,
        pre: r.pre.to_string(),
        build: r.build.to_string(),
    }
}

/// The part that `next_version::VersionIncrement::breaking` increments for a breaking change.
#[verifier::external_body]
fn breaking_increment(v: &Version) -> (r: VersionIncrement)
    requires
        v@.valid(),
    ensures
        r == v@.breaking_part(),
{
    let pre = Prerelease::new(&v.pre).unwrap();
    let build = BuildMetadata::new(&v.build).unwrap();
    let v = semver::Version { major: v.major, minor: v.minor, patch: v.patch, pre, build };
    match next_version::VersionIncrement::breaking(&v) {
        next_version::VersionIncrement::Major => VersionIncrement::Major,
        next_version::VersionIncrement::Minor => VersionIncrement::Minor,
        next_version::VersionIncrement::Patch => VersionIncrement::Patch,
        next_version::VersionIncrement::Prerelease => VersionIncrement::Prerelease,
    }
}

impl VersionIncrement {
    /// The part that a breaking change increments.
    pub fn breaking(current_version: &Version) -> (r: VersionIncrement)
        ensures
            r == current_version@.breaking_part(),
    {
        proof {
            use_type_invariant(current_version);
        }
        breaking_increment(current_version)
    }

    /// `version` with this part incremented.
    pub fn bump(self, version: &Version) -> (r: Version)
        requires
            self == VersionIncrement::Major ==> version@.major < u64::MAX,
            self == VersionIncrement::Minor ==> version@.minor < u64::MAX,
            self == VersionIncrement::Patch ==> version@.patch < u64::MAX,
            self == VersionIncrement::Prerelease ==> !version@.is_stable()
                && version@.can_increment(),
        ensures
            r@ == version@.bumped(self),
    {
        match self {
            VersionIncrement::Major => version.increment_major(),
            VersionIncrement::Minor => version.increment_minor(),
            VersionIncrement::Patch => version.increment_patch(),
            VersionIncrement::Prerelease => version.increment_prerelease(),
        }
    }
}

impl Version {
    /// The next major version.
    pub fn increment_major(&self) -> (r: Version)
        requires
            self@.major < u64::MAX,
        ensures
            r@ == self@.next_major(),
    {
        proof {
            use_type_invariant(self);
        }
        next_major_version(self)
    }

    /// The next minor version.
    pub fn increment_minor(&self) -> (r: Version)
        requires
            self@.minor < u64::MAX,
        ensures
            r@ == self@.next_minor(),
    {
        proof {
            use_type_invariant(self);
        }
        next_minor_version(self)
    }

    /// The next patch version.
    pub fn increment_patch(&self) -> (r: Version)
        requires
            self@.patch < u64::MAX,
        ensures
            r@ == self@.next_patch(),
    {
        proof {
            use_type_invariant(self);
        }
        next_patch_version(self)
    }

    /// The version with the next prerelease.
    pub fn increment_prerelease(&self) -> (r: Version)
        requires
            !self@.is_stable(),
            self@.can_increment(),
        ensures
            r@ == self@.next_pre(),
    {
        proof {
            use_type_invariant(self);
        }
        next_prerelease_version(self)
    }

    /// Whether no number that an increment may touch is at its limit.
    pub fn can_increment(&self) -> (r: bool)
        ensures
            r == self@.can_increment(),
    {
        if !self.is_prerelease() {
            return self.has_room();
        }
        let pre = self.prerelease();
        let chars = chars_of(pre);
        proof {
            pre@.index_of_last_ensures('.');
        }
        let mut i: usize = chars.len();
        while i > 0
            invariant
                i <= chars@.len(),
                chars@ == pre@,
                pre@ == self@.pre,
                !self@.is_stable(),
                forall|j: int| i <= j < chars@.len() ==> pre@[j] != '.',
                pre@.index_of_last('.') matches Some(k) ==> 0 <= k < pre@.len() && pre@[k] == '.'
                    && forall|j: int| k < j < pre@.len() ==> pre@[j] != '.',
                pre@.index_of_last('.') is None ==> !pre@.contains('.'),
            decreases i,
        {
            if chars[i - 1] == '.' {
                assert(pre@[i - 1] == '.');
                assert(pre@.contains('.'));
                assert(pre@.index_of_last('.') == Some(i - 1));
                let right = pre.substring_char(i, chars.len());
                assert(right@ =~= pre@.skip(i as int));
                return match parse_u64(right) {
                    Some(n) => n != 4294967295,
                    None => true,
                };
            }
            i = i - 1;
        }
        assert(!pre@.contains('.'));
        true
    }
}

/// What a [`VersionUpdater`] is set to.
pub struct UpdaterView {
    pub features_always_increment_minor: bool,
    pub breaking_always_increment_major: bool,
    pub custom_minor_increment_regex: Option<Seq<char>>,
    pub custom_major_increment_regex: Option<Seq<char>>,
}

/// `pattern` is a regular expression that compiles.
pub uninterp spec fn regex_compiles(pattern: Seq<char>) -> bool;

/// The version that follows `version` where commits with `messages` were made, by the rules of
/// conventional commits as `updater` refines them.
pub uninterp spec fn incremented(
    updater: UpdaterView,
    version: VersionView,
    messages: Seq<Seq<char>>,
) -> VersionView;

/// Asks `next_version::VersionUpdater::with_custom_minor_increment_regex` whether a pattern
/// compiles. The answer depends on the pattern alone.
#[verifier::external_body]
fn is_regex(pattern: &str) -> (r: bool)
    ensures
        r == regex_compiles(pattern@),
{
    next_version::VersionUpdater::new().with_custom_minor_increment_regex(pattern).is_ok()
}

/// Increments a version with `next_version::VersionUpdater::increment`. Which part it takes
/// depends on the settings, the version and the messages alone. Without messages the version
/// stays; with messages a prerelease gives the next prerelease, and a release the next patch,
/// minor or major version. A `0.x` version gets the next major version only by the settings.
#[verifier::external_body]
fn increment_for_messages(updater: &VersionUpdater, v: &Version, messages: &Vec<String>) -> (r:
    Version)
    requires
        updater@.valid(),
        v@.valid(),
        v@.can_increment() || messages@.len() == 0,
    ensures
        r@ == incremented(updater@, v@, views(messages@)),
        messages@.len() == 0 ==> r@ == v@,
        messages@.len() > 0 && !v@.is_stable() ==> r@ == v@.next_pre(),
        messages@.len() > 0 && v@.is_stable() ==> r@ == v@.next_major() || r@ == v@.next_minor()
            || r@ == v@.next_patch(),
        messages@.len() > 0 && v@.is_stable() && updater@.keeps_major(v@) ==> r@ == v@.next_minor()
            || r@ == v@.next_patch(),
{
    let pre = Prerelease::new(&v.pre).unwrap();
    let build = BuildMetadata::new(&v.build).unwrap();
    let v = semver::Version { major: v.major, minor: v.minor, patch: v.patch, pre, build };
    let mut rules = next_version::VersionUpdater::new()
        .with_features_always_increment_minor(updater.features_always_increment_minor)
        .with_breaking_always_increment_major(updater.breaking_always_increment_major);
    if let Some(pattern) = &updater.custom_minor_increment_regex {
        rules = rules.with_custom_minor_increment_regex(pattern).unwrap();
    }
    if let Some(pattern) = &updater.custom_major_increment_regex {
        rules = rules.with_custom_major_increment_regex(pattern).unwrap();
    }
    let r = rules.increment(&v, messages);
    let pre = r.pre.to_string();
    Version { major: r.major, minor: r.minor, patch: r.patch, pre, build: r.build.to_string() }
}

impl UpdaterView {
    /// No commit raises the major number of `version`: it is zero, and neither breaking changes nor
    /// a custom pattern are set to raise it.
    pub open spec fn keeps_major(self, version: VersionView) -> bool {
        version.major == 0 && !self.breaking_always_increment_major
            && self.custom_major_increment_regex is None
    }

    /// The custom patterns compile.
    pub open spec fn valid(self) -> bool {
        &&& self.custom_minor_increment_regex matches Some(pattern) ==> regex_compiles(pattern)
        &&& self.custom_major_increment_regex matches Some(pattern) ==> regex_compiles(pattern)
    }
}

/// How commit messages are turned into an increment.
#[derive(Debug)]
pub struct VersionUpdater {
    pub(crate) features_always_increment_minor: bool,
    pub(crate) breaking_always_increment_major: bool,
    pub(crate) custom_minor_increment_regex: Option<String>,
    pub(crate) custom_major_increment_regex: Option<String>,
}

/// The characters of a text that may be missing.
pub open spec fn optional_text(s: Option<String>) -> Option<Seq<char>> {
    match s {
        Some(s) => Some(s@),
        None => None,
    }
}

impl View for VersionUpdater {
    type V = UpdaterView;

    closed spec fn view(&self) -> UpdaterView {
        UpdaterView {
            features_always_increment_minor: self.features_always_increment_minor,
            breaking_always_increment_major: self.breaking_always_increment_major,
            custom_minor_increment_regex: optional_text(self.custom_minor_increment_regex),
            custom_major_increment_regex: optional_text(self.custom_major_increment_regex),
        }
    }
}

impl Default for VersionUpdater {
    /// The rules of conventional commits, unrefined.
    fn default() -> (r: Self)
        ensures
            r@ == UpdaterView::unrefined(),
    {
        VersionUpdater {
            features_always_increment_minor: false,
            breaking_always_increment_major: false,
            custom_minor_increment_regex: None,
            custom_major_increment_regex: None,
        }
    }
}

impl UpdaterView {
    /// The rules of conventional commits as they are.
    pub open spec fn unrefined() -> UpdaterView {
        UpdaterView {
            features_always_increment_minor: false,
            breaking_always_increment_major: false,
            custom_minor_increment_regex: None,
            custom_major_increment_regex: None,
        }
    }
}

impl VersionUpdater {
    /// The custom patterns always compile.
    #[verifier::type_invariant]
    pub(crate) open spec fn well_formed(self) -> bool {
        self@.valid()
    }

    /// Whether a feature increments the minor number of `0.x` versions too.
    pub fn with_features_always_increment_minor(self, always: bool) -> (r: Self)
        ensures
            r@ == (UpdaterView { features_always_increment_minor: always, ..self@ }),
    {
        proof {
            use_type_invariant(&self);
        }
        VersionUpdater {
            features_always_increment_minor: always,
            breaking_always_increment_major: self.breaking_always_increment_major,
            custom_minor_increment_regex: self.custom_minor_increment_regex,
            custom_major_increment_regex: self.custom_major_increment_regex,
        }
    }

    /// Whether a breaking change increments the major number of `0.x` versions too.
    pub fn with_breaking_always_increment_major(self, always: bool) -> (r: Self)
        ensures
            r@ == (UpdaterView { breaking_always_increment_major: always, ..self@ }),
    {
        proof {
            use_type_invariant(&self);
        }
        VersionUpdater {
            features_always_increment_minor: self.features_always_increment_minor,
            breaking_always_increment_major: always,
            custom_minor_increment_regex: self.custom_minor_increment_regex,
            custom_major_increment_regex: self.custom_major_increment_regex,
        }
    }

    /// Commits that `pattern` matches increment the minor number. `None` where it does not
    /// compile.
    pub fn with_custom_minor_increment_regex(self, pattern: &str) -> (r: Option<Self>)
        ensures
            r is Some <==> regex_compiles(pattern@),
            r matches Some(u) ==> u@ == (UpdaterView {
                custom_minor_increment_regex: Some(pattern@),
                ..self@
            }),
    {
        proof {
            use_type_invariant(&self);
        }
        if !is_regex(pattern) {
            return None;
        }
        Some(
            VersionUpdater {
                features_always_increment_minor: self.features_always_increment_minor,
                breaking_always_increment_major: self.breaking_always_increment_major,
                custom_minor_increment_regex: Some(pattern.to_owned()),
                custom_major_increment_regex: self.custom_major_increment_regex,
            },
        )
    }

    /// Commits that `pattern` matches increment the major number. `None` where it does not
    /// compile.
    pub fn with_custom_major_increment_regex(self, pattern: &str) -> (r: Option<Self>)
        ensures
            r is Some <==> regex_compiles(pattern@),
            r matches Some(u) ==> u@ == (UpdaterView {
                custom_major_increment_regex: Some(pattern@),
                ..self@
            }),
    {
        proof {
            use_type_invariant(&self);
        }
        if !is_regex(pattern) {
            return None;
        }
        Some(
            VersionUpdater {
                features_always_increment_minor: self.features_always_increment_minor,
                breaking_always_increment_major: self.breaking_always_increment_major,
                custom_minor_increment_regex: self.custom_minor_increment_regex,
                custom_major_increment_regex: Some(pattern.to_owned()),
            },
        )
    }

    /// The version that follows `version` where commits with `messages` were made.
    pub fn increment(&self, version: &Version, messages: &Vec<String>) -> (r: Version)
        requires
            version@.can_increment() || messages@.len() == 0,
        ensures
            r@ == incremented(self@, version@, views(messages@)),
            messages@.len() == 0 ==> r@ == version@,
            messages@.len() > 0 && !version@.is_stable() ==> r@ == version@.next_pre(),
            messages@.len() > 0 && version@.is_stable() ==> r@ == version@.next_major() || r@
                == version@.next_minor() || r@ == version@.next_patch(),
            messages@.len() > 0 && version@.is_stable() && self@.keeps_major(version@) ==> r@
                == version@.next_minor() || r@ == version@.next_patch(),
    {
        proof {
            use_type_invariant(self);
            use_type_invariant(version);
        }
        increment_for_messages(self, version, messages)
    }
}

/// What stands behind a dot is one more part.
proof fn lemma_components_behind_dot(s: Seq<char>, t: Seq<char>)
    requires
        forall|i: int| 0 <= i < t.len() ==> t[i] != '.',
    ensures
        components(s.push('.') + t) == components(s).push(t),
{
    lemma_components_not_empty(s);
    let dotted = s.push('.');
    assert(dotted.drop_last() =~= s);
    assert(components(dotted) == components(s).push(Seq::empty()));
    lemma_components_append(dotted, t);
    assert(Seq::<char>::empty() + t =~= t);
    assert(components(s).push(Seq::empty()).drop_last() =~= components(s));
}

/// The next prerelease is higher.
proof fn lemma_next_prerelease_is_higher(pre: Seq<char>)
    requires
        pre.len() > 0,
        is_prerelease_text(pre),
    ensures
        next_prerelease(pre).len() > 0,
        prerelease_order(pre, next_prerelease(pre)) < 0,
{
    let next = next_prerelease(pre);
    let keys = identifier_keys(pre);
    pre.index_of_last_ensures('.');
    match prerelease_number(pre) {
        Some(n) => {
            let i = pre.index_of_last('.')->0;
            let head = pre.take(i);
            let tail = pre.skip(i + 1);
            assert(pre =~= head.push('.') + tail);
            lemma_components_behind_dot(head, tail);
            lemma_decimal(n + 1);
            let digits = decimal(n + 1);
            assert forall|k: int| 0 <= k < digits.len() implies #[trigger] digits[k] != '.' by {
                assert(is_digit(digits[k]));
            }
            lemma_components_behind_dot(head, digits);
            assert(next =~= head.push('.') + digits);
            let before = identifier_keys(head);
            assert(components(pre)[components(head).len() as int] == tail);
            assert(is_identifier(tail));
            assert(is_identifier_char(tail[0]));
            let (x, y) = (identifier_key(tail), identifier_key(digits));
            assert(identifier_keys(pre) =~= before.push(x));
            assert(identifier_keys(next) =~= before.push(y));
            assert(x[0] == 0 && y[0] == 0);
            assert(x.skip(1)[0] == n && y.skip(1)[0] == n + 1);
            assert(compare_keys(x.skip(1), y.skip(1)) == -1);
            lemma_lists_last(before, x, y);
        },
        None => {
            let one = seq!['1'];
            lemma_components_behind_dot(pre, one);
            assert(next =~= pre.push('.') + one);
            assert(identifier_keys(next) =~= keys.push(identifier_key(one)));
            lemma_lists_longer(keys, identifier_key(one));
        },
    }
}

/// An increment raises the one part that it is of. The numbers to the right of that part start again
/// at zero, those to its left and the build metadata stay, and a prerelease is gone, unless it is
/// the part that is raised.
pub proof fn law_increment_of_a_part(v: VersionView, part: VersionIncrement)
    requires
        v.valid(),
        part == VersionIncrement::Prerelease ==> v.pre.len() > 0,
    ensures
        v.lower(v.bumped(part)),
        v.bumped(part).build == v.build,
        ({
            let next = v.bumped(part);
            match part {
                VersionIncrement::Major => next.major == v.major + 1 && next.minor == 0
                    && next.patch == 0 && next.pre.len() == 0,
                VersionIncrement::Minor => next.major == v.major && next.minor == v.minor + 1
                    && next.patch == 0 && next.pre.len() == 0,
                VersionIncrement::Patch => next.major == v.major && next.minor == v.minor
                    && next.patch == v.patch + 1 && next.pre.len() == 0,
                VersionIncrement::Prerelease => next.major == v.major && next.minor == v.minor
                    && next.patch == v.patch && next.pre.len() > 0,
            }
        }),
{
    if part == VersionIncrement::Prerelease {
        lemma_next_prerelease_is_higher(v.pre);
    }
}

/// A breaking change raises the leftmost number that is not zero, the patch at least, and of a
/// prerelease the prerelease alone.
pub proof fn law_breaking_change(v: VersionView)
    requires
        v.valid(),
    ensures
        ({
            let next = v.bumped(v.breaking_part());
            &&& v.lower(next)
            &&& next.build == v.build
            &&& v.pre.len() > 0 ==> next.major == v.major && next.minor == v.minor && next.patch
                == v.patch && next.pre.len() > 0
            &&& v.pre.len() == 0 ==> next.pre.len() == 0
            &&& v.pre.len() == 0 && v.major > 0 ==> next.major == v.major + 1 && next.minor == 0
                && next.patch == 0
            &&& v.pre.len() == 0 && v.major == 0 && v.minor > 0 ==> next.major == 0 && next.minor
                == v.minor + 1 && next.patch == 0
            &&& v.pre.len() == 0 && v.major == 0 && v.minor == 0 ==> next.major == 0 && next.minor
                == 0 && next.patch == v.patch + 1
        }),
{
    law_increment_of_a_part(v, v.breaking_part());
}

/// What a bump gives: the part that is meant is one higher, the parts behind it start anew, the parts
/// before it and the build metadata stay, and the version is higher than before.
pub proof fn law_bumped_version(increment: VersionIncrement, version: &Version, r: Version)
    requires
        call_ensures(VersionIncrement::bump, (increment, version), r),
        version@.valid(),
        increment == VersionIncrement::Prerelease ==> version@.pre.len() > 0,
    ensures
        version@.lower(r@),
        r@.build == version@.build,
        match increment {
            VersionIncrement::Major => r@.major == version@.major + 1 && r@.minor == 0 && r@.patch
                == 0 && r@.pre.len() == 0,
            VersionIncrement::Minor => r@.major == version@.major && r@.minor == version@.minor + 1
                && r@.patch == 0 && r@.pre.len() == 0,
            VersionIncrement::Patch => r@.major == version@.major && r@.minor == version@.minor
                && r@.patch == version@.patch + 1 && r@.pre.len() == 0,
            VersionIncrement::Prerelease => r@.major == version@.major && r@.minor
                == version@.minor && r@.patch == version@.patch && r@.pre.len() > 0,
        },
{
    law_increment_of_a_part(version@, increment);
}

/// The part that an incompatible change raises: the first number that is not zero, and the patch where
/// all are; of a prerelease only the prerelease.
pub proof fn law_breaking_part(current_version: &Version, r: VersionIncrement)
    requires
        call_ensures(VersionIncrement::breaking, (current_version,), r),
    ensures
        r is Prerelease <==> current_version@.pre.len() > 0,
        r is Major <==> current_version@.pre.len() == 0 && current_version@.major > 0,
        r is Minor <==> current_version@.pre.len() == 0 && current_version@.major == 0
            && current_version@.minor > 0,
{
}

/// Without messages a version stays; with messages it rises, by one step of one part, and never past
/// a prerelease of its own.
pub proof fn law_incremented_version(
    updater: &VersionUpdater,
    version: &Version,
    messages: &Vec<String>,
    r: Version,
)
    requires
        call_ensures(VersionUpdater::increment, (updater, version, messages), r),
        version@.valid(),
    ensures
        messages@.len() == 0 ==> r@ == version@,
        messages@.len() > 0 ==> version@.lower(r@) && r@.build == version@.build,
        messages@.len() > 0 && version@.pre.len() > 0 ==> r@.major == version@.major && r@.minor
            == version@.minor && r@.patch == version@.patch && r@.pre.len() > 0,
        messages@.len() > 0 && version@.pre.len() == 0 ==> r@.pre.len() == 0 && ((r@.major
            == version@.major + 1 && r@.minor == 0 && r@.patch == 0) || (r@.major == version@.major
            && r@.minor == version@.minor + 1 && r@.patch == 0) || (r@.major == version@.major
            && r@.minor == version@.minor && r@.patch == version@.patch + 1)),
{
    if messages@.len() > 0 {
        law_increment_of_a_part(version@, VersionIncrement::Major);
        law_increment_of_a_part(version@, VersionIncrement::Minor);
        law_increment_of_a_part(version@, VersionIncrement::Patch);
        if version@.pre.len() > 0 {
            law_increment_of_a_part(version@, VersionIncrement::Prerelease);
        }
    }
}

/// The number at the end of a prerelease counts up by one, whatever stands before it, and a prerelease
/// without a dot gets a number.
pub proof fn law_next_prerelease(stem: Seq<char>, n: nat)
    requires
        n <= u32::MAX,
    ensures
        next_prerelease(stem + seq!['.'] + decimal(n)) == stem + seq!['.'] + decimal(n + 1),
        !stem.contains('.') ==> next_prerelease(stem) == stem + seq!['.'] + decimal(1),
{
    let pre = stem + seq!['.'] + decimal(n);
    lemma_decimal(n);
    pre.index_of_last_ensures('.');
    let at = stem.len() as int;
    assert(pre[at] == '.');
    assert(pre.contains('.'));
    let i = pre.index_of_last('.')->0;
    assert(i == at) by {
        if i > at {
            assert(pre[i] == decimal(n)[i - at - 1]);
            assert(is_digit(decimal(n)[i - at - 1]));
        }
    }
    assert(pre.skip(at + 1) =~= decimal(n));
    law_number_of_decimal(n, u32::MAX as nat);
    assert(pre.take(at + 1) =~= stem + seq!['.']);
    stem.index_of_last_ensures('.');
    if !stem.contains('.') {
        lemma_decimal(1);
        assert(decimal(1) =~= seq!['1']) by {
            reveal_with_fuel(decimal, 2);
        }
        assert(stem + seq!['.', '1'] =~= stem + seq!['.'] + decimal(1));
    }
}

} // verus!
