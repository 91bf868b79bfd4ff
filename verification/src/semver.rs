//! Semantic versions: their text, their order and what makes one valid.
use cargo_metadata::semver;
use vstd::prelude::*;
use vstd::string::*;

use crate::decimal::{all_digits, decimal_text, is_digit};
#[allow(unused_imports)]
use crate::decimal::{
    decimal, digits_value, lemma_decimal, lemma_decimal_injective, lemma_digits_injective,
};
#[allow(unused_imports)]
use crate::order::{compare_lists, lemma_lists_same, lemma_lists_swap, lemma_lists_transitive};

verus! {

/// The parts of `s` between its dots.
pub open spec fn components(s: Seq<char>) -> Seq<Seq<char>>
    decreases s.len(),
{
    if s.len() == 0 {
        seq![Seq::empty()]
    } else {
        let before = components(s.drop_last());
        if s.last() == '.' {
            before.push(Seq::empty())
        } else {
            before.drop_last().push(before.last().push(s.last()))
        }
    }
}

/// A character of an identifier: a letter, a digit or a hyphen.
pub open spec fn is_identifier_char(c: char) -> bool {
    is_digit(c) || 'A' <= c <= 'Z' || 'a' <= c <= 'z' || c == '-'
}

/// An identifier is not empty and holds ASCII letters, digits and hyphens only.
pub open spec fn is_identifier(s: Seq<char>) -> bool {
    s.len() > 0 && forall|i: int| 0 <= i < s.len() ==> is_identifier_char(#[trigger] s[i])
}

/// Build metadata: empty, or identifiers with dots between them.
pub open spec fn is_build_metadata(s: Seq<char>) -> bool {
    s.len() == 0 || forall|i: int|
        0 <= i < components(s).len() ==> is_identifier(#[trigger] components(s)[i])
}

/// `s` is a number with a zero in front that it does not need.
pub open spec fn has_leading_zero(s: Seq<char>) -> bool {
    s.len() > 1 && all_digits(s) && s[0] == '0'
}

/// A prerelease: empty, or identifiers with dots between them, none of which is a number with
/// a leading zero.
pub open spec fn is_prerelease_text(s: Seq<char>) -> bool {
    is_build_metadata(s) && (s.len() == 0 || forall|i: int|
        0 <= i < components(s).len() ==> !has_leading_zero(#[trigger] components(s)[i]))
}

/// What an identifier is ordered by: numbers come first, by their value (a shorter notation of
/// the same value is lower), and the others follow in ASCII order.
pub open spec fn identifier_key(s: Seq<char>) -> Seq<int> {
    if all_digits(s) {
        seq![0, digits_value(s) as int, s.len() as int]
    } else {
        seq![1int] + s.map_values(|c: char| c as int)
    }
}

/// The keys of the identifiers of `s`, in order.
pub open spec fn identifier_keys(s: Seq<char>) -> Seq<Seq<int>> {
    components(s).map_values(|c: Seq<char>| identifier_key(c))
}

/// Order of prereleases: having none is higher than having any.
pub open spec fn prerelease_order(a: Seq<char>, b: Seq<char>) -> int {
    if a.len() == 0 || b.len() == 0 {
        if a.len() == b.len() {
            0
        } else if a.len() == 0 {
            1
        } else {
            -1
        }
    } else {
        compare_lists(identifier_keys(a), identifier_keys(b))
    }
}

/// What a version holds.
pub struct VersionView {
    pub major: nat,
    pub minor: nat,
    pub patch: nat,
    pub pre: Seq<char>,
    pub build: Seq<char>,
}

impl VersionView {
    /// The version `major.minor.patch`, with no prerelease and no build metadata.
    pub open spec fn release(major: nat, minor: nat, patch: nat) -> VersionView {
        VersionView { major, minor, patch, pre: Seq::empty(), build: Seq::empty() }
    }

    /// The numbers fit in 64 bits, and prerelease and build metadata are well formed.
    pub open spec fn valid(self) -> bool {
        &&& self.major <= u64::MAX
        &&& self.minor <= u64::MAX
        &&& self.patch <= u64::MAX
        &&& is_prerelease_text(self.pre)
        &&& is_build_metadata(self.build)
    }

    /// The version has no prerelease.
    pub open spec fn is_stable(self) -> bool {
        self.pre.len() == 0
    }

    /// Each of the three numbers is below its limit.
    pub open spec fn has_room(self) -> bool {
        self.major < u64::MAX && self.minor < u64::MAX && self.patch < u64::MAX
    }

    /// Order of versions by their numbers alone: by the major, then the minor, then the patch.
    pub open spec fn number_order(self, other: VersionView) -> int {
        if self.major != other.major {
            if self.major < other.major {
                -1
            } else {
                1
            }
        } else if self.minor != other.minor {
            if self.minor < other.minor {
                -1
            } else {
                1
            }
        } else if self.patch != other.patch {
            if self.patch < other.patch {
                -1
            } else {
                1
            }
        } else {
            0
        }
    }

    /// How the version is written: `major.minor.patch-pre+build`.
    pub open spec fn text(self) -> Seq<char> {
        decimal(self.major) + seq!['.'] + (decimal(self.minor) + seq!['.'] + (decimal(self.patch)
            + (self.pre_text() + self.build_text())))
    }

    /// The prerelease with the hyphen that introduces it.
    pub open spec fn pre_text(self) -> Seq<char> {
        if self.pre.len() == 0 {
            Seq::empty()
        } else {
            seq!['-'] + self.pre
        }
    }

    /// The build metadata with the plus sign that introduces it.
    pub open spec fn build_text(self) -> Seq<char> {
        if self.build.len() == 0 {
            Seq::empty()
        } else {
            seq!['+'] + self.build
        }
    }

    /// Order of versions: by the numbers, then by the prerelease, then by the build metadata.
    pub open spec fn order(self, other: VersionView) -> int {
        let pre = prerelease_order(self.pre, other.pre);
        if self.number_order(other) != 0 {
            self.number_order(other)
        } else if pre != 0 {
            pre
        } else {
            compare_lists(identifier_keys(self.build), identifier_keys(other.build))
        }
    }

    /// `self` is lower than `other`.
    pub open spec fn lower(self, other: VersionView) -> bool {
        self.order(other) < 0
    }
}

/// Where one version stands with respect to another.
#[derive(Debug, Clone, Copy, PartialEq, Eq, Structural)]
pub enum Precedence {
    Lower,
    Same,
    Higher,
}

/// A semantic version.
#[derive(Debug)]
pub struct Version {
    pub(crate) major: u64,
    pub(crate) minor: u64,
    pub(crate) patch: u64,
    pub(crate) pre: String,
    pub(crate) build: String,
}

/// Reads a version with `semver::Version::parse`, which accepts a text where it is how some
/// version is written, numbers without leading zeros and of at most 64 bits, and nothing else.
#[verifier::external_body]
fn parse_version(text: &str) -> (r: Option<Version>)
    ensures
        r matches Some(v) ==> v@.text() == text@,
        r is None ==> forall|v: VersionView| #[trigger] v.valid() ==> v.text() != text@,
{
    semver::Version::parse(text).ok().map(
        |v| Version {
            major: v.major,
            minor: v.minor,
            patch: v.patch,
            pre: v.pre.to_string(),
            build: v.build.to_string(),
        },
    )
}

/// Asks `semver::Prerelease::new` whether a text is a prerelease.
#[verifier::external_body]
fn valid_prerelease(text: &str) -> (r: bool)
    ensures
        r == is_prerelease_text(text@),
{
    semver::Prerelease::new(text).is_ok()
}

/// Compares two versions in the total order of `semver::Version`: the three numbers first, then
/// the prereleases and then the build metadata, these two by their dot-separated identifiers.
#[verifier::external_body]
fn compare_versions(a: &Version, b: &Version) -> (r: Precedence)
    requires
        a@.valid(),
        b@.valid(),
    ensures
        r == Precedence::Lower <==> a@.order(b@) < 0,
        r == Precedence::Same <==> a@.order(b@) == 0,
        r == Precedence::Higher <==> a@.order(b@) > 0,
{
    let pre = semver::Prerelease::new(&a.pre).unwrap();
    let build = semver::BuildMetadata::new(&a.build).unwrap();
    let a = semver::Version { major: a.major, minor: a.minor, patch: a.patch, pre, build };
    let pre = semver::Prerelease::new(&b.pre).unwrap();
    let build = semver::BuildMetadata::new(&b.build).unwrap();
    let b = semver::Version { major: b.major, minor: b.minor, patch: b.patch, pre, build };
    match a.cmp(&b) {
        std::cmp::Ordering::Less => Precedence::Lower,
        std::cmp::Ordering::Equal => Precedence::Same,
        std::cmp::Ordering::Greater => Precedence::Higher,
    }
}

impl View for Version {
    type V = VersionView;

    closed spec fn view(&self) -> VersionView {
        VersionView {
            major: self.major as nat,
            minor: self.minor as nat,
            patch: self.patch as nat,
            pre: self.pre@,
            build: self.build@,
        }
    }
}

impl Clone for Version {
    fn clone(&self) -> (r: Self)
        ensures
            r == *self,
    {
        proof {
            use_type_invariant(self);
        }
        Version {
            major: self.major,
            minor: self.minor,
            patch: self.patch,
            pre: self.pre.clone(),
            build: self.build.clone(),
        }
    }
}

impl PartialEq for Version {
    fn eq(&self, other: &Self) -> (r: bool) {
        self.major == other.major && self.minor == other.minor && self.patch == other.patch
            && self.pre == other.pre && self.build == other.build
    }
}

impl vstd::std_specs::cmp::PartialEqSpecImpl for Version {
    open spec fn obeys_eq_spec() -> bool {
        true
    }

    open spec fn eq_spec(&self, other: &Self) -> bool {
        self@ == other@
    }
}

impl Version {
    /// A version is always valid.
    #[verifier::type_invariant]
    pub(crate) open spec fn well_formed(self) -> bool {
        self@.valid()
    }

    /// The version `major.minor.patch`.
    pub fn new(major: u64, minor: u64, patch: u64) -> (r: Version)
        ensures
            r@ == VersionView::release(major as nat, minor as nat, patch as nat),
    {
        Version { major, minor, patch, pre: String::new(), build: String::new() }
    }

    /// Reads a version from its text.
    pub fn parse(text: &str) -> (r: Option<Version>)
        ensures
            r matches Some(v) ==> v@.valid() && v@.text() == text@,
            r is None ==> forall|v: VersionView|
                #![trigger v.valid()]
                v.valid() ==> v.text() != text@,
    {
        let r = parse_version(text);
        if let Some(v) = &r {
            proof {
                use_type_invariant(v);
            }
        }
        r
    }

    /// How the version is written.
    pub fn to_text(&self) -> (r: String)
        ensures
            r@ == self@.text(),
    {
        let mut out = decimal_text(self.major);
        out.append(".");
        out.append(decimal_text(self.minor).as_str());
        out.append(".");
        out.append(decimal_text(self.patch).as_str());
        if !self.pre.as_str().is_empty() {
            out.append("-");
            out.append(self.pre.as_str());
        }
        if !self.build.as_str().is_empty() {
            out.append("+");
            out.append(self.build.as_str());
        }
        proof {
            reveal_strlit(".");
            reveal_strlit("-");
            reveal_strlit("+");
            assert("."@ =~= seq!['.']);
            assert("-"@ =~= seq!['-']);
            assert("+"@ =~= seq!['+']);
            assert(out@ =~= self@.text());
        }
        out
    }

    /// The same version with `pre` as its prerelease, where that is a prerelease at all.
    pub fn with_prerelease(&self, pre: &str) -> (r: Option<Version>)
        ensures
            r is Some <==> is_prerelease_text(pre@),
            r matches Some(v) ==> v@ == (VersionView { pre: pre@, ..self@ }),
    {
        proof {
            use_type_invariant(self);
        }
        if valid_prerelease(pre) {
            Some(
                Version {
                    major: self.major,
                    minor: self.minor,
                    patch: self.patch,
                    pre: pre.to_owned(),
                    build: self.build.clone(),
                },
            )
        } else {
            None
        }
    }

    /// The version without its prerelease.
    pub fn without_prerelease(&self) -> (r: Version)
        ensures
            r@ == (VersionView { pre: Seq::empty(), ..self@ }),
    {
        proof {
            use_type_invariant(self);
        }
        Version {
            major: self.major,
            minor: self.minor,
            patch: self.patch,
            pre: String::new(),
            build: self.build.clone(),
        }
    }

    /// Where `self` stands with respect to `other`.
    pub fn precedence(&self, other: &Version) -> (r: Precedence)
        ensures
            r == Precedence::Lower <==> self@.order(other@) < 0,
            r == Precedence::Same <==> self@.order(other@) == 0,
            r == Precedence::Higher <==> self@.order(other@) > 0,
    {
        proof {
            use_type_invariant(self);
            use_type_invariant(other);
        }
        compare_versions(self, other)
    }

    /// Whether `self` is lower than `other`.
    pub fn is_lower(&self, other: &Version) -> (r: bool)
        ensures
            r == self@.lower(other@),
    {
        matches!(self.precedence(other), Precedence::Lower)
    }

    /// The first number of the version.
    pub fn major(&self) -> (r: u64)
        ensures
            r == self@.major,
    {
        self.major
    }

    /// The second number of the version.
    pub fn minor(&self) -> (r: u64)
        ensures
            r == self@.minor,
    {
        self.minor
    }

    /// The third number of the version.
    pub fn patch(&self) -> (r: u64)
        ensures
            r == self@.patch,
    {
        self.patch
    }

    /// The prerelease of the version.
    pub fn prerelease(&self) -> (r: &str)
        ensures
            r@ == self@.pre,
    {
        self.pre.as_str()
    }

    /// Whether each of the three numbers is below its limit.
    pub fn has_room(&self) -> (r: bool)
        ensures
            r == self@.has_room(),
    {
        self.major < u64::MAX && self.minor < u64::MAX && self.patch < u64::MAX
    }

    /// Whether the version has a prerelease.
    pub fn is_prerelease(&self) -> (r: bool)
        ensures
            r == !self@.is_stable(),
    {
        !self.pre.as_str().is_empty()
    }
}

/// The order of versions is total: a version stands with respect to another as the other does
/// to it, turned round.
pub proof fn law_order_swap(a: VersionView, b: VersionView)
    ensures
        a.order(b) == -b.order(a),
{
    lemma_lists_swap(identifier_keys(a.pre), identifier_keys(b.pre));
    lemma_lists_swap(identifier_keys(a.build), identifier_keys(b.build));
}

/// The order of versions is transitive.
pub proof fn law_order_transitive(a: VersionView, b: VersionView, c: VersionView)
    requires
        a.order(b) <= 0,
        b.order(c) <= 0,
    ensures
        a.order(c) <= 0,
        a.order(c) == 0 ==> a.order(b) == 0 && b.order(c) == 0,
{
    if a.number_order(b) == 0 && b.number_order(c) == 0 {
        if prerelease_order(a.pre, b.pre) <= 0 && prerelease_order(b.pre, c.pre) <= 0 {
            lemma_prerelease_transitive(a.pre, b.pre, c.pre);
        }
        if prerelease_order(a.pre, b.pre) == 0 && prerelease_order(b.pre, c.pre) == 0 {
            lemma_lists_transitive(
                identifier_keys(a.build),
                identifier_keys(b.build),
                identifier_keys(c.build),
            );
        }
    }
}

/// Numbers decide before anything else, from left to right, and of two versions with the same numbers
/// one with a prerelease is lower than one without.
pub proof fn law_order_of_numbers(a: VersionView, b: VersionView)
    ensures
        a.major < b.major ==> a.lower(b),
        a.major == b.major && a.minor < b.minor ==> a.lower(b),
        a.major == b.major && a.minor == b.minor && a.patch < b.patch ==> a.lower(b),
        a.major == b.major && a.minor == b.minor && a.patch == b.patch && a.pre.len() > 0
            && b.pre.len() == 0 ==> a.lower(b),
{
}

/// Only a version itself stands at its own place in the order.
pub proof fn law_order_same(a: VersionView, b: VersionView)
    ensures
        a.order(b) == 0 <==> a == b,
{
    lemma_lists_same(identifier_keys(a.pre), identifier_keys(b.pre));
    lemma_lists_same(identifier_keys(a.build), identifier_keys(b.build));
    if a.order(b) == 0 {
        lemma_identifier_keys_injective(a.build, b.build);
        if a.pre.len() > 0 {
            lemma_identifier_keys_injective(a.pre, b.pre);
        } else {
            assert(a.pre =~= b.pre);
        }
    }
}

proof fn lemma_identifier_keys_injective(a: Seq<char>, b: Seq<char>)
    requires
        identifier_keys(a) == identifier_keys(b),
    ensures
        a == b,
{
    let x = components(a);
    let y = components(b);
    assert(x.len() == identifier_keys(a).len());
    assert(y.len() == identifier_keys(b).len());
    assert forall|i: int| 0 <= i < x.len() implies x[i] == y[i] by {
        assert(identifier_keys(a)[i] == identifier_key(x[i]));
        assert(identifier_keys(b)[i] == identifier_key(y[i]));
        lemma_identifier_key_injective(x[i], y[i]);
    }
    assert(x =~= y);
    lemma_components_injective(a, b);
}

proof fn lemma_identifier_key_injective(a: Seq<char>, b: Seq<char>)
    requires
        identifier_key(a) == identifier_key(b),
    ensures
        a == b,
{
    assert(identifier_key(a)[0] == identifier_key(b)[0]);
    if all_digits(a) {
        assert(identifier_key(a)[1] == identifier_key(b)[1]);
        assert(identifier_key(a)[2] == identifier_key(b)[2]);
        lemma_digits_injective(a, b);
    } else {
        assert(!all_digits(b));
        assert(identifier_key(a).len() == a.len() + 1);
        assert(identifier_key(b).len() == b.len() + 1);
        assert forall|i: int| 0 <= i < a.len() implies a[i] == b[i] by {
            assert(identifier_key(a)[i + 1] == a[i] as int);
            assert(identifier_key(b)[i + 1] == b[i] as int);
        }
        assert(a =~= b);
    }
}

proof fn lemma_components_injective(a: Seq<char>, b: Seq<char>)
    requires
        components(a) == components(b),
    ensures
        a == b,
    decreases a.len(),
{
    let c = components(a);
    if a.len() == 0 || b.len() == 0 {
        assert(components(Seq::empty()).len() == 1);
        assert(components(Seq::empty()).last().len() == 0);
        if a.len() > 0 {
            assert(b =~= Seq::empty());
            lemma_components_not_empty(a.drop_last());
        } else if b.len() > 0 {
            assert(a =~= Seq::empty());
            lemma_components_not_empty(b.drop_last());
        }
        assert(a =~= b);
    } else {
        let x = components(a.drop_last());
        let y = components(b.drop_last());
        lemma_components_not_empty(a.drop_last());
        lemma_components_not_empty(b.drop_last());
        if a.last() == '.' {
            assert(c.last().len() == 0);
            assert(x =~= c.drop_last());
            assert(y =~= c.drop_last());
        } else {
            assert(c.last().len() > 0);
            assert(a.last() == c.last().last());
            assert(b.last() == c.last().last());
            assert(x.last() =~= c.last().drop_last());
            assert(y.last() =~= c.last().drop_last());
            assert(x =~= c.drop_last().push(c.last().drop_last()));
            assert(y =~= c.drop_last().push(c.last().drop_last()));
        }
        lemma_components_injective(a.drop_last(), b.drop_last());
        assert(a =~= a.drop_last().push(a.last()));
        assert(b =~= b.drop_last().push(b.last()));
    }
}

proof fn lemma_prerelease_transitive(a: Seq<char>, b: Seq<char>, c: Seq<char>)
    requires
        prerelease_order(a, b) <= 0,
        prerelease_order(b, c) <= 0,
    ensures
        prerelease_order(a, c) <= 0,
        prerelease_order(a, c) == 0 ==> prerelease_order(a, b) == 0 && prerelease_order(b, c) == 0,
{
    if a.len() > 0 && b.len() > 0 && c.len() > 0 {
        lemma_lists_transitive(identifier_keys(a), identifier_keys(b), identifier_keys(c));
    }
}

/// Each character of `s` is a dot or stands in one of the parts between its dots.
proof fn lemma_components_cover(s: Seq<char>, i: int)
    requires
        0 <= i < s.len(),
        s[i] != '.',
    ensures
        exists|k: int, j: int|
            0 <= k < components(s).len() && 0 <= j < components(s)[k].len() && #[trigger] components(
                s,
            )[k][j] == s[i],
    decreases s.len(),
{
    let before = components(s.drop_last());
    lemma_components_not_empty(s.drop_last());
    if i == s.len() - 1 {
        let k = components(s).len() - 1;
        let j = components(s)[k].len() - 1;
        assert(components(s)[k][j] == s[i]);
    } else {
        lemma_components_cover(s.drop_last(), i);
        let (k, j) = choose|k: int, j: int|
            0 <= k < before.len() && 0 <= j < before[k].len() && #[trigger] before[k][j]
                == s.drop_last()[i];
        assert(components(s)[k][j] == s[i]);
    }
}

pub proof fn lemma_components_not_empty(s: Seq<char>)
    ensures
        components(s).len() > 0,
    decreases s.len(),
{
    if s.len() > 0 {
        lemma_components_not_empty(s.drop_last());
    }
}

/// Prereleases and build metadata hold identifier characters and dots only.
pub proof fn lemma_metadata_chars(s: Seq<char>)
    requires
        is_build_metadata(s),
    ensures
        forall|i: int| 0 <= i < s.len() ==> s[i] == '.' || is_identifier_char(#[trigger] s[i]),
{
    assert forall|i: int| 0 <= i < s.len() implies s[i] == '.' || is_identifier_char(
        #[trigger] s[i],
    ) by {
        if s[i] != '.' {
            lemma_components_cover(s, i);
            let (k, j) = choose|k: int, j: int|
                0 <= k < components(s).len() && 0 <= j < components(s)[k].len()
                    && #[trigger] components(s)[k][j] == s[i];
            assert(is_identifier(components(s)[k]));
        }
    }
}

/// A number and what follows it can be told apart.
proof fn lemma_number_ends(a: nat, x: Seq<char>, b: nat, y: Seq<char>)
    requires
        decimal(a) + x == decimal(b) + y,
        x.len() > 0 ==> !is_digit(x[0]),
        y.len() > 0 ==> !is_digit(y[0]),
    ensures
        a == b,
        x == y,
{
    lemma_decimal(a);
    lemma_decimal(b);
    let s = decimal(a) + x;
    let t = decimal(b) + y;
    let m = decimal(a).len() as int;
    let n = decimal(b).len() as int;
    if m < n {
        assert(t[m] == decimal(b)[m]);
        assert(is_digit(decimal(b)[m]));
        assert(s.len() == t.len());
        assert(s[m] == x[0]);
    } else if n < m {
        assert(s[n] == decimal(a)[n]);
        assert(is_digit(decimal(a)[n]));
        assert(s.len() == t.len());
        assert(t[n] == y[0]);
    }
    assert(decimal(a) =~= s.take(m));
    assert(decimal(b) =~= t.take(m));
    assert(x =~= s.skip(m));
    assert(y =~= t.skip(m));
    lemma_decimal_injective(a, b);
}

/// A version is written in one way only: two valid versions with the same text are the same.
/// So [`Version::parse`] gives back the version that [`Version::to_text`] wrote.
pub proof fn law_text_injective(a: VersionView, b: VersionView)
    requires
        a.valid(),
        b.valid(),
        a.text() == b.text(),
    ensures
        a == b,
{
    let a3 = a.pre_text() + a.build_text();
    let b3 = b.pre_text() + b.build_text();
    let a2 = decimal(a.patch) + a3;
    let b2 = decimal(b.patch) + b3;
    let a1 = decimal(a.minor) + seq!['.'] + a2;
    let b1 = decimal(b.minor) + seq!['.'] + b2;
    assert(a.text() =~= decimal(a.major) + (seq!['.'] + a1));
    assert(b.text() =~= decimal(b.major) + (seq!['.'] + b1));
    lemma_number_ends(a.major, seq!['.'] + a1, b.major, seq!['.'] + b1);
    assert(a1 =~= (seq!['.'] + a1).skip(1));
    assert(b1 =~= (seq!['.'] + b1).skip(1));
    assert(a1 =~= decimal(a.minor) + (seq!['.'] + a2));
    assert(b1 =~= decimal(b.minor) + (seq!['.'] + b2));
    lemma_number_ends(a.minor, seq!['.'] + a2, b.minor, seq!['.'] + b2);
    assert(a2 =~= (seq!['.'] + a2).skip(1));
    assert(b2 =~= (seq!['.'] + b2).skip(1));
    lemma_number_ends(a.patch, a3, b.patch, b3);
    lemma_metadata_chars(a.pre);
    lemma_metadata_chars(b.pre);
    let m = a.pre_text().len() as int;
    let n = b.pre_text().len() as int;
    assert(forall|i: int| 0 <= i < m ==> a.pre_text()[i] != '+') by {
        assert(forall|i: int| 0 <= i < a.pre.len() ==> a.pre[i] != '+');
    }
    assert(forall|i: int| 0 <= i < n ==> b.pre_text()[i] != '+') by {
        assert(forall|i: int| 0 <= i < b.pre.len() ==> b.pre[i] != '+');
    }
    if m < n {
        assert(b3[m] == b.pre_text()[m]);
        if m == 0 {
            assert(b3[0] == '-');
        }
        assert(a3[m] == a.build_text()[0]);
    } else if n < m {
        assert(a3[n] == a.pre_text()[n]);
        assert(b3[n] == b.build_text()[0]);
    }
    assert(a.pre_text() =~= a3.take(m));
    assert(b.pre_text() =~= b3.take(m));
    assert(a.build_text() =~= a3.skip(m));
    assert(b.build_text() =~= b3.skip(m));
    if a.pre.len() > 0 {
        assert(a.pre =~= a.pre_text().skip(1));
        assert(b.pre =~= b.pre_text().skip(1));
    } else {
        assert(a.pre =~= b.pre);
    }
    if a.build.len() > 0 {
        assert(a.build =~= a.build_text().skip(1));
        assert(b.build =~= b.build_text().skip(1));
    } else {
        assert(a.build =~= b.build);
    }
}

/// How a version is written: its three numbers with dots between them, then a hyphen and the
/// prerelease, then a plus sign and the build metadata, each where there is one.
pub proof fn law_text_of_parts(v: VersionView, r: String, given: &Version)
    requires
        call_ensures(Version::to_text, (given,), r),
        v == given@,
    ensures
        ({
            let numbers = decimal(v.major) + seq!['.'] + decimal(v.minor) + seq!['.'] + decimal(
                v.patch,
            );
            &&& v.pre.len() == 0 && v.build.len() == 0 ==> r@ == numbers
            &&& v.pre.len() > 0 && v.build.len() == 0 ==> r@ == numbers + seq!['-'] + v.pre
            &&& v.pre.len() == 0 && v.build.len() > 0 ==> r@ == numbers + seq!['+'] + v.build
            &&& v.pre.len() > 0 && v.build.len() > 0 ==> r@ == numbers + seq!['-'] + v.pre
                + seq!['+'] + v.build
        }),
{
    let numbers = decimal(v.major) + seq!['.'] + decimal(v.minor) + seq!['.'] + decimal(v.patch);
    if v.pre.len() == 0 && v.build.len() == 0 {
        assert(r@ =~= numbers);
    } else if v.build.len() == 0 {
        assert(r@ =~= numbers + seq!['-'] + v.pre);
    } else if v.pre.len() == 0 {
        assert(r@ =~= numbers + seq!['+'] + v.build);
    } else {
        assert(r@ =~= numbers + seq!['-'] + v.pre + seq!['+'] + v.build);
    }
}

/// Reading and writing undo each other: a text that can be read is what is written for the version,
/// and what is written for a version is read as that version.
pub proof fn law_read_version(text: &str, r: Option<Version>, v: VersionView)
    requires
        call_ensures(Version::parse, (text,), r),
    ensures
        r matches Some(read) ==> read@.text() == text@,
        v.valid() && text@ == v.text() ==> r is Some && r->0@ == v,
{
    if v.valid() && text@ == v.text() {
        law_text_injective(r->0@, v);
    }
}

/// Comparisons follow the numbers first, from the major to the patch, and a prerelease comes before
/// its release.
pub proof fn law_compared_versions(a: &Version, b: &Version, r: bool)
    requires
        call_ensures(Version::is_lower, (a, b), r),
    ensures
        a@.major < b@.major ==> r,
        a@.major > b@.major ==> !r,
        a@.major == b@.major && a@.minor < b@.minor ==> r,
        a@.major == b@.major && a@.minor > b@.minor ==> !r,
        a@.major == b@.major && a@.minor == b@.minor && a@.patch < b@.patch ==> r,
        a@.major == b@.major && a@.minor == b@.minor && a@.patch > b@.patch ==> !r,
        a@.major == b@.major && a@.minor == b@.minor && a@.patch == b@.patch && a@.pre.len() > 0
            && b@.pre.len() == 0 ==> r,
        a@.major == b@.major && a@.minor == b@.minor && a@.patch == b@.patch && a@.pre.len() == 0
            && b@.pre.len() > 0 ==> !r,
        a@ == b@ ==> !r,
{
    law_order_of_numbers(a@, b@);
    law_order_of_numbers(b@, a@);
    law_order_swap(a@, b@);
    law_order_same(a@, a@);
}

} // verus!
