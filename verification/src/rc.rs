//! Release candidates: their versions, their order and their tags.
use vstd::prelude::*;
use vstd::string::*;

use crate::decimal::decimal_text;
#[allow(unused_imports)]
use crate::decimal::{decimal, is_digit, law_number_of_decimal, lemma_decimal};
#[allow(unused_imports)]
use crate::order::{compare_keys, compare_lists};
use crate::semver::{Version, VersionView};
#[allow(unused_imports)]
use crate::semver::{
    components, has_leading_zero, identifier_key, identifier_keys, is_identifier,
    is_identifier_char, is_prerelease_text,
};
#[allow(unused_imports)]
use crate::tags::{is_max_rc, rc_number_of};

verus! {

/// The prerelease of the release candidate with the number `n`.
pub open spec fn rc_text(n: nat) -> Seq<char> {
    seq!['r', 'c', '.'] + decimal(n)
}

impl VersionView {
    /// The release candidate of this version with the number `n`.
    pub open spec fn candidate(self, n: nat) -> VersionView {
        VersionView { pre: rc_text(n), ..self }
    }
}

/// Appending characters other than dots extends the last part between dots.
pub proof fn lemma_components_append(s: Seq<char>, t: Seq<char>)
    requires
        components(s).len() > 0,
        forall|i: int| 0 <= i < t.len() ==> t[i] != '.',
    ensures
        components(s + t) == components(s).drop_last().push(components(s).last() + t),
    decreases t.len(),
{
    if t.len() == 0 {
        assert(s + t =~= s);
        assert(components(s).last() + t =~= components(s).last());
        assert(components(s) =~= components(s).drop_last().push(components(s).last() + t));
    } else {
        let u = t.drop_last();
        lemma_components_append(s, u);
        assert((s + t).drop_last() =~= s + u);
        assert((s + t).last() == t.last());
        let before = components(s + u);
        assert(before.drop_last() =~= components(s).drop_last());
        assert(before.last() == components(s).last() + u);
        assert((components(s).last() + u).push(t.last()) =~= components(s).last() + t);
    }
}

/// A release candidate's prerelease has two identifiers: `rc` and the number.
pub proof fn lemma_rc_components(n: nat)
    ensures
        components(rc_text(n)) == seq![seq!['r', 'c'], decimal(n)],
{
    let head = seq!['r', 'c', '.'];
    assert(components(head) =~= seq![seq!['r', 'c'], Seq::<char>::empty()]) by {
        let a = Seq::<char>::empty();
        let b = seq!['r'];
        let c = seq!['r', 'c'];
        assert(components(a) == seq![Seq::<char>::empty()]);
        assert(b.drop_last() =~= a);
        assert(components(a).last().push('r') =~= seq!['r']);
        assert(components(b) =~= seq![seq!['r']]);
        assert(c.drop_last() =~= b);
        assert(components(b).last().push('c') =~= seq!['r', 'c']);
        assert(components(c) =~= seq![seq!['r', 'c']]);
        assert(head.drop_last() =~= c);
    }
    lemma_decimal(n);
    assert forall|i: int| 0 <= i < decimal(n).len() implies decimal(n)[i] != '.' by {
        assert(is_digit(decimal(n)[i]));
    }
    lemma_components_append(head, decimal(n));
    assert(Seq::<char>::empty() + decimal(n) =~= decimal(n));
    assert(components(rc_text(n)) =~= seq![seq!['r', 'c'], decimal(n)]);
}

/// The prerelease of a release candidate is well formed.
pub proof fn lemma_rc_valid(n: nat)
    ensures
        is_prerelease_text(rc_text(n)),
{
    lemma_rc_components(n);
    lemma_decimal(n);
    let c = components(rc_text(n));
    assert(is_identifier(seq!['r', 'c']));
    assert(is_identifier(decimal(n))) by {
        assert forall|i: int| 0 <= i < decimal(n).len() implies is_identifier_char(
            #[trigger] decimal(n)[i],
        ) by {
            assert(is_digit(decimal(n)[i]));
        }
    }
    assert(!has_leading_zero(seq!['r', 'c'])) by {
        assert(!is_digit(seq!['r', 'c'][0]));
    }
    assert(!has_leading_zero(decimal(n)));
    assert(c[0] == seq!['r', 'c'] && c[1] == decimal(n));
}

/// The release candidate of `target_stable` with the number `rc_num`.
pub fn release_candidate(target_stable: &Version, rc_num: u64) -> (r: Version)
    ensures
        r@ == target_stable@.candidate(rc_num as nat),
{
    let mut pre = "rc.".to_owned();
    pre.append(decimal_text(rc_num).as_str());
    proof {
        reveal_strlit("rc.");
        assert(pre@ =~= rc_text(rc_num as nat));
        lemma_rc_valid(rc_num as nat);
    }
    target_stable.with_prerelease(pre.as_str()).unwrap()
}

/// A release candidate comes before the version that it is a candidate for.
pub proof fn law_candidate_below_target(target: VersionView, n: nat)
    requires
        target.is_stable(),
    ensures
        target.candidate(n).lower(target),
{
}

/// A release candidate comes after every version whose numbers are lower.
pub proof fn law_candidate_above_base(base: VersionView, target: VersionView, n: nat)
    requires
        base.number_order(target) < 0,
    ensures
        base.lower(target.candidate(n)),
{
}

/// A release candidate with a higher number comes later.
pub proof fn law_candidates_ordered(target: VersionView, m: nat, n: nat)
    requires
        m < n,
    ensures
        target.candidate(m).lower(target.candidate(n)),
{
    lemma_rc_components(m);
    lemma_rc_components(n);
    lemma_decimal(m);
    lemma_decimal(n);
    let a = identifier_keys(rc_text(m));
    let b = identifier_keys(rc_text(n));
    let rc = seq!['r', 'c'];
    assert(a[0] == identifier_key(rc) && b[0] == identifier_key(rc));
    crate::order::lemma_keys_same(a[0], b[0]);
    assert(a[1] == identifier_key(decimal(m)));
    assert(b[1] == identifier_key(decimal(n)));
    assert(a.skip(1)[0] == a[1] && b.skip(1)[0] == b[1]);
    assert(a[1][0] == 0 && b[1][0] == 0);
    assert(a[1].skip(1)[0] == m && b[1].skip(1)[0] == n);
    assert(compare_keys(a[1].skip(1), b[1].skip(1)) == -1);
    assert(compare_keys(a[1], b[1]) == -1);
    assert(compare_lists(a.skip(1), b.skip(1)) == -1);
}

/// The text of a release candidate of a version with neither prerelease nor build metadata.
pub proof fn lemma_candidate_text(target: VersionView, n: nat)
    requires
        target.is_stable(),
        target.build.len() == 0,
    ensures
        target.candidate(n).text() == target.text() + "-rc."@ + decimal(n),
{
    reveal_strlit("-rc.");
    assert("-rc."@ =~= seq!['-', 'r', 'c', '.']);
    assert(target.candidate(n).text() =~= target.text() + "-rc."@ + decimal(n));
}

/// The number of a release candidate read back from its tag is the number. The tag puts the
/// version between `before` and `after`.
pub proof fn law_rc_tag_number(
    target: VersionView,
    n: nat,
    before: Seq<char>,
    after: Seq<char>,
)
    requires
        target.is_stable(),
        target.build.len() == 0,
        n <= u64::MAX,
    ensures
        rc_number_of(
            before + target.candidate(n).text() + after,
            before + target.text() + "-rc."@,
            after,
        ) == Some(n),
{
    lemma_candidate_text(target, n);
    law_number_of_decimal(n, u64::MAX as nat);
    let tag = before + target.candidate(n).text() + after;
    let prefix = before + target.text() + "-rc."@;
    assert(tag =~= prefix + decimal(n) + after);
    assert(tag.subrange(prefix.len() as int, tag.len() - after.len()) =~= decimal(n));
}

/// The release candidate with the next number has a tag that is not among the accepted tags.
pub proof fn law_next_candidate_is_new(
    tags: Seq<String>,
    accepted: Seq<bool>,
    target: VersionView,
    highest: nat,
    before: Seq<char>,
    after: Seq<char>,
)
    requires
        target.is_stable(),
        target.build.len() == 0,
        highest < u64::MAX,
        is_max_rc(tags, accepted, before + target.text() + "-rc."@, after, highest),
    ensures
        forall|k: int|
            0 <= k < tags.len() && accepted[k] ==> (#[trigger] tags[k])@ != before
                + target.candidate(highest + 1).text() + after,
{
    law_rc_tag_number(target, highest + 1, before, after);
}

/// A release candidate has the numbers of its version, and its prerelease is the one for its number.
pub proof fn law_given_candidate(target_stable: &Version, rc_num: u64, r: Version)
    requires
        call_ensures(release_candidate, (target_stable, rc_num), r),
    ensures
        r@.major == target_stable@.major,
        r@.minor == target_stable@.minor,
        r@.patch == target_stable@.patch,
        r@.build == target_stable@.build,
        r@.pre == seq!['r', 'c', '.'] + decimal(rc_num as nat),
        target_stable@.pre.len() == 0 ==> r@.lower(target_stable@),
{
    if target_stable@.pre.len() == 0 {
        law_candidate_below_target(target_stable@, rc_num as nat);
    }
    assert(r@.pre =~= seq!['r', 'c', '.'] + decimal(rc_num as nat));
}

} // verus!
