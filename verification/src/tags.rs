//! Versions and release candidate numbers that git tags stand for.
use vstd::prelude::*;
use vstd::string::*;

use crate::decimal::parse_u64;
#[allow(unused_imports)]
use crate::decimal::{decimal, law_number_of_decimal, number_of};
use crate::semver::Version;
#[allow(unused_imports)]
use crate::semver::{law_order_same, law_order_swap, law_order_transitive, law_text_injective, VersionView};
use crate::text::{split_once, strip_prefix, strip_suffix};
#[allow(unused_imports)]
use crate::text::{
    answers, law_cut_at_the_first_place, law_split_at_first, occurs_at, split_at_first,
};

verus! {

/// `tag` is `text` between `prefix` and `suffix`.
pub open spec fn is_tag_of(
    tag: Seq<char>,
    prefix: Seq<char>,
    text: Seq<char>,
    suffix: Seq<char>,
) -> bool {
    tag == prefix + text + suffix
}

/// `tag` is the tag of the stable version `v`.
pub open spec fn is_stable_tag(
    tag: Seq<char>,
    prefix: Seq<char>,
    suffix: Seq<char>,
    v: VersionView,
) -> bool {
    v.valid() && v.is_stable() && is_tag_of(tag, prefix, v.text(), suffix)
}

/// What stands between `prefix` and `suffix` in `tag`.
fn inner_text<'a>(tag: &'a str, prefix: &str, suffix: &str) -> (r: Option<&'a str>)
    ensures
        r matches Some(text) ==> is_tag_of(tag@, prefix@, text@, suffix@),
        r is None ==> forall|text: Seq<char>| !is_tag_of(tag@, prefix@, text, suffix@),
{
    match strip_prefix(tag, prefix) {
        Some(rest) => match strip_suffix(rest, suffix) {
            Some(text) => {
                assert(tag@ =~= prefix@ + text@ + suffix@);
                Some(text)
            },
            None => {
                assert forall|text: Seq<char>| !is_tag_of(tag@, prefix@, text, suffix@) by {
                    if is_tag_of(tag@, prefix@, text, suffix@) {
                        assert(rest@ =~= tag@.skip(prefix@.len() as int));
                        assert(text + suffix@ =~= tag@.skip(prefix@.len() as int));
                        assert(suffix@ =~= rest@.subrange(
                            rest@.len() - suffix@.len(),
                            rest@.len() as int,
                        ));
                    }
                }
                None
            },
        },
        None => {
            assert forall|text: Seq<char>| !is_tag_of(tag@, prefix@, text, suffix@) by {
                if is_tag_of(tag@, prefix@, text, suffix@) {
                    assert(prefix@ =~= tag@.subrange(0, prefix@.len() as int));
                }
            }
            None
        },
    }
}

/// What stands between two given texts is unique.
proof fn lemma_inner_text_unique(
    tag: Seq<char>,
    prefix: Seq<char>,
    a: Seq<char>,
    b: Seq<char>,
    suffix: Seq<char>,
)
    requires
        is_tag_of(tag, prefix, a, suffix),
        is_tag_of(tag, prefix, b, suffix),
    ensures
        a == b,
{
    assert(a =~= tag.subrange(prefix.len() as int, tag.len() - suffix.len()));
    assert(b =~= tag.subrange(prefix.len() as int, tag.len() - suffix.len()));
}

/// Parses a version from a tag in the form `{prefix}{version}{suffix}`.
pub fn parse_version_from_tag(tag: &str, prefix: &str, suffix: &str) -> (r: Option<Version>)
    ensures
        r matches Some(v) ==> v@.valid() && is_tag_of(tag@, prefix@, v@.text(), suffix@),
        r is None ==> forall|v: VersionView|
            #![trigger v.valid()]
            v.valid() ==> !is_tag_of(tag@, prefix@, v.text(), suffix@),
{
    match inner_text(tag, prefix, suffix) {
        Some(text) => {
            let r = Version::parse(text);
            assert forall|v: VersionView| #[trigger] v.valid() && r is None implies !is_tag_of(
                tag@,
                prefix@,
                v.text(),
                suffix@,
            ) by {
                if is_tag_of(tag@, prefix@, v.text(), suffix@) {
                    lemma_inner_text_unique(tag@, prefix@, text@, v.text(), suffix@);
                }
            }
            r
        },
        None => None,
    }
}

/// The version of a tag read back from the tag is the version: a tag stands for one version at
/// most.
pub proof fn law_tag_version_unique(
    tag: Seq<char>,
    prefix: Seq<char>,
    suffix: Seq<char>,
    a: VersionView,
    b: VersionView,
)
    requires
        a.valid(),
        b.valid(),
        is_tag_of(tag, prefix, a.text(), suffix),
        is_tag_of(tag, prefix, b.text(), suffix),
    ensures
        a == b,
{
    lemma_inner_text_unique(tag, prefix, a.text(), b.text(), suffix);
    law_text_injective(a, b);
}

/// The tag of a prerelease is no stable tag.
pub proof fn law_prerelease_tag_is_not_stable(
    tag: Seq<char>,
    prefix: Seq<char>,
    suffix: Seq<char>,
    prerelease: VersionView,
    v: VersionView,
)
    requires
        prerelease.valid(),
        !prerelease.is_stable(),
        is_tag_of(tag, prefix, prerelease.text(), suffix),
    ensures
        !is_stable_tag(tag, prefix, suffix, v),
{
    if is_stable_tag(tag, prefix, suffix, v) {
        law_tag_version_unique(tag, prefix, suffix, prerelease, v);
    }
}

/// The tags of different packages are different, where neither package's prefix starts with that
/// of the other.
pub proof fn law_tags_of_packages_differ(
    a_prefix: Seq<char>,
    a_text: Seq<char>,
    a_suffix: Seq<char>,
    b_prefix: Seq<char>,
    b_text: Seq<char>,
    b_suffix: Seq<char>,
    tag: Seq<char>,
)
    requires
        !a_prefix.is_prefix_of(b_prefix),
        !b_prefix.is_prefix_of(a_prefix),
    ensures
        !(is_tag_of(tag, a_prefix, a_text, a_suffix) && is_tag_of(
            tag,
            b_prefix,
            b_text,
            b_suffix,
        )),
{
    if is_tag_of(tag, a_prefix, a_text, a_suffix) && is_tag_of(tag, b_prefix, b_text, b_suffix) {
        assert(a_prefix =~= tag.take(a_prefix.len() as int));
        assert(b_prefix =~= tag.take(b_prefix.len() as int));
        if a_prefix.len() <= b_prefix.len() {
            assert(a_prefix =~= b_prefix.subrange(0, a_prefix.len() as int));
        } else {
            assert(b_prefix =~= a_prefix.subrange(0, b_prefix.len() as int));
        }
    }
}

/// `accepted` is what `tag_filter` said of each of `tags`.
pub open spec fn filtered<F: Fn(&str) -> bool>(
    tag_filter: F,
    tags: Seq<String>,
    accepted: Seq<bool>,
) -> bool {
    &&& accepted.len() == tags.len()
    &&& forall|i: int| 0 <= i < tags.len() ==> answers(tag_filter, tags[i]@, #[trigger] accepted[i])
}

/// `best` is the highest stable version among the accepted tags.
pub open spec fn is_best_stable(
    tags: Seq<String>,
    accepted: Seq<bool>,
    prefix: Seq<char>,
    suffix: Seq<char>,
    best: Option<VersionView>,
) -> bool {
    match best {
        Some(v) => {
            &&& exists|k: int|
                0 <= k < tags.len() && accepted[k] && is_stable_tag(
                    (#[trigger] tags[k])@,
                    prefix,
                    suffix,
                    v,
                )
            &&& forall|k: int, w: VersionView|
                0 <= k < tags.len() && accepted[k] && #[trigger] is_stable_tag(
                    tags[k]@,
                    prefix,
                    suffix,
                    w,
                ) ==> !v.lower(w)
        },
        None => forall|k: int, w: VersionView|
            0 <= k < tags.len() && accepted[k] ==> !#[trigger] is_stable_tag(
                tags[k]@,
                prefix,
                suffix,
                w,
            ),
    }
}

/// The version that a result may hold.
pub open spec fn optional_version(v: Option<Version>) -> Option<VersionView> {
    match v {
        Some(v) => Some(v@),
        None => None,
    }
}

/// The highest stable version among those of `tags` that `tag_filter` accepts, which are in the
/// form `{prefix}{version}{suffix}`.
pub fn best_stable_version_from_tags<F: Fn(&str) -> bool>(
    tags: &Vec<String>,
    prefix: &str,
    suffix: &str,
    tag_filter: F,
) -> (r: Option<Version>)
    requires
        forall|s: &str| call_requires(tag_filter, (s,)),
    ensures
        exists|accepted: Seq<bool>|
            #![trigger filtered(tag_filter, tags@, accepted)]
            filtered(tag_filter, tags@, accepted) && is_best_stable(
                tags@,
                accepted,
                prefix@,
                suffix@,
                optional_version(r),
            ),
{
    let mut best: Option<Version> = None;
    let ghost mut accepted: Seq<bool> = Seq::empty();
    for i in 0..tags.len()
        invariant
            forall|s: &str| call_requires(tag_filter, (s,)),
            accepted.len() == i,
            filtered(tag_filter, tags@.take(i as int), accepted),
            is_best_stable(tags@.take(i as int), accepted, prefix@, suffix@, optional_version(best)),
    {
        let tag = tags[i].as_str();
        let keep = tag_filter(tag);
        let ghost before = accepted;
        let ghost seen = tags@.take(i as int);
        let ghost now = tags@.take(i + 1);
        let ghost old_best = optional_version(best);
        proof {
            accepted = accepted.push(keep);
            assert(answers(tag_filter, tags@[i as int]@, keep));
            assert(now =~= seen.push(tags@[i as int]));
            assert forall|k: int| 0 <= k < now.len() implies answers(
                tag_filter,
                now[k]@,
                #[trigger] accepted[k],
            ) by {
                if k < i {
                    assert(answers(tag_filter, seen[k]@, before[k]));
                }
            }
        }
        if keep {
            if let Some(v) = parse_version_from_tag(tag, prefix, suffix) {
                if !v.is_prerelease() {
                    let higher = match &best {
                        Some(b) => !v.is_lower(b),
                        None => true,
                    };
                    proof {
                        lemma_best_step(seen, before, prefix@, suffix@, old_best, tags@[i as int], v@);
                    }
                    if higher {
                        best = Some(v);
                    }
                } else {
                    proof {
                        assert forall|w: VersionView| !is_stable_tag(tag@, prefix@, suffix@, w) by {
                            if is_stable_tag(tag@, prefix@, suffix@, w) {
                                law_tag_version_unique(tag@, prefix@, suffix@, v@, w);
                            }
                        }
                        lemma_best_skip(seen, before, prefix@, suffix@, old_best, tags@[i as int], true);
                    }
                }
            } else {
                proof {
                    lemma_best_skip(seen, before, prefix@, suffix@, old_best, tags@[i as int], true);
                }
            }
        } else {
            proof {
                lemma_best_skip(seen, before, prefix@, suffix@, old_best, tags@[i as int], false);
            }
        }
    }
    assert(tags@.take(tags@.len() as int) =~= tags@);
    best
}

/// A tag that is not accepted, or not that of a stable version, does not change which version is
/// the best.
proof fn lemma_best_skip(
    seen: Seq<String>,
    accepted: Seq<bool>,
    prefix: Seq<char>,
    suffix: Seq<char>,
    best: Option<VersionView>,
    tag: String,
    keep: bool,
)
    requires
        accepted.len() == seen.len(),
        is_best_stable(seen, accepted, prefix, suffix, best),
        keep ==> forall|w: VersionView| !is_stable_tag(tag@, prefix, suffix, w),
    ensures
        is_best_stable(seen.push(tag), accepted.push(keep), prefix, suffix, best),
{
    let now = seen.push(tag);
    let marks = accepted.push(keep);
    assert forall|k: int, w: VersionView|
        0 <= k < now.len() && marks[k] && #[trigger] is_stable_tag(
            now[k]@,
            prefix,
            suffix,
            w,
        ) implies k < seen.len() && accepted[k] && is_stable_tag(seen[k]@, prefix, suffix, w) by {}
    if let Some(v) = best {
        let k = choose|k: int|
            0 <= k < seen.len() && accepted[k] && is_stable_tag(
                (#[trigger] seen[k])@,
                prefix,
                suffix,
                v,
            );
        assert(is_stable_tag(now[k]@, prefix, suffix, v) && marks[k]);
    }
}

/// With the accepted tag of a stable version, the best is the higher of that version and the
/// best before.
proof fn lemma_best_step(
    seen: Seq<String>,
    accepted: Seq<bool>,
    prefix: Seq<char>,
    suffix: Seq<char>,
    best: Option<VersionView>,
    tag: String,
    v: VersionView,
)
    requires
        accepted.len() == seen.len(),
        is_best_stable(seen, accepted, prefix, suffix, best),
        is_stable_tag(tag@, prefix, suffix, v),
    ensures
        is_best_stable(
            seen.push(tag),
            accepted.push(true),
            prefix,
            suffix,
            match best {
                Some(b) => if v.lower(b) {
                    Some(b)
                } else {
                    Some(v)
                },
                None => Some(v),
            },
        ),
{
    let now = seen.push(tag);
    let marks = accepted.push(true);
    let n = seen.len() as int;
    assert(is_stable_tag(now[n]@, prefix, suffix, v) && marks[n]);
    assert forall|k: int, w: VersionView|
        0 <= k < now.len() && marks[k] && #[trigger] is_stable_tag(
            now[k]@,
            prefix,
            suffix,
            w,
        ) implies (k == n && w == v) || (k < n && best is Some && !best->0.lower(w)) by {
        if k == n {
            law_tag_version_unique(tag@, prefix, suffix, v, w);
        } else {
            assert(is_stable_tag(seen[k]@, prefix, suffix, w) && accepted[k]);
        }
    }
    law_order_same(v, v);
    if let Some(b) = best {
        let k = choose|k: int|
            0 <= k < seen.len() && accepted[k] && is_stable_tag(
                (#[trigger] seen[k])@,
                prefix,
                suffix,
                b,
            );
        assert(is_stable_tag(now[k]@, prefix, suffix, b) && marks[k]);
        law_order_swap(v, b);
        if v.lower(b) {
            assert(!b.lower(v));
        } else {
            assert forall|w: VersionView| !b.lower(w) implies !v.lower(w) by {
                law_order_swap(b, w);
                law_order_swap(v, w);
                if v.lower(w) {
                    law_order_transitive(b, v, w);
                }
            }
        }
    }
}

/// There is one best version at most.
pub proof fn law_best_stable_unique(
    tags: Seq<String>,
    accepted: Seq<bool>,
    prefix: Seq<char>,
    suffix: Seq<char>,
    a: Option<VersionView>,
    b: Option<VersionView>,
)
    requires
        is_best_stable(tags, accepted, prefix, suffix, a),
        is_best_stable(tags, accepted, prefix, suffix, b),
    ensures
        a == b,
{
    if let Some(v) = a {
        let k = choose|k: int|
            0 <= k < tags.len() && accepted[k] && is_stable_tag(
                (#[trigger] tags[k])@,
                prefix,
                suffix,
                v,
            );
        assert(is_stable_tag(tags[k]@, prefix, suffix, v));
    }
    if let Some(w) = b {
        let k = choose|k: int|
            0 <= k < tags.len() && accepted[k] && is_stable_tag(
                (#[trigger] tags[k])@,
                prefix,
                suffix,
                w,
            );
        assert(is_stable_tag(tags[k]@, prefix, suffix, w));
    }
    if a is Some && b is Some {
        law_order_swap(a->0, b->0);
        law_order_same(a->0, b->0);
    }
}

/// What stands between `prefix` and `suffix` in `tag`, where it starts and ends with them.
pub open spec fn inside(tag: Seq<char>, prefix: Seq<char>, suffix: Seq<char>) -> Option<Seq<char>> {
    let text = tag.subrange(prefix.len() as int, tag.len() - suffix.len());
    if prefix.len() + suffix.len() <= tag.len() && is_tag_of(tag, prefix, text, suffix) {
        Some(text)
    } else {
        None
    }
}

/// The release candidate number of a tag in the form `{prefix}{number}{suffix}`.
pub open spec fn rc_number_of(tag: Seq<char>, prefix: Seq<char>, suffix: Seq<char>) -> Option<nat> {
    match inside(tag, prefix, suffix) {
        Some(text) => number_of(text, u64::MAX as nat),
        None => None,
    }
}

/// Parses a release candidate number from a tag in the form `{prefix}{rc_number}{suffix}`.
pub fn parse_rc_number_from_tag(tag: &str, prefix: &str, suffix: &str) -> (r: Option<u64>)
    ensures
        r matches Some(n) ==> rc_number_of(tag@, prefix@, suffix@) == Some(n as nat),
        r is None ==> rc_number_of(tag@, prefix@, suffix@) is None,
{
    match inner_text(tag, prefix, suffix) {
        Some(text) => {
            assert(text@ =~= tag@.subrange(prefix@.len() as int, tag@.len() - suffix@.len()));
            parse_u64(text)
        },
        None => None,
    }
}

/// `n` is the highest release candidate number among the accepted tags, zero where there is
/// none.
pub open spec fn is_max_rc(
    tags: Seq<String>,
    accepted: Seq<bool>,
    prefix: Seq<char>,
    suffix: Seq<char>,
    n: nat,
) -> bool {
    &&& forall|k: int|
        0 <= k < tags.len() && accepted[k] ==> match rc_number_of(
            (#[trigger] tags[k])@,
            prefix,
            suffix,
        ) {
            Some(m) => m <= n,
            None => true,
        }
    &&& n > 0 ==> exists|k: int|
        0 <= k < tags.len() && accepted[k] && rc_number_of((#[trigger] tags[k])@, prefix, suffix)
            == Some(n)
}

/// The highest release candidate number among those of `tags` that `tag_filter` accepts, which
/// are in the form `{prefix}{number}{suffix}`; zero where there is none.
pub fn max_rc_number_from_tags<F: Fn(&str) -> bool>(
    tags: &Vec<String>,
    rc_tag_prefix: &str,
    rc_tag_suffix: &str,
    tag_filter: F,
) -> (r: u64)
    requires
        forall|s: &str| call_requires(tag_filter, (s,)),
    ensures
        exists|accepted: Seq<bool>|
            #![trigger filtered(tag_filter, tags@, accepted)]
            filtered(tag_filter, tags@, accepted) && is_max_rc(
                tags@,
                accepted,
                rc_tag_prefix@,
                rc_tag_suffix@,
                r as nat,
            ),
{
    let mut max: u64 = 0;
    let ghost mut accepted: Seq<bool> = Seq::empty();
    for i in 0..tags.len()
        invariant
            forall|s: &str| call_requires(tag_filter, (s,)),
            accepted.len() == i,
            filtered(tag_filter, tags@.take(i as int), accepted),
            is_max_rc(tags@.take(i as int), accepted, rc_tag_prefix@, rc_tag_suffix@, max as nat),
    {
        let tag = tags[i].as_str();
        let keep = tag_filter(tag);
        let ghost before = accepted;
        let ghost old_max = max;
        let ghost seen = tags@.take(i as int);
        let ghost now = tags@.take(i + 1);
        proof {
            accepted = accepted.push(keep);
            assert(answers(tag_filter, tags@[i as int]@, keep));
            assert(now =~= seen.push(tags@[i as int]));
            assert forall|k: int| 0 <= k < now.len() implies answers(
                tag_filter,
                now[k]@,
                #[trigger] accepted[k],
            ) by {
                if k < i {
                    assert(answers(tag_filter, seen[k]@, before[k]));
                }
            }
        }
        if keep {
            if let Some(n) = parse_rc_number_from_tag(tag, rc_tag_prefix, rc_tag_suffix) {
                if n > max {
                    max = n;
                }
            }
        }
        proof {
            assert forall|k: int| 0 <= k < now.len() && accepted[k] implies match rc_number_of(
                (#[trigger] now[k])@,
                rc_tag_prefix@,
                rc_tag_suffix@,
            ) {
                Some(m) => m <= max,
                None => true,
            } by {
                if k < i {
                    assert(now[k] == seen[k] && before[k]);
                }
            }
            if max > 0 {
                if max == old_max {
                    let k = choose|k: int|
                        0 <= k < seen.len() && before[k] && rc_number_of(
                            (#[trigger] seen[k])@,
                            rc_tag_prefix@,
                            rc_tag_suffix@,
                        ) == Some(max as nat);
                    assert(now[k] == seen[k] && accepted[k]);
                } else {
                    assert(now[i as int] == tags@[i as int] && accepted[i as int]);
                }
            }
        }
    }
    assert(tags@.take(tags@.len() as int) =~= tags@);
    max
}

/// Stands for the version in the tag that shows how a package's tags are formed.
pub const VERSION_PLACEHOLDER: &'static str = "0.0.0-placeholder";

/// Stands for the number in the tag that shows how release candidate tags are formed.
pub const RC_PLACEHOLDER: &'static str = "__RCNUM__";

/// The last stable tag of a package.
#[derive(Debug)]
pub struct StableTagInfo {
    /// The stable version that the tag stands for.
    pub version: Version,
    /// The commit that the tag points to.
    pub commit: String,
}

/// Whether a tag counts: it can be reached from the current commit. `is_ancestor` says whether
/// the commit of the tag is an ancestor of the current one, where the tag has a commit. Without
/// knowledge of the current commit, every tag counts.
pub fn is_tag_reachable(is_current_commit_known: bool, is_ancestor: Option<bool>) -> (r: bool)
    ensures
        r == (is_current_commit_known ==> is_ancestor == Some(true)),
{
    !is_current_commit_known || matches!(is_ancestor, Some(true))
}

/// `r` is the tag of the version `best`, with the commit that `tag_commit` gave for it; there is
/// none without a version or a commit.
pub open spec fn is_tag_info<G: Fn(&Version) -> Option<String>>(
    tag_commit: G,
    best: Option<VersionView>,
    r: Option<StableTagInfo>,
) -> bool {
    match best {
        Some(v) => exists|w: &Version, commit: Option<String>|
            {
                &&& w@ == v
                &&& #[trigger] call_ensures(tag_commit, (w,), commit)
                &&& match commit {
                    Some(c) => r matches Some(info) && info.version@ == v && info.commit == c,
                    None => r is None,
                }
            },
        None => r is None,
    }
}

/// `r` is the tag of the highest stable version among those of `tags` that `tag_filter` accepts,
/// with the commit that `tag_commit` gave for it.
pub open spec fn is_last_stable_tag<F: Fn(&str) -> bool, G: Fn(&Version) -> Option<String>>(
    tag_filter: F,
    tag_commit: G,
    tags: Seq<String>,
    prefix: Seq<char>,
    suffix: Seq<char>,
    r: Option<StableTagInfo>,
) -> bool {
    exists|accepted: Seq<bool>, best: Option<VersionView>|
        filtered(tag_filter, tags, accepted) && #[trigger] is_best_stable(
            tags,
            accepted,
            prefix,
            suffix,
            best,
        ) && is_tag_info(tag_commit, best, r)
}

/// The last stable tag of a package. `rendered` is the package's tag for
/// [`VERSION_PLACEHOLDER`], where it could be rendered; `tag_filter` accepts the tags that can be
/// reached from the current commit, which may not be known; `tag_commit` gives the commit of the
/// package's tag for a version.
///
/// There is none without tags, without a rendered tag that shows where the version stands in
/// it, or without a current commit. Otherwise it is the one of the highest stable version among
/// the accepted tags of the package, where that has a commit.
pub fn find_last_stable_tag<F: Fn(&str) -> bool, G: Fn(&Version) -> Option<String>>(
    all_tags: &Vec<String>,
    rendered: Option<&str>,
    is_current_commit_known: bool,
    tag_filter: F,
    tag_commit: G,
) -> (r: Option<StableTagInfo>)
    requires
        forall|s: &str| call_requires(tag_filter, (s,)),
        forall|v: &Version| call_requires(tag_commit, (v,)),
    ensures
        stable_pattern(all_tags@, rendered, is_current_commit_known) is None ==> r is None,
        stable_pattern(all_tags@, rendered, is_current_commit_known) matches Some(pattern)
            ==> is_last_stable_tag(tag_filter, tag_commit, all_tags@, pattern.0, pattern.1, r),
{
    if all_tags.is_empty() {
        return None;
    }
    let (prefix, suffix) = match rendered {
        Some(rendered) => match split_once(rendered, VERSION_PLACEHOLDER) {
            Some(pattern) => pattern,
            None => {
                return None;
            },
        },
        None => {
            return None;
        },
    };
    if !is_current_commit_known {
        return None;
    }
    let found = best_stable_version_from_tags(all_tags, prefix, suffix, tag_filter);
    let ghost best = optional_version(found);
    let r = match found {
        Some(version) => match tag_commit(&version) {
            Some(commit) => Some(StableTagInfo { version, commit }),
            None => None,
        },
        None => None,
    };
    proof {
        assert(stable_pattern(all_tags@, rendered, is_current_commit_known) == Some(
            (prefix@, suffix@),
        ));
        let accepted = choose|accepted: Seq<bool>|
            #![trigger filtered(tag_filter, all_tags@, accepted)]
            filtered(tag_filter, all_tags@, accepted) && is_best_stable(
                all_tags@,
                accepted,
                prefix@,
                suffix@,
                best,
            );
        assert(is_best_stable(all_tags@, accepted, prefix@, suffix@, best));
        assert(is_tag_info(tag_commit, best, r));
    }
    r
}

/// What stands before and after the version in a package's tags, where the last stable version
/// is to be looked for.
pub open spec fn stable_pattern(
    all_tags: Seq<String>,
    rendered: Option<&str>,
    is_current_commit_known: bool,
) -> Option<(Seq<char>, Seq<char>)> {
    match rendered {
        Some(rendered) if all_tags.len() > 0 && is_current_commit_known => split_at_first(
            rendered@,
            VERSION_PLACEHOLDER@,
        ),
        _ => None,
    }
}

/// The version text whose tag shows how the release candidate tags of `target_stable` are
/// formed.
pub fn rc_version_with_placeholder(target_stable: &Version) -> (r: String)
    ensures
        r@ == target_stable@.text() + "-rc."@ + RC_PLACEHOLDER@,
{
    let mut out = target_stable.to_text();
    out.append("-rc.");
    out.append(RC_PLACEHOLDER);
    out
}

/// What stands before and after the number in the release candidate tags of a version.
pub open spec fn rc_pattern(rendered: Option<&str>) -> Option<(Seq<char>, Seq<char>)> {
    match rendered {
        Some(rendered) => split_at_first(rendered@, RC_PLACEHOLDER@),
        None => None,
    }
}

/// A number is left for the next release candidate: no tag that `tag_filter` may accept has the
/// last one.
pub open spec fn is_rc_number_left<F: Fn(&str) -> bool>(
    tag_filter: F,
    all_tags: Seq<String>,
    rendered: Option<&str>,
) -> bool {
    rc_pattern(rendered) matches Some((prefix, suffix)) ==> forall|k: int|
        0 <= k < all_tags.len() && answers(tag_filter, all_tags[k]@, true) ==> rc_number_of(
            (#[trigger] all_tags[k])@,
            prefix,
            suffix,
        ) != Some(u64::MAX as nat)
}

/// `r` is one more than the highest number among those of `tags` that `tag_filter` accepts.
pub open spec fn is_next_rc<F: Fn(&str) -> bool>(
    tag_filter: F,
    tags: Seq<String>,
    prefix: Seq<char>,
    suffix: Seq<char>,
    r: nat,
) -> bool {
    r >= 1 && exists|accepted: Seq<bool>|
        #![trigger filtered(tag_filter, tags, accepted)]
        filtered(tag_filter, tags, accepted) && is_max_rc(
            tags,
            accepted,
            prefix,
            suffix,
            (r - 1) as nat,
        )
}

/// The next release candidate number for a version: one more than the highest among the
/// accepted tags, one where there is none. `rendered` is the package's tag for
/// [`rc_version_with_placeholder`], where it could be rendered.
pub fn find_next_rc_number<F: Fn(&str) -> bool>(
    all_tags: &Vec<String>,
    rendered: Option<&str>,
    tag_filter: F,
) -> (r: u64)
    requires
        forall|s: &str| call_requires(tag_filter, (s,)),
        is_rc_number_left(tag_filter, all_tags@, rendered),
    ensures
        rc_pattern(rendered) is None ==> r == 1,
        rc_pattern(rendered) matches Some(pattern) ==> is_next_rc(
            tag_filter,
            all_tags@,
            pattern.0,
            pattern.1,
            r as nat,
        ),
{
    let (prefix, suffix) = match rendered {
        Some(rendered) => match split_once(rendered, RC_PLACEHOLDER) {
            Some(pattern) => pattern,
            None => {
                return 1;
            },
        },
        None => {
            return 1;
        },
    };
    let max_rc: u64 = max_rc_number_from_tags(all_tags, prefix, suffix, tag_filter);
    proof {
        assert(rc_pattern(rendered) == Some((prefix@, suffix@)));
        let accepted = choose|accepted: Seq<bool>|
            #![trigger filtered(tag_filter, all_tags@, accepted)]
            filtered(tag_filter, all_tags@, accepted) && is_max_rc(
                all_tags@,
                accepted,
                prefix@,
                suffix@,
                max_rc as nat,
            );
        if max_rc > 0 {
            let k = choose|k: int|
                0 <= k < all_tags@.len() && accepted[k] && rc_number_of(
                    (#[trigger] all_tags@[k])@,
                    prefix@,
                    suffix@,
                ) == Some(max_rc as nat);
            assert(answers(tag_filter, all_tags@[k]@, accepted[k]));
            assert(rc_number_of(all_tags@[k]@, prefix@, suffix@) != Some(u64::MAX as nat));
        }
        assert(filtered(tag_filter, all_tags@, accepted));
    }
    max_rc + 1
}

/// The next number is one number, where `tag_filter` does not answer one way and then the other.
pub proof fn law_next_rc_unique<F: Fn(&str) -> bool>(
    tag_filter: F,
    tags: Seq<String>,
    prefix: Seq<char>,
    suffix: Seq<char>,
    a: nat,
    b: nat,
)
    requires
        forall|tag: Seq<char>|
            !(#[trigger] answers(tag_filter, tag, true) && answers(tag_filter, tag, false)),
        is_next_rc(tag_filter, tags, prefix, suffix, a),
        is_next_rc(tag_filter, tags, prefix, suffix, b),
    ensures
        a == b,
{
    let x = choose|x: Seq<bool>|
        #![trigger filtered(tag_filter, tags, x)]
        filtered(tag_filter, tags, x) && is_max_rc(tags, x, prefix, suffix, (a - 1) as nat);
    let y = choose|y: Seq<bool>|
        #![trigger filtered(tag_filter, tags, y)]
        filtered(tag_filter, tags, y) && is_max_rc(tags, y, prefix, suffix, (b - 1) as nat);
    assert forall|i: int| 0 <= i < tags.len() implies x[i] == y[i] by {
        assert(answers(tag_filter, tags[i]@, x[i]));
        assert(answers(tag_filter, tags[i]@, y[i]));
        assert(!(answers(tag_filter, tags[i]@, true) && answers(tag_filter, tags[i]@, false)));
    }
    assert(x =~= y);
}

/// `r` is one more than the highest number among those of `tags` that `tag_filter` accepts, where
/// that is not the last number.
pub open spec fn is_next_rc_if_left<F: Fn(&str) -> bool>(
    tag_filter: F,
    tags: Seq<String>,
    prefix: Seq<char>,
    suffix: Seq<char>,
    r: Option<u64>,
) -> bool {
    exists|accepted: Seq<bool>, highest: nat|
        filtered(tag_filter, tags, accepted) && #[trigger] is_max_rc(
            tags,
            accepted,
            prefix,
            suffix,
            highest,
        ) && match r {
            Some(n) => n == highest + 1,
            None => highest == u64::MAX,
        }
}

/// The next release candidate number for a version, as by [`find_next_rc_number`], where one is
/// left.
pub fn checked_next_rc_number<F: Fn(&str) -> bool>(
    all_tags: &Vec<String>,
    rendered: Option<&str>,
    tag_filter: F,
) -> (r: Option<u64>)
    requires
        forall|s: &str| call_requires(tag_filter, (s,)),
    ensures
        rc_pattern(rendered) is None ==> r == Some(1u64),
        rc_pattern(rendered) matches Some(pattern) ==> is_next_rc_if_left(
            tag_filter,
            all_tags@,
            pattern.0,
            pattern.1,
            r,
        ),
{
    let (prefix, suffix) = match rendered {
        Some(rendered) => match split_once(rendered, RC_PLACEHOLDER) {
            Some(pattern) => pattern,
            None => {
                return Some(1);
            },
        },
        None => {
            return Some(1);
        },
    };
    let max_rc: u64 = max_rc_number_from_tags(all_tags, prefix, suffix, tag_filter);
    proof {
        assert(rc_pattern(rendered) == Some((prefix@, suffix@)));
        let accepted = choose|accepted: Seq<bool>|
            #![trigger filtered(tag_filter, all_tags@, accepted)]
            filtered(tag_filter, all_tags@, accepted) && is_max_rc(
                all_tags@,
                accepted,
                prefix@,
                suffix@,
                max_rc as nat,
            );
        assert(is_max_rc(all_tags@, accepted, prefix@, suffix@, max_rc as nat));
    }
    max_rc.checked_add(1)
}

/// The tag for the placeholder shows how a package's tags are formed, where the placeholder does
/// not stand in them before the version.
pub proof fn law_stable_pattern(
    all_tags: Seq<String>,
    rendered: &str,
    prefix: Seq<char>,
    suffix: Seq<char>,
)
    requires
        all_tags.len() > 0,
        is_tag_of(rendered@, prefix, VERSION_PLACEHOLDER@, suffix),
        forall|j: int| 0 <= j < prefix.len() ==> !occurs_at(rendered@, VERSION_PLACEHOLDER@, j),
    ensures
        stable_pattern(all_tags, Some(rendered), true) == Some((prefix, suffix)),
{
    law_split_at_first(prefix, VERSION_PLACEHOLDER@, suffix);
}

/// The tag for the placeholder shows how the release candidate tags of a version are formed, where
/// the placeholder does not stand in them before the number.
pub proof fn law_rc_pattern(
    target: VersionView,
    rendered: &str,
    prefix: Seq<char>,
    suffix: Seq<char>,
)
    requires
        is_tag_of(rendered@, prefix, target.text() + "-rc."@ + RC_PLACEHOLDER@, suffix),
        forall|j: int|
            0 <= j < prefix.len() + target.text().len() + "-rc."@.len() ==> !occurs_at(
                rendered@,
                RC_PLACEHOLDER@,
                j,
            ),
    ensures
        rc_pattern(Some(rendered)) == Some((prefix + target.text() + "-rc."@, suffix)),
{
    let before = prefix + target.text() + "-rc."@;
    assert(rendered@ =~= before + RC_PLACEHOLDER@ + suffix);
    law_split_at_first(before, RC_PLACEHOLDER@, suffix);
}

/// What was asked about tags counts: there is one answer for each tag, and the filter gave it for a
/// text with the characters of the tag.
pub proof fn law_accepted_tags<F: Fn(&str) -> bool>(
    tag_filter: F,
    tags: Seq<String>,
    accepted: Seq<bool>,
    i: int,
)
    requires
        filtered(tag_filter, tags, accepted),
        0 <= i < tags.len(),
    ensures
        accepted.len() == tags.len(),
        exists|s: &str| s@ == tags[i]@ && #[trigger] call_ensures(tag_filter, (s,), accepted[i]),
{
    assert(answers(tag_filter, tags[i]@, accepted[i]));
}

/// The best version is that of an accepted tag, which is the prefix, the version as it is written and
/// the suffix; it is stable. No accepted tag is that of a higher stable version, and where there is no
/// best version, none is that of a stable version at all. What stands behind the numbers in a
/// version, build metadata, does not keep it out.
pub proof fn law_best_stable_version(
    tags: Seq<String>,
    accepted: Seq<bool>,
    prefix: Seq<char>,
    suffix: Seq<char>,
    best: Option<VersionView>,
)
    requires
        is_best_stable(tags, accepted, prefix, suffix, best),
    ensures
        best matches Some(v) ==> v.valid() && v.pre.len() == 0 && exists|k: int|
            0 <= k < tags.len() && accepted[k] && (#[trigger] tags[k])@ == prefix + v.text()
                + suffix,
        forall|k: int, w: VersionView|
            #![trigger tags[k], w.text()]
            0 <= k < tags.len() && accepted[k] && w.valid() && w.pre.len() == 0 && tags[k]@ == prefix
                + w.text() + suffix ==> best is Some && !best->0.lower(w),
{
    assert forall|k: int, w: VersionView|
        #![trigger tags[k], w.text()]
        0 <= k < tags.len() && accepted[k] && w.valid() && w.pre.len() == 0 && tags[k]@ == prefix
            + w.text() + suffix implies best is Some && !best->0.lower(w) by {
        assert(is_stable_tag(tags[k]@, prefix, suffix, w));
    }
    if let Some(v) = best {
        let k = choose|k: int|
            0 <= k < tags.len() && accepted[k] && is_stable_tag(
                (#[trigger] tags[k])@,
                prefix,
                suffix,
                v,
            );
        assert(tags[k]@ == prefix + v.text() + suffix);
    }
}

/// The number of a tag is the number that stands between the prefix and the suffix, and nothing else
/// stands there.
pub proof fn law_number_of_a_tag(prefix: Seq<char>, text: Seq<char>, suffix: Seq<char>, tag: Seq<char>)
    ensures
        tag == prefix + text + suffix ==> rc_number_of(tag, prefix, suffix) == number_of(
            text,
            u64::MAX as nat,
        ),
        rc_number_of(tag, prefix, suffix) is Some ==> exists|t: Seq<char>|
            tag == #[trigger] ((prefix + t) + suffix) && rc_number_of(tag, prefix, suffix) == number_of(
                t,
                u64::MAX as nat,
            ),
{
    let inner = tag.subrange(prefix.len() as int, tag.len() - suffix.len());
    if tag == prefix + text + suffix {
        assert(inner =~= text);
    }
    if rc_number_of(tag, prefix, suffix) is Some {
        assert(tag == (prefix + inner) + suffix);
    }
}

/// The highest number among accepted tags: none of them has a higher one, and above zero one of them
/// has it.
pub proof fn law_highest_rc_number(
    tags: Seq<String>,
    accepted: Seq<bool>,
    prefix: Seq<char>,
    suffix: Seq<char>,
    n: nat,
)
    requires
        is_max_rc(tags, accepted, prefix, suffix, n),
    ensures
        forall|k: int, text: Seq<char>|
            #![trigger tags[k], number_of(text, u64::MAX as nat)]
            0 <= k < tags.len() && accepted[k] && tags[k]@ == prefix + text + suffix && number_of(
                text,
                u64::MAX as nat,
            ) is Some ==> number_of(text, u64::MAX as nat)->0 <= n,
        n > 0 ==> exists|k: int|
            0 <= k < tags.len() && accepted[k] && rc_number_of((#[trigger] tags[k])@, prefix, suffix)
                == Some(n),
{
    assert forall|k: int, text: Seq<char>|
        #![trigger tags[k], number_of(text, u64::MAX as nat)]
        0 <= k < tags.len() && accepted[k] && tags[k]@ == prefix + text + suffix && number_of(
            text,
            u64::MAX as nat,
        ) is Some implies number_of(text, u64::MAX as nat)->0 <= n by {
        law_number_of_a_tag(prefix, text, suffix, tags[k]@);
    }
}

/// The next number is above that of every tag that the filter accepts, and it is one, or the number
/// before it is that of a tag which the filter accepted. The filter does not answer one way and then
/// the other.
pub proof fn law_next_rc_number<F: Fn(&str) -> bool>(
    tag_filter: F,
    tags: Seq<String>,
    prefix: Seq<char>,
    suffix: Seq<char>,
    r: nat,
)
    requires
        is_next_rc(tag_filter, tags, prefix, suffix, r),
        forall|tag: Seq<char>|
            !(#[trigger] answers(tag_filter, tag, true) && answers(tag_filter, tag, false)),
    ensures
        r >= 1,
        forall|k: int|
            0 <= k < tags.len() && answers(tag_filter, tags[k]@, true) && rc_number_of(
                (#[trigger] tags[k])@,
                prefix,
                suffix,
            ) is Some ==> rc_number_of(tags[k]@, prefix, suffix)->0 < r,
        r > 1 ==> exists|k: int|
            0 <= k < tags.len() && answers(tag_filter, tags[k]@, true) && rc_number_of(
                (#[trigger] tags[k])@,
                prefix,
                suffix,
            ) == Some((r - 1) as nat),
{
    let accepted = choose|accepted: Seq<bool>|
        #![trigger filtered(tag_filter, tags, accepted)]
        filtered(tag_filter, tags, accepted) && is_max_rc(
            tags,
            accepted,
            prefix,
            suffix,
            (r - 1) as nat,
        );
    assert forall|k: int| 0 <= k < tags.len() implies answers(
        tag_filter,
        (#[trigger] tags[k])@,
        accepted[k],
    ) by {}
    assert forall|k: int|
        0 <= k < tags.len() && answers(tag_filter, tags[k]@, true) && rc_number_of(
            (#[trigger] tags[k])@,
            prefix,
            suffix,
        ) is Some implies rc_number_of(tags[k]@, prefix, suffix)->0 < r by {
        assert(answers(tag_filter, tags[k]@, accepted[k]));
        assert(accepted[k]);
    }
    if r > 1 {
        let k = choose|k: int|
            0 <= k < tags.len() && accepted[k] && rc_number_of((#[trigger] tags[k])@, prefix, suffix)
                == Some((r - 1) as nat);
        assert(answers(tag_filter, tags[k]@, accepted[k]));
    }
}

/// The number that may be left is the next one, and where none is left an accepted tag has the last.
pub proof fn law_next_rc_number_if_left<F: Fn(&str) -> bool>(
    tag_filter: F,
    tags: Seq<String>,
    prefix: Seq<char>,
    suffix: Seq<char>,
    r: Option<u64>,
)
    requires
        is_next_rc_if_left(tag_filter, tags, prefix, suffix, r),
    ensures
        r matches Some(n) ==> is_next_rc(tag_filter, tags, prefix, suffix, n as nat),
        r is None ==> exists|k: int|
            0 <= k < tags.len() && answers(tag_filter, tags[k]@, true) && rc_number_of(
                (#[trigger] tags[k])@,
                prefix,
                suffix,
            ) == Some(u64::MAX as nat),
{
    let (accepted, highest) = choose|accepted: Seq<bool>, highest: nat|
        filtered(tag_filter, tags, accepted) && #[trigger] is_max_rc(
            tags,
            accepted,
            prefix,
            suffix,
            highest,
        ) && match r {
            Some(n) => n == highest + 1,
            None => highest == u64::MAX,
        };
    if let Some(n) = r {
        assert(highest == (n as nat - 1) as nat);
        assert(filtered(tag_filter, tags, accepted));
    } else {
        let k = choose|k: int|
            0 <= k < tags.len() && accepted[k] && rc_number_of((#[trigger] tags[k])@, prefix, suffix)
                == Some(highest);
        assert(answers(tag_filter, tags[k]@, accepted[k]));
    }
}

/// The last stable tag is looked for exactly where there are tags, the current commit is known and the
/// rendered tag shows where the version stands; what stands around the first placeholder there is
/// what stands around versions.
pub proof fn law_where_versions_stand(
    all_tags: Seq<String>,
    rendered: Option<&str>,
    is_current_commit_known: bool,
)
    ensures
        all_tags.len() == 0 || !is_current_commit_known || rendered is None ==> stable_pattern(
            all_tags,
            rendered,
            is_current_commit_known,
        ) is None,
        stable_pattern(all_tags, rendered, is_current_commit_known) matches Some((prefix, suffix))
            ==> rendered->0@ == prefix + VERSION_PLACEHOLDER@ + suffix,
        all_tags.len() > 0 && is_current_commit_known && rendered is Some && stable_pattern(
            all_tags,
            rendered,
            is_current_commit_known,
        ) is None ==> forall|prefix: Seq<char>, suffix: Seq<char>|
            rendered->0@ != #[trigger] ((prefix + VERSION_PLACEHOLDER@) + suffix),
        rc_pattern(rendered) matches Some((prefix, suffix)) ==> rendered is Some && rendered->0@
            == prefix + RC_PLACEHOLDER@ + suffix,
        rendered is Some && rc_pattern(rendered) is None ==> forall|
            prefix: Seq<char>,
            suffix: Seq<char>,
        |
            rendered->0@ != #[trigger] ((prefix + RC_PLACEHOLDER@) + suffix),
{
    if let Some(s) = rendered {
        law_cut_at_the_first_place(s@, VERSION_PLACEHOLDER@);
        law_cut_at_the_first_place(s@, RC_PLACEHOLDER@);
    }
}

/// The last stable tag stands for a stable version that is written in an accepted tag of the package,
/// and its commit is what was given for that version. No accepted tag is that of a higher stable
/// version.
pub proof fn law_last_stable_tag<F: Fn(&str) -> bool, G: Fn(&Version) -> Option<String>>(
    tag_filter: F,
    tag_commit: G,
    tags: Seq<String>,
    prefix: Seq<char>,
    suffix: Seq<char>,
    r: Option<StableTagInfo>,
)
    requires
        is_last_stable_tag(tag_filter, tag_commit, tags, prefix, suffix, r),
        forall|tag: Seq<char>|
            !(#[trigger] answers(tag_filter, tag, true) && answers(tag_filter, tag, false)),
    ensures
        r matches Some(info) ==> {
            &&& info.version@.valid()
            &&& info.version@.pre.len() == 0
            &&& exists|k: int|
                0 <= k < tags.len() && answers(tag_filter, tags[k]@, true) && (#[trigger] tags[k])@
                    == prefix + info.version@.text() + suffix
            &&& exists|v: &Version|
                v@ == info.version@ && #[trigger] call_ensures(
                    tag_commit,
                    (v,),
                    Some(info.commit),
                )
            &&& forall|k: int, w: VersionView|
                #![trigger tags[k], w.text()]
                0 <= k < tags.len() && answers(tag_filter, tags[k]@, true) && w.valid()
                    && w.pre.len() == 0 && tags[k]@ == prefix + w.text() + suffix
                    ==> !info.version@.lower(w)
        },
        r is None && (exists|k: int, w: VersionView|
            #![trigger tags[k], w.text()]
            0 <= k < tags.len() && answers(tag_filter, tags[k]@, true) && w.valid() && w.pre.len()
                == 0 && tags[k]@ == prefix + w.text() + suffix) ==> exists|v: &Version|
            #[trigger] call_ensures(tag_commit, (v,), None),
{
    let (accepted, best) = choose|accepted: Seq<bool>, best: Option<VersionView>|
        filtered(tag_filter, tags, accepted) && #[trigger] is_best_stable(
            tags,
            accepted,
            prefix,
            suffix,
            best,
        ) && is_tag_info(tag_commit, best, r);
    law_best_stable_version(tags, accepted, prefix, suffix, best);
    assert forall|k: int| 0 <= k < tags.len() && answers(
        tag_filter,
        (#[trigger] tags[k])@,
        true,
    ) implies accepted[k] by {
        assert(answers(tag_filter, tags[k]@, accepted[k]));
    }
    if let Some(info) = r {
        let k = choose|k: int|
            0 <= k < tags.len() && accepted[k] && (#[trigger] tags[k])@ == prefix
                + info.version@.text() + suffix;
        assert(answers(tag_filter, tags[k]@, accepted[k]));
    }
}

/// What is read from a tag: the version whose text stands between the prefix and the suffix, wherever
/// that is a version, and else nothing.
pub proof fn law_read_tag(
    tag: &str,
    prefix: &str,
    suffix: &str,
    r: Option<Version>,
    v: VersionView,
)
    requires
        call_ensures(parse_version_from_tag, (tag, prefix, suffix), r),
    ensures
        r matches Some(read) ==> tag@ == prefix@ + read@.text() + suffix@ && read@.valid(),
        v.valid() && tag@ == prefix@ + v.text() + suffix@ ==> r is Some && r->0@ == v,
{
    if v.valid() && tag@ == prefix@ + v.text() + suffix@ {
        assert(is_tag_of(tag@, prefix@, v.text(), suffix@));
        law_tag_version_unique(tag@, prefix@, suffix@, v, r->0@);
    }
}

/// The number that is read from the tag of a release candidate is the one that was written into it.
pub proof fn law_read_rc_tag(tag: &str, prefix: &str, suffix: &str, r: Option<u64>, n: u64)
    requires
        call_ensures(parse_rc_number_from_tag, (tag, prefix, suffix), r),
        tag@ == prefix@ + decimal(n as nat) + suffix@,
    ensures
        r == Some(n),
{
    law_number_of_a_tag(prefix@, decimal(n as nat), suffix@, tag@);
    law_number_of_decimal(n as nat, u64::MAX as nat);
}

/// The best stable version is that of an accepted tag and no prerelease, and no accepted tag has a
/// higher one; there is none exactly where no accepted tag has a stable version.
pub proof fn law_best_of_given_tags<F: Fn(&str) -> bool>(
    tags: &Vec<String>,
    prefix: &str,
    suffix: &str,
    tag_filter: F,
    r: Option<Version>,
)
    requires
        call_ensures(best_stable_version_from_tags::<F>, (tags, prefix, suffix, tag_filter), r),
        forall|tag: Seq<char>|
            !(#[trigger] answers(tag_filter, tag, true) && answers(tag_filter, tag, false)),
    ensures
        r matches Some(v) ==> v@.valid() && v@.pre.len() == 0 && exists|k: int|
            0 <= k < tags@.len() && answers(tag_filter, tags@[k]@, true) && (#[trigger] tags@[k])@
                == prefix@ + v@.text() + suffix@,
        forall|k: int, w: VersionView|
            #![trigger tags@[k], w.text()]
            0 <= k < tags@.len() && answers(tag_filter, tags@[k]@, true) && w.valid()
                && w.pre.len() == 0 && tags@[k]@ == prefix@ + w.text() + suffix@ ==> r is Some
                && !r->0@.lower(w),
{
    let accepted = choose|accepted: Seq<bool>|
        #![trigger filtered(tag_filter, tags@, accepted)]
        filtered(tag_filter, tags@, accepted) && is_best_stable(
            tags@,
            accepted,
            prefix@,
            suffix@,
            optional_version(r),
        );
    law_best_stable_version(tags@, accepted, prefix@, suffix@, optional_version(r));
    assert forall|k: int| 0 <= k < tags@.len() implies (#[trigger] accepted[k] <==> answers(
        tag_filter,
        tags@[k]@,
        true,
    )) by {
        assert(answers(tag_filter, tags@[k]@, accepted[k]));
    }
}

/// The highest number is that of an accepted tag, unless it is zero, and no accepted tag has a higher
/// one.
pub proof fn law_highest_of_given_tags<F: Fn(&str) -> bool>(
    tags: &Vec<String>,
    prefix: &str,
    suffix: &str,
    tag_filter: F,
    r: u64,
)
    requires
        call_ensures(max_rc_number_from_tags::<F>, (tags, prefix, suffix, tag_filter), r),
        forall|tag: Seq<char>|
            !(#[trigger] answers(tag_filter, tag, true) && answers(tag_filter, tag, false)),
    ensures
        forall|k: int, n: u64|
            #![trigger tags@[k], decimal(n as nat)]
            0 <= k < tags@.len() && answers(tag_filter, tags@[k]@, true) && tags@[k]@ == prefix@
                + decimal(n as nat) + suffix@ ==> n <= r,
        r > 0 ==> exists|k: int|
            0 <= k < tags@.len() && answers(tag_filter, tags@[k]@, true) && rc_number_of(
                (#[trigger] tags@[k])@,
                prefix@,
                suffix@,
            ) == Some(r as nat),
{
    let accepted = choose|accepted: Seq<bool>|
        #![trigger filtered(tag_filter, tags@, accepted)]
        filtered(tag_filter, tags@, accepted) && is_max_rc(
            tags@,
            accepted,
            prefix@,
            suffix@,
            r as nat,
        );
    law_highest_rc_number(tags@, accepted, prefix@, suffix@, r as nat);
    assert forall|k: int| 0 <= k < tags@.len() implies (#[trigger] accepted[k] <==> answers(
        tag_filter,
        tags@[k]@,
        true,
    )) by {
        assert(answers(tag_filter, tags@[k]@, accepted[k]));
    }
    assert forall|k: int, n: u64|
        #![trigger tags@[k], decimal(n as nat)]
        0 <= k < tags@.len() && answers(tag_filter, tags@[k]@, true) && tags@[k]@ == prefix@
            + decimal(n as nat) + suffix@ implies n <= r by {
        assert(accepted[k]);
        law_number_of_decimal(n as nat, u64::MAX as nat);
        assert(number_of(decimal(n as nat), u64::MAX as nat) == Some(n as nat));
    }
    if r > 0 {
        let k = choose|k: int|
            0 <= k < tags@.len() && accepted[k] && rc_number_of(
                (#[trigger] tags@[k])@,
                prefix@,
                suffix@,
            ) == Some(r as nat);
        assert(accepted[k]);
    }
}

/// The number of the next release candidate: one without accepted tags, else one more than the highest
/// number in an accepted tag, so that it is new.
pub proof fn law_given_rc_number<F: Fn(&str) -> bool>(
    all_tags: &Vec<String>,
    rendered: Option<&str>,
    tag_filter: F,
    prefix: Seq<char>,
    suffix: Seq<char>,
    r: u64,
)
    requires
        call_ensures(find_next_rc_number::<F>, (all_tags, rendered, tag_filter), r),
        forall|tag: Seq<char>|
            !(#[trigger] answers(tag_filter, tag, true) && answers(tag_filter, tag, false)),
        rc_pattern(rendered) == Some((prefix, suffix)),
    ensures
        r >= 1,
        forall|k: int, n: u64|
            #![trigger all_tags@[k], decimal(n as nat)]
            0 <= k < all_tags@.len() && answers(tag_filter, all_tags@[k]@, true) && all_tags@[k]@
                == prefix + decimal(n as nat) + suffix ==> n < r,
        r > 1 ==> exists|k: int|
            0 <= k < all_tags@.len() && answers(tag_filter, all_tags@[k]@, true) && rc_number_of(
                (#[trigger] all_tags@[k])@,
                prefix,
                suffix,
            ) == Some((r - 1) as nat),
{
    law_next_rc_number(tag_filter, all_tags@, prefix, suffix, r as nat);
    assert forall|k: int, n: u64|
        #![trigger all_tags@[k], decimal(n as nat)]
        0 <= k < all_tags@.len() && answers(tag_filter, all_tags@[k]@, true) && all_tags@[k]@
            == prefix + decimal(n as nat) + suffix implies n < r by {
        law_number_of_a_tag(prefix, decimal(n as nat), suffix, all_tags@[k]@);
        law_number_of_decimal(n as nat, u64::MAX as nat);
        assert(rc_number_of(all_tags@[k]@, prefix, suffix) == Some(n as nat));
    }
}

/// A number that is only given where one is left is the one that is given otherwise; none is left only
/// where an accepted tag has the last one.
pub proof fn law_given_rc_number_if_left<F: Fn(&str) -> bool>(
    all_tags: &Vec<String>,
    rendered: Option<&str>,
    tag_filter: F,
    r: Option<u64>,
)
    requires
        call_ensures(checked_next_rc_number::<F>, (all_tags, rendered, tag_filter), r),
    ensures
        rc_pattern(rendered) is None ==> r == Some(1u64),
        rc_pattern(rendered) matches Some((prefix, suffix)) ==> {
            &&& r matches Some(n) ==> is_next_rc(tag_filter, all_tags@, prefix, suffix, n as nat)
            &&& r is None ==> exists|k: int|
                0 <= k < all_tags@.len() && answers(tag_filter, all_tags@[k]@, true)
                    && rc_number_of((#[trigger] all_tags@[k])@, prefix, suffix) == Some(
                    u64::MAX as nat,
                )
        },
{
    if let Some((prefix, suffix)) = rc_pattern(rendered) {
        law_next_rc_number_if_left(tag_filter, all_tags@, prefix, suffix, r);
    }
}

/// A tag is reachable where its commit is known to be an ancestor of the current one. Without a
/// current commit, every tag is.
pub proof fn law_reachable_tags(is_current_commit_known: bool, is_ancestor: Option<bool>, r: bool)
    requires
        call_ensures(is_tag_reachable, (is_current_commit_known, is_ancestor), r),
    ensures
        !is_current_commit_known ==> r,
        is_current_commit_known && is_ancestor is None ==> !r,
        is_current_commit_known && is_ancestor is Some ==> r == is_ancestor->0,
{
}

/// The last stable tag that is given: none without tags, without a rendered tag or without a current
/// commit. Else its version is no prerelease, stands in an accepted tag, and no accepted tag has a
/// higher stable one.
pub proof fn law_given_stable_tag<F: Fn(&str) -> bool, G: Fn(&Version) -> Option<String>>(
    all_tags: &Vec<String>,
    rendered: Option<&str>,
    is_current_commit_known: bool,
    tag_filter: F,
    tag_commit: G,
    r: Option<StableTagInfo>,
)
    requires
        call_ensures(
            find_last_stable_tag::<F, G>,
            (all_tags, rendered, is_current_commit_known, tag_filter, tag_commit),
            r,
        ),
        forall|tag: Seq<char>|
            !(#[trigger] answers(tag_filter, tag, true) && answers(tag_filter, tag, false)),
    ensures
        all_tags@.len() == 0 || rendered is None || !is_current_commit_known ==> r is None,
        r matches Some(info) ==> {
            &&& info.version@.valid()
            &&& info.version@.pre.len() == 0
            &&& exists|v: &Version|
                v@ == info.version@ && #[trigger] call_ensures(tag_commit, (v,), Some(info.commit))
            &&& exists|prefix: Seq<char>, suffix: Seq<char>, k: int|
                {
                    &&& rendered->0@ == #[trigger] ((prefix + VERSION_PLACEHOLDER@) + suffix)
                    &&& 0 <= k < all_tags@.len() && answers(tag_filter, all_tags@[k]@, true)
                    &&& (#[trigger] all_tags@[k])@ == prefix + info.version@.text() + suffix
                    &&& forall|j: int, w: VersionView|
                        #![trigger all_tags@[j], w.text()]
                        0 <= j < all_tags@.len() && answers(tag_filter, all_tags@[j]@, true)
                            && w.valid() && w.pre.len() == 0 && all_tags@[j]@ == prefix + w.text()
                            + suffix ==> !info.version@.lower(w)
                }
        },
{
    law_where_versions_stand(all_tags@, rendered, is_current_commit_known);
    if let Some((prefix, suffix)) = stable_pattern(all_tags@, rendered, is_current_commit_known) {
        law_last_stable_tag(tag_filter, tag_commit, all_tags@, prefix, suffix, r);
        if let Some(info) = r {
            let k = choose|k: int|
                0 <= k < all_tags@.len() && answers(tag_filter, all_tags@[k]@, true) && (
                #[trigger] all_tags@[k])@ == prefix + info.version@.text() + suffix;
            assert(rendered->0@ == ((prefix + VERSION_PLACEHOLDER@) + suffix));
            assert(all_tags@[k]@ == prefix + info.version@.text() + suffix);
        }
    }
}

} // verus!
