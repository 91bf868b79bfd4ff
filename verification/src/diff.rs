//! What changed in a package since its last release.
use vstd::prelude::*;
use vstd::string::*;

use crate::semver::Version;
#[allow(unused_imports)]
use crate::text::{answers, views};

verus! {

/// The id of a commit that is not in the repository.
pub const NO_COMMIT_ID: &'static str = "0000000";

/// A commit, as far as versions and changelogs depend on it.
#[derive(Debug)]
pub struct Commit {
    pub id: String,
    pub message: String,
}

/// What a commit consists of.
pub struct CommitView {
    pub id: Seq<char>,
    pub message: Seq<char>,
}

impl View for Commit {
    type V = CommitView;

    open spec fn view(&self) -> CommitView {
        CommitView { id: self.id@, message: self.message@ }
    }
}

/// What `commits` consist of.
pub open spec fn commit_views(commits: Seq<Commit>) -> Seq<CommitView> {
    commits.map_values(|c: Commit| c@)
}

impl Clone for Commit {
    fn clone(&self) -> (r: Self)
        ensures
            r == *self,
    {
        Commit { id: self.id.clone(), message: self.message.clone() }
    }
}

impl Commit {
    pub fn new(id: String, message: String) -> (r: Commit)
        ensures
            r.id == id,
            r.message == message,
    {
        Commit { id, message }
    }

    /// Whether the two commits have the same id and message.
    pub fn is_same(&self, other: &Commit) -> (r: bool)
        ensures
            r == (self@ == other@),
    {
        self.id == other.id && self.message == other.message
    }
}

/// The outcome of the check of a package's API against its published version.
#[derive(Debug)]
pub enum SemverCheck {
    /// No incompatible change was found.
    Compatible,
    /// There are incompatible changes, which the text describes.
    Incompatible(String),
    /// The check did not run.
    Skipped,
}

impl Clone for SemverCheck {
    fn clone(&self) -> (r: Self)
        ensures
            r == *self,
    {
        match self {
            SemverCheck::Compatible => SemverCheck::Compatible,
            SemverCheck::Incompatible(text) => SemverCheck::Incompatible(text.clone()),
            SemverCheck::Skipped => SemverCheck::Skipped,
        }
    }
}

/// The difference between a local package and its published version.
#[derive(Debug)]
pub struct Diff {
    /// Whether the registry has a package of this name.
    pub registry_package_exists: bool,
    /// The commits since the last release.
    pub commits: Vec<Commit>,
    /// Whether the local version is published, so that changes need a new version.
    pub is_version_published: bool,
    /// The outcome of the API check.
    pub semver_check: SemverCheck,
    /// The published version, where the local one is already ahead of it.
    pub registry_version: Option<Version>,
    /// The last stable version with a tag, from which the commits are counted.
    pub base_version: Option<Version>,
}

/// The messages of `commits`.
pub open spec fn messages_of(commits: Seq<Commit>) -> Seq<Seq<char>> {
    commits.map_values(|c: Commit| c.message@)
}

/// `commits` holds `c`.
pub open spec fn holds_commit(commits: Seq<Commit>, c: Commit) -> bool {
    exists|i: int| 0 <= i < commits.len() && (#[trigger] commits[i])@ == c@
}

/// `commits`, and behind them those of `more` that are not there yet.
pub open spec fn with_commits(commits: Seq<Commit>, more: Seq<Commit>) -> Seq<Commit>
    decreases more.len(),
{
    if more.len() == 0 {
        commits
    } else {
        let before = with_commits(commits, more.drop_last());
        if holds_commit(before, more.last()) {
            before
        } else {
            before.push(more.last())
        }
    }
}

impl Diff {
    pub fn new(registry_package_exists: bool) -> (r: Diff)
        ensures
            r.registry_package_exists == registry_package_exists,
            r.commits@.len() == 0,
            r.is_version_published,
            r.semver_check is Skipped,
            r.registry_version is None,
            r.base_version is None,
    {
        Diff {
            registry_package_exists,
            commits: Vec::new(),
            is_version_published: true,
            semver_check: SemverCheck::Skipped,
            registry_version: None,
            base_version: None,
        }
    }

    /// There are changes, and they need a new version: the package was released before, and its
    /// version was not raised since.
    pub open spec fn wants_update(self) -> bool {
        self.registry_package_exists && self.commits@.len() > 0 && self.is_version_published
    }

    /// Whether there are changes that need a new version.
    pub fn should_update_version(&self) -> (r: bool)
        ensures
            r == self.wants_update(),
    {
        self.registry_package_exists && self.commits.len() > 0 && self.is_version_published
    }

    /// Notes that the local version is ahead of the published one, so that it is not raised
    /// further.
    pub fn set_version_unpublished(&mut self, registry_version: Version)
        ensures
            *final(self) == (Diff {
                is_version_published: false,
                registry_version: Some(registry_version),
                ..*old(self)
            }),
    {
        self.is_version_published = false;
        self.registry_version = Some(registry_version);
    }

    pub fn set_semver_check(&mut self, semver_check: SemverCheck)
        ensures
            *final(self) == (Diff { semver_check, ..*old(self) }),
    {
        self.semver_check = semver_check;
    }

    /// Adds those of `commits` that the diff does not hold yet.
    pub fn add_commits(&mut self, commits: &Vec<Commit>)
        ensures
            final(self).commits@ == with_commits(old(self).commits@, commits@),
            *final(self) == (Diff { commits: final(self).commits, ..*old(self) }),
    {
        let ghost start = self.commits@;
        let ghost before = *self;
        for i in 0..commits.len()
            invariant
                self.commits@ == with_commits(start, commits@.take(i as int)),
                *self == (Diff { commits: self.commits, ..before }),
        {
            let ghost now = commits@.take(i + 1);
            assert(now.drop_last() =~= commits@.take(i as int));
            assert(now.last() == commits@[i as int]);
            if !contains_commit(&self.commits, &commits[i]) {
                self.commits.push(commits[i].clone());
            }
        }
        assert(commits@.take(commits@.len() as int) =~= commits@);
    }

    /// Whether `matches` accepts the message of one of the commits.
    pub fn any_commit_matches<F: Fn(&str) -> bool>(&self, matches: F) -> (r: bool)
        requires
            forall|message: &str| call_requires(matches, (message,)),
        ensures
            r ==> exists|i: int|
                0 <= i < self.commits@.len() && answers(
                    matches,
                    (#[trigger] self.commits@[i]).message@,
                    true,
                ),
            !r ==> forall|i: int|
                0 <= i < self.commits@.len() ==> answers(
                    matches,
                    (#[trigger] self.commits@[i]).message@,
                    false,
                ),
    {
        for i in 0..self.commits.len()
            invariant
                forall|message: &str| call_requires(matches, (message,)),
                forall|j: int|
                    0 <= j < i ==> answers(
                        matches,
                        (#[trigger] self.commits@[j]).message@,
                        false,
                    ),
        {
            let message = self.commits[i].message.as_str();
            let accepted = matches(message);
            assert(answers(matches, self.commits@[i as int].message@, accepted));
            if accepted {
                return true;
            }
        }
        false
    }

    /// Whether the commits are worth a release: `release_commits` accepts the message of one of
    /// them, or nothing is asked of them.
    pub fn has_release_commits<F: Fn(&str) -> bool>(&self, release_commits: Option<F>) -> (r: bool)
        requires
            release_commits matches Some(matches) ==> forall|message: &str|
                call_requires(matches, (message,)),
        ensures
            release_commits is None ==> r,
            release_commits is Some && r ==> exists|i: int|
                0 <= i < self.commits@.len() && answers(
                    release_commits->0,
                    (#[trigger] self.commits@[i]).message@,
                    true,
                ),
            !r ==> release_commits is Some && forall|i: int|
                0 <= i < self.commits@.len() ==> answers(
                    release_commits->0,
                    (#[trigger] self.commits@[i]).message@,
                    false,
                ),
    {
        match release_commits {
            Some(matches) => self.any_commit_matches(matches),
            None => true,
        }
    }

    /// The messages of the commits.
    pub fn messages(&self) -> (r: Vec<String>)
        ensures
            views(r@) == messages_of(self.commits@),
            r@.len() == self.commits@.len(),
            forall|i: int|
                0 <= i < r@.len() ==> (#[trigger] r@[i])@ == self.commits@[i].message@,
    {
        let mut out: Vec<String> = Vec::new();
        for i in 0..self.commits.len()
            invariant
                out@.len() == i,
                forall|j: int| 0 <= j < i ==> (#[trigger] out@[j])@ == self.commits@[j].message@,
        {
            out.push(self.commits[i].message.clone());
        }
        assert(views(out@) =~= messages_of(self.commits@));
        out
    }
}

/// Messages are taken as they are: there is one for each commit, in the order of the commits, and it
/// has every character of the commit's message, line breaks and footers included.
pub proof fn law_messages_are_whole(commits: Seq<Commit>)
    ensures
        messages_of(commits).len() == commits.len(),
        forall|i: int|
            0 <= i < commits.len() ==> #[trigger] messages_of(commits)[i] == commits[i].message@,
{
}

/// Two diffs have the same messages only where their commits have, one by one.
pub proof fn law_messages_tell_commits_apart(a: Seq<Commit>, b: Seq<Commit>)
    ensures
        messages_of(a) == messages_of(b) <==> a.len() == b.len() && forall|i: int|
            0 <= i < a.len() ==> (#[trigger] a[i]).message@ == b[i].message@,
{
    if messages_of(a) == messages_of(b) {
        assert(messages_of(a).len() == messages_of(b).len());
        assert forall|i: int| 0 <= i < a.len() implies (#[trigger] a[i]).message@
            == b[i].message@ by {
            assert(messages_of(a)[i] == messages_of(b)[i]);
        }
    }
    if a.len() == b.len() && forall|i: int|
        0 <= i < a.len() ==> (#[trigger] a[i]).message@ == b[i].message@ {
        assert(messages_of(a) =~= messages_of(b));
    }
}

/// Changes need a new version in one case only: the registry has the package, its version is the
/// published one, and there is a commit. None of the three alone is enough.
pub proof fn law_when_an_update_is_wanted(diff: Diff)
    ensures
        !diff.registry_package_exists ==> !diff.wants_update(),
        !diff.is_version_published ==> !diff.wants_update(),
        diff.commits@.len() == 0 ==> !diff.wants_update(),
        diff.registry_package_exists && diff.is_version_published && diff.commits@.len() > 0
            ==> diff.wants_update(),
{
}

/// Commits that are added stand behind those that were there, which stay. Each of `more` is there
/// afterwards, nothing else is added, in the order of `more`, and none that was there already.
/// `from` are the places of the added commits in `more`.
pub proof fn law_added_commits(commits: Seq<Commit>, more: Seq<Commit>) -> (from: Seq<int>)
    ensures
        ({
            let all = with_commits(commits, more);
            let n = commits.len();
            &&& all.len() == n + from.len()
            &&& forall|i: int| 0 <= i < n ==> #[trigger] all[i] == commits[i]
            &&& forall|j: int|
                0 <= j < from.len() ==> 0 <= #[trigger] from[j] < more.len() && all[n + j]
                    == more[from[j]]
            &&& forall|a: int, b: int| 0 <= a < b < from.len() ==> from[a] < from[b]
            &&& forall|i: int|
                0 <= i < more.len() ==> exists|j: int|
                    0 <= j < all.len() && (#[trigger] all[j]).id@ == (#[trigger] more[i]).id@
                        && all[j].message@ == more[i].message@
            &&& forall|a: int, b: int|
                0 <= a < b < all.len() && n <= b ==> (#[trigger] all[a]).id@ != (
                #[trigger] all[b]).id@ || all[a].message@ != all[b].message@
        }),
    decreases more.len(),
{
    let n = commits.len();
    let all = with_commits(commits, more);
    if more.len() == 0 {
        Seq::empty()
    } else {
        let less = more.drop_last();
        let before = with_commits(commits, less);
        let places = law_added_commits(commits, less);
        let last = more.len() - 1;
        let from = if holds_commit(before, more.last()) {
            places
        } else {
            places.push(last)
        };
        assert forall|i: int| 0 <= i < more.len() implies exists|j: int|
            0 <= j < all.len() && (#[trigger] all[j]).id@ == (#[trigger] more[i]).id@
                && all[j].message@ == more[i].message@ by {
            if i < last {
                assert(less[i] == more[i]);
                let j = choose|j: int|
                    0 <= j < before.len() && (#[trigger] before[j]).id@ == less[i].id@
                        && before[j].message@ == less[i].message@;
                assert(all[j] == before[j]);
            } else if holds_commit(before, more.last()) {
                let j = choose|j: int|
                    0 <= j < before.len() && (#[trigger] before[j])@ == more.last()@;
                assert(all[j] == before[j]);
            } else {
                assert(all[all.len() - 1] == more[last]);
            }
        }
        assert forall|a: int, b: int| 0 <= a < b < all.len() && n <= b implies (
        #[trigger] all[a]).id@ != (#[trigger] all[b]).id@ || all[a].message@ != all[b].message@ by {
            if b < before.len() {
                assert(all[a] == before[a] && all[b] == before[b]);
            } else {
                assert(all[a] == before[a]);
                assert(before[a]@ != more.last()@);
            }
        }
        assert forall|j: int| 0 <= j < from.len() implies 0 <= #[trigger] from[j] < more.len()
            && all[n + j] == more[from[j]] by {
            if j < places.len() {
                assert(from[j] == places[j]);
                assert(less[places[j]] == more[places[j]]);
                assert(all[n + j] == before[n + j]);
            }
        }
        from
    }
}

/// Whether `commits` holds `c`.
fn contains_commit(commits: &Vec<Commit>, c: &Commit) -> (r: bool)
    ensures
        r == holds_commit(commits@, *c),
{
    for i in 0..commits.len()
        invariant
            forall|j: int| 0 <= j < i ==> (#[trigger] commits@[j])@ != c@,
    {
        if commits[i].is_same(c) {
            return true;
        }
    }
    false
}

/// The messages that a diff gives are whole, one for each commit and in the order of the commits.
pub proof fn law_given_messages(diff: &Diff, r: Vec<String>)
    requires
        call_ensures(Diff::messages, (diff,), r),
    ensures
        r@.len() == diff.commits@.len(),
        forall|i: int| 0 <= i < r@.len() ==> (#[trigger] r@[i])@ == diff.commits@[i].message@,
{
}

/// A version that is noted as unpublished is so afterwards, with the published one; nothing else of
/// the diff changes.
pub proof fn law_unpublished_version(diff: &mut Diff, registry_version: Version)
    requires
        call_ensures(Diff::set_version_unpublished, (diff, registry_version), ()),
    ensures
        !final(diff).is_version_published,
        final(diff).registry_version == Some(registry_version),
        final(diff).commits == old(diff).commits,
        final(diff).registry_package_exists == old(diff).registry_package_exists,
        final(diff).semver_check == old(diff).semver_check,
        final(diff).base_version == old(diff).base_version,
        !final(diff).wants_update(),
{
}

/// What a check of the API found is noted, and nothing else changes.
pub proof fn law_noted_check(diff: &mut Diff, semver_check: SemverCheck)
    requires
        call_ensures(Diff::set_semver_check, (diff, semver_check), ()),
    ensures
        final(diff).semver_check == semver_check,
        final(diff).commits == old(diff).commits,
        final(diff).is_version_published == old(diff).is_version_published,
        final(diff).registry_version == old(diff).registry_version,
        final(diff).registry_package_exists == old(diff).registry_package_exists,
        final(diff).base_version == old(diff).base_version,
{
}

/// Commits are added behind those that are there, each once, and nothing else changes.
pub proof fn law_commits_are_added(diff: &mut Diff, more: &Vec<Commit>)
    requires
        call_ensures(Diff::add_commits, (diff, more), ()),
    ensures
        final(diff).is_version_published == old(diff).is_version_published,
        final(diff).registry_version == old(diff).registry_version,
        final(diff).registry_package_exists == old(diff).registry_package_exists,
        final(diff).base_version == old(diff).base_version,
        final(diff).semver_check == old(diff).semver_check,
        final(diff).commits@.len() >= old(diff).commits@.len(),
        forall|i: int|
            0 <= i < old(diff).commits@.len() ==> #[trigger] final(diff).commits@[i] == old(
                diff,
            ).commits@[i],
        forall|i: int|
            0 <= i < more@.len() ==> exists|j: int|
                0 <= j < final(diff).commits@.len() && (#[trigger] final(diff).commits@[j])@ == (
                #[trigger] more@[i])@,
        final(diff).commits@.len() <= old(diff).commits@.len() + more@.len(),
{
    let from = law_added_commits(old(diff).commits@, more@);
    let all = final(diff).commits@;
    assert forall|i: int| 0 <= i < more@.len() implies exists|j: int|
        0 <= j < all.len() && (#[trigger] all[j])@ == (#[trigger] more@[i])@ by {
        let j = choose|j: int|
            0 <= j < all.len() && (#[trigger] all[j]).id@ == more@[i].id@ && all[j].message@
                == more@[i].message@;
        assert(all[j]@ == more@[i]@);
    }
    lemma_added_at_most(old(diff).commits@, more@);
}

/// No more commits are added than there are.
proof fn lemma_added_at_most(commits: Seq<Commit>, more: Seq<Commit>)
    ensures
        with_commits(commits, more).len() <= commits.len() + more.len(),
    decreases more.len(),
{
    if more.len() > 0 {
        lemma_added_at_most(commits, more.drop_last());
    }
}

/// Which packages have commits that ask for a release: all, where every commit does; else those of
/// which one message was accepted. The messages that are asked about are the whole ones.
pub proof fn law_release_commits<F: Fn(&str) -> bool>(
    diff: &Diff,
    release_commits: Option<F>,
    r: bool,
)
    requires
        call_ensures(Diff::has_release_commits::<F>, (diff, release_commits), r),
    ensures
        release_commits is None ==> r,
        release_commits is Some && r ==> exists|i: int|
            0 <= i < diff.commits@.len() && answers(
                release_commits->0,
                (#[trigger] diff.commits@[i]).message@,
                true,
            ),
        release_commits is Some && !r ==> forall|i: int|
            0 <= i < diff.commits@.len() ==> answers(
                release_commits->0,
                (#[trigger] diff.commits@[i]).message@,
                false,
            ),
        release_commits is Some && diff.commits@.len() == 0 ==> !r,
{
}

} // verus!
