//! The walk back through a package's history, up to its last release.
use vstd::prelude::*;
use vstd::string::*;

use crate::baseline::Baseline;
use crate::diff::{Commit, Diff, NO_COMMIT_ID};
#[allow(unused_imports)]
use crate::diff::{commit_views, CommitView};
use crate::package::{contains_executable, Package};
#[allow(unused_imports)]
use crate::package::TargetKind;
use crate::semver::{Version, VersionView};
#[allow(unused_imports)]
use crate::tags::optional_version;

verus! {

/// How many commits of a package are looked at. That is limited for a package that the registry
/// does not have, unless the limit is zero.
pub fn commits_to_analyze(registry_package_exists: bool, max_analyze_commits: u32) -> (r: u32)
    ensures
        r == (if registry_package_exists || max_analyze_commits == 0 {
            u32::MAX
        } else {
            max_analyze_commits
        }),
{
    if !registry_package_exists && max_analyze_commits != 0 {
        max_analyze_commits
    } else {
        u32::MAX
    }
}

/// The commit belongs to a previous version: it is an ancestor of the commit with the previous
/// version's tag, or of the one that was published, as far as there is such a commit.
pub open spec fn is_older(
    is_ancestor_of_tag: Option<bool>,
    is_ancestor_of_published: Option<bool>,
) -> bool {
    is_ancestor_of_tag == Some(true) || is_ancestor_of_published == Some(true)
}

/// Whether a commit belongs to a previous version of the package. `is_ancestor_of_tag` says
/// whether it is an ancestor of the commit with the previous version's tag, and
/// `is_ancestor_of_published` whether it is one of the commit that was published; each where
/// there is such a commit.
pub fn is_commit_too_old(
    is_ancestor_of_tag: Option<bool>,
    is_ancestor_of_published: Option<bool>,
) -> (r: bool)
    ensures
        r == is_older(is_ancestor_of_tag, is_ancestor_of_published),
{
    matches!(is_ancestor_of_tag, Some(true)) || matches!(is_ancestor_of_published, Some(true))
}

/// The commit that stands for changed dependencies in the manifest.
pub open spec fn toml_commit() -> CommitView {
    CommitView { id: NO_COMMIT_ID@, message: "chore: update Cargo.toml dependencies"@ }
}

/// The commit that stands for changed dependencies in the lock file.
pub open spec fn lock_commit() -> CommitView {
    CommitView { id: NO_COMMIT_ID@, message: "chore: update Cargo.lock dependencies"@ }
}

/// The commits that stand for changed dependencies: one for the manifest, else one for the lock
/// file.
pub open spec fn dependency_commits(toml_updated: bool, lock_updated: bool) -> Seq<CommitView> {
    if toml_updated {
        seq![toml_commit()]
    } else if lock_updated {
        seq![lock_commit()]
    } else {
        Seq::empty()
    }
}

/// Adds a commit to the diff where the dependencies changed, in the manifest or else in the lock
/// file of a package with a binary.
pub fn add_dependencies_update_if_any(
    diff: &mut Diff,
    are_toml_dependencies_updated: bool,
    are_lock_dependencies_updated: bool,
)
    ensures
        commit_views(final(diff).commits@) == commit_views(old(diff).commits@)
            + dependency_commits(are_toml_dependencies_updated, are_lock_dependencies_updated),
        *final(diff) == (Diff { commits: final(diff).commits, ..*old(diff) }),
{
    let ghost before = diff.commits@;
    if are_toml_dependencies_updated {
        let message = "chore: update Cargo.toml dependencies".to_owned();
        diff.commits.push(Commit::new(NO_COMMIT_ID.to_owned(), message));
        assert(commit_views(diff.commits@) =~= commit_views(before) + seq![toml_commit()]);
    } else if are_lock_dependencies_updated {
        let message = "chore: update Cargo.lock dependencies".to_owned();
        diff.commits.push(Commit::new(NO_COMMIT_ID.to_owned(), message));
        assert(commit_views(diff.commits@) =~= commit_views(before) + seq![lock_commit()]);
    } else {
        assert(commit_views(before) + Seq::<CommitView>::empty() =~= commit_views(before));
    }
}

/// What the walk asks for next.
#[derive(Debug, Clone, Copy, PartialEq, Eq, Structural)]
pub enum Question {
    /// The hash and the message of the current commit.
    CurrentCommit,
    /// Whether the package is as published.
    PackageEquality,
    /// Whether the current commit belongs to a previous version.
    CommitAge,
    /// Whether dependencies changed in the manifest.
    TomlDependencies,
    /// Whether dependencies changed in the lock file.
    LockDependencies,
    /// Whether the current commit changed files of the package.
    ChangedFiles,
    /// To go to the previous commit.
    PreviousCommit,
    /// Nothing: the walk is over.
    Nothing,
}

/// The answer to a question of the walk.
#[derive(Debug)]
pub enum Answer {
    CurrentCommit { hash: String, message: String },
    PackageEquality { are_equal: bool },
    CommitAge { is_ancestor_of_tag: Option<bool>, is_ancestor_of_published: Option<bool> },
    TomlDependencies { are_updated: bool },
    LockDependencies { are_updated: bool },
    ChangedFiles { are_in_package: bool },
    PreviousCommit { exists: bool },
}

/// What an answer says.
pub enum AnswerView {
    CurrentCommit(CommitView),
    PackageEquality(bool),
    CommitAge(bool),
    TomlDependencies(bool),
    LockDependencies(bool),
    ChangedFiles(bool),
    PreviousCommit(bool),
}

impl View for Answer {
    type V = AnswerView;

    open spec fn view(&self) -> AnswerView {
        match self {
            Answer::CurrentCommit { hash, message } => AnswerView::CurrentCommit(
                CommitView { id: hash@, message: message@ },
            ),
            Answer::PackageEquality { are_equal } => AnswerView::PackageEquality(*are_equal),
            Answer::CommitAge { is_ancestor_of_tag, is_ancestor_of_published } =>
                AnswerView::CommitAge(is_older(*is_ancestor_of_tag, *is_ancestor_of_published)),
            Answer::TomlDependencies { are_updated } => AnswerView::TomlDependencies(*are_updated),
            Answer::LockDependencies { are_updated } => AnswerView::LockDependencies(*are_updated),
            Answer::ChangedFiles { are_in_package } => AnswerView::ChangedFiles(*are_in_package),
            Answer::PreviousCommit { exists } => AnswerView::PreviousCommit(*exists),
        }
    }
}

impl AnswerView {
    /// The question that is answered.
    pub open spec fn question(self) -> Question {
        match self {
            AnswerView::CurrentCommit(_) => Question::CurrentCommit,
            AnswerView::PackageEquality(_) => Question::PackageEquality,
            AnswerView::CommitAge(_) => Question::CommitAge,
            AnswerView::TomlDependencies(_) => Question::TomlDependencies,
            AnswerView::LockDependencies(_) => Question::LockDependencies,
            AnswerView::ChangedFiles(_) => Question::ChangedFiles,
            AnswerView::PreviousCommit(_) => Question::PreviousCommit,
        }
    }
}

/// The package whose history is walked.
pub struct WalkedPackage {
    /// The version in the manifest.
    pub version: VersionView,
    /// The published version, where the registry has the package.
    pub registry_version: Option<VersionView>,
    /// Whether the package has a binary.
    pub has_executable: bool,
}

impl WalkedPackage {
    /// The version in the manifest is above the published one.
    pub open spec fn is_ahead(self) -> bool {
        self.registry_version matches Some(v) && v.lower(self.version)
    }
}

/// A state of the walk.
#[verifier::ext_equal]
pub struct WalkView {
    /// What is asked for next.
    pub question: Question,
    /// The commits found so far.
    pub commits: Seq<CommitView>,
    /// Whether the version is published, as far as is known.
    pub is_version_published: bool,
    /// The published version, where the local one is ahead of it.
    pub registry_version: Option<VersionView>,
    /// The current commit.
    pub current: CommitView,
    /// How many commits may still be looked at, the current one included.
    pub remaining: nat,
}

impl WalkView {
    /// The walk ends here. Without commits, the dependencies may still have changed.
    pub open spec fn stopped(self) -> WalkView {
        if self.commits.len() == 0 {
            WalkView { question: Question::TomlDependencies, ..self }
        } else {
            WalkView { question: Question::Nothing, ..self }
        }
    }

    /// The current commit is not part of the published package. A version that is ahead of the
    /// published one is not to be raised further.
    pub open spec fn unreleased(self, package: WalkedPackage) -> WalkView {
        if package.is_ahead() && self.is_version_published {
            WalkView {
                question: Question::ChangedFiles,
                is_version_published: false,
                registry_version: package.registry_version,
                ..self
            }
        } else {
            WalkView { question: Question::ChangedFiles, ..self }
        }
    }

    /// The state after an answer.
    pub open spec fn answered(self, package: WalkedPackage, answer: AnswerView) -> WalkView {
        match answer {
            AnswerView::CurrentCommit(current) => WalkView {
                question: if package.registry_version is Some {
                    Question::PackageEquality
                } else {
                    Question::ChangedFiles
                },
                current,
                ..self
            },
            AnswerView::PackageEquality(are_equal) => if are_equal {
                self.stopped()
            } else {
                WalkView { question: Question::CommitAge, ..self }
            },
            AnswerView::CommitAge(is_too_old) => if is_too_old {
                self.stopped()
            } else {
                self.unreleased(package)
            },
            AnswerView::TomlDependencies(are_updated) => if !are_updated && package.has_executable {
                WalkView { question: Question::LockDependencies, ..self }
            } else {
                WalkView {
                    question: Question::Nothing,
                    commits: self.commits + dependency_commits(are_updated, false),
                    ..self
                }
            },
            AnswerView::LockDependencies(are_updated) => WalkView {
                question: Question::Nothing,
                commits: self.commits + dependency_commits(false, are_updated),
                ..self
            },
            AnswerView::ChangedFiles(are_in_package) => WalkView {
                question: Question::PreviousCommit,
                commits: if are_in_package {
                    self.commits.push(self.current)
                } else {
                    self.commits
                },
                ..self
            },
            AnswerView::PreviousCommit(exists) => if exists && self.remaining > 1 {
                WalkView {
                    question: Question::CurrentCommit,
                    remaining: (self.remaining - 1) as nat,
                    ..self
                }
            } else {
                WalkView { question: Question::Nothing, ..self }
            },
        }
    }
}

/// The walk back through a package's history, from commit to commit, up to its last release.
/// It asks questions about the history, and collects the package's commits from the answers.
#[derive(Debug)]
pub struct DiffWalk {
    diff: Diff,
    version: Version,
    registry_version: Option<Version>,
    has_executable: bool,
    current: Commit,
    remaining: u32,
    question: Question,
}

impl View for DiffWalk {
    type V = WalkView;

    closed spec fn view(&self) -> WalkView {
        WalkView {
            question: self.question,
            commits: commit_views(self.diff.commits@),
            is_version_published: self.diff.is_version_published,
            registry_version: optional_version(self.diff.registry_version),
            current: self.current@,
            remaining: self.remaining as nat,
        }
    }
}

/// Only what a walk determines may differ between `a` and `b`.
pub open spec fn same_but_for_walk(a: Diff, b: Diff) -> bool {
    b == (Diff {
        commits: b.commits,
        is_version_published: b.is_version_published,
        registry_version: b.registry_version,
        ..a
    })
}

impl DiffWalk {
    /// The package whose history is walked.
    pub closed spec fn package(self) -> WalkedPackage {
        WalkedPackage {
            version: self.version@,
            registry_version: optional_version(self.registry_version),
            has_executable: self.has_executable,
        }
    }

    /// The diff so far.
    pub closed spec fn diff(self) -> Diff {
        self.diff
    }

    /// Starts the walk at the current commit. `registry_version` is the published version, where
    /// the registry has the package, and `max_commits` the number of commits that are looked at.
    pub fn new(
        diff: Diff,
        package: &Package,
        registry_version: Option<Version>,
        max_commits: u32,
    ) -> (r: DiffWalk)
        ensures
            r.diff() == diff,
            r.package() == (WalkedPackage {
                version: package.version@,
                registry_version: optional_version(registry_version),
                has_executable: package.has_target(TargetKind::Bin),
            }),
            r@ == (WalkView {
                question: if max_commits > 0 {
                    Question::CurrentCommit
                } else {
                    Question::Nothing
                },
                commits: commit_views(diff.commits@),
                is_version_published: diff.is_version_published,
                registry_version: optional_version(diff.registry_version),
                current: CommitView { id: Seq::empty(), message: Seq::empty() },
                remaining: max_commits as nat,
            }),
    {
        DiffWalk {
            diff,
            version: package.version.clone(),
            registry_version,
            has_executable: contains_executable(package),
            current: Commit::new(String::new(), String::new()),
            remaining: max_commits,
            question: if max_commits > 0 {
                Question::CurrentCommit
            } else {
                Question::Nothing
            },
        }
    }

    /// Starts the walk that goes back to `baseline`. `registry_version` is the published version,
    /// where the registry has the package, and `max_analyze_commits` limits how many commits are
    /// looked at where it does not.
    pub fn since(
        baseline: &Baseline,
        package: &Package,
        registry_version: Option<Version>,
        max_analyze_commits: u32,
    ) -> (r: DiffWalk)
        ensures
            r.diff().base_version == baseline.base_version,
            r.diff().registry_package_exists == (registry_version is Some),
            r.diff().semver_check is Skipped,
            r.package() == (WalkedPackage {
                version: package.version@,
                registry_version: optional_version(registry_version),
                has_executable: package.has_target(TargetKind::Bin),
            }),
            r@ == (WalkView {
                question: Question::CurrentCommit,
                commits: Seq::empty(),
                is_version_published: true,
                registry_version: None,
                current: CommitView { id: Seq::empty(), message: Seq::empty() },
                remaining: if registry_version is Some || max_analyze_commits == 0 {
                    u32::MAX as nat
                } else {
                    max_analyze_commits as nat
                },
            }),
    {
        let mut diff = Diff::new(registry_version.is_some());
        diff.base_version = match &baseline.base_version {
            Some(v) => Some(v.clone()),
            None => None,
        };
        assert(commit_views(diff.commits@) =~= Seq::<CommitView>::empty());
        let max_commits: u32 = commits_to_analyze(registry_version.is_some(), max_analyze_commits);
        DiffWalk::new(diff, package, registry_version, max_commits)
    }

    /// What is asked for next.
    pub fn question(&self) -> (r: Question)
        ensures
            r == self@.question,
    {
        self.question
    }

    /// Takes the answer to the current question.
    pub fn answer(&mut self, answer: Answer)
        requires
            answer@.question() == old(self)@.question,
        ensures
            final(self)@ == old(self)@.answered(old(self).package(), answer@),
            final(self).package() == old(self).package(),
            same_but_for_walk(old(self).diff(), final(self).diff()),
    {
        let ghost commits_before = self.diff.commits@;
        match answer {
            Answer::CurrentCommit { hash, message } => {
                self.current = Commit::new(hash, message);
                self.question = if self.registry_version.is_some() {
                    Question::PackageEquality
                } else {
                    Question::ChangedFiles
                };
            },
            Answer::PackageEquality { are_equal } => {
                if are_equal {
                    self.stop();
                } else {
                    self.question = Question::CommitAge;
                }
            },
            Answer::CommitAge { is_ancestor_of_tag, is_ancestor_of_published } => {
                if is_commit_too_old(is_ancestor_of_tag, is_ancestor_of_published) {
                    self.stop();
                } else {
                    if let Some(registry_version) = &self.registry_version {
                        // The version was raised already: only the changelog is updated.
                        if registry_version.is_lower(&self.version)
                            && self.diff.is_version_published {
                            self.diff.set_version_unpublished(registry_version.clone());
                        }
                    }
                    self.question = Question::ChangedFiles;
                }
            },
            Answer::TomlDependencies { are_updated } => {
                if !are_updated && self.has_executable {
                    self.question = Question::LockDependencies;
                } else {
                    add_dependencies_update_if_any(&mut self.diff, are_updated, false);
                    self.question = Question::Nothing;
                }
            },
            Answer::LockDependencies { are_updated } => {
                add_dependencies_update_if_any(&mut self.diff, false, are_updated);
                self.question = Question::Nothing;
            },
            Answer::ChangedFiles { are_in_package } => {
                if are_in_package {
                    self.diff.commits.push(self.current.clone());
                    assert(commit_views(self.diff.commits@) =~= commit_views(commits_before).push(
                        self.current@,
                    ));
                }
                self.question = Question::PreviousCommit;
            },
            Answer::PreviousCommit { exists } => {
                if exists && self.remaining > 1 {
                    self.remaining = self.remaining - 1;
                    self.question = Question::CurrentCommit;
                } else {
                    self.question = Question::Nothing;
                }
            },
        }
    }

    /// Ends the walk at the current commit, which is part of the last release.
    fn stop(&mut self)
        ensures
            final(self)@ == old(self)@.stopped(),
            final(self).package() == old(self).package(),
            final(self).diff() == old(self).diff(),
    {
        assert(commit_views(self.diff.commits@).len() == self.diff.commits@.len());
        if self.diff.commits.len() == 0 {
            self.question = Question::TomlDependencies;
        } else {
            self.question = Question::Nothing;
        }
    }

    /// The diff that the walk determined.
    pub fn into_diff(self) -> (r: Diff)
        ensures
            r == self.diff(),
            commit_views(r.commits@) == self@.commits,
            r.is_version_published == self@.is_version_published,
            optional_version(r.registry_version) == self@.registry_version,
    {
        self.diff
    }
}

/// What is true of a commit in a package's history.
pub struct CommitFacts {
    pub commit: CommitView,
    /// Whether the package was at this commit as it is published.
    pub is_equal: bool,
    /// Whether the commit belongs to a previous version.
    pub is_too_old: bool,
    /// Whether the commit changed files of the package.
    pub changes_package: bool,
}

/// The history of a package, from the newest commit to the oldest.
pub struct History {
    pub commits: Seq<CommitFacts>,
    /// Whether dependencies changed in the manifest.
    pub toml_updated: bool,
    /// Whether dependencies changed in the lock file.
    pub lock_updated: bool,
}

impl History {
    /// The true answer to `question` at the commit `at`.
    pub open spec fn answer(self, at: int, question: Question) -> AnswerView {
        let facts = self.commits[at];
        match question {
            Question::CurrentCommit => AnswerView::CurrentCommit(facts.commit),
            Question::PackageEquality => AnswerView::PackageEquality(facts.is_equal),
            Question::CommitAge => AnswerView::CommitAge(facts.is_too_old),
            Question::TomlDependencies => AnswerView::TomlDependencies(self.toml_updated),
            Question::LockDependencies => AnswerView::LockDependencies(self.lock_updated),
            Question::ChangedFiles => AnswerView::ChangedFiles(facts.changes_package),
            _ => AnswerView::PreviousCommit(at + 1 < self.commits.len()),
        }
    }

    /// The commit that the walk stands at once `question` is answered at `at`.
    pub open spec fn place_after(self, at: int, question: Question) -> int {
        if question == Question::PreviousCommit && at + 1 < self.commits.len() {
            at + 1
        } else {
            at
        }
    }

    /// The first commit from `i` on, of the first `n`, at which the last release is found; `n`
    /// where there is none. A package that the registry does not have has no release.
    pub open spec fn last_release(self, package: WalkedPackage, i: int, n: int) -> int
        decreases n - i,
    {
        if i >= n {
            n
        } else if package.registry_version is Some && (self.commits[i].is_equal
            || self.commits[i].is_too_old) {
            i
        } else {
            self.last_release(package, i + 1, n)
        }
    }

    /// Those of the first `n` commits that changed files of the package.
    pub open spec fn package_commits(self, n: int) -> Seq<CommitView>
        decreases n,
    {
        if n <= 0 {
            Seq::empty()
        } else if self.commits[n - 1].changes_package {
            self.package_commits(n - 1).push(self.commits[n - 1].commit)
        } else {
            self.package_commits(n - 1)
        }
    }
}

/// The walk from the state `w` at the commit `at`, with true answers to at most `steps` questions.
pub open spec fn walked(
    package: WalkedPackage,
    history: History,
    at: int,
    w: WalkView,
    steps: nat,
) -> WalkView
    decreases steps,
{
    if steps == 0 || w.question == Question::Nothing {
        w
    } else {
        walked(
            package,
            history,
            history.place_after(at, w.question),
            w.answered(package, history.answer(at, w.question)),
            (steps - 1) as nat,
        )
    }
}

/// The walk starts at the newest commit, with nothing found.
pub open spec fn start_of_walk(max_commits: nat) -> WalkView {
    WalkView {
        question: Question::CurrentCommit,
        commits: Seq::empty(),
        is_version_published: true,
        registry_version: None,
        current: CommitView { id: Seq::empty(), message: Seq::empty() },
        remaining: max_commits,
    }
}

/// How many commits are looked at.
pub open spec fn looked_at(history: History, max_commits: nat) -> int {
    if max_commits < history.commits.len() {
        max_commits as int
    } else {
        history.commits.len() as int
    }
}

/// What the walk is to find: the commits of the package that are newer than its last release. A
/// package without such commits has a commit for its dependencies where they changed. The version
/// counts as unpublished where it is ahead of the published one and the newest commit is not
/// released yet.
pub open spec fn is_walk_result(
    package: WalkedPackage,
    history: History,
    max_commits: nat,
    w: WalkView,
) -> bool {
    let n = looked_at(history, max_commits);
    let release = history.last_release(package, 0, n);
    let own = history.package_commits(release);
    &&& w.question == Question::Nothing
    &&& w.commits == (if own.len() == 0 && release < n {
        dependency_commits(history.toml_updated, package.has_executable && history.lock_updated)
    } else {
        own
    })
    &&& w.is_version_published == !(package.is_ahead() && release > 0)
    &&& w.registry_version == (if package.is_ahead() && release > 0 {
        package.registry_version
    } else {
        None
    })
}

/// `w` is the state at the commit `at`, before anything is asked about it.
spec fn is_reached(
    package: WalkedPackage,
    history: History,
    max_commits: nat,
    at: int,
    w: WalkView,
) -> bool {
    let n = looked_at(history, max_commits);
    &&& 0 <= at < n
    &&& history.last_release(package, 0, n) == history.last_release(package, at, n)
    &&& w.question == Question::CurrentCommit
    &&& w.commits == history.package_commits(at)
    &&& w.is_version_published == !(package.is_ahead() && at > 0)
    &&& w.registry_version == (if package.is_ahead() && at > 0 {
        package.registry_version
    } else {
        None
    })
    &&& w.remaining == max_commits - at
}

/// One step of the walk.
proof fn lemma_step(package: WalkedPackage, history: History, at: int, w: WalkView, steps: nat)
    requires
        steps > 0,
        w.question != Question::Nothing,
    ensures
        walked(package, history, at, w, steps) == walked(
            package,
            history,
            history.place_after(at, w.question),
            w.answered(package, history.answer(at, w.question)),
            (steps - 1) as nat,
        ),
{
}

/// The walk ends at a commit that is part of the last release.
proof fn lemma_walk_stops(
    package: WalkedPackage,
    history: History,
    max_commits: nat,
    at: int,
    w: WalkView,
    steps: nat,
)
    requires
        is_reached(package, history, max_commits, at, w),
        package.registry_version is Some,
        history.commits[at].is_equal || history.commits[at].is_too_old,
        steps >= 5,
    ensures
        is_walk_result(package, history, max_commits, walked(package, history, at, w, steps)),
{
    let n = looked_at(history, max_commits);
    assert(history.last_release(package, at, n) == at);
    let w1 = w.answered(package, history.answer(at, w.question));
    lemma_step(package, history, at, w, steps);
    let w2 = w1.answered(package, history.answer(at, w1.question));
    lemma_step(package, history, at, w1, (steps - 1) as nat);
    let (w3, left) = if history.commits[at].is_equal {
        (w2, (steps - 2) as nat)
    } else {
        lemma_step(package, history, at, w2, (steps - 2) as nat);
        (w2.answered(package, history.answer(at, w2.question)), (steps - 3) as nat)
    };
    assert(w3 == w1.stopped());
    if w3.question != Question::Nothing {
        assert(w3.commits =~= Seq::<CommitView>::empty());
        let w4 = w3.answered(package, history.answer(at, w3.question));
        lemma_step(package, history, at, w3, left);
        let wanted = dependency_commits(
            history.toml_updated,
            package.has_executable && history.lock_updated,
        );
        assert(Seq::<CommitView>::empty() + wanted =~= wanted);
        if w4.question != Question::Nothing {
            let w5 = w4.answered(package, history.answer(at, w4.question));
            lemma_step(package, history, at, w4, (left - 1) as nat);
            assert(w5.commits == wanted);
            assert(walked(package, history, at, w5, (left - 2) as nat) == w5);
        } else {
            assert(w4.commits == wanted);
            assert(walked(package, history, at, w4, (left - 1) as nat) == w4);
        }
    }
}

/// The walk goes on behind a commit that is not part of the last release.
proof fn lemma_walk_goes_on(
    package: WalkedPackage,
    history: History,
    max_commits: nat,
    at: int,
    w: WalkView,
    steps: nat,
) -> (r: (WalkView, nat))
    requires
        is_reached(package, history, max_commits, at, w),
        package.registry_version is None || !(history.commits[at].is_equal
            || history.commits[at].is_too_old),
        steps >= 5,
    ensures
        r.1 >= steps - 5,
        history.last_release(package, at, looked_at(history, max_commits)) == history.last_release(
            package,
            at + 1,
            looked_at(history, max_commits),
        ),
        at + 1 < looked_at(history, max_commits) ==> {
            &&& is_reached(package, history, max_commits, at + 1, r.0)
            &&& walked(package, history, at, w, steps) == walked(
                package,
                history,
                at + 1,
                r.0,
                r.1,
            )
        },
        at + 1 == looked_at(history, max_commits) ==> is_walk_result(
            package,
            history,
            max_commits,
            walked(package, history, at, w, steps),
        ),
{
    let n = looked_at(history, max_commits);
    assert(history.last_release(package, at, n) == history.last_release(package, at + 1, n));
    let w1 = w.answered(package, history.answer(at, w.question));
    lemma_step(package, history, at, w, steps);
    let (w3, left) = if package.registry_version is Some {
        let w2 = w1.answered(package, history.answer(at, w1.question));
        lemma_step(package, history, at, w1, (steps - 1) as nat);
        lemma_step(package, history, at, w2, (steps - 2) as nat);
        (w2.answered(package, history.answer(at, w2.question)), (steps - 3) as nat)
    } else {
        (w1, (steps - 1) as nat)
    };
    assert(w3.question == Question::ChangedFiles);
    let w4 = w3.answered(package, history.answer(at, w3.question));
    lemma_step(package, history, at, w3, left);
    assert(w4.commits == history.package_commits(at + 1));
    let w5 = w4.answered(package, history.answer(at, w4.question));
    lemma_step(package, history, at, w4, (left - 1) as nat);
    if at + 1 == n {
        assert(w5.question == Question::Nothing);
        assert(history.last_release(package, at + 1, n) == n);
    }
    (w5, (left - 2) as nat)
}

/// The walk from the commit `at` on.
proof fn lemma_walk(
    package: WalkedPackage,
    history: History,
    max_commits: nat,
    at: int,
    w: WalkView,
    steps: nat,
)
    requires
        is_reached(package, history, max_commits, at, w),
        steps >= 5 * (looked_at(history, max_commits) - at),
    ensures
        is_walk_result(package, history, max_commits, walked(package, history, at, w, steps)),
    decreases looked_at(history, max_commits) - at,
{
    if package.registry_version is Some && (history.commits[at].is_equal
        || history.commits[at].is_too_old) {
        lemma_walk_stops(package, history, max_commits, at, w, steps);
    } else {
        let (next, left) = lemma_walk_goes_on(package, history, max_commits, at, w, steps);
        if at + 1 < looked_at(history, max_commits) {
            lemma_walk(package, history, max_commits, at + 1, next, left);
        }
    }
}

/// The walk through a history ends, and finds what it is to find: with true answers, at most five
/// questions are asked for each commit, and the commits collected are those of the package since
/// its last release.
pub proof fn law_walk_finds_unreleased_commits(
    package: WalkedPackage,
    history: History,
    max_commits: nat,
    steps: nat,
)
    requires
        max_commits > 0,
        history.commits.len() > 0,
        steps >= 5 * history.commits.len(),
    ensures
        is_walk_result(
            package,
            history,
            max_commits,
            walked(package, history, 0, start_of_walk(max_commits), steps),
        ),
{
    lemma_walk(package, history, max_commits, 0, start_of_walk(max_commits), steps);
}

/// Only questions that are asked are answered: a true answer to a question is an answer to it.
pub proof fn law_true_answers_fit(history: History, at: int, question: Question)
    requires
        question != Question::Nothing,
    ensures
        history.answer(at, question).question() == question,
{
}

/// No commit of the last release or before it is collected: every commit that the walk finds is
/// either newer than the last release and changed the package, or stands for the dependencies.
pub proof fn law_collected_commits_are_unreleased(
    package: WalkedPackage,
    history: History,
    max_commits: nat,
    w: WalkView,
    c: CommitView,
)
    requires
        is_walk_result(package, history, max_commits, w),
        w.commits.contains(c),
    ensures
        c == toml_commit() || c == lock_commit() || exists|i: int|
            {
                &&& 0 <= i < history.commits.len() && i < max_commits
                &&& (#[trigger] history.commits[i]).commit == c
                &&& history.commits[i].changes_package
                &&& package.registry_version is Some ==> !history.commits[i].is_equal
                    && !history.commits[i].is_too_old
            },
{
    let n = looked_at(history, max_commits);
    lemma_last_release(package, history, 0, n);
    let release = history.last_release(package, 0, n);
    if !(history.package_commits(release).len() == 0 && release < n) {
        lemma_package_commits(history, release, c);
    }
}

/// The commits before the last release are not part of it.
proof fn lemma_last_release(package: WalkedPackage, history: History, i: int, n: int)
    requires
        0 <= i <= n <= history.commits.len(),
    ensures
        i <= history.last_release(package, i, n) <= n,
        forall|j: int|
            i <= j < history.last_release(package, i, n) && package.registry_version is Some
                ==> !(#[trigger] history.commits[j]).is_equal && !history.commits[j].is_too_old,
    decreases n - i,
{
    if i < n {
        lemma_last_release(package, history, i + 1, n);
    }
}

/// The commits of the package are among the commits.
proof fn lemma_package_commits(history: History, n: int, c: CommitView)
    requires
        0 <= n <= history.commits.len(),
        history.package_commits(n).contains(c),
    ensures
        exists|i: int|
            0 <= i < n && (#[trigger] history.commits[i]).commit == c
                && history.commits[i].changes_package,
    decreases n,
{
    if n > 0 {
        let before = history.package_commits(n - 1);
        let now = history.package_commits(n);
        let k = choose|k: int| 0 <= k < now.len() && now[k] == c;
        if k < before.len() {
            assert(before[k] == c);
            lemma_package_commits(history, n - 1, c);
        } else {
            assert(history.commits[n - 1].commit == c);
        }
    }
}

/// What the walk notes of the version: it counts as unpublished, with the published version noted,
/// exactly where the registry has a version that is lower than the one in the manifest and the newest
/// commit is neither as published nor part of a previous version. In all other cases it counts as
/// published, and nothing is noted.
pub proof fn law_walk_notes_a_raised_version(
    package: WalkedPackage,
    history: History,
    max_commits: nat,
    steps: nat,
)
    requires
        max_commits > 0,
        history.commits.len() > 0,
        steps >= 5 * history.commits.len(),
    ensures
        ({
            let w = walked(package, history, 0, start_of_walk(max_commits), steps);
            let newest = history.commits[0];
            match package.registry_version {
                Some(published) => if published.lower(package.version) && !newest.is_equal
                    && !newest.is_too_old {
                    !w.is_version_published && w.registry_version == Some(published)
                } else {
                    w.is_version_published && w.registry_version is None
                },
                None => w.is_version_published && w.registry_version is None,
            }
        }),
{
    law_walk_finds_unreleased_commits(package, history, max_commits, steps);
    let n = looked_at(history, max_commits);
    lemma_last_release(package, history, 1, n);
    assert(history.last_release(package, 0, n) > 0 <==> package.registry_version is None || !(
    history.commits[0].is_equal || history.commits[0].is_too_old));
}

/// The places of the commits that changed the package, among the first ones, tell what is collected.
proof fn lemma_places_of_package_commits(history: History, n: int) -> (from: Seq<int>)
    requires
        0 <= n <= history.commits.len(),
    ensures
        history.package_commits(n).len() == from.len(),
        forall|k: int|
            0 <= k < from.len() ==> 0 <= #[trigger] from[k] < n
                && history.commits[from[k]].changes_package && history.package_commits(n)[k]
                == history.commits[from[k]].commit,
        forall|a: int, b: int| 0 <= a < b < from.len() ==> from[a] < from[b],
        forall|i: int|
            0 <= i < n && (#[trigger] history.commits[i]).changes_package ==> from.contains(i),
    decreases n,
{
    if n <= 0 {
        Seq::empty()
    } else {
        let before = lemma_places_of_package_commits(history, n - 1);
        let from = if history.commits[n - 1].changes_package {
            before.push(n - 1)
        } else {
            before
        };
        assert forall|i: int|
            0 <= i < n && (#[trigger] history.commits[i]).changes_package implies from.contains(
            i,
        ) by {
            if i < n - 1 {
                assert(before.contains(i));
                let k = choose|k: int| 0 <= k < before.len() && before[k] == i;
                assert(from[k] == i);
            } else {
                assert(from[from.len() - 1] == i);
            }
        }
        from
    }
}

/// What the walk collects, from the newest commit to the oldest. Of the commits that are looked at, it
/// goes through all that stand before the first one that is as published or part of a previous
/// version, at the place `release`; there is no such commit where the registry does not have the
/// package. Of those it collects the ones that changed the package, all of them, once and in order;
/// `from` are their places. Only where there are none, and the last release was found, a commit
/// stands for changed dependencies: those in the manifest, else those in the lock file of a package
/// with a binary.
pub proof fn law_walk_collects_exactly(
    package: WalkedPackage,
    history: History,
    max_commits: nat,
    steps: nat,
) -> (r: (int, Seq<int>))
    requires
        max_commits > 0,
        history.commits.len() > 0,
        steps >= 5 * history.commits.len(),
    ensures
        ({
            let w = walked(package, history, 0, start_of_walk(max_commits), steps);
            let (release, from) = r;
            let is_found = release < history.commits.len() && release < max_commits;
            &&& w.question == Question::Nothing
            &&& 0 <= release <= history.commits.len() && release <= max_commits
            &&& forall|i: int|
                0 <= i < release && package.registry_version is Some ==> !(
                #[trigger] history.commits[i]).is_equal && !history.commits[i].is_too_old
            &&& is_found ==> package.registry_version is Some && (history.commits[release].is_equal
                || history.commits[release].is_too_old)
            &&& forall|k: int|
                0 <= k < from.len() ==> 0 <= #[trigger] from[k] < release
                    && history.commits[from[k]].changes_package
            &&& forall|a: int, b: int| 0 <= a < b < from.len() ==> from[a] < from[b]
            &&& forall|i: int|
                0 <= i < release && (#[trigger] history.commits[i]).changes_package
                    ==> from.contains(i)
            &&& from.len() > 0 || !is_found ==> w.commits.len() == from.len() && forall|k: int|
                0 <= k < from.len() ==> #[trigger] w.commits[k] == history.commits[from[k]].commit
            &&& from.len() == 0 && is_found ==> (w.commits.len() == 0 <==> !history.toml_updated
                && !(package.has_executable && history.lock_updated))
            &&& from.len() == 0 && is_found && w.commits.len() > 0 ==> w.commits.len() == 1
                && w.commits[0].id == NO_COMMIT_ID@ && w.commits[0].message == (
            if history.toml_updated {
                "chore: update Cargo.toml dependencies"@
            } else {
                "chore: update Cargo.lock dependencies"@
            })
        }),
{
    law_walk_finds_unreleased_commits(package, history, max_commits, steps);
    let n = looked_at(history, max_commits);
    lemma_last_release(package, history, 0, n);
    lemma_release_is_one(package, history, 0, n);
    let release = history.last_release(package, 0, n);
    let from = lemma_places_of_package_commits(history, release);
    (release, from)
}

/// The place of the last release is that of a commit of it.
proof fn lemma_release_is_one(package: WalkedPackage, history: History, i: int, n: int)
    requires
        0 <= i <= n <= history.commits.len(),
    ensures
        ({
            let r = history.last_release(package, i, n);
            r < n ==> package.registry_version is Some && (history.commits[r].is_equal
                || history.commits[r].is_too_old)
        }),
    decreases n - i,
{
    if i < n {
        lemma_release_is_one(package, history, i + 1, n);
    }
}

/// A commit belongs to a previous version where it is known to be an ancestor of one of the two
/// commits. What is not known does not count, and the two count alike.
pub proof fn law_commit_age(a: Option<bool>, b: Option<bool>)
    ensures
        is_older(a, b) == is_older(b, a),
        is_older(Some(true), a),
        is_older(Some(false), a) == is_older(None, a),
        !is_older(None, None),
{
}

/// How many commits are looked at: any number where the registry has the package or no limit is set,
/// and else no more than the limit. There is always one.
pub proof fn law_commits_to_analyze(exists_in_registry: bool, limit: u32, r: u32)
    requires
        call_ensures(commits_to_analyze, (exists_in_registry, limit), r),
    ensures
        r > 0,
        exists_in_registry || limit == 0 ==> r == u32::MAX,
        !exists_in_registry && limit > 0 ==> r == limit,
{
}

/// Where a walk starts: at the current commit, with nothing collected and the version taken for
/// published. What it counts from is what the baseline says, and the registry has the package exactly
/// where it has a version of it.
pub proof fn law_start_of_walk(
    baseline: &Baseline,
    package: &Package,
    registry_version: Option<Version>,
    max_analyze_commits: u32,
    r: DiffWalk,
)
    requires
        call_ensures(
            DiffWalk::since,
            (baseline, package, registry_version, max_analyze_commits),
            r,
        ),
    ensures
        r.diff().base_version == baseline.base_version,
        r.diff().registry_package_exists <==> registry_version is Some,
        r.diff().semver_check is Skipped,
        r@.commits.len() == 0,
        r@.is_version_published,
        r@.registry_version is None,
        r@.question == Question::CurrentCommit,
        r.package().version == package.version@,
        r.package().registry_version is Some <==> registry_version is Some,
        registry_version matches Some(v) ==> r.package().registry_version == Some(v@),
        registry_version is Some || max_analyze_commits == 0 ==> r@.remaining == u32::MAX,
        registry_version is None && max_analyze_commits > 0 ==> r@.remaining == max_analyze_commits,
        r.package().has_executable <==> exists|i: int, j: int|
            0 <= i < package.targets@.len() && 0 <= j < package.targets@[i].kinds@.len()
                && #[trigger] package.targets@[i].kinds@[j] == TargetKind::Bin,
{
}

/// What an answer changes. The current commit is the one that was told. A commit that is as published,
/// or an ancestor of the tagged or of the published one, ends the walk and changes nothing else; only
/// without commits are the dependencies asked for. At another commit, a version in the manifest that
/// is above the published one counts as unpublished from then on, and the published one is noted. A
/// commit is added exactly where its files are in the package, as it is. The walk goes on where there
/// is a previous commit and more may be looked at.
pub proof fn law_answers(walk: &mut DiffWalk, answer: Answer)
    requires
        call_ensures(DiffWalk::answer, (walk, answer), ()),
    ensures
        final(walk).package() == old(walk).package(),
        answer !is CurrentCommit ==> final(walk)@.current == old(walk)@.current,
        answer !is PreviousCommit ==> final(walk)@.remaining == old(walk)@.remaining,
        final(walk).diff().registry_package_exists == old(walk).diff().registry_package_exists,
        final(walk).diff().base_version == old(walk).diff().base_version,
        final(walk).diff().semver_check == old(walk).diff().semver_check,
        answer matches Answer::CurrentCommit { hash, message } ==> {
            &&& final(walk)@.current.id == hash@
            &&& final(walk)@.current.message == message@
            &&& final(walk)@.commits == old(walk)@.commits
            &&& final(walk)@.registry_version == old(walk)@.registry_version
            &&& final(walk)@.is_version_published == old(walk)@.is_version_published
            &&& old(walk).package().registry_version is Some ==> final(walk)@.question
                == Question::PackageEquality
            &&& old(walk).package().registry_version is None ==> final(walk)@.question
                == Question::ChangedFiles
        },
        answer matches Answer::PackageEquality { are_equal } ==> {
            &&& final(walk)@.commits == old(walk)@.commits
            &&& final(walk)@.is_version_published == old(walk)@.is_version_published
            &&& final(walk)@.registry_version == old(walk)@.registry_version
            &&& !are_equal ==> final(walk)@.question == Question::CommitAge
            &&& are_equal ==> final(walk)@.question == (if old(walk)@.commits.len() == 0 {
                Question::TomlDependencies
            } else {
                Question::Nothing
            })
        },
        answer matches Answer::CommitAge { is_ancestor_of_tag, is_ancestor_of_published } ==> {
            let is_released = (is_ancestor_of_tag matches Some(b) && b) || (
            is_ancestor_of_published matches Some(b) && b);
            let published = old(walk).package().registry_version;
            &&& final(walk)@.commits == old(walk)@.commits
            &&& is_released ==> {
                &&& final(walk)@.is_version_published == old(walk)@.is_version_published
                &&& final(walk)@.registry_version == old(walk)@.registry_version
                &&& final(walk)@.question == (if old(walk)@.commits.len() == 0 {
                    Question::TomlDependencies
                } else {
                    Question::Nothing
                })
            }
            &&& !is_released ==> final(walk)@.question == Question::ChangedFiles
            &&& !is_released && old(walk)@.is_version_published ==> (
            final(walk)@.is_version_published <==> !(published matches Some(v) && v.lower(
                old(walk).package().version,
            )))
            &&& !is_released && old(walk)@.is_version_published
                && !final(walk)@.is_version_published ==> final(walk)@.registry_version == published
            &&& final(walk)@.is_version_published == old(walk)@.is_version_published
                ==> final(walk)@.registry_version == old(walk)@.registry_version
        },
        answer matches Answer::ChangedFiles { are_in_package } ==> {
            &&& final(walk)@.question == Question::PreviousCommit
            &&& final(walk)@.is_version_published == old(walk)@.is_version_published
            &&& final(walk)@.registry_version == old(walk)@.registry_version
            &&& are_in_package ==> final(walk)@.commits == old(walk)@.commits.push(
                old(walk)@.current,
            )
            &&& !are_in_package ==> final(walk)@.commits == old(walk)@.commits
        },
        answer matches Answer::TomlDependencies { are_updated } ==> {
            &&& final(walk)@.is_version_published == old(walk)@.is_version_published
            &&& final(walk)@.registry_version == old(walk)@.registry_version
            &&& are_updated ==> final(walk)@.question == Question::Nothing
                && final(walk)@.commits.len() == old(walk)@.commits.len() + 1
                && final(walk)@.commits.last().message == "chore: update Cargo.toml dependencies"@
            &&& !are_updated ==> final(walk)@.commits == old(walk)@.commits && (
            final(walk)@.question == Question::LockDependencies
                <==> old(walk).package().has_executable)
        },
        answer matches Answer::LockDependencies { are_updated } ==> {
            &&& final(walk)@.question == Question::Nothing
            &&& final(walk)@.is_version_published == old(walk)@.is_version_published
            &&& final(walk)@.registry_version == old(walk)@.registry_version
            &&& are_updated ==> final(walk)@.commits.len() == old(walk)@.commits.len() + 1
                && final(walk)@.commits.last().message == "chore: update Cargo.lock dependencies"@
            &&& !are_updated ==> final(walk)@.commits == old(walk)@.commits
        },
        answer matches Answer::PreviousCommit { exists: is_there } ==> {
            &&& final(walk)@.commits == old(walk)@.commits
            &&& final(walk)@.is_version_published == old(walk)@.is_version_published
            &&& final(walk)@.registry_version == old(walk)@.registry_version
            &&& is_there && old(walk)@.remaining > 1 ==> final(walk)@.question
                == Question::CurrentCommit && final(walk)@.remaining + 1 == old(walk)@.remaining
            &&& !is_there || old(walk)@.remaining <= 1 ==> final(walk)@.question == Question::Nothing
        },
{
    match answer {
        Answer::TomlDependencies { are_updated } => {
            assert(old(walk)@.commits + Seq::<CommitView>::empty() =~= old(walk)@.commits);
            assert((old(walk)@.commits + seq![toml_commit()]).last() == toml_commit());
        },
        Answer::LockDependencies { are_updated } => {
            assert(old(walk)@.commits + Seq::<CommitView>::empty() =~= old(walk)@.commits);
            assert((old(walk)@.commits + seq![lock_commit()]).last() == lock_commit());
        },
        _ => {},
    }
}

/// The diff of a walk has the commits that the walk found, as they are, and what it noted about the
/// version; the rest is as it was at the start.
pub proof fn law_diff_of_the_walk(walk: DiffWalk, r: Diff)
    requires
        call_ensures(DiffWalk::into_diff, (walk,), r),
    ensures
        r == walk.diff(),
        r.commits@.len() == walk@.commits.len(),
        forall|i: int|
            0 <= i < r.commits@.len() ==> (#[trigger] r.commits@[i]).id@ == walk@.commits[i].id
                && r.commits@[i].message@ == walk@.commits[i].message,
        r.is_version_published == walk@.is_version_published,
        r.registry_version is Some <==> walk@.registry_version is Some,
        r.registry_version matches Some(v) ==> walk@.registry_version == Some(v@),
{
    assert(commit_views(r.commits@).len() == r.commits@.len());
    assert forall|i: int| 0 <= i < r.commits@.len() implies (#[trigger] r.commits@[i]).id@
        == walk@.commits[i].id && r.commits@[i].message@ == walk@.commits[i].message by {
        assert(commit_views(r.commits@)[i] == r.commits@[i]@);
    }
}

/// A commit is too old where it is an ancestor of the tagged commit or of the published one, and
/// nothing else makes it so.
pub proof fn law_too_old(tag: Option<bool>, published: Option<bool>, r: bool)
    requires
        call_ensures(is_commit_too_old, (tag, published), r),
    ensures
        r <==> (tag matches Some(b) && b) || (published matches Some(b) && b),
{
}

/// Changed dependencies add one commit at the end: for the manifest wherever that changed, else for
/// the lock file; nothing else of the diff changes.
pub proof fn law_added_dependency_commit(
    diff: &mut Diff,
    are_toml_dependencies_updated: bool,
    are_lock_dependencies_updated: bool,
)
    requires
        call_ensures(
            add_dependencies_update_if_any,
            (diff, are_toml_dependencies_updated, are_lock_dependencies_updated),
            (),
        ),
    ensures
        final(diff).is_version_published == old(diff).is_version_published,
        final(diff).registry_version == old(diff).registry_version,
        final(diff).base_version == old(diff).base_version,
        final(diff).registry_package_exists == old(diff).registry_package_exists,
        final(diff).commits@.len() == old(diff).commits@.len() + (if are_toml_dependencies_updated
            || are_lock_dependencies_updated {
            1int
        } else {
            0int
        }),
        forall|i: int|
            0 <= i < old(diff).commits@.len() ==> (#[trigger] final(diff).commits@[i])@ == old(
                diff,
            ).commits@[i]@,
        are_toml_dependencies_updated ==> final(diff).commits@.last().message@
            == "chore: update Cargo.toml dependencies"@,
        !are_toml_dependencies_updated && are_lock_dependencies_updated
            ==> final(diff).commits@.last().message@ == "chore: update Cargo.lock dependencies"@,
{
    let before = commit_views(old(diff).commits@);
    let after = commit_views(final(diff).commits@);
    assert(after.len() == final(diff).commits@.len());
    assert(before.len() == old(diff).commits@.len());
    assert forall|i: int| 0 <= i < old(diff).commits@.len() implies (
    #[trigger] final(diff).commits@[i])@ == old(diff).commits@[i]@ by {
        assert(after[i] == before[i]);
    }
    if are_toml_dependencies_updated || are_lock_dependencies_updated {
        let last = after.len() - 1;
        assert(after[last] == final(diff).commits@[last]@);
    }
}

} // verus!
