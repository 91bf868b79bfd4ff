//! What goes into a package's changelog.
use vstd::hash_map::StringHashMap;
use vstd::prelude::*;
use vstd::string::*;

use crate::dependents::DependentUpdate;
use crate::diff::{Commit, SemverCheck};
#[allow(unused_imports)]
use crate::diff::{commit_views, law_added_commits, with_commits, CommitView, Diff};
#[allow(unused_imports)]
use crate::increment::optional_text;
use crate::package::{contains_library, should_check_semver, Package};
#[allow(unused_imports)]
use crate::package::TargetKind;
use crate::paths::FilePath;
use crate::semver::Version;
#[allow(unused_imports)]
use crate::semver::VersionView;
use crate::text::{first_line, same_text};
#[allow(unused_imports)]
use crate::text::{begins_with_line, first_line_of, law_first_line};
use crate::updater::{PackageDiff, Updater};

verus! {

/// The commits of the last of `packages` that is called `name`.
pub open spec fn commits_of(packages: Seq<PackageDiff>, name: Seq<char>) -> Option<Seq<Commit>>
    decreases packages.len(),
{
    if packages.len() == 0 {
        None
    } else if packages.last().package.name@ == name {
        Some(packages.last().diff.commits@)
    } else {
        commits_of(packages.drop_last(), name)
    }
}

/// The commits that `known` has for the package called `name`.
pub open spec fn known_commits(known: Map<Seq<char>, Vec<Commit>>, name: Seq<char>) -> Option<
    Seq<Commit>,
> {
    if known.contains_key(name) {
        Some(known[name]@)
    } else {
        None
    }
}

/// `known` has the commits of each package.
pub open spec fn are_packages_commits(
    packages: Seq<PackageDiff>,
    known: Map<Seq<char>, Vec<Commit>>,
) -> bool {
    forall|name: Seq<char>|
        known_commits(known, name) == #[trigger] commits_of(packages, name)
}

/// A copy of `commits`.
fn cloned_commits(commits: &Vec<Commit>) -> (r: Vec<Commit>)
    ensures
        r@ == commits@,
{
    let mut out: Vec<Commit> = Vec::new();
    for i in 0..commits.len()
        invariant
            out@ == commits@.take(i as int),
    {
        out.push(commits[i].clone());
        assert(commits@.take(i + 1) =~= commits@.take(i as int).push(commits@[i as int]));
    }
    assert(commits@.take(commits@.len() as int) =~= commits@);
    out
}

/// The commits of each package, by its name.
pub fn packages_commits(packages_diffs: &Vec<PackageDiff>) -> (r: StringHashMap<Vec<Commit>>)
    ensures
        are_packages_commits(packages_diffs@, r@),
{
    let mut known: StringHashMap<Vec<Commit>> = StringHashMap::new();
    for i in 0..packages_diffs.len()
        invariant
            are_packages_commits(packages_diffs@.take(i as int), known@),
    {
        let p = &packages_diffs[i];
        let ghost seen = packages_diffs@.take(i as int);
        let ghost now = packages_diffs@.take(i + 1);
        let ghost before = known@;
        assert(now.drop_last() =~= seen);
        assert(now.last() == *p);
        known.insert(p.package.name.clone(), cloned_commits(&p.diff.commits));
        assert forall|name: Seq<char>| known_commits(known@, name) == #[trigger] commits_of(
            now,
            name,
        ) by {
            assert(known_commits(before, name) == commits_of(seen, name));
        }
    }
    assert(packages_diffs@.take(packages_diffs@.len() as int) =~= packages_diffs@);
    known
}

/// `commits`, and behind them the commits that `known` has for the packages called `names`, as far
/// as they are not there yet.
pub open spec fn with_packages(
    commits: Seq<Commit>,
    names: Seq<String>,
    known: Map<Seq<char>, Vec<Commit>>,
) -> Seq<Commit>
    decreases names.len(),
{
    if names.len() == 0 {
        commits
    } else {
        let before = with_packages(commits, names.drop_last(), known);
        match known_commits(known, names.last()@) {
            Some(more) => with_commits(before, more),
            None => before,
        }
    }
}

impl<'a> Updater<'a> {
    /// Adds the commits of those packages whose commits go into the changelog of `p` too. A
    /// package that the registry does not have gets none.
    pub fn add_packages_commits(&self, p: &mut PackageDiff, commits: &StringHashMap<Vec<Commit>>)
        ensures
            final(p).diff.commits@ == (if old(p).diff.registry_package_exists {
                with_packages(
                    old(p).diff.commits@,
                    self.req.config(old(p).package.name@).changelog_include@,
                    commits@,
                )
            } else {
                old(p).diff.commits@
            }),
            *final(p) == (PackageDiff {
                diff: Diff { commits: final(p).diff.commits, ..old(p).diff },
                ..*old(p)
            }),
    {
        if !p.diff.registry_package_exists {
            return;
        }
        let ghost start = *p;
        let config = self.req.get_package_config(p.package.name.as_str());
        let names = &config.changelog_include;
        for i in 0..names.len()
            invariant
                p.diff.commits@ == with_packages(
                    start.diff.commits@,
                    names@.take(i as int),
                    commits@,
                ),
                *p == (PackageDiff {
                    diff: Diff { commits: p.diff.commits, ..start.diff },
                    ..start
                }),
        {
            let ghost now = names@.take(i + 1);
            assert(now.drop_last() =~= names@.take(i as int));
            assert(now.last() == names@[i as int]);
            if let Some(more) = commits.get(names[i].as_str()) {
                p.diff.add_commits(more);
            }
        }
        assert(names@.take(names@.len() as int) =~= names@);
    }

    /// Whether a check of a package's API is wanted, so that the tool for it is needed: the registry
    /// has the package, and there is a library in it.
    pub fn wants_semver_check(&self, p: &PackageDiff) -> (r: bool)
        ensures
            r == (p.diff.registry_package_exists && self.req.config(
                p.package.name@,
            ).generic.semver_check && p.package.has_target(TargetKind::Lib)),
    {
        let config = self.req.get_package_config(p.package.name.as_str());
        p.diff.registry_package_exists && config.generic.semver_check && contains_library(
            &p.package,
        )
    }

    /// Whether the API of a package is to be checked: the registry has the package, the check is
    /// wanted and possible, and there are changes that need a new version.
    pub fn needs_semver_check(&self, p: &PackageDiff, is_tool_installed: bool) -> (r: bool)
        ensures
            r == (p.diff.wants_update() && self.req.config(p.package.name@).generic.semver_check
                && p.package.has_target(TargetKind::Lib) && is_tool_installed),
    {
        let config = self.req.get_package_config(p.package.name.as_str());
        p.diff.registry_package_exists && should_check_semver(
            &p.package,
            config.generic.semver_check,
            is_tool_installed,
        ) && p.diff.should_update_version()
    }
}

/// `message` is a conventional commit.
pub uninterp spec fn is_conventional_message(message: Seq<char>) -> bool;

/// Asks `git_cliff_core::commit::Commit::into_conventional` whether a message is a conventional
/// commit. The answer depends on the message alone.
#[verifier::external_body]
fn ask_is_conventional(message: &str) -> (r: bool)
    ensures
        r == is_conventional_message(message@),
{
    let commit = git_cliff_core::commit::Commit::new(String::new(), message.to_string());
    commit.into_conventional().is_ok()
}

impl Commit {
    /// Whether the message is a conventional commit.
    pub fn is_conventional(&self) -> (r: bool)
        ensures
            r == is_conventional_message(self.message@),
    {
        ask_is_conventional(self.message.as_str())
    }

    /// The commit as it goes into a changelog: as it is where it is conventional, else with the
    /// first line of its message, if there is one.
    pub fn for_changelog(self, is_conventional: bool) -> (r: Option<Commit>)
        ensures
            optional_commit(r) == self@.for_changelog(is_conventional),
    {
        if is_conventional {
            return Some(self);
        }
        match first_line(self.message.as_str()) {
            Some(line) => {
                let message = line.to_owned();
                Some(Commit { id: self.id, message })
            },
            None => None,
        }
    }
}

/// What a commit that may be missing consists of.
pub open spec fn optional_commit(c: Option<Commit>) -> Option<CommitView> {
    match c {
        Some(c) => Some(c@),
        None => None,
    }
}

impl CommitView {
    /// The commit as it goes into a changelog.
    pub open spec fn for_changelog(self, is_conventional: bool) -> Option<CommitView> {
        if is_conventional {
            Some(self)
        } else {
            match first_line_of(self.message) {
                Some(line) => Some(CommitView { message: line, ..self }),
                None => None,
            }
        }
    }
}

/// The commits as they go into a changelog.
pub open spec fn commits_for_changelog(commits: Seq<CommitView>) -> Seq<CommitView>
    decreases commits.len(),
{
    if commits.len() == 0 {
        Seq::empty()
    } else {
        let before = commits_for_changelog(commits.drop_last());
        let last = commits.last();
        match last.for_changelog(is_conventional_message(last.message)) {
            Some(c) => before.push(c),
            None => before,
        }
    }
}

/// The commits as they go into a changelog: of a message that is not conventional, only the first
/// line counts.
pub fn changelog_commits(commits: &Vec<Commit>) -> (r: Vec<Commit>)
    ensures
        commit_views(r@) == commits_for_changelog(commit_views(commits@)),
{
    let mut out: Vec<Commit> = Vec::new();
    let ghost all = commit_views(commits@);
    assert(commit_views(out@) =~= commits_for_changelog(all.take(0)));
    for i in 0..commits.len()
        invariant
            all == commit_views(commits@),
            all.len() == commits@.len(),
            commit_views(out@) == commits_for_changelog(all.take(i as int)),
    {
        let ghost now = all.take(i + 1);
        let ghost before = out@;
        assert(now.drop_last() =~= all.take(i as int));
        assert(now.last() == commits@[i as int]@);
        let is_conventional = commits[i].is_conventional();
        if let Some(c) = commits[i].clone().for_changelog(is_conventional) {
            let ghost added = c@;
            out.push(c);
            assert(commit_views(out@) =~= commit_views(before).push(added));
        }
    }
    assert(all.take(commits@.len() as int) =~= all);
    out
}

/// The version that a changelog entry follows: the published one where the local version is ahead
/// of it, else the one in the manifest.
pub fn previous_version<'a>(registry_version: &'a Option<Version>, package: &'a Package) -> (r:
    &'a Version)
    ensures
        r@ == match *registry_version {
            Some(v) => v@,
            None => package.version@,
        },
{
    match registry_version {
        Some(v) => v,
        None => &package.version,
    }
}

/// The characters of a text that a reference may lead to.
pub open spec fn referenced_text(s: Option<&str>) -> Option<Seq<char>> {
    match s {
        Some(s) => Some(s@),
        None => None,
    }
}

/// The old changelog stays: the version does not change, and the changelog has an entry for it
/// already.
pub open spec fn keeps_changelog(
    next_version: VersionView,
    package_version: VersionView,
    last_version: Option<Seq<char>>,
    old_changelog: Option<Seq<char>>,
) -> bool {
    next_version == package_version && last_version == Some(next_version.text()) && old_changelog
        is Some
}

/// The version that the new entry of a changelog follows: the last one in the changelog, else the
/// one in the manifest. Where the version does not change, there is none.
pub open spec fn version_before(
    next_version: VersionView,
    package_version: VersionView,
    last_version: Option<Seq<char>>,
) -> Option<Seq<char>> {
    if next_version == package_version {
        None
    } else {
        match last_version {
            Some(v) => Some(v),
            None => Some(package_version.text()),
        }
    }
}

/// The changelog with its new entry, and the new entry alone. `last_version` is the last version
/// in the old changelog, and `build` builds a changelog whose new entry follows a given version.
///
/// The old changelog stays, without a new entry, where the version does not change and the
/// changelog has an entry for it already. This can happen when no version of the package was
/// published, but a release was prepared.
pub fn get_changelog<E, B: Fn(Option<&str>) -> Result<(String, String), E>>(
    next_version: &Version,
    old_changelog: Option<&str>,
    last_version: Option<&str>,
    package: &Package,
    build: B,
) -> (r: Result<(String, String), E>)
    requires
        forall|previous: Option<&str>| call_requires(build, (previous,)),
    ensures
        keeps_changelog(
            next_version@,
            package.version@,
            referenced_text(last_version),
            referenced_text(old_changelog),
        ) ==> r is Ok && r->Ok_0.0@ == old_changelog->0@ && r->Ok_0.1@.len() == 0,
        !keeps_changelog(
            next_version@,
            package.version@,
            referenced_text(last_version),
            referenced_text(old_changelog),
        ) ==> exists|previous: Option<&str>|
            referenced_text(previous) == version_before(
                next_version@,
                package.version@,
                referenced_text(last_version),
            ) && #[trigger] call_ensures(build, (previous,), r),
{
    if *next_version != package.version {
        return match last_version {
            Some(v) => build(Some(v)),
            None => {
                let text = package.version.to_text();
                build(Some(text.as_str()))
            },
        };
    }
    if let Some(last) = last_version {
        if let Some(old) = old_changelog {
            let text = next_version.to_text();
            if same_text(last, text.as_str()) {
                return Ok((old.to_owned(), String::new()));
            }
        }
    }
    build(None)
}

/// The outcome of the update of a package.
#[derive(Debug)]
pub struct UpdateResult {
    /// The new version.
    pub version: Version,
    /// The whole changelog, where changelogs are updated.
    pub changelog: Option<String>,
    pub semver_check: SemverCheck,
    /// The new entry of the changelog.
    pub new_changelog_entry: Option<String>,
    /// The published version, where the local one is already ahead of it.
    pub registry_version: Option<Version>,
}

/// `r` is the outcome of an update. Where the changelog is updated, it is what `changelog` gave for
/// the text `old_changelog` and the commits that go into it.
pub open spec fn is_update_result<
    E,
    C: Fn(Option<&str>, &Vec<Commit>) -> Result<(String, String), E>,
>(
    is_changelog_updated: bool,
    commits: Seq<CommitView>,
    old_changelog: Option<Seq<char>>,
    changelog: C,
    r: Result<UpdateResult, E>,
) -> bool {
    if is_changelog_updated {
        exists|old: Option<&str>, given: &Vec<Commit>, answer: Result<(String, String), E>|
            {
                &&& referenced_text(old) == old_changelog
                &&& commit_views(given@) == commits_for_changelog(commits)
                &&& #[trigger] call_ensures(changelog, (old, given), answer)
                &&& match answer {
                    Ok((whole, entry)) => r is Ok && r->Ok_0.changelog == Some(whole)
                        && r->Ok_0.new_changelog_entry == Some(entry),
                    Err(e) => r == Result::<UpdateResult, E>::Err(e),
                }
            }
    } else {
        r is Ok && r->Ok_0.changelog is None && r->Ok_0.new_changelog_entry is None
    }
}

impl<'a> Updater<'a> {
    /// The outcome of the update of a package to `version`. `changelog` gives the changelog and
    /// its new entry for the old changelog and the commits that go into it; it is asked where the
    /// changelog of the package is updated. With the old changelog at hand, changes of different
    /// packages can go into the same changelog.
    pub fn update_result<E, C: Fn(Option<&str>, &Vec<Commit>) -> Result<(String, String), E>>(
        &self,
        commits: &Vec<Commit>,
        version: Version,
        package: &Package,
        semver_check: SemverCheck,
        registry_version: Option<Version>,
        old_changelog: Option<&str>,
        changelog: C,
    ) -> (r: Result<UpdateResult, E>)
        requires
            forall|old: Option<&str>, commits: &Vec<Commit>|
                call_requires(changelog, (old, commits)),
        ensures
            r matches Ok(u) ==> u.version == version && u.semver_check == semver_check
                && u.registry_version == registry_version,
            is_update_result(
                self.req.config(package.name@).generic.changelog_update,
                commit_views(commits@),
                referenced_text(old_changelog),
                changelog,
                r,
            ),
    {
        let config = self.req.get_package_config(package.name.as_str());
        if !config.generic.changelog_update {
            return Ok(
                UpdateResult {
                    version,
                    changelog: None,
                    semver_check,
                    new_changelog_entry: None,
                    registry_version,
                },
            );
        }
        let given = changelog_commits(commits);
        match changelog(old_changelog, &given) {
            Ok((whole, entry)) => Ok(
                UpdateResult {
                    version,
                    changelog: Some(whole),
                    semver_check,
                    new_changelog_entry: Some(entry),
                    registry_version,
                },
            ),
            Err(e) => Err(e),
        }
    }

    /// The outcome of the update of a package to `next_version`, with the changelog at
    /// `changelog_path` carried over: the old changelog is the one that an update before it left for
    /// that path, else what `read` finds there. What the update makes of it is kept for the next.
    pub fn calculate_update_result<
        E,
        R: Fn(&FilePath) -> Option<String>,
        C: Fn(Option<&str>, &Vec<Commit>) -> Result<(String, String), E>,
    >(
        &self,
        commits: &Vec<Commit>,
        next_version: Version,
        package: &Package,
        semver_check: SemverCheck,
        registry_version: Option<Version>,
        old_changelogs: &mut OldChangelogs,
        changelog_path: &FilePath,
        read: R,
        changelog: C,
    ) -> (r: Result<UpdateResult, E>)
        requires
            forall|path: &FilePath| call_requires(read, (path,)),
            forall|old: Option<&str>, commits: &Vec<Commit>|
                call_requires(changelog, (old, commits)),
        ensures
            r matches Ok(u) ==> u.version == next_version && u.semver_check == semver_check
                && u.registry_version == registry_version,
            is_carried_over(
                self.req.config(package.name@).generic.changelog_update,
                commit_views(commits@),
                *changelog_path,
                read,
                changelog,
                *old(old_changelogs),
                *final(old_changelogs),
                r,
            ),
    {
        let old_changelog = match old_changelogs.get(changelog_path) {
            Some(text) => Some(text),
            None => read(changelog_path),
        };
        let ghost old_text = optional_text(old_changelog);
        assert(is_old_changelog(
            read,
            old_changelogs.stored(changelog_path@),
            *changelog_path,
            old_text,
        ));
        let old_ref = match &old_changelog {
            Some(text) => Some(text.as_str()),
            None => None,
        };
        let r = self.update_result(
            commits,
            next_version,
            package,
            semver_check,
            registry_version,
            old_ref,
            changelog,
        );
        assert(referenced_text(old_ref) == old_text);
        assert(is_update_result(
            self.req.config(package.name@).generic.changelog_update,
            commit_views(commits@),
            old_text,
            changelog,
            r,
        ));
        if let Ok(u) = &r {
            if let Some(text) = &u.changelog {
                old_changelogs.insert(changelog_path, text.as_str());
            }
        }
        r
    }

    /// The outcome of the update of a package by its own changes to `version`: its changelog gets
    /// the commits of its diff, and the outcome says what the check of its API found.
    pub fn own_update_result<
        E,
        R: Fn(&FilePath) -> Option<String>,
        C: Fn(Option<&str>, &Vec<Commit>) -> Result<(String, String), E>,
    >(
        &self,
        p: &PackageDiff,
        version: Version,
        old_changelogs: &mut OldChangelogs,
        changelog_path: &FilePath,
        read: R,
        changelog: C,
    ) -> (r: Result<UpdateResult, E>)
        requires
            forall|path: &FilePath| call_requires(read, (path,)),
            forall|old: Option<&str>, commits: &Vec<Commit>|
                call_requires(changelog, (old, commits)),
        ensures
            r matches Ok(u) ==> u.version == version && u.semver_check == p.diff.semver_check
                && u.registry_version == p.diff.registry_version,
            is_carried_over(
                self.req.config(p.package.name@).generic.changelog_update,
                commit_views(p.diff.commits@),
                *changelog_path,
                read,
                changelog,
                *old(old_changelogs),
                *final(old_changelogs),
                r,
            ),
    {
        let registry_version = match &p.diff.registry_version {
            Some(v) => Some(v.clone()),
            None => None,
        };
        self.calculate_update_result(
            &p.diff.commits,
            version,
            &p.package,
            p.diff.semver_check.clone(),
            registry_version,
            old_changelogs,
            changelog_path,
            read,
            changelog,
        )
    }

    /// The outcome of the update `u` of a package because of its dependencies: its changelog gets
    /// the one commit that stands for them. Its API is not checked, and its entry does not follow a
    /// published version.
    pub fn dependent_update_result<
        E,
        R: Fn(&FilePath) -> Option<String>,
        C: Fn(Option<&str>, &Vec<Commit>) -> Result<(String, String), E>,
    >(
        &self,
        u: DependentUpdate,
        package: &Package,
        old_changelogs: &mut OldChangelogs,
        changelog_path: &FilePath,
        read: R,
        changelog: C,
    ) -> (r: Result<UpdateResult, E>)
        requires
            forall|path: &FilePath| call_requires(read, (path,)),
            forall|old: Option<&str>, commits: &Vec<Commit>|
                call_requires(changelog, (old, commits)),
        ensures
            r matches Ok(result) ==> result.version == u.version && result.semver_check is Skipped
                && result.registry_version is None,
            is_carried_over(
                self.req.config(package.name@).generic.changelog_update,
                seq![u.commit@],
                *changelog_path,
                read,
                changelog,
                *old(old_changelogs),
                *final(old_changelogs),
                r,
            ),
    {
        let ghost commit = u.commit@;
        let commits = vec![u.commit];
        assert(commit_views(commits@) =~= seq![commit]);
        self.calculate_update_result(
            &commits,
            u.version,
            package,
            SemverCheck::Skipped,
            None,
            old_changelogs,
            changelog_path,
            read,
            changelog,
        )
    }
}

/// `r` is the outcome of an update whose changelog at `path` is carried over: it rests on the old
/// changelog, and what it makes of it is kept, in `after` in place of `before`.
pub open spec fn is_carried_over<
    E,
    R: Fn(&FilePath) -> Option<String>,
    C: Fn(Option<&str>, &Vec<Commit>) -> Result<(String, String), E>,
>(
    is_changelog_updated: bool,
    commits: Seq<CommitView>,
    path: FilePath,
    read: R,
    changelog: C,
    before: OldChangelogs,
    after: OldChangelogs,
    r: Result<UpdateResult, E>,
) -> bool {
    &&& exists|old_changelog: Option<Seq<char>>|
        is_old_changelog(read, before.stored(path@), path, old_changelog)
            && #[trigger] is_update_result(
            is_changelog_updated,
            commits,
            old_changelog,
            changelog,
            r,
        )
    &&& forall|p: Seq<Seq<char>>| #[trigger]
        after.stored(p) == (if p == path@ && r is Ok && r->Ok_0.changelog is Some {
            optional_text(r->Ok_0.changelog)
        } else {
            before.stored(p)
        })
}

/// `text` is the old changelog at `path`: `stored`, where there is one, else what `read` found.
pub open spec fn is_old_changelog<R: Fn(&FilePath) -> Option<String>>(
    read: R,
    stored: Option<Seq<char>>,
    path: FilePath,
    text: Option<Seq<char>>,
) -> bool {
    if stored is Some {
        text == stored
    } else {
        exists|found: Option<String>| #[trigger]
            call_ensures(read, (&path,), found) && optional_text(found) == text
    }
}

/// The changelogs that updates left, by their paths, so that packages can share one.
#[derive(Debug)]
pub struct OldChangelogs {
    texts: Vec<(FilePath, String)>,
}

/// The last text for `path`.
spec fn text_for(texts: Seq<(FilePath, String)>, path: Seq<Seq<char>>) -> Option<Seq<char>>
    decreases texts.len(),
{
    if texts.len() == 0 {
        None
    } else if texts.last().0@ == path {
        Some(texts.last().1@)
    } else {
        text_for(texts.drop_last(), path)
    }
}

impl OldChangelogs {
    /// The changelog that is kept for `path`.
    pub closed spec fn stored(self, path: Seq<Seq<char>>) -> Option<Seq<char>> {
        text_for(self.texts@, path)
    }

    /// No changelog is kept.
    pub fn new() -> (r: OldChangelogs)
        ensures
            forall|path: Seq<Seq<char>>| #[trigger] r.stored(path) is None,
    {
        OldChangelogs { texts: Vec::new() }
    }

    /// The changelog that is kept for `path`.
    pub fn get(&self, path: &FilePath) -> (r: Option<String>)
        ensures
            optional_text(r) == self.stored(path@),
    {
        let mut i: usize = self.texts.len();
        assert(self.texts@.take(self.texts@.len() as int) =~= self.texts@);
        while i > 0
            invariant
                i <= self.texts@.len(),
                self.stored(path@) == text_for(self.texts@.take(i as int), path@),
            decreases i,
        {
            let ghost now = self.texts@.take(i as int);
            assert(now.drop_last() =~= self.texts@.take(i - 1));
            assert(now.last() == self.texts@[i - 1]);
            if self.texts[i - 1].0.is_same(path) {
                return Some(self.texts[i - 1].1.clone());
            }
            i = i - 1;
        }
        None
    }

    /// Keeps `text` for `path`, in place of what was kept before.
    pub fn insert(&mut self, path: &FilePath, text: &str)
        ensures
            forall|q: Seq<Seq<char>>| #[trigger]
                final(self).stored(q) == (if q == path@ {
                    Some(text@)
                } else {
                    old(self).stored(q)
                }),
    {
        let ghost before = self.texts@;
        self.texts.push((path.clone(), text.to_owned()));
        assert(self.texts@.drop_last() =~= before);
    }
}

/// Who made a commit, as far as the remote knows.
#[derive(Debug)]
pub struct Contributor {
    pub username: Option<String>,
}

/// The places of those of the first `n` commits whose contributor did not contribute before. A
/// contributor without a name counts as one.
pub open spec fn contributor_places(contributors: Seq<Option<Contributor>>, n: int) -> Seq<int>
    decreases n,
{
    if n <= 0 {
        Seq::empty()
    } else {
        let before = contributor_places(contributors, n - 1);
        match contributors[n - 1] {
            Some(c) if !has_contributed(contributors, n - 1, optional_text(c.username)) =>
                before.push(n - 1),
            _ => before,
        }
    }
}

/// One of the first `n` commits was made by the contributor called `username`.
pub open spec fn has_contributed(
    contributors: Seq<Option<Contributor>>,
    n: int,
    username: Option<Seq<char>>,
) -> bool {
    exists|i: int|
        0 <= i < n && (#[trigger] contributors[i]) is Some && optional_text(
            contributors[i]->0.username,
        ) == username
}

/// Whether two names that may be missing are the same.
fn same_username(a: &Option<String>, b: &Option<String>) -> (r: bool)
    ensures
        r == (optional_text(*a) == optional_text(*b)),
{
    match (a, b) {
        (Some(a), Some(b)) => same_text(a.as_str(), b.as_str()),
        (None, None) => true,
        _ => false,
    }
}

/// The contributors of commits, each once: the places of the commits that they first made.
pub fn get_contributors(contributors: &Vec<Option<Contributor>>) -> (r: Vec<usize>)
    ensures
        crate::updater::indices(r@) == contributor_places(
            contributors@,
            contributors@.len() as int,
        ),
{
    let mut out: Vec<usize> = Vec::new();
    for i in 0..contributors.len()
        invariant
            crate::updater::indices(out@) == contributor_places(contributors@, i as int),
    {
        if let Some(c) = &contributors[i] {
            let ghost before = out@;
            let ghost name = optional_text(c.username);
            let mut known = false;
            for j in 0..i
                invariant
                    i < contributors@.len(),
                    name == optional_text(c.username),
                    known == has_contributed(contributors@, j as int, name),
            {
                if let Some(other) = &contributors[j] {
                    if same_username(&other.username, &c.username) {
                        known = true;
                    }
                }
                assert(known == has_contributed(contributors@, j + 1, name)) by {
                    if has_contributed(contributors@, j as int, name) {
                        let k = choose|k: int|
                            0 <= k < j && (#[trigger] contributors@[k]) is Some && optional_text(
                                contributors@[k]->0.username,
                            ) == name;
                        assert(contributors@[k] is Some);
                    }
                }
            }
            if !known {
                out.push(i);
                assert(crate::updater::indices(out@) =~= crate::updater::indices(before).push(
                    i as int,
                ));
            }
        }
    }
    out
}

/// Every contributor is there, and none twice.
pub proof fn law_contributors_once(contributors: Seq<Option<Contributor>>, n: int)
    requires
        0 <= n <= contributors.len(),
    ensures
        ({
            let places = contributor_places(contributors, n);
            &&& forall|i: int|
                0 <= i < n && (#[trigger] contributors[i]) is Some ==> exists|k: int|
                    0 <= k < places.len() && contributors[#[trigger] places[k]] is Some
                        && optional_text(contributors[places[k]]->0.username) == optional_text(
                        contributors[i]->0.username,
                    )
            &&& forall|k: int|
                0 <= k < places.len() ==> 0 <= #[trigger] places[k] < n && contributors[places[k]] is Some
            &&& forall|a: int, b: int|
                0 <= a < b < places.len() ==> optional_text(
                    contributors[#[trigger] places[a]]->0.username,
                ) != optional_text(contributors[#[trigger] places[b]]->0.username)
        }),
    decreases n,
{
    if n > 0 {
        law_contributors_once(contributors, n - 1);
        let before = contributor_places(contributors, n - 1);
        let places = contributor_places(contributors, n);
        assert forall|a: int| 0 <= a < before.len() implies places[a] == before[a] by {}
        assert forall|i: int| 0 <= i < n && (#[trigger] contributors[i]) is Some implies exists|k: int|
            0 <= k < places.len() && contributors[#[trigger] places[k]] is Some && optional_text(
                contributors[places[k]]->0.username,
            ) == optional_text(contributors[i]->0.username) by {
            let name = optional_text(contributors[i]->0.username);
            if i == n - 1 && !has_contributed(contributors, n - 1, name) {
                assert(places[places.len() - 1] == n - 1);
            } else {
                let j = if i < n - 1 {
                    i
                } else {
                    choose|j: int|
                        0 <= j < n - 1 && (#[trigger] contributors[j]) is Some && optional_text(
                            contributors[j]->0.username,
                        ) == name
                };
                assert(contributors[j] is Some);
                let k = choose|k: int|
                    0 <= k < before.len() && contributors[#[trigger] before[k]] is Some
                        && optional_text(contributors[before[k]]->0.username) == optional_text(
                        contributors[j]->0.username,
                    );
                assert(places[k] == before[k]);
            }
        }
    }
}

/// The commits that are known for a name are those of the last package that has it; for a name that
/// no package has, none are known.
pub proof fn law_commits_by_name(
    packages: &Vec<PackageDiff>,
    r: StringHashMap<Vec<Commit>>,
    name: Seq<char>,
)
    requires
        call_ensures(packages_commits, (packages,), r),
    ensures
        forall|i: int|
            0 <= i < packages@.len() && (#[trigger] packages@[i]).package.name@ == name && (forall|
                j: int,
            |
                i < j < packages@.len() ==> (#[trigger] packages@[j]).package.name@ != name)
                ==> r@.contains_key(name) && r@[name]@ == packages@[i].diff.commits@,
        (forall|i: int|
            0 <= i < packages@.len() ==> (#[trigger] packages@[i]).package.name@ != name)
            ==> !r@.contains_key(name),
{
    lemma_commits_of(packages@, name);
    assert(known_commits(r@, name) == commits_of(packages@, name));
}

/// The commits for a name are those of the last package that has it.
proof fn lemma_commits_of(packages: Seq<PackageDiff>, name: Seq<char>)
    ensures
        forall|i: int|
            0 <= i < packages.len() && (#[trigger] packages[i]).package.name@ == name && (forall|
                j: int,
            |
                i < j < packages.len() ==> (#[trigger] packages[j]).package.name@ != name)
                ==> commits_of(packages, name) == Some(packages[i].diff.commits@),
        (forall|i: int| 0 <= i < packages.len() ==> (#[trigger] packages[i]).package.name@ != name)
            ==> commits_of(packages, name) is None,
    decreases packages.len(),
{
    if packages.len() > 0 {
        let less = packages.drop_last();
        let last = packages.len() - 1;
        lemma_commits_of(less, name);
        if packages[last].package.name@ != name {
            assert forall|i: int|
                0 <= i < packages.len() && (#[trigger] packages[i]).package.name@ == name && (
                forall|j: int|
                    i < j < packages.len() ==> (#[trigger] packages[j]).package.name@
                        != name) implies commits_of(packages, name) == Some(
                packages[i].diff.commits@,
            ) by {
                assert(less[i] == packages[i]);
                assert forall|j: int| i < j < less.len() implies (
                #[trigger] less[j]).package.name@ != name by {
                    assert(less[j] == packages[j]);
                }
            }
            if forall|i: int|
                0 <= i < packages.len() ==> (#[trigger] packages[i]).package.name@ != name {
                assert forall|i: int| 0 <= i < less.len() implies (
                #[trigger] less[i]).package.name@ != name by {
                    assert(less[i] == packages[i]);
                }
            }
        }
    }
}

/// One of the packages called `names` has the commit `c`, as far as is known.
pub open spec fn is_commit_of_named(
    names: Seq<String>,
    known: Map<Seq<char>, Vec<Commit>>,
    c: Commit,
) -> bool {
    exists|a: int, i: int|
        0 <= a < names.len() && known.contains_key(names[a]@) && 0 <= i < known[names[a]@]@.len()
            && #[trigger] known[names[a]@]@[i] == c
}

/// The commits of packages that go into a changelog too stand behind its own, which all stay: each of
/// the named packages' known commits is there, nothing else is added, and nothing that was there
/// already.
pub proof fn law_included_commits(
    commits: Seq<Commit>,
    names: Seq<String>,
    known: Map<Seq<char>, Vec<Commit>>,
)
    ensures
        ({
            let all = with_packages(commits, names, known);
            let n = commits.len();
            &&& all.len() >= n
            &&& forall|i: int| 0 <= i < n ==> #[trigger] all[i] == commits[i]
            &&& forall|c: Commit| #[trigger]
                is_commit_of_named(names, known, c) ==> exists|j: int|
                    0 <= j < all.len() && (#[trigger] all[j]).id@ == c.id@ && all[j].message@
                        == c.message@
            &&& forall|j: int|
                n <= j < all.len() ==> is_commit_of_named(names, known, #[trigger] all[j])
            &&& forall|a: int, b: int|
                0 <= a < b < all.len() && n <= b ==> (#[trigger] all[a]).id@ != (
                #[trigger] all[b]).id@ || all[a].message@ != all[b].message@
        }),
    decreases names.len(),
{
    if names.len() > 0 {
        let less = names.drop_last();
        let last = names.len() - 1;
        let before = with_packages(commits, less, known);
        let all = with_packages(commits, names, known);
        let n = commits.len();
        law_included_commits(commits, less, known);
        assert(names.last() == names[last]);
        let more = if known.contains_key(names[last]@) {
            known[names[last]@]@
        } else {
            Seq::empty()
        };
        let from = law_added_commits(before, more);
        assert(all == with_commits(before, more));
        assert forall|i: int| 0 <= i < n implies #[trigger] all[i] == commits[i] by {
            assert(all[i] == before[i]);
        }
        assert forall|c: Commit| #[trigger] is_commit_of_named(names, known, c) implies exists|
            j: int,
        |
            0 <= j < all.len() && (#[trigger] all[j]).id@ == c.id@ && all[j].message@
                == c.message@ by {
            let (a, i) = choose|a: int, i: int|
                0 <= a < names.len() && known.contains_key(names[a]@) && 0 <= i
                    < known[names[a]@]@.len() && #[trigger] known[names[a]@]@[i] == c;
            if a < last {
                assert(known[less[a]@]@[i] == c);
                assert(is_commit_of_named(less, known, c));
                let j = choose|j: int|
                    0 <= j < before.len() && (#[trigger] before[j]).id@ == c.id@
                        && before[j].message@ == c.message@;
                assert(all[j] == before[j]);
            } else {
                assert(c == more[i]);
            }
        }
        assert forall|j: int| n <= j < all.len() implies is_commit_of_named(
            names,
            known,
            #[trigger] all[j],
        ) by {
            if j < before.len() {
                assert(all[j] == before[j]);
                assert(is_commit_of_named(less, known, before[j]));
                let (a, i) = choose|a: int, i: int|
                    0 <= a < less.len() && known.contains_key(less[a]@) && 0 <= i
                        < known[less[a]@]@.len() && #[trigger] known[less[a]@]@[i] == before[j];
                assert(known[names[a]@]@[i] == all[j]);
            } else {
                let k = j - before.len();
                assert(all[before.len() + k] == more[from[k]]);
                assert(known[names[last]@]@[from[k]] == all[j]);
            }
        }
        assert forall|a: int, b: int| 0 <= a < b < all.len() && n <= b implies (
        #[trigger] all[a]).id@ != (#[trigger] all[b]).id@ || all[a].message@ != all[b].message@ by {
            if b < before.len() {
                assert(all[a] == before[a] && all[b] == before[b]);
            }
        }
    }
}

/// What goes into a changelog: the commits in their order, each with its id. A conventional message
/// stays whole; of another only the first line is left, up to the first line break. Left out are just
/// the commits without any message that are not conventional. `from` are the places of the commits.
pub proof fn law_commits_in_changelog(commits: &Vec<Commit>, r: Vec<Commit>) -> (from: Seq<int>)
    requires
        call_ensures(changelog_commits, (commits,), r),
    ensures
        r@.len() == from.len(),
        forall|a: int, b: int| 0 <= a < b < from.len() ==> from[a] < from[b],
        forall|k: int|
            0 <= k < from.len() ==> {
                &&& 0 <= #[trigger] from[k] < commits@.len()
                &&& r@[k].id@ == commits@[from[k]].id@
                &&& is_conventional_message(commits@[from[k]].message@) ==> r@[k].message@
                    == commits@[from[k]].message@
                &&& !is_conventional_message(commits@[from[k]].message@) ==> begins_with_line(
                    commits@[from[k]].message@,
                    r@[k].message@,
                )
            },
        forall|i: int|
            0 <= i < commits@.len() && !from.contains(i) ==> (
            #[trigger] commits@[i]).message@.len() == 0 && !is_conventional_message(
                commits@[i].message@,
            ),
{
    let all = commit_views(commits@);
    let from = lemma_commits_for_changelog(all);
    assert(commit_views(r@).len() == r@.len());
    assert forall|k: int| 0 <= k < from.len() implies {
        &&& 0 <= #[trigger] from[k] < commits@.len()
        &&& r@[k].id@ == commits@[from[k]].id@
        &&& is_conventional_message(commits@[from[k]].message@) ==> r@[k].message@
            == commits@[from[k]].message@
        &&& !is_conventional_message(commits@[from[k]].message@) ==> begins_with_line(
            commits@[from[k]].message@,
            r@[k].message@,
        )
    } by {
        assert(commit_views(r@)[k] == r@[k]@);
        assert(all[from[k]] == commits@[from[k]]@);
    }
    assert forall|i: int| 0 <= i < commits@.len() && !from.contains(i) implies (
    #[trigger] commits@[i]).message@.len() == 0 && !is_conventional_message(
        commits@[i].message@,
    ) by {
        assert(all[i] == commits@[i]@);
    }
    from
}

/// Where the commits of a changelog come from.
proof fn lemma_commits_for_changelog(commits: Seq<CommitView>) -> (from: Seq<int>)
    ensures
        commits_for_changelog(commits).len() == from.len(),
        forall|a: int, b: int| 0 <= a < b < from.len() ==> from[a] < from[b],
        forall|k: int|
            0 <= k < from.len() ==> {
                let c = commits_for_changelog(commits)[k];
                &&& 0 <= #[trigger] from[k] < commits.len()
                &&& c.id == commits[from[k]].id
                &&& is_conventional_message(commits[from[k]].message) ==> c.message
                    == commits[from[k]].message
                &&& !is_conventional_message(commits[from[k]].message) ==> begins_with_line(
                    commits[from[k]].message,
                    c.message,
                )
            },
        forall|i: int|
            0 <= i < commits.len() && !from.contains(i) ==> (#[trigger] commits[i]).message.len()
                == 0 && !is_conventional_message(commits[i].message),
    decreases commits.len(),
{
    if commits.len() == 0 {
        Seq::empty()
    } else {
        let less = commits.drop_last();
        let last = commits.len() - 1;
        let before = lemma_commits_for_changelog(less);
        law_first_line(commits[last].message);
        let is_there = is_conventional_message(commits[last].message)
            || commits[last].message.len() > 0;
        let from = if is_there {
            before.push(last)
        } else {
            before
        };
        let all = commits_for_changelog(commits);
        assert forall|k: int| 0 <= k < from.len() implies {
            let c = all[k];
            &&& 0 <= #[trigger] from[k] < commits.len()
            &&& c.id == commits[from[k]].id
            &&& is_conventional_message(commits[from[k]].message) ==> c.message
                == commits[from[k]].message
            &&& !is_conventional_message(commits[from[k]].message) ==> begins_with_line(
                commits[from[k]].message,
                c.message,
            )
        } by {
            if k < before.len() {
                assert(from[k] == before[k]);
                assert(less[before[k]] == commits[before[k]]);
                assert(all[k] == commits_for_changelog(less)[k]);
            }
        }
        assert forall|i: int| 0 <= i < commits.len() && !from.contains(i) implies (
        #[trigger] commits[i]).message.len() == 0 && !is_conventional_message(
            commits[i].message,
        ) by {
            if i < last {
                assert(less[i] == commits[i]);
                if before.contains(i) {
                    let k = choose|k: int| 0 <= k < before.len() && before[k] == i;
                    assert(from[k] == i);
                }
            } else if is_there {
                assert(from[from.len() - 1] == last);
            }
        }
        from
    }
}

/// The version that a changelog entry follows: the published one exactly where that is known.
pub proof fn law_previous_version(
    registry_version: &Option<Version>,
    package: &Package,
    r: &Version,
)
    requires
        call_ensures(previous_version, (registry_version, package), r),
    ensures
        *registry_version matches Some(v) ==> r@ == v@,
        *registry_version is None ==> r@ == package.version@,
{
}

/// When the old changelog stays: a new version always gets an entry, which follows the last version
/// of the changelog, or else the one in the manifest. Without a new version, the changelog stays and
/// no entry is made exactly where there is one whose last version this is; else the entry follows no
/// version.
pub proof fn law_new_entry<E, B: Fn(Option<&str>) -> Result<(String, String), E>>(
    next_version: &Version,
    old_changelog: Option<&str>,
    last_version: Option<&str>,
    package: &Package,
    build: B,
    r: Result<(String, String), E>,
)
    requires
        call_ensures(
            get_changelog::<E, B>,
            (next_version, old_changelog, last_version, package, build),
            r,
        ),
    ensures
        next_version@ != package.version@ ==> exists|previous: Option<&str>| #[trigger]
            call_ensures(build, (previous,), r) && previous is Some && previous->0@ == (
            if last_version is Some {
                last_version->0@
            } else {
                package.version@.text()
            }),
        next_version@ == package.version@ && old_changelog is Some && last_version is Some
            && last_version->0@ == next_version@.text() ==> r is Ok && r->Ok_0.0@
            == old_changelog->0@ && r->Ok_0.1@.len() == 0,
        next_version@ == package.version@ && (old_changelog is None || last_version is None
            || last_version->0@ != next_version@.text()) ==> call_ensures(build, (None,), r),
{
}

/// When the API of a package is checked: only with the tool at hand, for a package with a library
/// whose settings ask for it, that the registry has, whose version was published and that has changes
/// since. The tool is asked for whether or not there are changes.
pub proof fn law_api_checks(
    updater: &Updater,
    p: &PackageDiff,
    is_tool_installed: bool,
    is_wanted: bool,
    is_needed: bool,
)
    requires
        call_ensures(Updater::wants_semver_check, (updater, p), is_wanted),
        call_ensures(Updater::needs_semver_check, (updater, p, is_tool_installed), is_needed),
    ensures
        is_needed <==> is_wanted && is_tool_installed && p.diff.is_version_published
            && p.diff.commits@.len() > 0,
        is_wanted ==> p.diff.registry_package_exists && updater.req.config(
            p.package.name@,
        ).generic.semver_check && exists|i: int, j: int|
            0 <= i < p.package.targets@.len() && 0 <= j < p.package.targets@[i].kinds@.len()
                && #[trigger] p.package.targets@[i].kinds@[j] == TargetKind::Lib,
        !is_wanted ==> !p.diff.registry_package_exists || !updater.req.config(
            p.package.name@,
        ).generic.semver_check || forall|i: int, j: int|
            0 <= i < p.package.targets@.len() && 0 <= j < p.package.targets@[i].kinds@.len()
                ==> #[trigger] p.package.targets@[i].kinds@[j] != TargetKind::Lib,
{
}

/// The outcome of an update has the version, the check and the published version that were given. Its
/// changelog and entry are missing exactly where changelogs are not updated; else both are what
/// `changelog` gave for the old changelog and the commits, and its error is the error.
pub proof fn law_update_result<E, C: Fn(Option<&str>, &Vec<Commit>) -> Result<(String, String), E>>(
    updater: &Updater,
    commits: &Vec<Commit>,
    version: Version,
    package: &Package,
    semver_check: SemverCheck,
    registry_version: Option<Version>,
    old_changelog: Option<&str>,
    changelog: C,
    r: Result<UpdateResult, E>,
)
    requires
        call_ensures(
            Updater::update_result::<E, C>,
            (
                updater,
                commits,
                version,
                package,
                semver_check,
                registry_version,
                old_changelog,
                changelog,
            ),
            r,
        ),
    ensures
        r matches Ok(u) ==> u.version == version && u.semver_check == semver_check
            && u.registry_version == registry_version,
        !updater.req.config(package.name@).generic.changelog_update ==> r is Ok
            && r->Ok_0.changelog is None && r->Ok_0.new_changelog_entry is None,
        updater.req.config(package.name@).generic.changelog_update && r is Ok
            ==> r->Ok_0.changelog is Some && r->Ok_0.new_changelog_entry is Some,
        updater.req.config(package.name@).generic.changelog_update ==> exists|
            old: Option<&str>,
            given: &Vec<Commit>,
            answer: Result<(String, String), E>,
        |
            {
                &&& #[trigger] call_ensures(changelog, (old, given), answer)
                &&& old is Some <==> old_changelog is Some
                &&& old is Some ==> old->0@ == old_changelog->0@
                &&& commit_views(given@) == commits_for_changelog(commit_views(commits@))
                &&& answer is Ok <==> r is Ok
                &&& answer matches Ok(texts) ==> r->Ok_0.changelog == Some(texts.0)
                    && r->Ok_0.new_changelog_entry == Some(texts.1)
                &&& answer matches Err(e) ==> r->Err_0 == e
            },
{
    if updater.req.config(package.name@).generic.changelog_update {
        let (old, given, answer) = choose|
            old: Option<&str>,
            given: &Vec<Commit>,
            answer: Result<(String, String), E>,
        |
            {
                &&& referenced_text(old) == referenced_text(old_changelog)
                &&& commit_views(given@) == commits_for_changelog(commit_views(commits@))
                &&& #[trigger] call_ensures(changelog, (old, given), answer)
                &&& match answer {
                    Ok((whole, entry)) => r is Ok && r->Ok_0.changelog == Some(whole)
                        && r->Ok_0.new_changelog_entry == Some(entry),
                    Err(e) => r == Result::<UpdateResult, E>::Err(e),
                }
            };
        assert(call_ensures(changelog, (old, given), answer));
    }
}

/// Packages that share a changelog add to it in turn: after an update that made a changelog, the next
/// one at the same path starts from it, whatever is found there, and changelogs at other paths stay.
/// An update without a changelog leaves all of them.
pub proof fn law_shared_changelogs<
    E,
    R: Fn(&FilePath) -> Option<String>,
    C: Fn(Option<&str>, &Vec<Commit>) -> Result<(String, String), E>,
>(
    commits: Seq<CommitView>,
    path: FilePath,
    read: R,
    changelog: C,
    before: OldChangelogs,
    between: OldChangelogs,
    first: Result<UpdateResult, E>,
    next_commits: Seq<CommitView>,
    after: OldChangelogs,
    next: Result<UpdateResult, E>,
)
    requires
        is_carried_over(true, commits, path, read, changelog, before, between, first),
        is_carried_over(true, next_commits, path, read, changelog, between, after, next),
        first is Ok,
    ensures
        first->Ok_0.changelog is Some,
        between.stored(path@) == Some(first->Ok_0.changelog->0@),
        exists|old: Option<&str>, given: &Vec<Commit>, answer: Result<(String, String), E>|
            {
                &&& #[trigger] call_ensures(changelog, (old, given), answer)
                &&& old is Some && old->0@ == first->Ok_0.changelog->0@
                &&& commit_views(given@) == commits_for_changelog(next_commits)
                &&& answer matches Ok(texts) ==> next is Ok && next->Ok_0.changelog == Some(texts.0)
                    && after.stored(path@) == Some(texts.0@)
                &&& answer is Err ==> next is Err && after.stored(path@) == between.stored(path@)
            },
        forall|p: Seq<Seq<char>>| p != path@ ==> #[trigger] after.stored(p) == before.stored(p),
{
    let made = first->Ok_0.changelog->0@;
    assert(between.stored(path@) == Some(made));
    let old_changelog = choose|old_changelog: Option<Seq<char>>|
        is_old_changelog(read, between.stored(path@), path, old_changelog)
            && #[trigger] is_update_result(true, next_commits, old_changelog, changelog, next);
    assert(old_changelog == Some(made));
    let (old, given, answer) = choose|
        old: Option<&str>,
        given: &Vec<Commit>,
        answer: Result<(String, String), E>,
    |
        {
            &&& referenced_text(old) == old_changelog
            &&& commit_views(given@) == commits_for_changelog(next_commits)
            &&& #[trigger] call_ensures(changelog, (old, given), answer)
            &&& match answer {
                Ok((whole, entry)) => next is Ok && next->Ok_0.changelog == Some(whole)
                    && next->Ok_0.new_changelog_entry == Some(entry),
                Err(e) => next == Result::<UpdateResult, E>::Err(e),
            }
        };
    assert(call_ensures(changelog, (old, given), answer));
    assert(after.stored(path@) == after.stored(path@));
    assert forall|p: Seq<Seq<char>>| p != path@ implies #[trigger] after.stored(p)
        == before.stored(p) by {
        assert(between.stored(p) == before.stored(p));
    }
}

/// Without changelogs nothing is kept, and no changelog is made.
pub proof fn law_no_changelogs<
    E,
    R: Fn(&FilePath) -> Option<String>,
    C: Fn(Option<&str>, &Vec<Commit>) -> Result<(String, String), E>,
>(
    commits: Seq<CommitView>,
    path: FilePath,
    read: R,
    changelog: C,
    before: OldChangelogs,
    after: OldChangelogs,
    r: Result<UpdateResult, E>,
)
    requires
        is_carried_over(false, commits, path, read, changelog, before, after, r),
    ensures
        r is Ok,
        r->Ok_0.changelog is None,
        r->Ok_0.new_changelog_entry is None,
        forall|p: Seq<Seq<char>>| #[trigger] after.stored(p) == before.stored(p),
{
}

/// The first changelog at a path is made from what is read there, where something is.
pub proof fn law_first_changelog<
    E,
    R: Fn(&FilePath) -> Option<String>,
    C: Fn(Option<&str>, &Vec<Commit>) -> Result<(String, String), E>,
>(
    commits: Seq<CommitView>,
    path: FilePath,
    read: R,
    changelog: C,
    before: OldChangelogs,
    after: OldChangelogs,
    r: Result<UpdateResult, E>,
)
    requires
        is_carried_over(true, commits, path, read, changelog, before, after, r),
        before.stored(path@) is None,
    ensures
        exists|
            found: Option<String>,
            old: Option<&str>,
            given: &Vec<Commit>,
            answer: Result<(String, String), E>,
        |
            {
                &&& #[trigger] call_ensures(read, (&path,), found)
                &&& #[trigger] call_ensures(changelog, (old, given), answer)
                &&& old is Some <==> found is Some
                &&& old is Some ==> old->0@ == found->0@
                &&& commit_views(given@) == commits_for_changelog(commits)
                &&& answer matches Ok(texts) ==> r is Ok && r->Ok_0.changelog == Some(texts.0)
                    && r->Ok_0.new_changelog_entry == Some(texts.1) && after.stored(path@) == Some(
                    texts.0@,
                )
                &&& answer is Err ==> r is Err && r->Err_0 == answer->Err_0
            },
        r is Err ==> forall|p: Seq<Seq<char>>| #[trigger] after.stored(p) == before.stored(p),
{
    let old_changelog = choose|old_changelog: Option<Seq<char>>|
        is_old_changelog(read, before.stored(path@), path, old_changelog)
            && #[trigger] is_update_result(true, commits, old_changelog, changelog, r);
    let found = choose|found: Option<String>| #[trigger]
        call_ensures(read, (&path,), found) && optional_text(found) == old_changelog;
    let (old, given, answer) = choose|
        old: Option<&str>,
        given: &Vec<Commit>,
        answer: Result<(String, String), E>,
    |
        {
            &&& referenced_text(old) == old_changelog
            &&& commit_views(given@) == commits_for_changelog(commits)
            &&& #[trigger] call_ensures(changelog, (old, given), answer)
            &&& match answer {
                Ok((whole, entry)) => r is Ok && r->Ok_0.changelog == Some(whole)
                    && r->Ok_0.new_changelog_entry == Some(entry),
                Err(e) => r == Result::<UpdateResult, E>::Err(e),
            }
        };
    assert(call_ensures(read, (&path,), found));
    assert(call_ensures(changelog, (old, given), answer));
    assert(after.stored(path@) == after.stored(path@));
}

/// Contributors come in the order of their first commits, and each place is that of a first commit:
/// none of the commits before it was made by the same contributor.
pub proof fn law_contributors_in_order(contributors: &Vec<Option<Contributor>>, r: Vec<usize>)
    requires
        call_ensures(get_contributors, (contributors,), r),
    ensures
        forall|a: int, b: int| 0 <= a < b < r@.len() ==> r@[a] < r@[b],
        forall|i: int|
            0 <= i < contributors@.len() ==> ((exists|k: int|
                0 <= k < r@.len() && #[trigger] r@[k] == i) <==> (
            #[trigger] contributors@[i]) is Some && forall|j: int|
                0 <= j < i && (#[trigger] contributors@[j]) is Some ==> optional_text(
                    contributors@[j]->0.username,
                ) != optional_text(contributors@[i]->0.username)),
        forall|k: int| 0 <= k < r@.len() ==> #[trigger] r@[k] < contributors@.len(),
{
    let n = contributors@.len() as int;
    let places = contributor_places(contributors@, n);
    lemma_contributor_places(contributors@, n);
    assert(crate::updater::indices(r@) == places);
    assert(places.len() == r@.len());
    assert forall|k: int| 0 <= k < r@.len() implies #[trigger] r@[k] == places[k] by {
        assert(crate::updater::indices(r@)[k] == r@[k]);
    }
    assert forall|i: int| 0 <= i < n implies ((exists|k: int|
        0 <= k < r@.len() && #[trigger] r@[k] == i) <==> (
    #[trigger] contributors@[i]) is Some && forall|j: int|
        0 <= j < i && (#[trigger] contributors@[j]) is Some ==> optional_text(
            contributors@[j]->0.username,
        ) != optional_text(contributors@[i]->0.username)) by {
        if places.contains(i) {
            let k = choose|k: int| 0 <= k < places.len() && places[k] == i;
            assert(r@[k] == i);
        }
        if exists|k: int| 0 <= k < r@.len() && #[trigger] r@[k] == i {
            let k = choose|k: int| 0 <= k < r@.len() && #[trigger] r@[k] == i;
            assert(places[k] == i);
        }
    }
}

/// Which commits are the first of their contributors.
proof fn lemma_contributor_places(contributors: Seq<Option<Contributor>>, n: int)
    requires
        0 <= n <= contributors.len(),
    ensures
        ({
            let places = contributor_places(contributors, n);
            &&& forall|k: int| 0 <= k < places.len() ==> 0 <= #[trigger] places[k] < n
            &&& forall|a: int, b: int| 0 <= a < b < places.len() ==> places[a] < places[b]
            &&& forall|i: int|
                0 <= i < n ==> (places.contains(i) <==> (#[trigger] contributors[i]) is Some
                    && forall|j: int|
                    0 <= j < i && (#[trigger] contributors[j]) is Some ==> optional_text(
                        contributors[j]->0.username,
                    ) != optional_text(contributors[i]->0.username))
        }),
    decreases n,
{
    if n > 0 {
        lemma_contributor_places(contributors, n - 1);
        let before = contributor_places(contributors, n - 1);
        let places = contributor_places(contributors, n);
        assert forall|i: int| 0 <= i < n implies (places.contains(i) <==> (
        #[trigger] contributors[i]) is Some && forall|j: int|
            0 <= j < i && (#[trigger] contributors[j]) is Some ==> optional_text(
                contributors[j]->0.username,
            ) != optional_text(contributors[i]->0.username)) by {
            if before.contains(i) {
                let k = choose|k: int| 0 <= k < before.len() && before[k] == i;
                assert(places[k] == i);
            }
            if places.contains(i) && i < n - 1 {
                let k = choose|k: int| 0 <= k < places.len() && places[k] == i;
                assert(k < before.len());
                assert(before[k] == i);
            }
            if i == n - 1 {
                if places.contains(i) {
                    let k = choose|k: int| 0 <= k < places.len() && places[k] == i;
                    assert(k >= before.len());
                }
                if places.len() > before.len() {
                    assert(places[before.len() as int] == i);
                }
            }
        }
    }
}

/// The commits of other packages are added only to a package that the registry has, and then those of
/// the packages that its settings name; nothing but its commits changes.
pub proof fn law_added_packages_commits(
    updater: &Updater,
    p: &mut PackageDiff,
    commits: &StringHashMap<Vec<Commit>>,
)
    requires
        call_ensures(Updater::add_packages_commits, (updater, p, commits), ()),
    ensures
        ({
            let before = old(p).diff.commits@;
            let after = final(p).diff.commits@;
            let names = updater.req.config(old(p).package.name@).changelog_include@;
            &&& !old(p).diff.registry_package_exists ==> after == before
            &&& after.len() >= before.len()
            &&& forall|i: int| 0 <= i < before.len() ==> #[trigger] after[i] == before[i]
            &&& old(p).diff.registry_package_exists ==> forall|c: Commit| #[trigger]
                is_commit_of_named(names, commits@, c) ==> exists|j: int|
                    0 <= j < after.len() && (#[trigger] after[j]).id@ == c.id@ && after[j].message@
                        == c.message@
            &&& forall|j: int|
                before.len() <= j < after.len() ==> is_commit_of_named(
                    names,
                    commits@,
                    #[trigger] after[j],
                )
        }),
        final(p).package == old(p).package,
        final(p).has_release_commits == old(p).has_release_commits,
        final(p).version_is_inherited == old(p).version_is_inherited,
        final(p).diff.registry_package_exists == old(p).diff.registry_package_exists,
        final(p).diff.is_version_published == old(p).diff.is_version_published,
        final(p).diff.registry_version == old(p).diff.registry_version,
        final(p).diff.base_version == old(p).diff.base_version,
        final(p).diff.semver_check == old(p).diff.semver_check,
{
    law_included_commits(
        old(p).diff.commits@,
        updater.req.config(old(p).package.name@).changelog_include@,
        commits@,
    );
}

/// The outcome of the update of a package by its own changes: it is to the version that was given, with
/// what the check of its API found and the published version. Its changelog, where changelogs are
/// updated, gets the commits of its diff and is kept for its path.
pub proof fn law_own_update_result<
    E,
    R: Fn(&FilePath) -> Option<String>,
    C: Fn(Option<&str>, &Vec<Commit>) -> Result<(String, String), E>,
>(
    updater: &Updater,
    p: &PackageDiff,
    version: Version,
    old_changelogs: &mut OldChangelogs,
    changelog_path: &FilePath,
    read: R,
    changelog: C,
    r: Result<UpdateResult, E>,
)
    requires
        call_ensures(
            Updater::own_update_result::<E, R, C>,
            (updater, p, version, old_changelogs, changelog_path, read, changelog),
            r,
        ),
    ensures
        r matches Ok(u) ==> {
            &&& u.version == version
            &&& u.semver_check == p.diff.semver_check
            &&& u.registry_version == p.diff.registry_version
            &&& u.changelog is Some <==> updater.req.config(p.package.name@).generic.changelog_update
            &&& u.changelog matches Some(text) ==> final(old_changelogs).stored(changelog_path@)
                == Some(text@)
        },
        !updater.req.config(p.package.name@).generic.changelog_update ==> r is Ok,
        updater.req.config(p.package.name@).generic.changelog_update ==> exists|
            old: Option<&str>,
            given: &Vec<Commit>,
            answer: Result<(String, String), E>,
        |
            #[trigger] call_ensures(changelog, (old, given), answer) && commit_views(given@)
                == commits_for_changelog(commit_views(p.diff.commits@)) && (answer is Ok <==> r is Ok)
                && (answer matches Ok(texts) ==> r->Ok_0.changelog == Some(texts.0)),
        forall|path: Seq<Seq<char>>|
            path != changelog_path@ ==> #[trigger] final(old_changelogs).stored(path) == old(
                old_changelogs,
            ).stored(path),
{
    assert(final(old_changelogs).stored(changelog_path@) == final(old_changelogs).stored(
        changelog_path@,
    ));
    lemma_carried_over(
        updater.req.config(p.package.name@).generic.changelog_update,
        commit_views(p.diff.commits@),
        *changelog_path,
        read,
        changelog,
        *old(old_changelogs),
        *final(old_changelogs),
        r,
    );
}

/// The outcome of the update of a package because of its dependencies: it is to the version of the
/// update, its API is not checked, and it follows no published version. Its changelog, where
/// changelogs are updated, gets the one commit of the update and is kept for its path.
pub proof fn law_dependent_update_result<
    E,
    R: Fn(&FilePath) -> Option<String>,
    C: Fn(Option<&str>, &Vec<Commit>) -> Result<(String, String), E>,
>(
    updater: &Updater,
    u: DependentUpdate,
    package: &Package,
    old_changelogs: &mut OldChangelogs,
    changelog_path: &FilePath,
    read: R,
    changelog: C,
    r: Result<UpdateResult, E>,
)
    requires
        call_ensures(
            Updater::dependent_update_result::<E, R, C>,
            (updater, u, package, old_changelogs, changelog_path, read, changelog),
            r,
        ),
    ensures
        r matches Ok(result) ==> {
            &&& result.version == u.version
            &&& result.semver_check is Skipped
            &&& result.registry_version is None
            &&& result.changelog is Some <==> updater.req.config(
                package.name@,
            ).generic.changelog_update
            &&& result.changelog matches Some(text) ==> final(old_changelogs).stored(
                changelog_path@,
            ) == Some(text@)
        },
        !updater.req.config(package.name@).generic.changelog_update ==> r is Ok,
        updater.req.config(package.name@).generic.changelog_update ==> exists|
            old: Option<&str>,
            given: &Vec<Commit>,
            answer: Result<(String, String), E>,
        |
            #[trigger] call_ensures(changelog, (old, given), answer) && commit_views(given@)
                == commits_for_changelog(seq![u.commit@]) && (answer is Ok <==> r is Ok) && (
            answer matches Ok(texts) ==> r->Ok_0.changelog == Some(texts.0)),
        forall|path: Seq<Seq<char>>|
            path != changelog_path@ ==> #[trigger] final(old_changelogs).stored(path) == old(
                old_changelogs,
            ).stored(path),
{
    assert(final(old_changelogs).stored(changelog_path@) == final(old_changelogs).stored(
        changelog_path@,
    ));
    lemma_carried_over(
        updater.req.config(package.name@).generic.changelog_update,
        seq![u.commit@],
        *changelog_path,
        read,
        changelog,
        *old(old_changelogs),
        *final(old_changelogs),
        r,
    );
}

/// What a changelog that is carried over rests on.
proof fn lemma_carried_over<
    E,
    R: Fn(&FilePath) -> Option<String>,
    C: Fn(Option<&str>, &Vec<Commit>) -> Result<(String, String), E>,
>(
    is_changelog_updated: bool,
    commits: Seq<CommitView>,
    path: FilePath,
    read: R,
    changelog: C,
    before: OldChangelogs,
    after: OldChangelogs,
    r: Result<UpdateResult, E>,
)
    requires
        is_carried_over(
            is_changelog_updated,
            commits,
            path,
            read,
            changelog,
            before,
            after,
            r,
        ),
    ensures
        r is Ok ==> (r->Ok_0.changelog is Some <==> is_changelog_updated),
        !is_changelog_updated ==> r is Ok,
        is_changelog_updated ==> exists|
            old: Option<&str>,
            given: &Vec<Commit>,
            answer: Result<(String, String), E>,
        |
            #[trigger] call_ensures(changelog, (old, given), answer) && commit_views(given@)
                == commits_for_changelog(commits) && (answer is Ok <==> r is Ok) && (
            answer matches Ok(texts) ==> r->Ok_0.changelog == Some(texts.0)),
{
    let old_changelog = choose|old_changelog: Option<Seq<char>>|
        is_old_changelog(read, before.stored(path@), path, old_changelog)
            && #[trigger] is_update_result(
            is_changelog_updated,
            commits,
            old_changelog,
            changelog,
            r,
        );
    assert(is_update_result(is_changelog_updated, commits, old_changelog, changelog, r));
    if is_changelog_updated {
        let (old, given, answer) = choose|
            old: Option<&str>,
            given: &Vec<Commit>,
            answer: Result<(String, String), E>,
        |
            {
                &&& referenced_text(old) == old_changelog
                &&& commit_views(given@) == commits_for_changelog(commits)
                &&& #[trigger] call_ensures(changelog, (old, given), answer)
                &&& match answer {
                    Ok((whole, entry)) => r is Ok && r->Ok_0.changelog == Some(whole)
                        && r->Ok_0.new_changelog_entry == Some(entry),
                    Err(e) => r == Result::<UpdateResult, E>::Err(e),
                }
            };
        assert(call_ensures(changelog, (old, given), answer));
    }
}

/// What is kept for a path is found for it.
pub proof fn law_found_changelogs(changelogs: &OldChangelogs, path: &FilePath, r: Option<String>)
    requires
        call_ensures(OldChangelogs::get, (changelogs, path), r),
    ensures
        r is Some <==> changelogs.stored(path@) is Some,
        r matches Some(text) ==> changelogs.stored(path@) == Some(text@),
{
}

} // verus!
