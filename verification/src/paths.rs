//! Paths of packages and their files, between a project and the repository that it is in.
use vstd::prelude::*;
use vstd::string::*;

use crate::text::same_text;
#[allow(unused_imports)]
use crate::text::views;

verus! {

/// A path, by its components. Paths are the same where their components are.
#[derive(Debug)]
pub struct FilePath {
    pub components: Vec<String>,
}

impl View for FilePath {
    type V = Seq<Seq<char>>;

    open spec fn view(&self) -> Seq<Seq<char>> {
        views(self.components@)
    }
}

impl Clone for FilePath {
    fn clone(&self) -> (r: Self)
        ensures
            r@ == self@,
    {
        let mut components: Vec<String> = Vec::new();
        copy_components(&mut components, &self.components, 0);
        let r = FilePath { components };
        assert(r@ =~= self@);
        r
    }
}

/// Puts those of `from`, from place `start` on, behind `to`.
fn copy_components(to: &mut Vec<String>, from: &Vec<String>, start: usize)
    requires
        start <= from@.len(),
    ensures
        views(final(to)@) == views(old(to)@) + views(from@).skip(start as int),
{
    let ghost before = views(to@);
    let ghost all = views(from@);
    assert(before + all.subrange(start as int, start as int) =~= before);
    for i in start..from.len()
        invariant
            all == views(from@),
            all.len() == from@.len(),
            start <= i,
            views(to@) == before + all.subrange(start as int, i as int),
    {
        let ghost seen = to@;
        to.push(from[i].clone());
        assert(views(to@) =~= views(seen).push(all[i as int]));
        assert(before + all.subrange(start as int, i + 1) =~= (before + all.subrange(
            start as int,
            i as int,
        )).push(all[i as int]));
    }
    assert(all.subrange(start as int, from@.len() as int) =~= all.skip(start as int));
}

impl FilePath {
    pub fn new(components: Vec<String>) -> (r: FilePath)
        ensures
            r.components == components,
    {
        FilePath { components }
    }

    /// Whether the two paths are the same.
    pub fn is_same(&self, other: &FilePath) -> (r: bool)
        ensures
            r == (self@ == other@),
    {
        if self.components.len() != other.components.len() {
            assert(self@.len() != other@.len());
            return false;
        }
        for i in 0..self.components.len()
            invariant
                self.components@.len() == other.components@.len(),
                forall|j: int| 0 <= j < i ==> self@[j] == other@[j],
        {
            assert(self@[i as int] == self.components@[i as int]@);
            assert(other@[i as int] == other.components@[i as int]@);
            if !same_text(self.components[i].as_str(), other.components[i].as_str()) {
                return false;
            }
        }
        assert(self@ =~= other@);
        true
    }

    /// What is left of the path below `base`.
    pub fn strip_prefix(&self, base: &FilePath) -> (r: Option<FilePath>)
        ensures
            r is Some <==> base@.is_prefix_of(self@),
            r matches Some(rest) ==> self@ == base@ + rest@,
    {
        let n: usize = base.components.len();
        if n > self.components.len() {
            assert(base@.len() > self@.len());
            return None;
        }
        for i in 0..n
            invariant
                n == base.components@.len(),
                n <= self.components@.len(),
                forall|j: int| 0 <= j < i ==> self@[j] == base@[j],
        {
            assert(self@[i as int] == self.components@[i as int]@);
            assert(base@[i as int] == base.components@[i as int]@);
            if !same_text(self.components[i].as_str(), base.components[i].as_str()) {
                return None;
            }
        }
        let mut rest: Vec<String> = Vec::new();
        copy_components(&mut rest, &self.components, n);
        let r = FilePath { components: rest };
        assert(r@ =~= self@.skip(n as int));
        assert(self@ =~= base@ + r@);
        assert(base@ =~= self@.subrange(0, base@.len() as int));
        Some(r)
    }

    /// The path `relative` below this one.
    pub fn join(&self, relative: &FilePath) -> (r: FilePath)
        ensures
            r@ == self@ + relative@,
    {
        let mut r = self.clone();
        copy_components(&mut r.components, &relative.components, 0);
        assert(r@ =~= self@ + relative@);
        r
    }
}

/// A path is not below the directory that it should be below.
#[derive(Debug, Clone, Copy, PartialEq, Eq, Structural)]
pub struct NotBelow;

/// Where a path of the project at `project_root` stands in the repository at `repository_dir`,
/// which holds the same files.
pub fn get_repo_path(
    old_path: &FilePath,
    repository_dir: &FilePath,
    project_root: &FilePath,
) -> (r: Result<FilePath, NotBelow>)
    ensures
        r is Ok <==> project_root@.is_prefix_of(old_path@),
        r matches Ok(p) ==> p@ == repository_dir@ + old_path@.skip(project_root@.len() as int),
{
    match old_path.strip_prefix(project_root) {
        Some(relative) => {
            assert(relative@ =~= old_path@.skip(project_root@.len() as int));
            Ok(repository_dir.join(&relative))
        },
        None => Err(NotBelow),
    }
}

/// Paths keep their place below the root, and can be taken back: from the repository to the
/// project, a path comes out as it went in.
pub proof fn law_repo_path_round_trip(
    path: Seq<Seq<char>>,
    repository_dir: Seq<Seq<char>>,
    project_root: Seq<Seq<char>>,
)
    requires
        project_root.is_prefix_of(path),
    ensures
        ({
            let moved = repository_dir + path.skip(project_root.len() as int);
            &&& repository_dir.is_prefix_of(moved)
            &&& project_root + moved.skip(repository_dir.len() as int) == path
        }),
{
    let moved = repository_dir + path.skip(project_root.len() as int);
    assert(repository_dir =~= moved.subrange(0, repository_dir.len() as int));
    assert(moved.skip(repository_dir.len() as int) =~= path.skip(project_root.len() as int));
    assert(project_root + path.skip(project_root.len() as int) =~= path);
}

/// `file` is generated while a package is put together, so that it is not in git.
pub open spec fn is_generated(file: Seq<char>) -> bool {
    file == "Cargo.toml.orig"@ || file == ".cargo_vcs_info.json"@
}

/// Those of `files` that are not generated while a package is put together.
pub open spec fn files_in_git(files: Seq<Seq<char>>) -> Seq<Seq<char>>
    decreases files.len(),
{
    if files.len() == 0 {
        Seq::empty()
    } else if is_generated(files.last()) {
        files_in_git(files.drop_last())
    } else {
        files_in_git(files.drop_last()).push(files.last())
    }
}

/// Those of the files of a package that can be in git.
pub fn without_generated_files(files: &Vec<String>) -> (r: Vec<String>)
    ensures
        views(r@) == files_in_git(views(files@)),
{
    let mut out: Vec<String> = Vec::new();
    let ghost all = views(files@);
    assert(views(out@) =~= files_in_git(all.take(0)));
    for i in 0..files.len()
        invariant
            all == views(files@),
            all.len() == files@.len(),
            views(out@) == files_in_git(all.take(i as int)),
    {
        let ghost now = all.take(i + 1);
        let ghost before = out@;
        assert(now.drop_last() =~= all.take(i as int));
        assert(now.last() == files@[i as int]@);
        let file = files[i].as_str();
        if !same_text(file, "Cargo.toml.orig") && !same_text(file, ".cargo_vcs_info.json") {
            out.push(files[i].clone());
            assert(views(out@) =~= views(before).push(files@[i as int]@));
        }
    }
    assert(all.take(files@.len() as int) =~= all);
    out
}

/// The paths.
pub open spec fn path_views(paths: Seq<FilePath>) -> Seq<Seq<Seq<char>>> {
    paths.map_values(|p: FilePath| p@)
}

/// The files of a package as git knows them: relative to the repository. It fails with the place of
/// the first file that is not in the repository. `files` are the files of the package, with
/// links resolved, and `repository_dir` is the repository, so too.
pub fn get_package_files(files: &Vec<FilePath>, repository_dir: &FilePath) -> (r: Result<
    Vec<FilePath>,
    usize,
>)
    ensures
        r is Ok <==> forall|i: int|
            0 <= i < files@.len() ==> repository_dir@.is_prefix_of((#[trigger] files@[i])@),
        r matches Ok(relative) ==> path_views(relative@) == path_views(files@).map_values(
            |p: Seq<Seq<char>>| p.skip(repository_dir@.len() as int),
        ),
        r matches Err(i) ==> i < files@.len() && !repository_dir@.is_prefix_of(
            files@[i as int]@,
        ) && forall|j: int|
            0 <= j < i ==> repository_dir@.is_prefix_of((#[trigger] files@[j])@),
{
    let mut out: Vec<FilePath> = Vec::new();
    for i in 0..files.len()
        invariant
            out@.len() == i,
            forall|j: int|
                0 <= j < i ==> (#[trigger] out@[j])@ == files@[j]@.skip(
                    repository_dir@.len() as int,
                ),
            forall|j: int| 0 <= j < i ==> repository_dir@.is_prefix_of((#[trigger] files@[j])@),
    {
        match files[i].strip_prefix(repository_dir) {
            Some(relative) => {
                assert(relative@ =~= files@[i as int]@.skip(repository_dir@.len() as int));
                out.push(relative);
            },
            None => {
                return Err(i);
            },
        }
    }
    assert(path_views(out@) =~= path_views(files@).map_values(
        |p: Seq<Seq<char>>| p.skip(repository_dir@.len() as int),
    ));
    Ok(out)
}

/// `paths` holds `p`.
pub open spec fn holds_path(paths: Seq<FilePath>, p: Seq<Seq<char>>) -> bool {
    exists|i: int| 0 <= i < paths.len() && (#[trigger] paths[i])@ == p
}

/// `a` and `b` have a path in common.
pub open spec fn share_path(a: Seq<FilePath>, b: Seq<FilePath>) -> bool {
    exists|i: int| 0 <= i < a.len() && holds_path(b, (#[trigger] a[i])@)
}

/// Whether `paths` holds `p`.
fn contains_path(paths: &Vec<FilePath>, p: &FilePath) -> (r: bool)
    ensures
        r == holds_path(paths@, p@),
{
    for i in 0..paths.len()
        invariant
            forall|j: int| 0 <= j < i ==> (#[trigger] paths@[j])@ != p@,
    {
        if paths[i].is_same(p) {
            return true;
        }
    }
    false
}

/// Whether a commit changed files of a package. Where the files of the package are not known, it
/// did not; where only those of the commit are not known, it may have.
pub fn are_changed_files_in_package(
    package_files: Option<&Vec<FilePath>>,
    changed_files: Option<&Vec<FilePath>>,
) -> (r: bool)
    ensures
        r == match package_files {
            None => false,
            Some(package_files) => match changed_files {
                None => true,
                Some(changed_files) => share_path(package_files@, changed_files@),
            },
        },
{
    let of_package = match package_files {
        Some(files) => files,
        None => {
            return false;
        },
    };
    let of_commit = match changed_files {
        Some(files) => files,
        None => {
            return true;
        },
    };
    for i in 0..of_package.len()
        invariant
            package_files == Some(of_package),
            changed_files == Some(of_commit),
            forall|j: int| 0 <= j < i ==> !holds_path(of_commit@, (#[trigger] of_package@[j])@),
    {
        if contains_path(of_commit, &of_package[i]) {
            return true;
        }
    }
    false
}

/// The paths whose commits count for a package: its directory, and its readme where that is
/// elsewhere.
pub fn pathbufs_to_check(package_path: &FilePath, readme_path: Option<FilePath>) -> (r: Vec<
    FilePath,
>)
    ensures
        path_views(r@) == match readme_path {
            Some(readme) => seq![package_path@, readme@],
            None => seq![package_path@],
        },
{
    let mut paths: Vec<FilePath> = Vec::new();
    paths.push(package_path.clone());
    assert(path_views(paths@) =~= seq![package_path@]);
    if let Some(readme) = readme_path {
        let ghost path = readme@;
        paths.push(readme);
        assert(path_views(paths@) =~= seq![package_path@, path]);
    }
    paths
}

/// Where a path of the project stands in the repository: below the repository as it is below the
/// project. A path that is not below the project has no place there.
pub proof fn law_repo_path(
    old_path: &FilePath,
    repository_dir: &FilePath,
    project_root: &FilePath,
    r: Result<FilePath, NotBelow>,
)
    requires
        call_ensures(get_repo_path, (old_path, repository_dir, project_root), r),
    ensures
        forall|rest: Seq<Seq<char>>|
            old_path@ == #[trigger] (project_root@ + rest) ==> r is Ok && r->Ok_0@
                == repository_dir@ + rest,
        r is Ok ==> exists|rest: Seq<Seq<char>>| old_path@ == #[trigger] (project_root@ + rest),
{
    assert forall|rest: Seq<Seq<char>>| old_path@ == #[trigger] (project_root@ + rest) implies r is Ok
        && r->Ok_0@ == repository_dir@ + rest by {
        assert(old_path@.subrange(0, project_root@.len() as int) =~= project_root@);
        assert(old_path@.skip(project_root@.len() as int) =~= rest);
    }
    if r is Ok {
        let rest = old_path@.skip(project_root@.len() as int);
        assert(old_path@ =~= project_root@ + rest);
    }
}

/// A path below another is found again behind it, and a path is never below one that it does not
/// begin with.
pub proof fn law_joined_path(
    base: &FilePath,
    relative: &FilePath,
    joined: FilePath,
    r: Option<FilePath>,
)
    requires
        call_ensures(FilePath::join, (base, relative), joined),
        call_ensures(FilePath::strip_prefix, (&joined, base), r),
    ensures
        r is Some,
        r->0@ == relative@,
        joined@.len() == base@.len() + relative@.len(),
{
    assert(joined@.subrange(0, base@.len() as int) =~= base@);
    assert(joined@ == base@ + r->0@);
    assert(joined@.skip(base@.len() as int) =~= relative@);
    assert(joined@.skip(base@.len() as int) =~= r->0@);
}

/// Two paths are the same exactly where they have the same components in the same order.
pub proof fn law_same_paths(a: &FilePath, b: &FilePath, r: bool)
    requires
        call_ensures(FilePath::is_same, (a, b), r),
    ensures
        r <==> a.components@.len() == b.components@.len() && forall|i: int|
            0 <= i < a.components@.len() ==> (#[trigger] a.components@[i])@ == b.components@[i]@,
{
    if a@ == b@ {
        assert(a@.len() == a.components@.len());
        assert(b@.len() == b.components@.len());
        assert forall|i: int| 0 <= i < a.components@.len() implies (#[trigger] a.components@[i])@
            == b.components@[i]@ by {
            assert(a@[i] == b@[i]);
        }
    }
    if a.components@.len() == b.components@.len() && forall|i: int|
        0 <= i < a.components@.len() ==> (#[trigger] a.components@[i])@ == b.components@[i]@ {
        assert forall|i: int| 0 <= i < a@.len() implies a@[i] == b@[i] by {
            assert(a@[i] == a.components@[i]@);
        }
        assert(a@ =~= b@);
    }
}

/// Of the files of a package, just the two that are generated while it is put together are left out,
/// wherever they stand; the others keep their order. `from` are the places of those that stay.
pub proof fn law_files_in_git(files: &Vec<String>, r: Vec<String>) -> (from: Seq<int>)
    requires
        call_ensures(without_generated_files, (files,), r),
    ensures
        r@.len() == from.len(),
        forall|a: int, b: int| 0 <= a < b < from.len() ==> from[a] < from[b],
        forall|k: int|
            0 <= k < from.len() ==> 0 <= #[trigger] from[k] < files@.len() && r@[k]@
                == files@[from[k]]@,
        forall|i: int|
            0 <= i < files@.len() ==> (from.contains(i) <==> (#[trigger] files@[i])@
                != "Cargo.toml.orig"@ && files@[i]@ != ".cargo_vcs_info.json"@),
{
    let all = views(files@);
    let from = lemma_files_in_git(all);
    assert(views(r@).len() == r@.len());
    assert forall|k: int| 0 <= k < from.len() implies 0 <= #[trigger] from[k] < files@.len()
        && r@[k]@ == files@[from[k]]@ by {
        assert(views(r@)[k] == r@[k]@);
        assert(all[from[k]] == files@[from[k]]@);
    }
    assert forall|i: int| 0 <= i < files@.len() implies (from.contains(i) <==> (
    #[trigger] files@[i])@ != "Cargo.toml.orig"@ && files@[i]@ != ".cargo_vcs_info.json"@) by {
        assert(all[i] == files@[i]@);
    }
    from
}

/// Where the files that stay come from.
proof fn lemma_files_in_git(files: Seq<Seq<char>>) -> (from: Seq<int>)
    ensures
        files_in_git(files).len() == from.len(),
        forall|a: int, b: int| 0 <= a < b < from.len() ==> from[a] < from[b],
        forall|k: int|
            0 <= k < from.len() ==> 0 <= #[trigger] from[k] < files.len() && files_in_git(files)[k]
                == files[from[k]],
        forall|i: int|
            0 <= i < files.len() ==> (from.contains(i) <==> #[trigger] files[i]
                != "Cargo.toml.orig"@ && files[i] != ".cargo_vcs_info.json"@),
    decreases files.len(),
{
    if files.len() == 0 {
        Seq::empty()
    } else {
        let less = files.drop_last();
        let last = files.len() - 1;
        let before = lemma_files_in_git(less);
        let stays = files[last] != "Cargo.toml.orig"@ && files[last] != ".cargo_vcs_info.json"@;
        let from = if stays {
            before.push(last)
        } else {
            before
        };
        assert forall|k: int| 0 <= k < from.len() implies 0 <= #[trigger] from[k] < files.len()
            && files_in_git(files)[k] == files[from[k]] by {
            if k < before.len() {
                assert(from[k] == before[k]);
                assert(less[before[k]] == files[before[k]]);
            }
        }
        assert forall|i: int| 0 <= i < files.len() implies (from.contains(i)
            <==> #[trigger] files[i] != "Cargo.toml.orig"@ && files[i]
            != ".cargo_vcs_info.json"@) by {
            if i < last {
                assert(less[i] == files[i]);
                if before.contains(i) {
                    let k = choose|k: int| 0 <= k < before.len() && before[k] == i;
                    assert(from[k] == i);
                }
                if from.contains(i) {
                    let k = choose|k: int| 0 <= k < from.len() && from[k] == i;
                    assert(before[k] == i);
                }
            } else {
                if stays {
                    assert(from[from.len() - 1] == last);
                }
                if from.contains(i) && !stays {
                    let k = choose|k: int| 0 <= k < from.len() && from[k] == i;
                    assert(before[k] < less.len());
                }
            }
        }
        from
    }
}

/// The files of a package in git: each of them, in its order, by its path below the repository. It
/// fails exactly where a file is elsewhere, and names the first such file.
pub proof fn law_package_files(
    files: &Vec<FilePath>,
    repository_dir: &FilePath,
    r: Result<Vec<FilePath>, usize>,
)
    requires
        call_ensures(get_package_files, (files, repository_dir), r),
    ensures
        r matches Ok(relative) ==> {
            &&& relative@.len() == files@.len()
            &&& forall|i: int|
                0 <= i < files@.len() ==> (#[trigger] files@[i])@ == repository_dir@
                    + relative@[i]@
        },
        r matches Err(i) ==> {
            &&& i < files@.len()
            &&& forall|rest: Seq<Seq<char>>| files@[i as int]@ != #[trigger] (repository_dir@ + rest)
            &&& forall|j: int|
                0 <= j < i ==> repository_dir@.is_prefix_of((#[trigger] files@[j])@)
        },
{
    if let Ok(relative) = r {
        let cut = path_views(files@).map_values(
            |p: Seq<Seq<char>>| p.skip(repository_dir@.len() as int),
        );
        assert(path_views(relative@).len() == relative@.len());
        assert forall|i: int| 0 <= i < files@.len() implies (#[trigger] files@[i])@
            == repository_dir@ + relative@[i]@ by {
            assert(path_views(relative@)[i] == cut[i]);
            assert(relative@[i]@ == files@[i]@.skip(repository_dir@.len() as int));
            assert(files@[i]@ =~= repository_dir@ + relative@[i]@);
        }
    }
    if let Err(i) = r {
        assert forall|rest: Seq<Seq<char>>| files@[i as int]@ != #[trigger] (repository_dir@ + rest) by {
            if files@[i as int]@ == repository_dir@ + rest {
                assert(files@[i as int]@.subrange(0, repository_dir@.len() as int)
                    =~= repository_dir@);
            }
        }
    }
}

/// A commit changed a package where some path is both among the changed files and among those of the
/// package. Without the files of the package it did not; without its own it may have.
pub proof fn law_changed_files(
    package_files: Option<&Vec<FilePath>>,
    changed_files: Option<&Vec<FilePath>>,
    r: bool,
)
    requires
        call_ensures(are_changed_files_in_package, (package_files, changed_files), r),
    ensures
        package_files is None ==> !r,
        package_files is Some && changed_files is None ==> r,
        package_files is Some && changed_files is Some ==> {
            let (a, b) = (package_files->0@, changed_files->0@);
            &&& forall|i: int, j: int|
                0 <= i < a.len() && 0 <= j < b.len() && (#[trigger] a[i])@ == (#[trigger] b[j])@
                    ==> r
            &&& r ==> exists|i: int, j: int|
                0 <= i < a.len() && 0 <= j < b.len() && (#[trigger] a[i])@ == (#[trigger] b[j])@
        },
{
    if package_files is Some && changed_files is Some {
        let (a, b) = (package_files->0@, changed_files->0@);
        assert forall|i: int, j: int|
            0 <= i < a.len() && 0 <= j < b.len() && (#[trigger] a[i])@ == (
            #[trigger] b[j])@ implies r by {
            assert(holds_path(b, a[i]@));
        }
        if r {
            let i = choose|i: int| 0 <= i < a.len() && holds_path(b, (#[trigger] a[i])@);
            let j = choose|j: int| 0 <= j < b.len() && (#[trigger] b[j])@ == a[i]@;
            assert(a[i]@ == b[j]@);
        }
    }
}

/// Commits of a package are looked for in its directory, and at its readme where there is one to look
/// at, and nowhere else.
pub proof fn law_paths_to_check(
    package_path: &FilePath,
    readme_path: Option<FilePath>,
    r: Vec<FilePath>,
)
    requires
        call_ensures(pathbufs_to_check, (package_path, readme_path), r),
    ensures
        r@.len() == (if readme_path is Some {
            2int
        } else {
            1int
        }),
        r@[0]@ == package_path@,
        readme_path matches Some(readme) ==> r@[1]@ == readme@,
{
    assert(path_views(r@).len() == r@.len());
    assert(path_views(r@)[0] == r@[0]@);
    if readme_path is Some {
        assert(path_views(r@)[1] == r@[1]@);
    }
}

} // verus!
