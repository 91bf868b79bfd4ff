//! What a package's changes are counted from.
use vstd::prelude::*;
use vstd::string::*;

use crate::package::Package;
use crate::semver::Version;
#[allow(unused_imports)]
use crate::semver::law_order_same;
use crate::tags::StableTagInfo;
#[allow(unused_imports)]
use crate::tags::optional_version;
use crate::text::contains;
#[allow(unused_imports)]
use crate::text::{occurs_at, occurs_in};
use crate::updater::Updater;
#[allow(unused_imports)]
use crate::updater::referenced_version;

verus! {

/// What to say where the last commit of a package cannot be checked out. `error` is what git says.
pub fn checkout_error_context(error: &str) -> (r: &'static str)
    ensures
        r@ == (if occurs_in(
            error@,
            "Your local changes to the following files would be overwritten"@,
        ) {
            "The allow-dirty option can't be used in this case"@
        } else {
            "Failed to retrieve the last commit of local repository."@
        }),
{
    if contains(error, "Your local changes to the following files would be overwritten") {
        "The allow-dirty option can't be used in this case"
    } else {
        "Failed to retrieve the last commit of local repository."
    }
}

/// What a package's changes are counted from.
#[derive(Debug)]
pub struct Baseline {
    /// The version whose tag it is.
    pub version: Version,
    /// The commit of the tag, where there is such a tag.
    pub tag_commit: Option<String>,
    /// The version to count from, where it is not the one in the manifest.
    pub base_version: Option<Version>,
}

/// The last stable tag, where there is one, so that release candidates since then do not matter;
/// else the tag of the version in the manifest. `tag_commit` gives the commit of the package's
/// tag for a version.
pub fn baseline<G: Fn(&Version) -> Option<String>>(
    stable_tag: Option<StableTagInfo>,
    package_version: &Version,
    tag_commit: G,
) -> (r: Baseline)
    requires
        forall|v: &Version| call_requires(tag_commit, (v,)),
    ensures
        stable_tag matches Some(info) ==> {
            &&& r.version@ == info.version@
            &&& r.tag_commit == Some(info.commit)
            &&& optional_version(r.base_version) == Some(info.version@)
        },
        stable_tag is None ==> {
            &&& r.version@ == package_version@
            &&& call_ensures(tag_commit, (package_version,), r.tag_commit)
            &&& r.base_version is None
        },
{
    match stable_tag {
        Some(info) => Baseline {
            version: info.version.clone(),
            tag_commit: Some(info.commit),
            base_version: Some(info.version),
        },
        None => Baseline {
            version: package_version.clone(),
            tag_commit: tag_commit(package_version),
            base_version: None,
        },
    }
}

/// A package has a tag for a version that was not published.
#[derive(Debug)]
pub enum RegistryError {
    /// The registry does not have the package.
    NotInRegistry { package: String, git_tag: String },
    /// The local version is greater than the published one.
    LocalIsGreater { package: String, local: Version, registry: Version, git_tag: String },
}

impl RegistryError {
    /// What the error says.
    pub open spec fn text(self) -> Seq<char> {
        match self {
            RegistryError::NotInRegistry { package, git_tag } => "package `"@ + package@
                + "` not found in the registry, but the git tag "@ + git_tag@
                + " exists. Consider running `cargo publish` manually to publish this package."@,
            RegistryError::LocalIsGreater { package, local, registry, git_tag } =>
                "local package `"@ + package@ + "` has a greater version ("@ + local@.text()
                + ") with respect to the registry package ("@ + registry@.text()
                + "), but the git tag "@ + git_tag@
                + " exists. Consider running `cargo publish` manually to publish the new version of this package."@,
        }
    }

    /// What the error says.
    pub fn message(&self) -> (r: String)
        ensures
            r@ == self.text(),
    {
        match self {
            RegistryError::NotInRegistry { package, git_tag } => {
                let mut out = "package `".to_owned();
                out.append(package.as_str());
                out.append("` not found in the registry, but the git tag ");
                out.append(git_tag.as_str());
                out.append(
                    " exists. Consider running `cargo publish` manually to publish this package.",
                );
                out
            },
            RegistryError::LocalIsGreater { package, local, registry, git_tag } => {
                let mut out = "local package `".to_owned();
                out.append(package.as_str());
                out.append("` has a greater version (");
                out.append(local.to_text().as_str());
                out.append(") with respect to the registry package (");
                out.append(registry.to_text().as_str());
                out.append("), but the git tag ");
                out.append(git_tag.as_str());
                out.append(
                    " exists. Consider running `cargo publish` manually to publish the new version of this package.",
                );
                out
            },
        }
    }
}

impl<'a> Updater<'a> {
    /// The tag of a package is checked against the registry: the package is to be published, and
    /// not released from git alone.
    pub open spec fn is_registry_checked(self, name: Seq<char>) -> bool {
        let config = self.req.config(name).generic;
        config.publish && !config.git_only
    }

    /// Checks that the tag which a package's changes are counted from was published: the registry has
    /// the package, and in a version that is not below both the local and the tagged one. So a
    /// release candidate may be ahead of the registry where the last stable tag is not. `git_tag` is
    /// the tag of `baseline`; there is nothing to check where it has no commit.
    pub fn check_published(
        &self,
        package: &Package,
        baseline: &Baseline,
        git_tag: &str,
        registry_version: Option<&Version>,
    ) -> (r: Result<(), RegistryError>)
        ensures
            r is Ok <==> (baseline.tag_commit is Some && self.is_registry_checked(package.name@) ==> {
                &&& registry_version is Some
                &&& !(registry_version->0@.lower(package.version@) && registry_version->0@.lower(
                    baseline.version@,
                ))
            }),
            referenced_version(registry_version) == Some(baseline.version@) || referenced_version(
                registry_version,
            ) == Some(package.version@) ==> r is Ok,
            r matches Err(e) ==> match e {
                RegistryError::NotInRegistry { package: name, git_tag: tag } => {
                    &&& registry_version is None
                    &&& name@ == package.name@
                    &&& tag@ == git_tag@
                },
                RegistryError::LocalIsGreater { package: name, local, registry, git_tag: tag } => {
                    &&& referenced_version(registry_version) == Some(registry@)
                    &&& name@ == package.name@
                    &&& local@ == package.version@
                    &&& tag@ == git_tag@
                },
            },
    {
        proof {
            law_order_same(baseline.version@, baseline.version@);
            law_order_same(package.version@, package.version@);
        }
        if baseline.tag_commit.is_none() || self.req.should_use_git_only(package.name.as_str()) {
            return Ok(());
        }
        let config = self.req.get_package_config(package.name.as_str());
        if !config.generic.publish {
            return Ok(());
        }
        match registry_version {
            None => Err(
                RegistryError::NotInRegistry {
                    package: package.name.clone(),
                    git_tag: git_tag.to_owned(),
                },
            ),
            Some(registry) => if registry.is_lower(&package.version) && registry.is_lower(
                &baseline.version,
            ) {
                Err(
                    RegistryError::LocalIsGreater {
                        package: package.name.clone(),
                        local: package.version.clone(),
                        registry: registry.clone(),
                        git_tag: git_tag.to_owned(),
                    },
                )
            } else {
                Ok(())
            },
        }
    }
}

/// Changes are counted from the last stable tag, whatever the version in the manifest; without such a
/// tag, from the tag of the version in the manifest, and no other version to count from is noted.
pub proof fn law_baseline<G: Fn(&Version) -> Option<String>>(
    stable_tag: Option<StableTagInfo>,
    package_version: &Version,
    tag_commit: G,
    r: Baseline,
)
    requires
        call_ensures(baseline::<G>, (stable_tag, package_version, tag_commit), r),
    ensures
        r.base_version is Some <==> stable_tag is Some,
        stable_tag matches Some(info) ==> {
            &&& r.version@ == info.version@
            &&& r.base_version->0@ == info.version@
            &&& r.tag_commit is Some
            &&& r.tag_commit->0@ == info.commit@
        },
        stable_tag is None ==> r.version@ == package_version@ && call_ensures(
            tag_commit,
            (package_version,),
            r.tag_commit,
        ),
{
}

/// When a tag is refused: only where there is a tag, for a package that is to be published and not
/// released from git alone. Then either the registry does not have the package, or what it has is
/// lower than the local version and lower than the tagged one. Nothing else is refused.
pub proof fn law_refused_tags(
    updater: &Updater,
    package: &Package,
    baseline: &Baseline,
    git_tag: &str,
    registry_version: Option<&Version>,
    r: Result<(), RegistryError>,
)
    requires
        call_ensures(
            Updater::check_published,
            (updater, package, baseline, git_tag, registry_version),
            r,
        ),
    ensures
        baseline.tag_commit is None ==> r is Ok,
        !updater.req.config(package.name@).generic.publish ==> r is Ok,
        updater.req.config(package.name@).generic.git_only ==> r is Ok,
        registry_version matches Some(v) ==> !v@.lower(package.version@) || !v@.lower(
            baseline.version@,
        ) ==> r is Ok,
        baseline.tag_commit is Some && updater.req.config(package.name@).generic.publish
            && !updater.req.config(package.name@).generic.git_only ==> {
            &&& registry_version is None ==> r is Err && r->Err_0 is NotInRegistry
            &&& registry_version matches Some(v) ==> v@.lower(package.version@) && v@.lower(
                baseline.version@,
            ) ==> r is Err && r->Err_0 is LocalIsGreater
        },
        r matches Err(RegistryError::NotInRegistry { package: name, git_tag: tag }) ==> name@
            == package.name@ && tag@ == git_tag@,
        r matches Err(
            RegistryError::LocalIsGreater { package: name, local, registry, git_tag: tag },
        ) ==> name@ == package.name@ && tag@ == git_tag@ && local@ == package.version@ && registry@
            == registry_version->0@,
{
}

/// What is said about a failed checkout depends only on whether git says that local changes would be
/// overwritten: with that anywhere in its words, the option for uncommitted changes is to blame, and
/// else it is not.
pub proof fn law_checkout_context(error: &str, r: &'static str)
    requires
        call_ensures(checkout_error_context, (error,), r),
    ensures
        forall|before: Seq<char>, after: Seq<char>|
            error@ == #[trigger] ((before
                + "Your local changes to the following files would be overwritten"@) + after)
                ==> r@ == "The allow-dirty option can't be used in this case"@,
        (forall|before: Seq<char>, after: Seq<char>|
            error@ != #[trigger] ((before
                + "Your local changes to the following files would be overwritten"@) + after))
            ==> r@ == "Failed to retrieve the last commit of local repository."@,
{
    let part = "Your local changes to the following files would be overwritten"@;
    assert forall|before: Seq<char>, after: Seq<char>|
        error@ == #[trigger] ((before + part) + after) implies r@
        == "The allow-dirty option can't be used in this case"@ by {
        let i = before.len() as int;
        assert(error@.subrange(i, i + part.len()) =~= part);
        assert(occurs_at(error@, part, i));
    }
    if occurs_in(error@, part) {
        let i = choose|i: int| occurs_at(error@, part, i);
        let before = error@.take(i);
        let after = error@.skip(i + part.len());
        assert(error@ =~= (before + part) + after);
    }
}

/// What a refusal says: the name of the package and the tag, and where the local version is greater,
/// both versions, the local one first and the published one as that of the registry.
pub proof fn law_refusal_texts(e: &RegistryError, r: String)
    requires
        call_ensures(RegistryError::message, (e,), r),
    ensures
        *e matches RegistryError::NotInRegistry { package, git_tag } ==> {
            &&& occurs_in(r@, "package `"@ + package@ + "` not found in the registry"@)
            &&& occurs_in(r@, "the git tag "@ + git_tag@ + " exists"@)
        },
        *e matches RegistryError::LocalIsGreater { package, local, registry, git_tag } ==> {
            &&& occurs_in(
                r@,
                "local package `"@ + package@ + "` has a greater version ("@ + local@.text() + ")"@,
            )
            &&& occurs_in(r@, "registry package ("@ + registry@.text() + ")"@)
            &&& occurs_in(r@, "the git tag "@ + git_tag@ + " exists"@)
        },
{
    reveal_strlit("package `");
    reveal_strlit("` not found in the registry");
    reveal_strlit("` not found in the registry, but the git tag ");
    reveal_strlit("the git tag ");
    reveal_strlit(" exists");
    reveal_strlit(
        " exists. Consider running `cargo publish` manually to publish this package.",
    );
    reveal_strlit("local package `");
    reveal_strlit("` has a greater version (");
    reveal_strlit(")");
    reveal_strlit("registry package (");
    reveal_strlit(") with respect to the registry package (");
    reveal_strlit("), but the git tag ");
    reveal_strlit(
        " exists. Consider running `cargo publish` manually to publish the new version of this package.",
    );
    match *e {
        RegistryError::NotInRegistry { package, git_tag } => {
            let named = "package `"@ + package@ + "` not found in the registry"@;
            assert(r@.subrange(0, named.len() as int) =~= named);
            assert(occurs_at(r@, named, 0));
            let tagged = "the git tag "@ + git_tag@ + " exists"@;
            let at = "package `"@.len() + package@.len()
                + "` not found in the registry, but the git tag "@.len() - "the git tag "@.len();
            assert(r@.subrange(at, at + tagged.len()) =~= tagged);
            assert(occurs_at(r@, tagged, at));
        },
        RegistryError::LocalIsGreater { package, local, registry, git_tag } => {
            let named = "local package `"@ + package@ + "` has a greater version ("@
                + local@.text() + ")"@;
            assert(r@.subrange(0, named.len() as int) =~= named);
            assert(occurs_at(r@, named, 0));
            let start = "local package `"@.len() + package@.len()
                + "` has a greater version ("@.len() + local@.text().len();
            let published = "registry package ("@ + registry@.text() + ")"@;
            let at = start + ") with respect to the registry package ("@.len()
                - "registry package ("@.len();
            assert(r@.subrange(at, at + published.len()) =~= published);
            assert(occurs_at(r@, published, at));
            let tagged = "the git tag "@ + git_tag@ + " exists"@;
            let there = start + ") with respect to the registry package ("@.len()
                + registry@.text().len() + "), but the git tag "@.len() - "the git tag "@.len();
            assert(r@.subrange(there, there + tagged.len()) =~= tagged);
            assert(occurs_at(r@, tagged, there));
        },
    }
}

} // verus!
