//! What the user asks for: how packages are released, and what is set for each.
use vstd::prelude::*;
use vstd::string::*;

use crate::increment::VersionUpdater;
#[allow(unused_imports)]
use crate::increment::{optional_text, regex_compiles, UpdaterView};
use crate::package::Package;
use crate::text::same_text;

verus! {

/// How versions are chosen.
#[derive(Debug, Clone, Copy, PartialEq, Eq, Structural)]
pub enum ReleaseMode {
    /// Each package by its own changes.
    Default,
    /// Release candidates, with bumps propagated to dependents.
    Rc,
    /// Stable versions, with bumps propagated to dependents.
    Stable,
}

/// Why updates could not be determined.
#[derive(Debug)]
pub enum UpdateError {
    /// A custom increment pattern does not compile.
    InvalidRegex(String),
    /// There is no version for a version group.
    MissingVersionGroup(String),
}

impl UpdateError {
    /// What the error says.
    pub open spec fn text(self) -> Seq<char> {
        match self {
            UpdateError::InvalidRegex(pattern) => "invalid regex: "@ + pattern@,
            UpdateError::MissingVersionGroup(group) =>
                "failed to retrieve version for version group "@ + group@,
        }
    }

    /// What the error says.
    pub fn message(&self) -> (r: String)
        ensures
            r@ == self.text(),
    {
        match self {
            UpdateError::InvalidRegex(pattern) => {
                let mut out = "invalid regex: ".to_owned();
                out.append(pattern.as_str());
                out
            },
            UpdateError::MissingVersionGroup(group) => {
                let mut out = "failed to retrieve version for version group ".to_owned();
                out.append(group.as_str());
                out
            },
        }
    }
}

/// What can be set for a package and for all of them.
#[derive(Debug)]
pub struct UpdateConfig {
    pub semver_check: bool,
    pub changelog_update: bool,
    pub publish: bool,
    pub git_only: bool,
    pub features_always_increment_minor: bool,
    pub breaking_always_increment_major: bool,
    pub custom_minor_increment_regex: Option<String>,
    pub custom_major_increment_regex: Option<String>,
}

/// What is set for a package.
#[derive(Debug)]
pub struct PackageUpdateConfig {
    pub generic: UpdateConfig,
    /// The packages whose commits go into the changelog too.
    pub changelog_include: Vec<String>,
    /// The group of packages that share a version.
    pub version_group: Option<String>,
}

impl UpdateConfig {
    /// The rules for increments that are set.
    pub open spec fn updater(self) -> UpdaterView {
        UpdaterView {
            features_always_increment_minor: self.features_always_increment_minor,
            breaking_always_increment_major: self.breaking_always_increment_major,
            custom_minor_increment_regex: optional_text(self.custom_minor_increment_regex),
            custom_major_increment_regex: optional_text(self.custom_major_increment_regex),
        }
    }

    /// `e` reports the first pattern that does not compile.
    pub open spec fn reports(self, e: UpdateError) -> bool {
        let minor = self.updater().custom_minor_increment_regex;
        let bad = if minor is Some && !regex_compiles(minor->0) {
            minor
        } else {
            self.updater().custom_major_increment_regex
        };
        e is InvalidRegex && bad == Some(e->InvalidRegex_0@)
    }

    /// The rules for increments that are set.
    pub fn version_updater(&self) -> (r: Result<VersionUpdater, UpdateError>)
        ensures
            r is Ok <==> self.updater().valid(),
            r matches Ok(u) ==> u@ == self.updater(),
            r matches Err(e) ==> self.reports(e),
    {
        let mut updater = VersionUpdater::default().with_features_always_increment_minor(
            self.features_always_increment_minor,
        ).with_breaking_always_increment_major(self.breaking_always_increment_major);
        if let Some(pattern) = &self.custom_minor_increment_regex {
            match updater.with_custom_minor_increment_regex(pattern.as_str()) {
                Some(u) => {
                    updater = u;
                },
                None => {
                    return Err(UpdateError::InvalidRegex(pattern.clone()));
                },
            }
        }
        if let Some(pattern) = &self.custom_major_increment_regex {
            match updater.with_custom_major_increment_regex(pattern.as_str()) {
                Some(u) => {
                    updater = u;
                },
                None => {
                    return Err(UpdateError::InvalidRegex(pattern.clone()));
                },
            }
        }
        Ok(updater)
    }
}

/// What the user asks for.
#[derive(Debug)]
pub struct UpdateRequest {
    pub release_mode: ReleaseMode,
    /// What is set for packages without settings of their own.
    pub default_config: PackageUpdateConfig,
    /// Settings of single packages; a later one replaces an earlier one.
    pub overrides: Vec<(String, PackageUpdateConfig)>,
    /// How many commits of an unpublished package are looked at; zero for all.
    pub max_analyze_commits: u32,
}

/// The settings of the package called `name`.
pub open spec fn config_in(
    overrides: Seq<(String, PackageUpdateConfig)>,
    default: PackageUpdateConfig,
    name: Seq<char>,
) -> PackageUpdateConfig
    decreases overrides.len(),
{
    if overrides.len() == 0 {
        default
    } else if overrides.last().0@ == name {
        overrides.last().1
    } else {
        config_in(overrides.drop_last(), default, name)
    }
}

impl UpdateRequest {
    pub fn new(release_mode: ReleaseMode, default_config: PackageUpdateConfig) -> (r: UpdateRequest)
        ensures
            r.release_mode == release_mode,
            r.default_config == default_config,
            r.overrides@.len() == 0,
            r.max_analyze_commits == 0,
    {
        UpdateRequest { release_mode, default_config, overrides: Vec::new(), max_analyze_commits: 0 }
    }

    /// Sets what holds for the package called `name`.
    pub fn with_package_config(self, name: String, config: PackageUpdateConfig) -> (r:
        UpdateRequest)
        ensures
            r == (UpdateRequest { overrides: r.overrides, ..self }),
            r.overrides@ == self.overrides@.push((name, config)),
    {
        let mut overrides = self.overrides;
        overrides.push((name, config));
        UpdateRequest {
            release_mode: self.release_mode,
            default_config: self.default_config,
            overrides,
            max_analyze_commits: self.max_analyze_commits,
        }
    }

    /// The settings of the package called `name`.
    pub open spec fn config(self, name: Seq<char>) -> PackageUpdateConfig {
        config_in(self.overrides@, self.default_config, name)
    }

    /// The settings of the package called `package`.
    pub fn get_package_config(&self, package: &str) -> (r: &PackageUpdateConfig)
        ensures
            *r == self.config(package@),
    {
        let mut i: usize = self.overrides.len();
        assert(self.overrides@.take(self.overrides@.len() as int) =~= self.overrides@);
        while i > 0
            invariant
                i <= self.overrides@.len(),
                self.config(package@) == config_in(
                    self.overrides@.take(i as int),
                    self.default_config,
                    package@,
                ),
            decreases i,
        {
            let ghost now = self.overrides@.take(i as int);
            assert(now.drop_last() =~= self.overrides@.take(i - 1));
            assert(now.last() == self.overrides@[i - 1]);
            if same_text(self.overrides[i - 1].0.as_str(), package) {
                return &self.overrides[i - 1].1;
            }
            i = i - 1;
        }
        &self.default_config
    }

    /// Whether the package called `package` is released from git alone, without a registry.
    pub fn should_use_git_only(&self, package: &str) -> (r: bool)
        ensures
            r == self.config(package@).generic.git_only,
    {
        self.get_package_config(package).generic.git_only
    }
}

/// The settings last made for a package are the ones that hold for it, and those of other
/// packages stay.
pub proof fn law_package_config(
    overrides: Seq<(String, PackageUpdateConfig)>,
    default: PackageUpdateConfig,
    name: String,
    config: PackageUpdateConfig,
    other: Seq<char>,
)
    ensures
        config_in(overrides.push((name, config)), default, name@) == config,
        other != name@ ==> config_in(overrides.push((name, config)), default, other) == config_in(
            overrides,
            default,
            other,
        ),
{
    assert(overrides.push((name, config)).drop_last() =~= overrides);
}

/// The packages of a project.
#[derive(Debug)]
pub struct Project {
    /// The packages that can be published, dependencies before dependents.
    pub publishable_packages: Vec<Package>,
    /// All packages of the workspace.
    pub workspace_packages: Vec<Package>,
}

/// Settings of a package are found: the last ones made for its name, and the default where there are
/// none.
pub proof fn law_settings_are_found(
    overrides: Seq<(String, PackageUpdateConfig)>,
    default: PackageUpdateConfig,
    name: Seq<char>,
)
    ensures
        (forall|i: int| 0 <= i < overrides.len() ==> (#[trigger] overrides[i]).0@ != name)
            ==> config_in(overrides, default, name) == default,
        forall|i: int|
            0 <= i < overrides.len() && (#[trigger] overrides[i]).0@ == name && (forall|j: int|
                i < j < overrides.len() ==> (#[trigger] overrides[j]).0@ != name) ==> config_in(
                overrides,
                default,
                name,
            ) == overrides[i].1,
    decreases overrides.len(),
{
    if overrides.len() > 0 {
        let less = overrides.drop_last();
        let last = overrides.len() - 1;
        law_settings_are_found(less, default, name);
        if overrides[last].0@ != name {
            if forall|i: int| 0 <= i < overrides.len() ==> (#[trigger] overrides[i]).0@ != name {
                assert forall|i: int| 0 <= i < less.len() implies (#[trigger] less[i]).0@ != name by {
                    assert(less[i] == overrides[i]);
                }
            }
            assert forall|i: int|
                0 <= i < overrides.len() && (#[trigger] overrides[i]).0@ == name && (forall|j: int|
                    i < j < overrides.len() ==> (#[trigger] overrides[j]).0@
                        != name) implies config_in(overrides, default, name) == overrides[i].1 by {
                assert(less[i] == overrides[i]);
                assert forall|j: int| i < j < less.len() implies (#[trigger] less[j]).0@ != name by {
                    assert(less[j] == overrides[j]);
                }
            }
        }
    }
}

/// A pattern that does not compile is reported: the one for the minor number where that does not
/// compile, else the one for the major number. Rules with patterns that compile are used as set.
pub proof fn law_rules_of_settings(config: &UpdateConfig, r: Result<VersionUpdater, UpdateError>)
    requires
        call_ensures(UpdateConfig::version_updater, (config,), r),
    ensures
        ({
            let minor_is_bad = config.custom_minor_increment_regex matches Some(pattern)
                && !regex_compiles(pattern@);
            let major_is_bad = config.custom_major_increment_regex matches Some(pattern)
                && !regex_compiles(pattern@);
            &&& r is Ok <==> !minor_is_bad && !major_is_bad
            &&& minor_is_bad ==> r->Err_0 is InvalidRegex && r->Err_0->InvalidRegex_0@
                == config.custom_minor_increment_regex->0@
            &&& !minor_is_bad && major_is_bad ==> r->Err_0 is InvalidRegex
                && r->Err_0->InvalidRegex_0@ == config.custom_major_increment_regex->0@
            &&& r matches Ok(u) ==> {
                &&& u@.features_always_increment_minor == config.features_always_increment_minor
                &&& u@.breaking_always_increment_major == config.breaking_always_increment_major
                &&& u@.custom_minor_increment_regex is Some
                    <==> config.custom_minor_increment_regex is Some
                &&& config.custom_minor_increment_regex matches Some(pattern)
                    ==> u@.custom_minor_increment_regex == Some(pattern@)
                &&& u@.custom_major_increment_regex is Some
                    <==> config.custom_major_increment_regex is Some
                &&& config.custom_major_increment_regex matches Some(pattern)
                    ==> u@.custom_major_increment_regex == Some(pattern@)
            }
        }),
{
}

/// The settings that a request gives for a name are those that were made for it last, and else the
/// default ones.
pub proof fn law_given_settings(req: &UpdateRequest, package: &str, r: &PackageUpdateConfig)
    requires
        call_ensures(UpdateRequest::get_package_config, (req, package), r),
    ensures
        (forall|i: int|
            0 <= i < req.overrides@.len() ==> (#[trigger] req.overrides@[i]).0@ != package@) ==> *r
            == req.default_config,
        forall|i: int|
            0 <= i < req.overrides@.len() && (#[trigger] req.overrides@[i]).0@ == package@ && (
            forall|j: int|
                i < j < req.overrides@.len() ==> (#[trigger] req.overrides@[j]).0@ != package@)
                ==> *r == req.overrides@[i].1,
{
    law_settings_are_found(req.overrides@, req.default_config, package@);
}

/// Settings that are made for a name are found for it, and those of other names stay, as does the
/// rest of the request.
pub proof fn law_made_settings(
    req: UpdateRequest,
    name: String,
    config: PackageUpdateConfig,
    r: UpdateRequest,
    other: Seq<char>,
)
    requires
        call_ensures(UpdateRequest::with_package_config, (req, name, config), r),
    ensures
        r.config(name@) == config,
        other != name@ ==> r.config(other) == req.config(other),
        r.release_mode == req.release_mode,
        r.default_config == req.default_config,
        r.max_analyze_commits == req.max_analyze_commits,
{
    law_package_config(req.overrides@, req.default_config, name, config, other);
}

/// A request without settings for packages has the default ones for every name.
pub proof fn law_new_request(
    release_mode: ReleaseMode,
    default_config: PackageUpdateConfig,
    r: UpdateRequest,
    name: Seq<char>,
)
    requires
        call_ensures(UpdateRequest::new, (release_mode, default_config), r),
    ensures
        r.config(name) == default_config,
        r.release_mode == release_mode,
{
}

/// Whether a package is released from git alone is what its settings say.
pub proof fn law_released_from_git(req: &UpdateRequest, package: &str, r: bool)
    requires
        call_ensures(UpdateRequest::should_use_git_only, (req, package), r),
    ensures
        r == req.config(package@).generic.git_only,
{
}

/// What an error says ends with what it is about: the pattern, or the version group.
pub proof fn law_error_texts(e: &UpdateError, r: String)
    requires
        call_ensures(UpdateError::message, (e,), r),
    ensures
        *e matches UpdateError::InvalidRegex(pattern) ==> pattern@.is_suffix_of(r@)
            && "invalid regex"@.is_prefix_of(r@),
        *e matches UpdateError::MissingVersionGroup(group) ==> group@.is_suffix_of(r@)
            && "failed to retrieve version for version group"@.is_prefix_of(r@),
{
    reveal_strlit("invalid regex");
    reveal_strlit("invalid regex: ");
    reveal_strlit("failed to retrieve version for version group");
    reveal_strlit("failed to retrieve version for version group ");
    match *e {
        UpdateError::InvalidRegex(pattern) => {
            let n = "invalid regex"@.len() as int;
            assert(r@.subrange(0, n) =~= "invalid regex"@);
            assert(r@.subrange(r@.len() - pattern@.len(), r@.len() as int) =~= pattern@);
        },
        UpdateError::MissingVersionGroup(group) => {
            let n = "failed to retrieve version for version group"@.len() as int;
            assert(r@.subrange(0, n) =~= "failed to retrieve version for version group"@);
            assert(r@.subrange(r@.len() - group@.len(), r@.len() as int) =~= group@);
        },
    }
}

} // verus!
