//! What the manifests of a workspace say about versions.
use vstd::prelude::*;
use vstd::string::*;

use crate::semver::Version;
#[allow(unused_imports)]
use crate::semver::VersionView;
#[allow(unused_imports)]
use crate::tags::optional_version;

verus! {

/// The manifest is not valid TOML.
#[derive(Debug, Clone, Copy, PartialEq, Eq, Structural)]
pub struct InvalidManifest;

/// Whether the package of the manifest takes its version from the workspace; `None` where the
/// manifest is not valid TOML.
pub uninterp spec fn inherits_version(manifest: Seq<char>) -> Option<bool>;

/// The version of the workspace in the manifest, where there is one; the outer `None` where the
/// manifest is not valid TOML.
pub uninterp spec fn workspace_version_in(manifest: Seq<char>) -> Option<Option<VersionView>>;

/// Asks `cargo_utils::LocalManifest::version_is_inherited` of a manifest. The answer depends on
/// the text of the manifest alone.
#[verifier::external_body]
fn ask_version_is_inherited(manifest: &str) -> (r: Option<bool>)
    ensures
        r == inherits_version(manifest@),
{
    let manifest: cargo_utils::Manifest = manifest.parse().ok()?;
    let path = cargo_metadata::camino::Utf8PathBuf::new();
    Some(cargo_utils::LocalManifest { path, manifest }.version_is_inherited())
}

/// The version that may be missing in an answer that may be missing.
pub open spec fn nested_version(v: Option<Option<Version>>) -> Option<Option<VersionView>> {
    match v {
        Some(v) => Some(optional_version(v)),
        None => None,
    }
}

/// Asks `cargo_utils::LocalManifest::get_workspace_version` of a manifest. The answer depends on
/// the text of the manifest alone.
#[verifier::external_body]
fn ask_workspace_version(manifest: &str) -> (r: Option<Option<Version>>)
    ensures
        nested_version(r) == workspace_version_in(manifest@),
{
    let manifest: cargo_utils::Manifest = manifest.parse().ok()?;
    let path = cargo_metadata::camino::Utf8PathBuf::new();
    let version = cargo_utils::LocalManifest { path, manifest }.get_workspace_version();
    Some(version.map(|v| Version {
        major: v.major,
        minor: v.minor,
        patch: v.patch,
        pre: v.pre.to_string(),
        build: v.build.to_string(),
    }))
}

/// Whether the package of a manifest takes its version from the workspace.
pub fn version_is_inherited(manifest: &str) -> (r: Result<bool, InvalidManifest>)
    ensures
        r is Ok <==> inherits_version(manifest@) is Some,
        r matches Ok(b) ==> inherits_version(manifest@) == Some(b),
{
    match ask_version_is_inherited(manifest) {
        Some(b) => Ok(b),
        None => Err(InvalidManifest),
    }
}

/// The version of the workspace in its manifest.
pub fn get_workspace_version(manifest: &str) -> (r: Result<Option<Version>, InvalidManifest>)
    ensures
        r is Ok <==> workspace_version_in(manifest@) is Some,
        r matches Ok(v) ==> workspace_version_in(manifest@) == Some(optional_version(v)),
{
    match ask_workspace_version(manifest) {
        Some(v) => Ok(v),
        None => Err(InvalidManifest),
    }
}

} // verus!
