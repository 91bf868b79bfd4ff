# release_plz_core

Determines which packages of a Rust workspace are to be updated, and to which versions, from what
changed in them since their last release.

The library in `src/` is verified with [Verus](https://github.com/verus-lang/verus): its functions
have contracts, and what should hold of the library as a whole is stated in public proof functions,
whose names start with `law_`.

## Release modes

- Default: each package gets the version that its own commits ask for. Packages that depend on an
  updated one get the next patch version, or the next prerelease.
- Rc and stable: the level of each package's bump is propagated to the packages that depend on it,
  and applied to the package's last stable version. A release candidate gets the next free number.

In every mode, changes are counted from the last stable tag of a package that can be reached from
the current commit.

## Layout

| Module | What it holds |
| --- | --- |
| `text`, `decimal`, `order` | strings, numbers in decimal notation, lexicographic order |
| `semver`, `increment`, `version` | versions, their order and text, increments, levels of bumps |
| `tags`, `rc` | versions and release candidate numbers in git tags |
| `diff`, `walk`, `baseline` | what changed in a package, and since when |
| `package`, `manifest`, `paths` | packages, their manifests and files |
| `request` | what the user asks for |
| `processing` | which packages are looked at, in release order |
| `updater`, `dependents` | updates in the default mode |
| `propagate`, `targets` | updates in the other modes |
| `plan` | all updates of a project |
| `changelog` | what goes into changelogs |
| `debug` | where the walk through a history would stop |

`app/` holds what works on repositories, registries and files. It collects the facts that the
library decides on. What it needs from the rest of a program is in the trait `Host`.

The library relies on a few functions of other crates. Each of them stands behind a small function
marked `#[verifier::external_body]`, whose comment says what is taken for granted.
