//! The resolver for Cargo-manifest packages: reading a crate's name and
//! version, workspace membership, dependency names, and the in-place version
//! rewrite that keeps the manifest's formatting.

use vstd::prelude::*;

use crate::error::ResolveError;
use crate::resolver::ResolvedPackage;
use crate::text::str_chars;

verus! {

/// What a Cargo manifest declares, as this resolver reads it.
#[derive(Debug, Clone)]
pub struct CargoManifest {
    pub name: Option<String>,
    pub version: Option<String>,
}

/// What parsing a Cargo manifest text yields: `None` when the text is not
/// valid TOML, else the package name and the package version, in that order.
pub uninterp spec fn cargo_manifest_of(text: Seq<char>) -> Option<
    (Option<Seq<char>>, Option<Seq<char>>),
>;

/// The workspace member patterns of a Cargo manifest text: `None` when the
/// text is not valid TOML, `Some(None)` when it declares no
/// `workspace.members` list.
pub uninterp spec fn cargo_members_of(text: Seq<char>) -> Option<Option<Seq<Seq<char>>>>;

/// The `dependencies` table keys of a Cargo manifest text; empty when the
/// text does not parse or has no such table.
pub uninterp spec fn cargo_deps_of(text: Seq<char>) -> Seq<Seq<char>>;

/// Relies on `toml_edit`'s document parser: `package.name`, `package.version`
/// and `workspace.members` are functions of the text alone.
#[verifier::external_body]
fn read_cargo_manifest(text: &str) -> (r: Option<CargoManifest>)
    ensures
        match r {
            Some(m) => cargo_manifest_of(text@) == Some(
                (
                    match m.name {
                        Some(n) => Some(n@),
                        None => None::<Seq<char>>,
                    },
                    match m.version {
                        Some(v) => Some(v@),
                        None => None::<Seq<char>>,
                    },
                ),
            ),
            None => cargo_manifest_of(text@) is None,
        },
{
    let doc: toml_edit::DocumentMut = match text.parse() {
        Ok(d) => d,
        Err(_) => return None,
    };
    let pkg = doc.get("package").and_then(|p| p.as_table());
    let name = pkg.and_then(|p| p.get("name")).and_then(|v| v.as_str()).map(str::to_string);
    let version = pkg.and_then(|p| p.get("version")).and_then(|v| v.as_str()).map(str::to_string);
    Some(CargoManifest { name, version })
}

/// Relies on `toml_edit`'s document parser: `workspace.members` is a
/// function of the text alone. The first component is false when the text is
/// not valid TOML.
#[verifier::external_body]
fn read_cargo_members(text: &str) -> (r: (bool, Option<Vec<String>>))
    ensures
        r.0 ==> cargo_members_of(text@) == Some(
            match r.1 {
                Some(ms) => Some(ms@.map_values(|s: String| s@)),
                None => None::<Seq<Seq<char>>>,
            },
        ),
        !r.0 ==> cargo_members_of(text@) is None && r.1 is None,
{
    let doc: toml_edit::DocumentMut = match text.parse() {
        Ok(d) => d,
        Err(_) => return (false, None),
    };
    let members = doc.get("workspace").and_then(|w| w.get("members")).and_then(|m| m.as_value())
        .and_then(|m| m.as_array())
        .map(|a| a.iter().filter_map(|v| v.as_str().map(str::to_string)).collect());
    (true, members)
}

/// Relies on `toml_edit`'s document parser: the `dependencies` keys are a
/// function of the text alone, in document order.
#[verifier::external_body]
fn read_cargo_deps(text: &str) -> (r: Vec<String>)
    ensures
        r@.map_values(|s: String| s@) == cargo_deps_of(text@),
{
    let doc: toml_edit::DocumentMut = match text.parse() {
        Ok(d) => d,
        Err(_) => return Vec::new(),
    };
    doc.get("dependencies").and_then(|d| d.as_table_like())
        .map(|t| t.iter().map(|(k, _)| k.to_string()).collect()).unwrap_or_default()
}

/// What rewriting the version field of a Cargo manifest yields: `None` when
/// the text is not valid TOML or has no `package` table, else the same
/// document with `package.version` set, formatting kept.
pub uninterp spec fn toml_with_version(text: Seq<char>, version: Seq<char>) -> Option<Seq<char>>;

/// Relies on `toml_edit`'s format-preserving edits: the rewritten document is
/// a function of the text and the new version alone.
#[verifier::external_body]
fn set_cargo_version(text: &str, version: &str) -> (r: Option<String>)
    ensures
        match r {
            Some(s) => toml_with_version(text@, version@) == Some(s@),
            None => toml_with_version(text@, version@) is None,
        },
{
    let mut doc: toml_edit::DocumentMut = match text.parse() {
        Ok(d) => d,
        Err(_) => return None,
    };
    let table = doc.get_mut("package").and_then(|p| p.as_table_mut())?;
    table.insert("version", toml_edit::value(version));
    Some(doc.to_string())
}

/// The path of the manifest inside a package directory.
pub open spec fn cargo_manifest_path(pkg_path: Seq<char>) -> Seq<char> {
    pkg_path + "/Cargo.toml"@
}

/// How a Cargo workspace resolves: not a manifest at all, a single package,
/// or a workspace whose member patterns are to be expanded.
#[derive(Debug, Clone)]
pub enum CargoWorkspacePlan {
    NoManifest,
    Single,
    Members(Vec<String>),
}

/// What one listed member resolves to, as plain values: its crate name and
/// version, `None` when the member's manifest is absent, is not TOML, or
/// lacks the package name or version. A pair holds the member's path and its
/// manifest content.
pub open spec fn spec_cargo_member(pair: (String, Option<String>)) -> Option<
    (Seq<char>, Seq<char>),
> {
    match pair.1 {
        Some(t) => match cargo_manifest_of(t@) {
            Some(m) => match (m.0, m.1) {
                (Some(n), Some(v)) => Some((n, v)),
                _ => None,
            },
            None => None,
        },
        None => None,
    }
}

/// The packages the listed members resolve to, in member order, each with
/// the member's path and never private; members that do not resolve are
/// left out.
pub open spec fn spec_resolved_cargo_members(pairs: Seq<(String, Option<String>)>) -> Seq<
    (Seq<char>, Seq<char>, bool, Seq<char>),
>
    decreases pairs.len(),
{
    if pairs.len() == 0 {
        Seq::empty()
    } else {
        let rest = spec_resolved_cargo_members(pairs.drop_first());
        match spec_cargo_member(pairs[0]) {
            Some((n, v)) => seq![(n, v, false, pairs[0].0@)] + rest,
            None => rest,
        }
    }
}

/// The fields of the resolved packages, for comparing against
/// `spec_resolved_cargo_members`.
pub open spec fn cargo_packages_fields(ps: Seq<ResolvedPackage>) -> Seq<
    (Seq<char>, Seq<char>, bool, Seq<char>),
> {
    ps.map_values(|p: ResolvedPackage| (p.name@, p.version@, p.private, p.path@))
}

/// The resolver for Cargo-manifest packages.
pub struct RustResolver;

impl RustResolver {
    /// Reads one package's name and version from its manifest text.
    /// `manifest` is the content of `<pkg_path>/Cargo.toml`, `None` when that
    /// file does not exist. Fails with file-not-found when the manifest is
    /// missing, a parse error when it is not TOML, and invalid-config when
    /// the `package` name or version is missing.
    pub fn resolve(pkg_path: &str, manifest: Option<&str>) -> (r: Result<
        ResolvedPackage,
        ResolveError,
    >)
        ensures
            match r {
                Ok(p) => {
                    &&& manifest is Some
                    &&& cargo_manifest_of(manifest->0@) matches Some(m)
                    &&& m.0 == Some(p.name@)
                    &&& m.1 == Some(p.version@)
                    &&& p.path@ == pkg_path@
                    &&& p.private == false
                },
                Err(e) => match e {
                    ResolveError::FileOrDirNotFound { path } => {
                        &&& manifest is None
                        &&& path@ == cargo_manifest_path(pkg_path@)
                    },
                    ResolveError::ParseError { path, .. } => {
                        &&& manifest is Some
                        &&& cargo_manifest_of(manifest->0@) is None
                        &&& path@ == cargo_manifest_path(pkg_path@)
                    },
                    ResolveError::InvalidConfig { path, .. } => {
                        &&& manifest is Some
                        &&& cargo_manifest_of(manifest->0@) matches Some(m)
                        &&& (m.0 is None || m.1 is None)
                        &&& path@ == cargo_manifest_path(pkg_path@)
                    },
                    _ => false,
                },
            },
    {
        let toml_path = Self::manifest_path(pkg_path);
        let text = match manifest {
            Some(t) => t,
            None => {
                return Err(ResolveError::FileOrDirNotFound { path: toml_path });
            },
        };
        let m = match read_cargo_manifest(text) {
            Some(m) => m,
            None => {
                return Err(
                    ResolveError::ParseError {
                        path: toml_path,
                        reason: String::from_str("not a valid TOML manifest"),
                    },
                );
            },
        };
        let name = match m.name {
            Some(n) => n,
            None => {
                return Err(
                    ResolveError::InvalidConfig {
                        path: toml_path,
                        reason: String::from_str("no package name in Cargo.toml"),
                    },
                );
            },
        };
        let version = match m.version {
            Some(v) => v,
            None => {
                return Err(
                    ResolveError::InvalidConfig {
                        path: toml_path,
                        reason: String::from_str("no package version in Cargo.toml"),
                    },
                );
            },
        };
        Ok(ResolvedPackage { name, version, path: pkg_path.to_owned(), private: false })
    }

    /// The manifest path of a package directory.
    pub fn manifest_path(pkg_path: &str) -> (r: String)
        ensures
            r@ == cargo_manifest_path(pkg_path@),
    {
        let mut v = str_chars(pkg_path);
        let mut tail = str_chars("/Cargo.toml");
        v.append(&mut tail);
        crate::text::chars_string(&v)
    }

    /// Decides how to discover packages from the workspace root's manifest:
    /// no manifest means nothing to resolve; a manifest without a `workspace`
    /// table is a single package; otherwise the workspace's member patterns
    /// are expanded and each match resolved. Fails with a parse error when
    /// the root manifest is not TOML.
    pub fn resolve_all_plan(root_manifest: Option<&str>) -> (r: Result<
        CargoWorkspacePlan,
        ResolveError,
    >)
        ensures
            match r {
                Ok(plan) => match plan {
                    CargoWorkspacePlan::NoManifest => root_manifest is None,
                    CargoWorkspacePlan::Single => {
                        &&& root_manifest is Some
                        &&& cargo_members_of(root_manifest->0@) == Some(
                            None::<Seq<Seq<char>>>,
                        )
                    },
                    CargoWorkspacePlan::Members(ms) => {
                        &&& root_manifest is Some
                        &&& cargo_members_of(root_manifest->0@) == Some(
                            Some(ms@.map_values(|s: String| s@)),
                        )
                    },
                },
                Err(e) => {
                    &&& root_manifest is Some
                    &&& cargo_members_of(root_manifest->0@) is None
                    &&& e matches ResolveError::ParseError { .. }
                },
            },
    {
        let text = match root_manifest {
            Some(t) => t,
            None => {
                return Ok(CargoWorkspacePlan::NoManifest);
            },
        };
        let (parsed, members) = read_cargo_members(text);
        if !parsed {
            return Err(
                ResolveError::ParseError {
                    path: Self::manifest_path("."),
                    reason: String::from_str("not a valid TOML manifest"),
                },
            );
        }
        match members {
            Some(ms) => Ok(CargoWorkspacePlan::Members(ms)),
            None => Ok(CargoWorkspacePlan::Single),
        }
    }

    /// Resolves each discovered member, skipping members that fail to
    /// resolve rather than aborting discovery: `pairs` holds the member's
    /// path relative to the workspace root and its manifest content. The
    /// result is exactly the resolving members' packages, in member order.
    #[verifier::loop_isolation(false)]
    pub fn resolve_many(pairs: &Vec<(String, Option<String>)>) -> (r: Vec<ResolvedPackage>)
        ensures
            cargo_packages_fields(r@) == spec_resolved_cargo_members(pairs@),
    {
        let mut out: Vec<ResolvedPackage> = Vec::new();
        let mut i: usize = 0;
        proof {
            assert(pairs@.skip(0) =~= pairs@);
            assert(cargo_packages_fields(out@) =~= Seq::<
                (Seq<char>, Seq<char>, bool, Seq<char>),
            >::empty());
        }
        while i < pairs.len()
            invariant
                i <= pairs@.len(),
                cargo_packages_fields(out@) + spec_resolved_cargo_members(pairs@.skip(i as int))
                    == spec_resolved_cargo_members(pairs@),
            decreases pairs.len() - i,
        {
            proof {
                assert(pairs@.skip(i as int)[0] == pairs@[i as int]);
                assert(pairs@.skip(i as int).drop_first() =~= pairs@.skip(i as int + 1));
            }
            let manifest: Option<&str> = match &pairs[i].1 {
                Some(t) => Some(t.as_str()),
                None => None,
            };
            let ghost prev = cargo_packages_fields(out@);
            match Self::resolve(pairs[i].0.as_str(), manifest) {
                Ok(p) => {
                    out.push(p);
                    proof {
                        let entry = (
                            out@.last().name@,
                            out@.last().version@,
                            out@.last().private,
                            out@.last().path@,
                        );
                        assert(spec_cargo_member(pairs@[i as int]) == Some(
                            (entry.0, entry.1),
                        ));
                        assert(cargo_packages_fields(out@) =~= prev.push(entry));
                        assert(prev.push(entry) + spec_resolved_cargo_members(
                            pairs@.skip(i as int + 1),
                        ) =~= prev + (seq![entry] + spec_resolved_cargo_members(
                            pairs@.skip(i as int + 1),
                        )));
                    }
                },
                Err(_) => {
                    proof {
                        assert(spec_cargo_member(pairs@[i as int]) is None);
                    }
                },
            }
            i = i + 1;
        }
        proof {
            assert(pairs@.skip(pairs@.len() as int) =~= Seq::<(String, Option<String>)>::empty());
            assert(cargo_packages_fields(out@) + Seq::<
                (Seq<char>, Seq<char>, bool, Seq<char>),
            >::empty() =~= cargo_packages_fields(out@));
        }
        out
    }

    /// Rewrites the manifest's `package.version` field, preserving all other
    /// content and formatting. Returns the rewritten manifest text; writing
    /// it back (or not, on a dry run) is the caller's concern. Fails with a
    /// parse error when the manifest cannot be decoded or has no `package`
    /// table.
    pub fn bump(manifest: &str, new_version: &str) -> (r: Result<String, ResolveError>)
        ensures
            match r {
                Ok(s) => toml_with_version(manifest@, new_version@) == Some(s@),
                Err(e) => {
                    &&& toml_with_version(manifest@, new_version@) is None
                    &&& e matches ResolveError::ParseError { .. }
                },
            },
    {
        match set_cargo_version(manifest, new_version) {
            Some(s) => Ok(s),
            None => Err(
                ResolveError::ParseError {
                    path: String::from_str("Cargo.toml"),
                    reason: String::from_str("no package table to update"),
                },
            ),
        }
    }

    /// The package version a manifest declares, when the manifest parses
    /// and declares one, independent of any other field.
    pub fn manifest_version(manifest: &str) -> (r: Option<String>)
        ensures
            match cargo_manifest_of(manifest@) {
                Some(m) => match r {
                    Some(v) => m.1 == Some(v@),
                    None => m.1 is None,
                },
                None => r is None,
            },
    {
        match read_cargo_manifest(manifest) {
            Some(m) => m.version,
            None => None,
        }
    }

    /// The dependency names a manifest declares, for the sequencer.
    pub fn dependency_names(manifest: &str) -> (r: Vec<String>)
        ensures
            r@.map_values(|s: String| s@) == cargo_deps_of(manifest@),
    {
        read_cargo_deps(manifest)
    }
}

} // verus!
