//! The resolver for package.json packages: reading a package's name,
//! version and privacy, workspace discovery through `workspaces` patterns or
//! a pnpm workspace file, dependency names across the three dependency
//! tables, and the version rewrite.

use saphyr::LoadableYamlNode;
use vstd::prelude::*;

use crate::error::ResolveError;
use crate::resolver::ResolvedPackage;
use crate::text::str_chars;

verus! {

/// What a package.json declares, as this resolver reads it.
#[derive(Debug, Clone)]
pub struct NodeManifest {
    pub name: Option<String>,
    pub version: Option<String>,
    pub private: bool,
    pub workspaces: Option<Vec<String>>,
}

/// What parsing a package.json text yields: `None` when the text is not
/// valid JSON, else the name, the version, the `private` flag (false when
/// absent), and the `workspaces` patterns, in that order.
pub uninterp spec fn package_json_of(text: Seq<char>) -> Option<
    (Option<Seq<char>>, Option<Seq<char>>, bool, Option<Seq<Seq<char>>>),
>;

/// Relies on `serde_json`'s parser: the `name`, `version`, `private` and
/// `workspaces` fields are functions of the text alone.
#[verifier::external_body]
fn read_package_json(text: &str) -> (r: Option<NodeManifest>)
    ensures
        match r {
            Some(m) => package_json_of(text@) == Some(
                (
                    match m.name {
                        Some(n) => Some(n@),
                        None => None::<Seq<char>>,
                    },
                    match m.version {
                        Some(v) => Some(v@),
                        None => None::<Seq<char>>,
                    },
                    m.private,
                    match m.workspaces {
                        Some(ws) => Some(ws@.map_values(|s: String| s@)),
                        None => None::<Seq<Seq<char>>>,
                    },
                ),
            ),
            None => package_json_of(text@) is None,
        },
{
    let v: serde_json::Value = match serde_json::from_str(text) {
        Ok(v) => v,
        Err(_) => return None,
    };
    let name = v["name"].as_str().map(str::to_string);
    let version = v["version"].as_str().map(str::to_string);
    let private = v["private"].as_bool().unwrap_or(false);
    let workspaces = v["workspaces"].as_array()
        .map(|a| a.iter().filter_map(|e| e.as_str().map(str::to_string)).collect());
    Some(NodeManifest { name, version, private, workspaces })
}

/// The keys of one top-level object field of a JSON document; empty when the
/// document does not parse or the field is not an object.
pub uninterp spec fn json_keys_of(text: Seq<char>, key: Seq<char>) -> Seq<Seq<char>>;

/// Relies on `serde_json`'s parser and its object map: the key list of a
/// named top-level object is a function of the text and the field name
/// alone (`serde_json`'s maps keep a deterministic key order).
#[verifier::external_body]
fn json_object_keys(text: &str, key: &str) -> (r: Vec<String>)
    ensures
        r@.map_values(|s: String| s@) == json_keys_of(text@, key@),
{
    serde_json::from_str::<serde_json::Value>(text)
        .ok()
        .as_ref()
        .and_then(|v| v.get(key))
        .and_then(|x| x.as_object())
        .map(|o| o.keys().cloned().collect())
        .unwrap_or_default()
}

/// What rewriting the version of a JSON manifest yields: `None` when the
/// text is not a JSON object, else the same object with its top-level
/// `version` set, pretty-printed.
pub uninterp spec fn json_with_version(text: Seq<char>, version: Seq<char>) -> Option<Seq<char>>;

/// Relies on `serde_json`'s parser and pretty printer: the rewritten
/// document is a function of the text and the new version alone.
#[verifier::external_body]
fn set_json_version(text: &str, version: &str) -> (r: Option<String>)
    ensures
        match r {
            Some(s) => json_with_version(text@, version@) == Some(s@),
            None => json_with_version(text@, version@) is None,
        },
{
    let mut v: serde_json::Value = match serde_json::from_str(text) {
        Ok(v) => v,
        Err(_) => return None,
    };
    let obj = v.as_object_mut()?;
    obj.insert("version".to_string(), serde_json::Value::String(version.to_string()));
    serde_json::to_string_pretty(&v).ok()
}

/// The workspace member patterns of a pnpm workspace file: `None` when the
/// text is not a YAML mapping with a `packages` sequence.
pub uninterp spec fn pnpm_packages_of(text: Seq<char>) -> Option<Seq<Seq<char>>>;

/// Relies on `saphyr`'s YAML parser: the `packages` sequence of the first
/// document is a function of the text alone.
#[verifier::external_body]
fn read_pnpm_packages(text: &str) -> (r: Option<Vec<String>>)
    ensures
        match r {
            Some(ps) => pnpm_packages_of(text@) == Some(ps@.map_values(|s: String| s@)),
            None => pnpm_packages_of(text@) is None,
        },
{
    let docs = saphyr::Yaml::load_from_str(text).ok()?;
    let pkgs = docs.first()?.as_mapping_get("packages")?.as_vec()?;
    Some(pkgs.iter().filter_map(|y| y.as_str().map(str::to_string)).collect())
}

/// The path of the manifest inside a package directory.
pub open spec fn package_json_path(pkg_path: Seq<char>) -> Seq<char> {
    pkg_path + "/package.json"@
}

/// What one listed member resolves to, as plain values: its name, version
/// and privacy, `None` when the member's manifest is absent, is not JSON, or
/// lacks the name or version field. A pair holds the member's path and its
/// manifest content.
pub open spec fn spec_member_package(pair: (String, Option<String>)) -> Option<
    (Seq<char>, Seq<char>, bool),
> {
    match pair.1 {
        Some(t) => match package_json_of(t@) {
            Some(m) => match (m.0, m.1) {
                (Some(n), Some(v)) => Some((n, v, m.2)),
                _ => None,
            },
            None => None,
        },
        None => None,
    }
}

/// The packages the listed members resolve to, in member order, each with
/// the member's path; members that do not resolve are left out.
pub open spec fn spec_resolved_members(pairs: Seq<(String, Option<String>)>) -> Seq<
    (Seq<char>, Seq<char>, bool, Seq<char>),
>
    decreases pairs.len(),
{
    if pairs.len() == 0 {
        Seq::empty()
    } else {
        let rest = spec_resolved_members(pairs.drop_first());
        match spec_member_package(pairs[0]) {
            Some((n, v, p)) => seq![(n, v, p, pairs[0].0@)] + rest,
            None => rest,
        }
    }
}

/// The fields of the resolved packages, for comparing against
/// `spec_resolved_members`.
pub open spec fn packages_fields(ps: Seq<ResolvedPackage>) -> Seq<
    (Seq<char>, Seq<char>, bool, Seq<char>),
> {
    ps.map_values(|p: ResolvedPackage| (p.name@, p.version@, p.private, p.path@))
}

/// The resolver for package.json packages.
pub struct NodejsResolver;

impl NodejsResolver {
    /// Reads one package's name, version and privacy from its manifest text.
    /// `manifest` is the content of `<pkg_path>/package.json`, `None` when
    /// that file does not exist. Fails with file-not-found when the manifest
    /// is missing and a parse error when it is not JSON or lacks the name or
    /// version field.
    pub fn resolve(pkg_path: &str, manifest: Option<&str>) -> (r: Result<
        ResolvedPackage,
        ResolveError,
    >)
        ensures
            match r {
                Ok(p) => {
                    &&& manifest is Some
                    &&& package_json_of(manifest->0@) matches Some(m)
                    &&& m.0 == Some(p.name@)
                    &&& m.1 == Some(p.version@)
                    &&& m.2 == p.private
                    &&& p.path@ == pkg_path@
                },
                Err(e) => match e {
                    ResolveError::FileOrDirNotFound { path } => {
                        &&& manifest is None
                        &&& path@ == package_json_path(pkg_path@)
                    },
                    ResolveError::ParseError { path, .. } => {
                        &&& manifest is Some
                        &&& (package_json_of(manifest->0@) is None || (package_json_of(
                            manifest->0@,
                        ) matches Some(m) && (m.0 is None || m.1 is None)))
                        &&& path@ == package_json_path(pkg_path@)
                    },
                    _ => false,
                },
            },
    {
        let json_path = Self::manifest_path(pkg_path);
        let text = match manifest {
            Some(t) => t,
            None => {
                return Err(ResolveError::FileOrDirNotFound { path: json_path });
            },
        };
        let m = match read_package_json(text) {
            Some(m) => m,
            None => {
                return Err(
                    ResolveError::ParseError {
                        path: json_path,
                        reason: String::from_str("not a valid JSON manifest"),
                    },
                );
            },
        };
        let name = match m.name {
            Some(n) => n,
            None => {
                return Err(
                    ResolveError::ParseError {
                        path: json_path,
                        reason: String::from_str("no name in package.json"),
                    },
                );
            },
        };
        let version = match m.version {
            Some(v) => v,
            None => {
                return Err(
                    ResolveError::ParseError {
                        path: json_path,
                        reason: String::from_str("no version in package.json"),
                    },
                );
            },
        };
        Ok(ResolvedPackage { name, version, path: pkg_path.to_owned(), private: m.private })
    }

    /// The manifest path of a package directory.
    pub fn manifest_path(pkg_path: &str) -> (r: String)
        ensures
            r@ == package_json_path(pkg_path@),
    {
        let mut v = str_chars(pkg_path);
        let mut tail = str_chars("/package.json");
        v.append(&mut tail);
        crate::text::chars_string(&v)
    }

    /// The workspace member patterns to expand during discovery: the pnpm
    /// workspace file's `packages` list wins when that file exists and
    /// parses; otherwise the manifest's `workspaces` field; `None` for a
    /// single-package layout.
    pub fn workspace_patterns(manifest: &str, pnpm_workspace: Option<&str>) -> (r: Option<
        Vec<String>,
    >)
        ensures
            ({
                let from_pnpm = match pnpm_workspace {
                    Some(y) => pnpm_packages_of(y@),
                    None => None,
                };
                let from_manifest = match package_json_of(manifest@) {
                    Some(m) => m.3,
                    None => None,
                };
                match r {
                    Some(ps) => {
                        let psv = Some(ps@.map_values(|s: String| s@));
                        if from_pnpm is Some {
                            psv == from_pnpm
                        } else {
                            psv == from_manifest
                        }
                    },
                    None => from_pnpm is None && from_manifest is None,
                }
            }),
    {
        let from_pnpm: Option<Vec<String>> = match pnpm_workspace {
            Some(y) => read_pnpm_packages(y),
            None => None,
        };
        match from_pnpm {
            Some(ps) => Some(ps),
            None => match read_package_json(manifest) {
                Some(m) => m.workspaces,
                None => None,
            },
        }
    }

    /// Resolves each discovered member, skipping members that fail to
    /// resolve rather than aborting discovery: `pairs` holds the member's
    /// path relative to the workspace root and its manifest content. The
    /// result is exactly the resolving members' packages, in member order.
    #[verifier::loop_isolation(false)]
    pub fn resolve_many(pairs: &Vec<(String, Option<String>)>) -> (r: Vec<ResolvedPackage>)
        ensures
            packages_fields(r@) == spec_resolved_members(pairs@),
    {
        let mut out: Vec<ResolvedPackage> = Vec::new();
        let mut i: usize = 0;
        proof {
            assert(pairs@.skip(0) =~= pairs@);
            assert(packages_fields(out@) =~= Seq::<(Seq<char>, Seq<char>, bool, Seq<char>)>::empty());
        }
        while i < pairs.len()
            invariant
                i <= pairs@.len(),
                packages_fields(out@) + spec_resolved_members(pairs@.skip(i as int))
                    == spec_resolved_members(pairs@),
            decreases pairs.len() - i,
        {
            proof {
                assert(pairs@.skip(i as int)[0] == pairs@[i as int]);
                assert(pairs@.skip(i as int).drop_first() =~= pairs@.skip(i as int + 1));
            }
            let manifest: Option<&str> = match &pairs[i].1 {
                Some(t) => Some(t.as_str()),
                None => None,
            };
            let ghost prev = packages_fields(out@);
            match Self::resolve(pairs[i].0.as_str(), manifest) {
                Ok(p) => {
                    out.push(p);
                    proof {
                        let entry = (
                            out@.last().name@,
                            out@.last().version@,
                            out@.last().private,
                            out@.last().path@,
                        );
                        assert(spec_member_package(pairs@[i as int]) == Some(
                            (entry.0, entry.1, entry.2),
                        ));
                        assert(packages_fields(out@) =~= prev.push(entry));
                        assert(prev.push(entry) + spec_resolved_members(
                            pairs@.skip(i as int + 1),
                        ) =~= prev + (seq![entry] + spec_resolved_members(
                            pairs@.skip(i as int + 1),
                        )));
                    }
                },
                Err(_) => {
                    proof {
                        assert(spec_member_package(pairs@[i as int]) is None);
                    }
                },
            }
            i = i + 1;
        }
        proof {
            assert(pairs@.skip(pairs@.len() as int) =~= Seq::<(String, Option<String>)>::empty());
            assert(packages_fields(out@) + Seq::<
                (Seq<char>, Seq<char>, bool, Seq<char>),
            >::empty() =~= packages_fields(out@));
        }
        out
    }

    /// Rewrites the manifest's top-level `version` field, pretty-printed.
    /// Returns the rewritten manifest text; writing it back (or not, on a
    /// dry run) is the caller's concern.
    pub fn bump(manifest: &str, new_version: &str) -> (r: Result<String, ResolveError>)
        ensures
            match r {
                Ok(s) => json_with_version(manifest@, new_version@) == Some(s@),
                Err(e) => {
                    &&& json_with_version(manifest@, new_version@) is None
                    &&& e matches ResolveError::ParseError { .. }
                },
            },
    {
        match set_json_version(manifest, new_version) {
            Some(s) => Ok(s),
            None => Err(
                ResolveError::ParseError {
                    path: String::from_str("package.json"),
                    reason: String::from_str("not a JSON object"),
                },
            ),
        }
    }

    /// The dependency names a manifest declares, across `dependencies`,
    /// `devDependencies` and `peerDependencies`, for the sequencer.
    pub fn dependency_names(manifest: &str) -> (r: Vec<String>)
        ensures
            r@.map_values(|s: String| s@) == json_keys_of(manifest@, "dependencies"@) + json_keys_of(
                manifest@,
                "devDependencies"@,
            ) + json_keys_of(manifest@, "peerDependencies"@),
    {
        let mut out = json_object_keys(manifest, "dependencies");
        let mut dev = json_object_keys(manifest, "devDependencies");
        let mut peer = json_object_keys(manifest, "peerDependencies");
        out.append(&mut dev);
        out.append(&mut peer);
        proof {
            assert(out@.map_values(|s: String| s@) =~= json_keys_of(manifest@, "dependencies"@)
                + json_keys_of(manifest@, "devDependencies"@) + json_keys_of(
                manifest@,
                "peerDependencies"@,
            ));
        }
        out
    }
}

} // verus!
