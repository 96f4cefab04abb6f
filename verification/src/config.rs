//! The resolved configuration records the orchestration consumes: package
//! bindings, per-ecosystem resolver commands, and branch names. Loading them
//! from disk is the caller's concern; the core only reads them.

use vstd::prelude::*;

use crate::resolver::ResolverType;
use crate::text::str_chars;
use crate::version::VersionMode;

verus! {

/// Where a command's standard stream goes.
#[derive(Clone, Copy, Debug, PartialEq, Eq, Structural)]
pub enum StdioType {
    Inherit,
    Pipe,
    Null,
}

impl StdioType {
    /// True for the default routing, which inherits the parent's stream.
    pub fn is_inherit(&self) -> (r: bool)
        ensures
            r == (*self == StdioType::Inherit),
    {
        matches!(self, StdioType::Inherit)
    }
}

impl Default for StdioType {
    fn default() -> (r: Self)
        ensures
            r == StdioType::Inherit,
    {
        StdioType::Inherit
    }
}

/// One command a resolver runs, with its arguments, extra environment, and
/// stream routing. `dry_run: Some(true)` lets the command run even under a
/// dry run.
#[derive(Debug, Clone)]
pub struct CommandConfig {
    pub command: String,
    pub args: Option<Vec<String>>,
    pub extra_env: Vec<(String, String)>,
    pub stdout: StdioType,
    pub stderr: StdioType,
    pub dry_run: Option<bool>,
}

/// The availability probe run before publishing a package.
#[derive(Debug, Clone)]
pub struct PreCheckConfig {
    pub url: String,
    pub extra_headers: Vec<(String, String)>,
}

/// The command lists of one ecosystem's resolver.
#[derive(Debug, Clone)]
pub struct ResolverConfig {
    pub pre_check: PreCheckConfig,
    pub prepublish: Vec<CommandConfig>,
    pub publish: Vec<CommandConfig>,
    pub post_version: Vec<CommandConfig>,
}

/// The branch pair a release run works between.
#[derive(Debug, Clone)]
pub struct BranchesConfig {
    pub base: String,
    pub release: String,
}

/// One release asset: a path, and optionally the name to publish it under
/// (the file's base name otherwise).
#[derive(Debug, Clone)]
pub struct AssetConfig {
    pub path: String,
    pub name: Option<String>,
}

impl AssetConfig {
    /// The name this asset is published under: the configured name, or the
    /// path's base name when none is set.
    pub fn resolved_name(&self) -> (r: String)
        ensures
            r@ == match self.name {
                Some(n) => n@,
                None => crate::text::base_name(self.path@),
            },
    {
        match &self.name {
            Some(n) => n.clone(),
            None => {
                let pv = str_chars(self.path.as_str());
                let base = match crate::text::rfind_char(&pv, '/') {
                    Some(i) => {
                        let n = pv.len();
                        proof {
                            assert(i < n);
                        }
                        crate::text::subrange(&pv, i + 1, n)
                    },
                    None => pv,
                };
                crate::text::chars_string(&base)
            },
        }
    }
}

/// The configuration-supplied binding of one package name to its location,
/// ecosystem, and versioning mode.
#[derive(Debug, Clone)]
pub struct PackageConfig {
    pub path: String,
    pub resolver: ResolverType,
    pub version_mode: VersionMode,
    pub assets: Vec<AssetConfig>,
}

/// The whole resolved configuration. The pair lists stand for maps: keys are
/// unique, in the order the configuration listed them.
#[derive(Debug, Clone)]
pub struct Config {
    pub branches: BranchesConfig,
    pub tags: Vec<(String, String)>,
    pub packages: Vec<(String, PackageConfig)>,
    pub resolver: Vec<(ResolverType, ResolverConfig)>,
}

/// True when some pair of the list has `key` as its first component.
pub open spec fn spec_has_key(pairs: Seq<(Seq<char>, Seq<char>)>, key: Seq<char>) -> bool {
    exists|i: int| 0 <= i < pairs.len() && pairs[i].0 == key
}

/// The package names of a configuration, in order.
pub open spec fn spec_package_names(c: Config) -> Seq<Seq<char>> {
    c.packages@.map_values(|p: (String, PackageConfig)| p.0@)
}

impl Config {
    /// True when a package of this name is configured.
    #[verifier::loop_isolation(false)]
    pub fn has_package(&self, name: &str) -> (r: bool)
        ensures
            r == crate::changeset::known_name(spec_package_names(*self), name@),
    {
        let nc = str_chars(name);
        let mut i: usize = 0;
        while i < self.packages.len()
            invariant
                i <= self.packages@.len(),
                forall|j: int| 0 <= j < i ==> spec_package_names(*self)[j] != name@,
            decreases self.packages.len() - i,
        {
            let kc = str_chars(self.packages[i].0.as_str());
            if crate::text::chars_eq(&kc, &nc) {
                proof {
                    assert(spec_package_names(*self)[i as int] == name@);
                }
                return true;
            }
            i = i + 1;
        }
        proof {
            if crate::changeset::known_name(spec_package_names(*self), name@) {
                let w = choose|j: int|
                    0 <= j < spec_package_names(*self).len() && spec_package_names(*self)[j]
                        == name@;
                assert(spec_package_names(*self)[w] != name@);
            }
        }
        return false;
    }

    /// The configured package names, in configuration order.
    #[verifier::loop_isolation(false)]
    pub fn package_names(&self) -> (r: Vec<String>)
        ensures
            r@.map_values(|s: String| s@) == spec_package_names(*self),
    {
        let mut names: Vec<String> = Vec::new();
        let mut i: usize = 0;
        while i < self.packages.len()
            invariant
                i <= self.packages@.len(),
                names@.map_values(|s: String| s@) == spec_package_names(*self).take(i as int),
            decreases self.packages.len() - i,
        {
            names.push(self.packages[i].0.clone());
            proof {
                assert(names@.map_values(|s: String| s@) =~= spec_package_names(*self).take(
                    i as int + 1,
                ));
            }
            i = i + 1;
        }
        proof {
            assert(spec_package_names(*self).take(self.packages@.len() as int) =~= spec_package_names(
                *self,
            ));
        }
        names
    }

    /// The display label configured for a changelog tag, if any: the value of
    /// the first `tags` pair whose key is `tag`.
    #[verifier::loop_isolation(false)]
    pub fn tag_label(&self, tag: &str) -> (r: Option<String>)
        ensures
            match r {
                Some(l) => exists|i: int|
                    0 <= i < self.tags@.len() && (#[trigger] self.tags@[i]).0@ == tag@
                        && self.tags@[i].1@ == l@,
                None => forall|i: int| 0 <= i < self.tags@.len() ==> (#[trigger] self.tags@[i]).0@ != tag@,
            },
    {
        let tc = str_chars(tag);
        let mut i: usize = 0;
        while i < self.tags.len()
            invariant
                i <= self.tags@.len(),
                forall|j: int| 0 <= j < i ==> (#[trigger] self.tags@[j]).0@ != tag@,
            decreases self.tags.len() - i,
        {
            let kc = str_chars(self.tags[i].0.as_str());
            if crate::text::chars_eq(&kc, &tc) {
                let label = self.tags[i].1.clone();
                proof {
                    assert((self.tags@[i as int]).0@ == tag@ && (self.tags@[i as int]).1@
                        == label@);
                }
                return Some(label);
            }
            i = i + 1;
        }
        return None;
    }

    /// The resolver configuration of the given ecosystem, if one is set: the
    /// first `resolver` pair keyed by it.
    #[verifier::loop_isolation(false)]
    pub fn get_resolver_config(&self, kind: ResolverType) -> (r: Option<&ResolverConfig>)
        ensures
            match r {
                Some(c) => exists|i: int|
                    0 <= i < self.resolver@.len() && (#[trigger] self.resolver@[i]).0 == kind
                        && self.resolver@[i].1 == *c,
                None => forall|i: int|
                    0 <= i < self.resolver@.len() ==> (#[trigger] self.resolver@[i]).0 != kind,
            },
    {
        let mut i: usize = 0;
        while i < self.resolver.len()
            invariant
                i <= self.resolver@.len(),
                forall|j: int| 0 <= j < i ==> (#[trigger] self.resolver@[j]).0 != kind,
            decreases self.resolver.len() - i,
        {
            if self.resolver[i].0 == kind {
                return Some(&self.resolver[i].1);
            }
            i = i + 1;
        }
        return None;
    }

    /// The configuration of the named package, if any: the first `packages`
    /// pair keyed by it.
    #[verifier::loop_isolation(false)]
    pub fn get_package_config(&self, name: &str) -> (r: Option<&PackageConfig>)
        ensures
            match r {
                Some(c) => exists|i: int|
                    0 <= i < self.packages@.len() && (#[trigger] self.packages@[i]).0@ == name@
                        && self.packages@[i].1 == *c,
                None => forall|i: int|
                    0 <= i < self.packages@.len() ==> (#[trigger] self.packages@[i]).0@ != name@,
            },
    {
        let nc = str_chars(name);
        let mut i: usize = 0;
        while i < self.packages.len()
            invariant
                i <= self.packages@.len(),
                forall|j: int| 0 <= j < i ==> (#[trigger] self.packages@[j]).0@ != name@,
            decreases self.packages.len() - i,
        {
            let kc = str_chars(self.packages[i].0.as_str());
            if crate::text::chars_eq(&kc, &nc) {
                return Some(&self.packages[i].1);
            }
            i = i + 1;
        }
        return None;
    }
}

} // verus!
