//! The ecosystem-independent resolver layer: the resolved view of a package,
//! the closed set of supported ecosystems, the dependency sequencer, and the
//! publish-skip rules shared by every ecosystem.

use vstd::multiset::Multiset;
use vstd::prelude::*;

use crate::changeset::{names_view, spec_parse_content, Changeset};
use crate::config::{CommandConfig, PackageConfig};
use crate::error::ResolveError;
use crate::text;
use crate::text::{chars_string, str_chars};

pub mod cpp;
pub mod nodejs;
pub mod python;
pub mod rust;

verus! {

/// The ecosystem-independent view of a package as currently persisted on
/// disk. `private` packages are never published.
#[derive(Debug, Clone)]
pub struct ResolvedPackage {
    pub name: String,
    pub version: String,
    pub path: String,
    pub private: bool,
}

/// The closed set of supported ecosystems; dispatch is by this tag.
#[derive(Clone, Copy, Debug, PartialEq, Eq, Structural)]
pub enum ResolverType {
    Rust,
    Nodejs,
    Python,
    Cpp,
}

/// The lowercase name of an ecosystem.
pub open spec fn resolver_name(t: ResolverType) -> Seq<char> {
    match t {
        ResolverType::Rust => seq!['r', 'u', 's', 't'],
        ResolverType::Nodejs => seq!['n', 'o', 'd', 'e', 'j', 's'],
        ResolverType::Python => seq!['p', 'y', 't', 'h', 'o', 'n'],
        ResolverType::Cpp => seq!['c', 'p', 'p'],
    }
}

impl ResolverType {
    /// The ecosystem's lowercase name.
    pub fn name(self) -> (r: String)
        ensures
            r@ == resolver_name(self),
    {
        let mut v: Vec<char> = Vec::new();
        match self {
            ResolverType::Rust => {
                v.push('r');
                v.push('u');
                v.push('s');
                v.push('t');
            },
            ResolverType::Nodejs => {
                v.push('n');
                v.push('o');
                v.push('d');
                v.push('e');
                v.push('j');
                v.push('s');
            },
            ResolverType::Python => {
                v.push('p');
                v.push('y');
                v.push('t');
                v.push('h');
                v.push('o');
                v.push('n');
            },
            ResolverType::Cpp => {
                v.push('c');
                v.push('p');
                v.push('p');
            },
        }
        proof {
            assert(v@ =~= resolver_name(self));
        }
        chars_string(&v)
    }
}

/// The views of per-package dependency declarations: each pair is a package
/// name and the names its manifest declares dependencies on.
pub open spec fn deps_view(deps: Seq<(String, Vec<String>)>) -> Seq<(Seq<char>, Seq<Seq<char>>)> {
    deps.map_values(
        |p: (String, Vec<String>)| (p.0@, p.1@.map_values(|s: String| s@)),
    )
}

/// True when some declaration says package `a` depends on `b`.
pub open spec fn spec_declares_dep(
    depsv: Seq<(Seq<char>, Seq<Seq<char>>)>,
    a: Seq<char>,
    b: Seq<char>,
) -> bool {
    exists|i: int, j: int|
        #![trigger depsv[i].1[j]]
        0 <= i < depsv.len() && depsv[i].0 == a && 0 <= j < depsv[i].1.len() && depsv[i].1[j] == b
}

/// The pairwise comparator of the dependency sequencer, for one ecosystem:
/// `1` when `a` must come after `b` (it depends on `b`), `-1` when it must
/// come before, `0` for cross-ecosystem and unrelated pairs, which keep their
/// original relative order. This is deliberately a direct-edge comparator,
/// not a transitive topological sort.
pub open spec fn spec_pkg_cmp(
    a: (String, PackageConfig),
    b: (String, PackageConfig),
    eco: ResolverType,
    depsv: Seq<(Seq<char>, Seq<Seq<char>>)>,
) -> int {
    if a.1.resolver == eco && b.1.resolver == eco {
        if spec_declares_dep(depsv, a.0@, b.0@) {
            1
        } else if spec_declares_dep(depsv, b.0@, a.0@) {
            -1
        } else {
            0
        }
    } else {
        0
    }
}

/// Whether the declarations say `a` depends on `b`.
fn declares_dep(deps: &Vec<(String, Vec<String>)>, a: &Vec<char>, b: &Vec<char>) -> (r: bool)
    ensures
        r == spec_declares_dep(deps_view(deps@), a@, b@),
{
    let ghost dv = deps_view(deps@);
    let mut i: usize = 0;
    while i < deps.len()
        invariant
            i <= deps@.len(),
            dv == deps_view(deps@),
            dv.len() == deps@.len(),
            forall|k: int|
                0 <= k < deps@.len() ==> (#[trigger] dv[k]).0 == deps@[k].0@ && dv[k].1
                    == deps@[k].1@.map_values(|s: String| s@),
            forall|k: int, j: int|
                #![trigger dv[k].1[j]]
                0 <= k < i && 0 <= j < dv[k].1.len() ==> !(dv[k].0 == a@ && dv[k].1[j] == b@),
        decreases deps.len() - i,
    {
        let kc = str_chars(deps[i].0.as_str());
        if text::chars_eq(&kc, a) {
            let list = &deps[i].1;
            let mut j: usize = 0;
            while j < list.len()
                invariant
                    j <= list@.len(),
                    i < deps@.len(),
                    dv == deps_view(deps@),
                    dv.len() == deps@.len(),
                    list == deps@[i as int].1,
                    dv[i as int].1 == list@.map_values(|s: String| s@),
                    dv[i as int].0 == a@,
                    forall|q: int| 0 <= q < j ==> dv[i as int].1[q] != b@,
                decreases list.len() - j,
            {
                let cc = str_chars(list[j].as_str());
                if text::chars_eq(&cc, b) {
                    proof {
                        assert(dv[i as int].1[j as int] == b@);
                    }
                    return true;
                }
                j = j + 1;
            }
            proof {
                assert(forall|q: int| 0 <= q < dv[i as int].1.len() ==> dv[i as int].1[q] != b@);
            }
        }
        i = i + 1;
    }
    proof {
        if spec_declares_dep(dv, a@, b@) {
            let (wi, wj) = choose|i: int, j: int|
                #![trigger dv[i].1[j]]
                0 <= i < dv.len() && dv[i].0 == a@ && 0 <= j < dv[i].1.len() && dv[i].1[j] == b@;
            assert(!(dv[wi].0 == a@ && dv[wi].1[wj] == b@));
        }
    }
    return false;
}

/// The sequencer's comparator over two configured packages.
fn pkg_cmp(
    a: &(String, PackageConfig),
    b: &(String, PackageConfig),
    eco: ResolverType,
    deps: &Vec<(String, Vec<String>)>,
) -> (r: i32)
    ensures
        r as int == spec_pkg_cmp(*a, *b, eco, deps_view(deps@)),
{
    if a.1.resolver == eco && b.1.resolver == eco {
        let an = str_chars(a.0.as_str());
        let bn = str_chars(b.0.as_str());
        if declares_dep(deps, &an, &bn) {
            1
        } else if declares_dep(deps, &bn, &an) {
            -1
        } else {
            0
        }
    } else {
        0
    }
}

proof fn lemma_insert_multiset<A>(s: Seq<A>, i: int, e: A)
    requires
        0 <= i <= s.len(),
    ensures
        s.insert(i, e).to_multiset() == s.to_multiset().insert(e),
{
    broadcast use vstd::seq_lib::group_to_multiset_ensures;

    vstd::seq_lib::lemma_multiset_commutative(s.take(i), seq![e] + s.skip(i));
    vstd::seq_lib::lemma_multiset_commutative(seq![e], s.skip(i));
    vstd::seq_lib::lemma_multiset_commutative(s.take(i), s.skip(i));
    assert(s.insert(i, e) =~= s.take(i) + (seq![e] + s.skip(i)));
    assert(s.take(i) + s.skip(i) =~= s);
    assert(seq![e] =~= Seq::<A>::empty().push(e));
    assert(Seq::<A>::empty().push(e).to_multiset() =~= Seq::<A>::empty().to_multiset().insert(e));
    assert(Seq::<A>::empty().to_multiset() =~= Multiset::<A>::empty()) by {
        assert(Seq::<A>::empty().to_multiset().len() == 0);
    }
    assert(s.insert(i, e).to_multiset() =~= s.to_multiset().insert(e));
}

/// Reorders the package list of one ecosystem so that, pair by pair, a
/// package that declares a direct dependency on another comes after it;
/// cross-ecosystem and unrelated pairs keep their original relative order.
///
/// The output is a permutation of the input in which every entry of another
/// ecosystem keeps its exact position, so cross-ecosystem pairs keep their
/// original relative order; a list in which no package depends on another of
/// the same ecosystem comes back unchanged, so unrelated pairs keep their
/// original relative order too.
/// On a two-package list the dependency law is exact: if one package depends
/// on the other, the dependency comes out first. With more packages the
/// direct-edge comparator stays deliberately non-transitive, as documented,
/// and interleaved unrelated packages can mask an edge.
pub fn sort_packages(
    packages: &mut Vec<(String, PackageConfig)>,
    eco: ResolverType,
    deps: &Vec<(String, Vec<String>)>,
)
    ensures
        final(packages)@.to_multiset() == old(packages)@.to_multiset(),
        final(packages)@.len() == old(packages)@.len(),
        forall|j: int|
            0 <= j < old(packages)@.len() && (#[trigger] old(packages)@[j]).1.resolver != eco
                ==> final(packages)@[j] == old(packages)@[j],
        (forall|x: int, y: int|
            0 <= x < old(packages)@.len() && 0 <= y < old(packages)@.len() ==> spec_pkg_cmp(
                old(packages)@[x],
                old(packages)@[y],
                eco,
                deps_view(deps@),
            ) != 1) ==> final(packages)@ == old(packages)@,
        old(packages)@.len() == 2 ==> final(packages)@ == (if spec_pkg_cmp(
            old(packages)@[0],
            old(packages)@[1],
            eco,
            deps_view(deps@),
        ) == 1 {
            seq![old(packages)@[1], old(packages)@[0]]
        } else {
            old(packages)@
        }),
{
    let ghost orig = packages@;
    let mut i: usize = 1;
    while i < packages.len()
        invariant
            1 <= i || packages@.len() <= 1,
            i <= packages@.len() || packages@.len() <= 1,
            packages@.len() == orig.len(),
            packages@.to_multiset() == orig.to_multiset(),
            forall|j: int|
                0 <= j < orig.len() && (#[trigger] orig[j]).1.resolver != eco ==> packages@[j]
                    == orig[j],
            (forall|x: int, y: int|
                0 <= x < orig.len() && 0 <= y < orig.len() ==> spec_pkg_cmp(
                    orig[x],
                    orig[y],
                    eco,
                    deps_view(deps@),
                ) != 1) ==> packages@ == orig,
            orig.len() == 2 ==> (if i <= 1 {
                packages@ == orig
            } else {
                packages@ == (if spec_pkg_cmp(orig[0], orig[1], eco, deps_view(deps@)) == 1 {
                    seq![orig[1], orig[0]]
                } else {
                    orig
                })
            }),
        decreases packages.len() - i,
    {
        let ghost before = packages@;
        let mut p: usize = i;
        while p > 0 && pkg_cmp(&packages[p - 1], &packages[i], eco, deps) == 1
            invariant
                p <= i,
                i < packages@.len(),
                packages@ == before,
                forall|q: int|
                    p <= q < i ==> spec_pkg_cmp(
                        #[trigger] before[q],
                        before[i as int],
                        eco,
                        deps_view(deps@),
                    ) == 1,
            decreases p,
        {
            p = p - 1;
        }
        if p < i {
            proof {
                if forall|x: int, y: int|
                    0 <= x < orig.len() && 0 <= y < orig.len() ==> spec_pkg_cmp(
                        orig[x],
                        orig[y],
                        eco,
                        deps_view(deps@),
                    ) != 1 {
                    assert(before == orig);
                    assert(spec_pkg_cmp(orig[p as int], orig[i as int], eco, deps_view(deps@))
                        == 1);
                }
            }
            proof {
                // Every displaced entry, and the moved entry itself, is of
                // the given ecosystem: the comparator orders no other pair.
                assert forall|q: int| p <= q <= i implies (#[trigger] before[q]).1.resolver
                    == eco by {
                    if q < i {
                        assert(spec_pkg_cmp(before[q], before[i as int], eco, deps_view(deps@))
                            == 1);
                    } else {
                        assert(spec_pkg_cmp(before[p as int], before[i as int], eco, deps_view(
                            deps@,
                        )) == 1);
                    }
                }
            }
            let e = packages.remove(i);
            packages.insert(p, e);
            proof {
                broadcast use vstd::seq_lib::group_to_multiset_ensures;

                assert(packages@ =~= before.take(p as int) + seq![before[i as int]]
                    + before.subrange(p as int, i as int) + before.skip(i as int + 1));
                assert forall|j: int|
                    0 <= j < orig.len() && (#[trigger] orig[j]).1.resolver != eco implies packages@[j]
                    == orig[j] by {
                    assert(before[j] == orig[j]);
                    assert(j < p || j > i);
                    if j < p {
                        assert(packages@[j] == before.take(p as int)[j]);
                    } else {
                        assert(packages@[j] == before.skip(i as int + 1)[j - i - 1]);
                    }
                }

                lemma_insert_multiset(before.remove(i as int), p as int, before[i as int]);
                assert(before.remove(i as int).to_multiset() =~= before.to_multiset().remove(
                    before[i as int],
                ));
                assert(before.to_multiset().count(before[i as int]) > 0) by {
                    assert(before.contains(before[i as int]));
                }
                assert(before.to_multiset().remove(before[i as int]).insert(before[i as int])
                    =~= before.to_multiset());
                assert(packages@.to_multiset() == orig.to_multiset());
                if orig.len() == 2 {
                    assert(i == 1 && p == 0);
                    assert(before == orig);
                    assert(spec_pkg_cmp(orig[0], orig[1], eco, deps_view(deps@)) == 1);
                    assert(packages@ =~= seq![orig[1], orig[0]]);
                }
            }
        } else {
            proof {
                if orig.len() == 2 {
                    assert(i == 1 && p == 1);
                    assert(spec_pkg_cmp(orig[0], orig[1], eco, deps_view(deps@)) != 1);
                }
            }
        }
        i = i + 1;
    }
    proof {
        if orig.len() == 2 {
            assert(i >= 2);
        }
    }
}

/// Why a publish is skipped, or that it may run.
#[derive(Clone, Copy, Debug, PartialEq, Eq, Structural)]
pub enum PublishDecision {
    SkipPrivate,
    SkipDryRun,
    Run,
}

/// Whether a package's publish runs at all: private packages never publish,
/// and a dry run skips the package (its commands may still opt in one by
/// one, see `command_skipped`).
pub fn publish_decision(private: bool, dry_run: bool) -> (r: PublishDecision)
    ensures
        r == (if private {
            PublishDecision::SkipPrivate
        } else if dry_run {
            PublishDecision::SkipDryRun
        } else {
            PublishDecision::Run
        }),
{
    if private {
        PublishDecision::SkipPrivate
    } else if dry_run {
        PublishDecision::SkipDryRun
    } else {
        PublishDecision::Run
    }
}

/// Whether one configured command is suppressed by a dry run: it runs only
/// when no dry run is active or the command itself overrides the dry run.
pub fn command_skipped(cmd: &CommandConfig, dry_run: bool) -> (r: bool)
    ensures
        r == (dry_run && cmd.dry_run != Some(true)),
{
    dry_run && !(matches!(cmd.dry_run, Some(true)))
}

/// True when the path names a changeset file: its extension is `md`.
pub fn has_md_extension(path: &str) -> (r: bool)
    ensures
        r == (path@.len() >= 3 && path@.subrange(path@.len() - 3, path@.len() as int) == seq![
            '.',
            'm',
            'd',
        ]),
{
    let v = str_chars(path);
    if v.len() < 3 {
        return false;
    }
    let n = v.len();
    let r = v[n - 3] == '.' && v[n - 2] == 'm' && v[n - 1] == 'd';
    proof {
        let tail = path@.subrange(path@.len() - 3, path@.len() as int);
        if r {
            assert(tail =~= seq!['.', 'm', 'd']);
        } else {
            assert(tail[0] == path@[path@.len() - 3]);
            assert(tail[1] == path@[path@.len() - 2]);
            assert(tail[2] == path@[path@.len() - 1]);
        }
    }
    r
}

/// Reads every listed changeset file: each pair is a file path and that
/// file's content. Fails on the first file that is not a valid changeset,
/// with that file's invalid-changeset error.
pub fn get_changesets(files: &Vec<(String, String)>, known: &Vec<String>) -> (r: Result<
    Vec<Changeset>,
    ResolveError,
>)
    ensures
        match r {
            Ok(cs) => {
                &&& cs@.len() == files@.len()
                &&& forall|i: int|
                    0 <= i < files@.len() ==> spec_parse_content(
                        (#[trigger] files@[i]).1@,
                        names_view(known@),
                    ) == Some((cs@[i]@.packages, cs@[i]@.summary))
                &&& forall|i: int|
                    0 <= i < files@.len() ==> (#[trigger] cs@[i])@.path == Some(files@[i].0@)
            },
            Err(e) => exists|i: int|
                0 <= i < files@.len() && spec_parse_content(
                    (#[trigger] files@[i]).1@,
                    names_view(known@),
                ) is None && (forall|j: int|
                    0 <= j < i ==> spec_parse_content(
                        (#[trigger] files@[j]).1@,
                        names_view(known@),
                    ) is Some) && (match e {
                    ResolveError::InvalidChangeset { path, reason: _ } => path@ == files@[i].0@,
                    _ => false,
                }),
        },
{
    let mut out: Vec<Changeset> = Vec::new();
    let mut i: usize = 0;
    while i < files.len()
        invariant
            i <= files@.len(),
            out@.len() == i,
            forall|j: int|
                0 <= j < i ==> spec_parse_content((#[trigger] files@[j]).1@, names_view(known@))
                    == Some((out@[j]@.packages, out@[j]@.summary)),
            forall|j: int| 0 <= j < i ==> (#[trigger] out@[j])@.path == Some(files@[j].0@),
        decreases files.len() - i,
    {
        let path = files[i].0.as_str();
        let content = files[i].1.as_str();
        match Changeset::parse_file(path, content, known) {
            Ok(cs) => {
                out.push(cs);
            },
            Err(e) => {
                proof {
                    assert(spec_parse_content(files@[i as int].1@, names_view(known@)) is None);
                    assert(forall|j: int|
                        0 <= j < i ==> spec_parse_content(
                            (#[trigger] files@[j]).1@,
                            names_view(known@),
                        ) is Some);
                }
                return Err(e);
            },
        }
        i = i + 1;
    }
    Ok(out)
}

} // verus!
