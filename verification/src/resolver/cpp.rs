//! The resolver for CMake-based packages: reading the project name and
//! version out of a `project(<name> ... VERSION <x.y.z> ...)` declaration,
//! and rewriting the version in place, with the adjacent vcpkg manifest kept
//! in step.

use vstd::prelude::*;

use crate::error::ResolveError;
use crate::resolver::ResolvedPackage;
use crate::text;
use crate::text::{chars_string, has_match, is_space, str_chars};
use crate::version::digit_val;

verus! {

/// Index of the first non-whitespace character at or after `from`, or the
/// end of `s`.
pub open spec fn spaces_end(s: Seq<char>, from: int) -> int
    decreases s.len() - from,
{
    if from < 0 || from >= s.len() || !is_space(s[from]) {
        from
    } else {
        spaces_end(s, from + 1)
    }
}

/// A character a version literal is made of: a digit or a dot.
pub open spec fn ver_char(c: char) -> bool {
    digit_val(c) >= 0 || c == '.'
}

/// Index of the first non-version character at or after `from`, or the end
/// of `s`.
pub open spec fn verchars_end(s: Seq<char>, from: int) -> int
    decreases s.len() - from,
{
    if from < 0 || from >= s.len() || !ver_char(s[from]) {
        from
    } else {
        verchars_end(s, from + 1)
    }
}

/// A character a project name is made of: a letter, digit, or underscore.
pub open spec fn word_char(c: char) -> bool {
    digit_val(c) >= 0 || ('a' <= c && c <= 'z') || ('A' <= c && c <= 'Z') || c == '_'
}

/// Index of the first non-word character at or after `from`, or the end of
/// `s`.
pub open spec fn wordchars_end(s: Seq<char>, from: int) -> int
    decreases s.len() - from,
{
    if from < 0 || from >= s.len() || !word_char(s[from]) {
        from
    } else {
        wordchars_end(s, from + 1)
    }
}

/// Index of the first `)` at or after `from`, or the end of `s`.
pub open spec fn rparen_end(s: Seq<char>, from: int) -> int
    decreases s.len() - from,
{
    if from < 0 || from >= s.len() || s[from] == ')' {
        from
    } else {
        rparen_end(s, from + 1)
    }
}

/// Where the `project(...)` declaration opens: the index just after its `(`,
/// and the index of its closing `)` (or the end of the text). `None` when no
/// `project` token followed by `(` occurs.
pub open spec fn cmake_paren_span(s: Seq<char>) -> Option<(int, int)> {
    if !has_match(s, "project"@) {
        None
    } else {
        let p = text::first_match_pos(s, "project"@);
        let q = spaces_end(s, p + 7);
        if q >= s.len() || s[q] != '(' {
            None
        } else {
            Some((q + 1, rparen_end(s, q + 1)))
        }
    }
}

/// Where the version literal of the `project(... VERSION <v> ...)`
/// declaration sits: the half-open index range of the literal. `None` when
/// the declaration, the `VERSION` keyword inside its parentheses, or the
/// literal is missing.
pub open spec fn cmake_ver_span(s: Seq<char>) -> Option<(int, int)> {
    match cmake_paren_span(s) {
        None => None,
        Some((open, close)) => {
            if !text::has_match_from(s, "VERSION"@, open) {
                None
            } else {
                let m = text::first_match_from(s, "VERSION"@, open);
                if m + 7 > close {
                    None
                } else {
                    let r0 = spaces_end(s, m + 7);
                    if r0 == m + 7 {
                        None
                    } else {
                        let e = verchars_end(s, r0);
                        if e == r0 {
                            None
                        } else {
                            Some((r0, e))
                        }
                    }
                }
            }
        },
    }
}

/// The version literal of the `project(...)` declaration.
pub open spec fn spec_cmake_version(s: Seq<char>) -> Option<Seq<char>> {
    match cmake_ver_span(s) {
        None => None,
        Some((r0, e)) => Some(s.subrange(r0, e)),
    }
}

/// The project name of the `project(<name> ...)` declaration.
pub open spec fn spec_cmake_name(s: Seq<char>) -> Option<Seq<char>> {
    match cmake_paren_span(s) {
        None => None,
        Some((open, close)) => {
            let n0 = spaces_end(s, open);
            let e = wordchars_end(s, n0);
            if e == n0 {
                None
            } else {
                Some(s.subrange(n0, e))
            }
        },
    }
}

/// The text with the version literal of the `project(...)` declaration
/// replaced; the text unchanged when no literal is found.
pub open spec fn spec_cmake_replaced(s: Seq<char>, v: Seq<char>) -> Seq<char> {
    match cmake_ver_span(s) {
        None => s,
        Some((r0, e)) => s.take(r0) + v + s.skip(e),
    }
}

/// Exec counterpart of `spaces_end`.
fn spaces_end_c(v: &Vec<char>, from: usize) -> (r: usize)
    requires
        from <= v@.len(),
    ensures
        r as int == spaces_end(v@, from as int),
        from <= r <= v@.len(),
{
    let mut i = from;
    while i < v.len() && text::is_space_c(v[i])
        invariant
            from <= i <= v@.len(),
            spaces_end(v@, from as int) == spaces_end(v@, i as int),
        decreases v.len() - i,
    {
        i = i + 1;
    }
    proof {
        assert(spaces_end(v@, i as int) == i as int);
    }
    i
}

/// Exec counterpart of `verchars_end`.
fn verchars_end_c(v: &Vec<char>, from: usize) -> (r: usize)
    requires
        from <= v@.len(),
    ensures
        r as int == verchars_end(v@, from as int),
        from <= r <= v@.len(),
{
    let mut i = from;
    while i < v.len() && (crate::version::digit_val_exec(v[i]).is_some() || v[i] == '.')
        invariant
            from <= i <= v@.len(),
            verchars_end(v@, from as int) == verchars_end(v@, i as int),
        decreases v.len() - i,
    {
        i = i + 1;
    }
    proof {
        assert(verchars_end(v@, i as int) == i as int);
    }
    i
}

/// Exec counterpart of `wordchars_end`.
fn wordchars_end_c(v: &Vec<char>, from: usize) -> (r: usize)
    requires
        from <= v@.len(),
    ensures
        r as int == wordchars_end(v@, from as int),
        from <= r <= v@.len(),
{
    let mut i = from;
    while i < v.len() && (crate::version::digit_val_exec(v[i]).is_some() || ('a' <= v[i] && v[i]
        <= 'z') || ('A' <= v[i] && v[i] <= 'Z') || v[i] == '_')
        invariant
            from <= i <= v@.len(),
            wordchars_end(v@, from as int) == wordchars_end(v@, i as int),
        decreases v.len() - i,
    {
        i = i + 1;
    }
    proof {
        assert(wordchars_end(v@, i as int) == i as int);
    }
    i
}

/// Exec counterpart of `rparen_end`.
fn rparen_end_c(v: &Vec<char>, from: usize) -> (r: usize)
    requires
        from <= v@.len(),
    ensures
        r as int == rparen_end(v@, from as int),
        from <= r <= v@.len(),
{
    let mut i = from;
    while i < v.len() && v[i] != ')'
        invariant
            from <= i <= v@.len(),
            rparen_end(v@, from as int) == rparen_end(v@, i as int),
        decreases v.len() - i,
    {
        i = i + 1;
    }
    proof {
        assert(rparen_end(v@, i as int) == i as int);
    }
    i
}

/// Locates the version literal of the `project(...)` declaration.
#[verifier::loop_isolation(false)]
fn cmake_ver_span_c(v: &Vec<char>) -> (r: Option<(usize, usize)>)
    ensures
        match r {
            Some((r0, e)) => {
                &&& cmake_ver_span(v@) == Some((r0 as int, e as int))
                &&& r0 <= e <= v@.len()
            },
            None => cmake_ver_span(v@) is None,
        },
{
    proof {
        reveal_strlit("project");
        reveal_strlit("VERSION");
    }
    let projv = str_chars("project");
    let p = match text::find_from(v, &projv, 0) {
        Some(p) => p,
        None => {
            proof {
                if has_match(v@, "project"@) {
                    let w = choose|i: int| text::matches_at(v@, "project"@, i);
                    assert(w >= 0);
                }
            }
            return None;
        },
    };
    let n = v.len();
    proof {
        text::lemma_first_match_pos(v@, "project"@, p as int);
        assert(p + 7 <= n);
    }
    let q = spaces_end_c(v, p + 7);
    if q >= v.len() || v[q] != '(' {
        return None;
    }
    let close = rparen_end_c(v, q + 1);
    let verv = str_chars("VERSION");
    let m = match text::find_from(v, &verv, q + 1) {
        Some(m) => m,
        None => {
            return None;
        },
    };
    proof {
        text::lemma_first_match_from(v@, "VERSION"@, q as int + 1, m as int);
        assert(m + 7 <= n);
    }
    if m + 7 > close {
        return None;
    }
    let r0 = spaces_end_c(v, m + 7);
    if r0 == m + 7 {
        return None;
    }
    let e = verchars_end_c(v, r0);
    if e == r0 {
        return None;
    }
    Some((r0, e))
}

/// The resolver for CMake-based packages.
pub struct CppResolver;

impl CppResolver {
    /// The CMake file path of a package directory.
    pub fn cmake_path(pkg_path: &str) -> (r: String)
        ensures
            r@ == pkg_path@ + "/CMakeLists.txt"@,
    {
        let mut v = str_chars(pkg_path);
        let mut tail = str_chars("/CMakeLists.txt");
        v.append(&mut tail);
        chars_string(&v)
    }

    /// Reads the version literal out of a CMake file's content.
    pub fn read_cmake_version(content: &str) -> (r: Option<String>)
        ensures
            match r {
                Some(ver) => spec_cmake_version(content@) == Some(ver@),
                None => spec_cmake_version(content@) is None,
            },
    {
        let v = str_chars(content);
        match cmake_ver_span_c(&v) {
            Some((r0, e)) => Some(chars_string(&text::subrange(&v, r0, e))),
            None => None,
        }
    }

    /// Reads the project name out of a CMake file's content.
    #[verifier::loop_isolation(false)]
    pub fn read_cmake_name(content: &str) -> (r: Option<String>)
        ensures
            match r {
                Some(n) => spec_cmake_name(content@) == Some(n@),
                None => spec_cmake_name(content@) is None,
            },
    {
        proof {
            reveal_strlit("project");
        }
        let v = str_chars(content);
        let projv = str_chars("project");
        let p = match text::find_from(&v, &projv, 0) {
            Some(p) => p,
            None => {
                proof {
                    if has_match(v@, "project"@) {
                        let w = choose|i: int| text::matches_at(v@, "project"@, i);
                        assert(w >= 0);
                    }
                }
                return None;
            },
        };
        let n = v.len();
        proof {
            text::lemma_first_match_pos(v@, "project"@, p as int);
            assert(p + 7 <= n);
        }
        let q = spaces_end_c(&v, p + 7);
        if q >= v.len() || v[q] != '(' {
            return None;
        }
        let n0 = spaces_end_c(&v, q + 1);
        let e = wordchars_end_c(&v, n0);
        if e == n0 {
            return None;
        }
        Some(chars_string(&text::subrange(&v, n0, e)))
    }

    /// Reads one package's project name and version from its CMake file.
    /// `cmake` is the content of `<pkg_path>/CMakeLists.txt`, `None` when
    /// that file does not exist. The version literal must be a valid
    /// semantic version. CMake packages are never marked private.
    pub fn resolve(pkg_path: &str, cmake: Option<&str>) -> (r: Result<
        ResolvedPackage,
        ResolveError,
    >)
        ensures
            match r {
                Ok(p) => {
                    &&& cmake is Some
                    &&& spec_cmake_name(cmake->0@) == Some(p.name@)
                    &&& spec_cmake_version(cmake->0@) == Some(p.version@)
                    &&& crate::version::parsed_semver(p.version@) is Some
                    &&& p.path@ == pkg_path@
                    &&& p.private == false
                },
                Err(e) => match e {
                    ResolveError::FileOrDirNotFound { path } => {
                        &&& cmake is None
                        &&& path@ == pkg_path@ + "/CMakeLists.txt"@
                    },
                    ResolveError::ParseError { .. } => {
                        cmake is Some && (spec_cmake_version(cmake->0@) is None
                            || spec_cmake_name(cmake->0@) is None)
                    },
                    ResolveError::InvalidVersion { .. } => {
                        &&& cmake is Some
                        &&& spec_cmake_version(cmake->0@) matches Some(ver)
                        &&& crate::version::parsed_semver(ver) is None
                    },
                    _ => false,
                },
            },
    {
        let path = Self::cmake_path(pkg_path);
        let text_in = match cmake {
            Some(t) => t,
            None => {
                return Err(ResolveError::FileOrDirNotFound { path });
            },
        };
        let version = match Self::read_cmake_version(text_in) {
            Some(v) => v,
            None => {
                return Err(
                    ResolveError::ParseError {
                        path,
                        reason: String::from_str(
                            "VERSION not found in project() declaration",
                        ),
                    },
                );
            },
        };
        let name = match Self::read_cmake_name(text_in) {
            Some(n) => n,
            None => {
                return Err(
                    ResolveError::ParseError {
                        path,
                        reason: String::from_str(
                            "project name not found in project() declaration",
                        ),
                    },
                );
            },
        };
        match crate::version::parse_version(version.as_str()) {
            Ok(_) => {},
            Err(e) => {
                return Err(e);
            },
        }
        Ok(ResolvedPackage { name, version, path: pkg_path.to_owned(), private: false })
    }

    /// Rewrites the version literal of the `project(...)` declaration,
    /// leaving every other character in place; a content without the
    /// declaration comes back unchanged.
    pub fn update_cmake_version(content: &str, new_version: &str) -> (r: String)
        ensures
            r@ == spec_cmake_replaced(content@, new_version@),
    {
        let v = str_chars(content);
        match cmake_ver_span_c(&v) {
            Some((r0, e)) => {
                let mut out = text::subrange(&v, 0, r0);
                let mut nv = str_chars(new_version);
                out.append(&mut nv);
                let mut rest = text::subrange(&v, e, v.len());
                out.append(&mut rest);
                proof {
                    assert(v@.subrange(0, r0 as int) =~= v@.take(r0 as int));
                    assert(v@.subrange(e as int, v@.len() as int) =~= v@.skip(e as int));
                }
                chars_string(&out)
            },
            None => content.to_owned(),
        }
    }

    /// Rewrites the adjacent vcpkg manifest's top-level `version` field,
    /// pretty-printed. Fails with a parse error when the manifest is not a
    /// JSON object.
    pub fn update_vcpkg_version(content: &str, new_version: &str) -> (r: Result<
        String,
        ResolveError,
    >)
        ensures
            match r {
                Ok(s) => crate::resolver::nodejs::json_with_version(content@, new_version@)
                    == Some(s@),
                Err(e) => {
                    &&& crate::resolver::nodejs::json_with_version(content@, new_version@)
                        is None
                    &&& e matches ResolveError::ParseError { .. }
                },
            },
    {
        crate::resolver::nodejs::NodejsResolver::bump(content, new_version)
    }
}

} // verus!
