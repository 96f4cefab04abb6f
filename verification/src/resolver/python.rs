//! The resolver for Python packages: pyproject metadata (PEP 621 and
//! Poetry), the dynamic-version extraction from source files, the setup.cfg
//! fallback, dependency-name parsing, and the version rewrites.

use vstd::prelude::*;

use crate::error::ResolveError;
use crate::resolver::ResolvedPackage;
use crate::text;
use crate::text::{
    chars_string, first_char_pos, has_char, has_match, spec_split, spec_starts_with, spec_trim,
    str_chars,
};

verus! {

/// The `[project]` metadata of a pyproject document, as this resolver reads
/// it.
#[derive(Debug, Clone)]
pub struct PyProjectInfo {
    pub has_project: bool,
    pub name: Option<String>,
    pub version: Option<String>,
}

/// The `[tool.poetry]` metadata of a pyproject document, as this resolver
/// reads it.
#[derive(Debug, Clone)]
pub struct PyToolInfo {
    pub has_poetry: bool,
    pub poetry_name: Option<String>,
    pub poetry_version: Option<String>,
}

/// What the `[project]` table of a pyproject text declares: `None` when the
/// text is not valid TOML, else whether the table exists, the name, and the
/// version, in that order.
pub uninterp spec fn pyproject_project_of(text: Seq<char>) -> Option<
    (bool, Option<Seq<char>>, Option<Seq<char>>),
>;

/// The `[project]` `dynamic` list of a pyproject text: `None` when the text
/// is not valid TOML, `Some(None)` when the field is missing.
pub uninterp spec fn pyproject_dynamic_of(text: Seq<char>) -> Option<Option<Seq<Seq<char>>>>;

/// The `[project]` dependency strings of a pyproject text: `None` when the
/// text is not valid TOML, `Some(None)` when the field is missing.
pub uninterp spec fn pyproject_deps_of(text: Seq<char>) -> Option<Option<Seq<Seq<char>>>>;

/// What the `[tool.poetry]` table of a pyproject text declares: `None` when
/// the text is not valid TOML, else whether the table exists, its name, and
/// its version, in that order.
pub uninterp spec fn pyproject_tool_of(text: Seq<char>) -> Option<
    (bool, Option<Seq<char>>, Option<Seq<char>>),
>;

/// The `[tool.poetry.dependencies]` keys of a pyproject text; empty when the
/// text does not parse or has no such table.
pub uninterp spec fn poetry_deps_of(text: Seq<char>) -> Seq<Seq<char>>;

/// The `tool.hatch.version.path` field of a pyproject text; `None` when the
/// text does not parse or the field is missing.
pub uninterp spec fn hatch_path_of(text: Seq<char>) -> Option<Seq<char>>;

/// Relies on `toml_edit`'s document parser: the `[project]` name and
/// version are functions of the text alone.
#[verifier::external_body]
fn read_pyproject_project(text: &str) -> (r: Option<PyProjectInfo>)
    ensures
        match r {
            Some(m) => pyproject_project_of(text@) == Some(
                (
                    m.has_project,
                    match m.name {
                        Some(n) => Some(n@),
                        None => None::<Seq<char>>,
                    },
                    match m.version {
                        Some(v) => Some(v@),
                        None => None::<Seq<char>>,
                    },
                ),
            ),
            None => pyproject_project_of(text@) is None,
        },
{
    let doc: toml_edit::DocumentMut = match text.parse() {
        Ok(d) => d,
        Err(_) => return None,
    };
    let proj = doc.get("project").and_then(|p| p.as_table());
    let name = proj.and_then(|p| p.get("name")).and_then(|v| v.as_str()).map(str::to_string);
    let version = proj.and_then(|p| p.get("version")).and_then(|v| v.as_str()).map(str::to_string);
    Some(PyProjectInfo { has_project: proj.is_some(), name, version })
}

/// Relies on `toml_edit`'s document parser: the `[project]` `dynamic` list
/// is a function of the text alone. The first component is false when the
/// text is not valid TOML.
#[verifier::external_body]
fn read_pyproject_dynamic(text: &str) -> (r: (bool, Option<Vec<String>>))
    ensures
        r.0 ==> pyproject_dynamic_of(text@) == Some(
            match r.1 {
                Some(d) => Some(d@.map_values(|s: String| s@)),
                None => None::<Seq<Seq<char>>>,
            },
        ),
        !r.0 ==> pyproject_dynamic_of(text@) is None && r.1 is None,
{
    let doc: toml_edit::DocumentMut = match text.parse() {
        Ok(d) => d,
        Err(_) => return (false, None),
    };
    let list = doc.get("project").and_then(|p| p.get("dynamic")).and_then(|i| i.as_value())
        .and_then(|v| v.as_array())
        .map(|a| a.iter().filter_map(|x| x.as_str().map(str::to_string)).collect());
    (true, list)
}

/// Relies on `toml_edit`'s document parser: the `[project]` dependency
/// strings are a function of the text alone. The first component is false
/// when the text is not valid TOML.
#[verifier::external_body]
fn read_pyproject_dep_list(text: &str) -> (r: (bool, Option<Vec<String>>))
    ensures
        r.0 ==> pyproject_deps_of(text@) == Some(
            match r.1 {
                Some(d) => Some(d@.map_values(|s: String| s@)),
                None => None::<Seq<Seq<char>>>,
            },
        ),
        !r.0 ==> pyproject_deps_of(text@) is None && r.1 is None,
{
    let doc: toml_edit::DocumentMut = match text.parse() {
        Ok(d) => d,
        Err(_) => return (false, None),
    };
    let list = doc.get("project").and_then(|p| p.get("dependencies")).and_then(|i| i.as_value())
        .and_then(|v| v.as_array())
        .map(|a| a.iter().filter_map(|x| x.as_str().map(str::to_string)).collect());
    (true, list)
}

/// Relies on `toml_edit`'s document parser: the `[tool.poetry]` name and
/// version are functions of the text alone.
#[verifier::external_body]
fn read_pyproject_tool(text: &str) -> (r: Option<PyToolInfo>)
    ensures
        match r {
            Some(m) => pyproject_tool_of(text@) == Some(
                (
                    m.has_poetry,
                    match m.poetry_name {
                        Some(n) => Some(n@),
                        None => None::<Seq<char>>,
                    },
                    match m.poetry_version {
                        Some(v) => Some(v@),
                        None => None::<Seq<char>>,
                    },
                ),
            ),
            None => pyproject_tool_of(text@) is None,
        },
{
    let doc: toml_edit::DocumentMut = match text.parse() {
        Ok(d) => d,
        Err(_) => return None,
    };
    let poetry = doc.get("tool").and_then(|t| t.get("poetry")).and_then(|p| p.as_table());
    let name = poetry.and_then(|p| p.get("name")).and_then(|v| v.as_str()).map(str::to_string);
    let version = poetry.and_then(|p| p.get("version")).and_then(|v| v.as_str()).map(str::to_string);
    Some(PyToolInfo { has_poetry: poetry.is_some(), poetry_name: name, poetry_version: version })
}

/// Relies on `toml_edit`'s document parser: the `[tool.poetry.dependencies]`
/// keys are a function of the text alone, in document order.
#[verifier::external_body]
fn read_poetry_deps(text: &str) -> (r: Vec<String>)
    ensures
        r@.map_values(|s: String| s@) == poetry_deps_of(text@),
{
    let doc: toml_edit::DocumentMut = match text.parse() {
        Ok(d) => d,
        Err(_) => return Vec::new(),
    };
    doc.get("tool").and_then(|t| t.get("poetry")).and_then(|p| p.get("dependencies"))
        .and_then(|d| d.as_table_like())
        .map(|t| t.iter().map(|(k, _)| k.to_string()).collect()).unwrap_or_default()
}

/// Relies on `toml_edit`'s document parser: Hatch's `version.path` is a
/// function of the text alone.
#[verifier::external_body]
fn read_hatch_version_path(text: &str) -> (r: Option<String>)
    ensures
        match r {
            Some(p) => hatch_path_of(text@) == Some(p@),
            None => hatch_path_of(text@) is None,
        },
{
    text.parse::<toml_edit::DocumentMut>().ok().as_ref()
        .and_then(|d| d.get("tool")).and_then(|t| t.get("hatch"))
        .and_then(|h| h.get("version")).and_then(|v| v.get("path"))
        .and_then(|v| v.as_str()).map(str::to_string)
}

/// What rewriting the versions of a pyproject document yields: `None` when
/// the text is not valid TOML, else the same document with `project.version`
/// and `tool.poetry.version` set wherever those tables exist, formatting
/// kept.
pub uninterp spec fn pyproject_with_version(text: Seq<char>, version: Seq<char>) -> Option<
    Seq<char>,
>;

/// Relies on `toml_edit`'s format-preserving edits: the rewritten document
/// is a function of the text and the new version alone.
#[verifier::external_body]
fn set_pyproject_version(text: &str, version: &str) -> (r: Option<String>)
    ensures
        match r {
            Some(s) => pyproject_with_version(text@, version@) == Some(s@),
            None => pyproject_with_version(text@, version@) is None,
        },
{
    let mut doc: toml_edit::DocumentMut = match text.parse() {
        Ok(d) => d,
        Err(_) => return None,
    };
    if let Some(t) = doc.get_mut("project").and_then(|p| p.as_table_mut()) {
        t.insert("version", toml_edit::value(version));
    }
    if let Some(t) = doc.get_mut("tool").and_then(|t| t.get_mut("poetry")).and_then(|p| p.as_table_mut()) {
        t.insert("version", toml_edit::value(version));
    }
    Some(doc.to_string())
}

/// True when a `__version__` line retrieves its value dynamically rather
/// than carrying a literal.
pub open spec fn dynamic_version_line(t: Seq<char>) -> bool {
    ||| has_match(t, "version("@)
    ||| has_match(t, "get_version()"@)
    ||| has_match(t, "importlib"@)
    ||| has_match(t, "pkg_resources"@)
}

/// The version a single source line carries: the quoted literal of a static
/// `__version__ = "..."` (or single-quoted) assignment, `None` for any other
/// line.
pub open spec fn line_version(line: Seq<char>) -> Option<Seq<char>> {
    let t = spec_trim(line);
    if !spec_starts_with(t, "__version__"@) {
        None
    } else if dynamic_version_line(t) {
        None
    } else if !has_char(t, '=') {
        None
    } else {
        let v = spec_trim(t.subrange(first_char_pos(t, '=') + 1, t.len() as int));
        if v.len() >= 2 && v[0] == '"' && v.last() == '"' {
            Some(v.subrange(1, v.len() - 1))
        } else if v.len() >= 2 && v[0] == '\'' && v.last() == '\'' {
            Some(v.subrange(1, v.len() - 1))
        } else {
            None
        }
    }
}

/// The version the first static `__version__` line of the content carries.
pub open spec fn spec_content_version(lines: Seq<Seq<char>>) -> Option<Seq<char>>
    decreases lines.len(),
{
    if lines.len() == 0 {
        None
    } else {
        match line_version(lines[0]) {
            Some(v) => Some(v),
            None => spec_content_version(lines.drop_first()),
        }
    }
}

/// Reads the version a single line carries.
fn line_version_c(line: &Vec<char>) -> (r: Option<Vec<char>>)
    ensures
        match r {
            Some(v) => line_version(line@) == Some(v@),
            None => line_version(line@) is None,
        },
{
    proof {
        reveal_strlit("__version__");
        reveal_strlit("version(");
        reveal_strlit("get_version()");
        reveal_strlit("importlib");
        reveal_strlit("pkg_resources");
    }
    let t = text::trim(line);
    let marker = str_chars("__version__");
    if !text::starts_with_c(&t, &marker) {
        return None;
    }
    if text::contains_c(&t, &str_chars("version(")) || text::contains_c(
        &t,
        &str_chars("get_version()"),
    ) || text::contains_c(&t, &str_chars("importlib")) || text::contains_c(
        &t,
        &str_chars("pkg_resources"),
    ) {
        return None;
    }
    let eq = match text::find_char(&t, '=') {
        Some(e) => e,
        None => {
            return None;
        },
    };
    let v = text::trim(&text::subrange(&t, eq + 1, t.len()));
    if v.len() >= 2 && ((v[0] == '"' && v[v.len() - 1] == '"') || (v[0] == '\'' && v[v.len() - 1]
        == '\'')) {
        proof {
            assert(v@.last() == v@[v@.len() - 1]);
        }
        Some(text::subrange(&v, 1, v.len() - 1))
    } else {
        None
    }
}

/// The directory name a Python package's module lives under: the package
/// name with every dash replaced by an underscore.
pub open spec fn spec_module_dir(s: Seq<char>) -> Seq<char> {
    s.map_values(
        |c: char|
            if c == '-' {
                '_'
            } else {
                c
            },
    )
}

/// The resolver for Python packages.
pub struct PythonResolver;

impl PythonResolver {
    /// Extracts a static `__version__` literal from a source file's content:
    /// the first line that assigns a plain quoted string to `__version__`
    /// wins; lines that retrieve the version dynamically are skipped.
    #[verifier::loop_isolation(false)]
    pub fn extract_version_from_content(content: &str) -> (r: Option<String>)
        ensures
            match r {
                Some(v) => spec_content_version(spec_split(content@, '\n')) == Some(v@),
                None => spec_content_version(spec_split(content@, '\n')) is None,
            },
    {
        let v = str_chars(content);
        let lines = text::split_on(&v, '\n');
        let ghost lv = text::lines_view(lines@);
        proof {
            assert(lv.skip(0) =~= lv);
        }
        let mut k: usize = 0;
        while k < lines.len()
            invariant
                k <= lines@.len(),
                lv == text::lines_view(lines@),
                spec_content_version(lv) == spec_content_version(lv.skip(k as int)),
            decreases lines.len() - k,
        {
            proof {
                assert(lv.skip(k as int)[0] == lv[k as int]);
                assert(lv[k as int] == lines@[k as int]@);
                assert(lv.skip(k as int).drop_first() =~= lv.skip(k as int + 1));
            }
            match line_version_c(&lines[k]) {
                Some(ver) => {
                    return Some(chars_string(&ver));
                },
                None => {},
            }
            k = k + 1;
        }
        proof {
            assert(lv.skip(lv.len() as int) =~= Seq::<Seq<char>>::empty());
        }
        return None;
    }

    /// The module directory name of a package: dashes become underscores.
    pub fn module_dir_name(name: &str) -> (r: String)
        ensures
            r@ == spec_module_dir(name@),
    {
        let v = str_chars(name);
        let mut out: Vec<char> = Vec::new();
        let mut i: usize = 0;
        while i < v.len()
            invariant
                i <= v@.len(),
                v@ == name@,
                out@ == spec_module_dir(name@).take(i as int),
            decreases v.len() - i,
        {
            if v[i] == '-' {
                out.push('_');
            } else {
                out.push(v[i]);
            }
            proof {
                assert(out@ =~= spec_module_dir(name@).take(i as int + 1));
            }
            i = i + 1;
        }
        proof {
            assert(spec_module_dir(name@).take(name@.len() as int) =~= spec_module_dir(name@));
        }
        chars_string(&out)
    }

    /// The file Hatch's `version.path` points at, when the pyproject
    /// declares one.
    pub fn hatch_version_path(pyproject: &str) -> (r: Option<String>)
        ensures
            match r {
                Some(p) => hatch_path_of(pyproject@) == Some(p@),
                None => hatch_path_of(pyproject@) is None,
            },
    {
        read_hatch_version_path(pyproject)
    }

    /// The source files the dynamic version may live in, relative to the
    /// package directory, in the order they are tried.
    pub fn version_file_candidates(pkg_path: &str, module: &str) -> (r: Vec<String>)
        ensures
            r@.len() == 4,
            r@[0]@ == pkg_path@ + "/"@ + module@ + "/__init__.py"@,
            r@[1]@ == pkg_path@ + "/src/"@ + module@ + "/__init__.py"@,
            r@[2]@ == pkg_path@ + "/"@ + module@ + "/__version__.py"@,
            r@[3]@ == pkg_path@ + "/src/"@ + module@ + "/__version__.py"@,
    {
        let mut out: Vec<String> = Vec::new();
        let mut a = str_chars(pkg_path);
        let mut a1 = str_chars("/");
        a.append(&mut a1);
        let mut a2 = str_chars(module);
        a.append(&mut a2);
        let mut b = text::subrange(&a, 0, a.len());
        let mut a3 = str_chars("/__init__.py");
        a.append(&mut a3);
        let mut b3 = str_chars("/__version__.py");
        b.append(&mut b3);
        let mut c = str_chars(pkg_path);
        let mut c1 = str_chars("/src/");
        c.append(&mut c1);
        let mut c2 = str_chars(module);
        c.append(&mut c2);
        let mut d = text::subrange(&c, 0, c.len());
        let mut c3 = str_chars("/__init__.py");
        c.append(&mut c3);
        let mut d3 = str_chars("/__version__.py");
        d.append(&mut d3);
        out.push(chars_string(&a));
        out.push(chars_string(&c));
        out.push(chars_string(&b));
        out.push(chars_string(&d));
        proof {
            assert(out@[0]@ =~= pkg_path@ + "/"@ + module@ + "/__init__.py"@);
            assert(out@[1]@ =~= pkg_path@ + "/src/"@ + module@ + "/__init__.py"@);
            assert(out@[2]@ =~= pkg_path@ + "/"@ + module@ + "/__version__.py"@);
            assert(out@[3]@ =~= pkg_path@ + "/src/"@ + module@ + "/__version__.py"@);
        }
        out
    }

    /// The version a dynamic declaration resolves to: the first candidate
    /// source file carrying a static `__version__` wins, then the adjacent
    /// Cargo manifest's package version, then the file Hatch's
    /// `version.path` points at. `candidates` holds each candidate file's
    /// content, `None` where the file does not exist.
    #[verifier::loop_isolation(false)]
    pub fn extract_version_from_sources(
        candidates: &Vec<Option<String>>,
        cargo_manifest: Option<&str>,
        hatch_file: Option<&str>,
    ) -> (r: Option<String>)
        ensures
            ({
                let from_files = spec_first_candidate_version(
                    candidates@.map_values(
                        |c: Option<String>|
                            match c {
                                Some(s) => Some(s@),
                                None => None::<Seq<char>>,
                            },
                    ),
                );
                let from_cargo = match cargo_manifest {
                    Some(t) => match crate::resolver::rust::cargo_manifest_of(t@) {
                        Some(m) => m.1,
                        None => None,
                    },
                    None => None,
                };
                let from_hatch = match hatch_file {
                    Some(h) => spec_content_version(spec_split(h@, '\n')),
                    None => None,
                };
                match r {
                    Some(v) => {
                        let vv = Some(v@);
                        if from_files is Some {
                            vv == from_files
                        } else if from_cargo is Some {
                            vv == from_cargo
                        } else {
                            vv == from_hatch
                        }
                    },
                    None => from_files is None && from_cargo is None && from_hatch is None,
                }
            }),
    {
        let ghost cvs = candidates@.map_values(
            |c: Option<String>|
                match c {
                    Some(s) => Some(s@),
                    None => None::<Seq<char>>,
                },
        );
        proof {
            assert(cvs.skip(0) =~= cvs);
        }
        let mut i: usize = 0;
        while i < candidates.len()
            invariant
                i <= candidates@.len(),
                cvs == candidates@.map_values(
                    |c: Option<String>|
                        match c {
                            Some(s) => Some(s@),
                            None => None::<Seq<char>>,
                        },
                ),
                spec_first_candidate_version(cvs) == spec_first_candidate_version(
                    cvs.skip(i as int),
                ),
            decreases candidates.len() - i,
        {
            proof {
                assert(cvs.skip(i as int)[0] == cvs[i as int]);
                assert(cvs.skip(i as int).drop_first() =~= cvs.skip(i as int + 1));
            }
            match &candidates[i] {
                Some(content) => {
                    match Self::extract_version_from_content(content.as_str()) {
                        Some(v) => {
                            return Some(v);
                        },
                        None => {},
                    }
                },
                None => {},
            }
            i = i + 1;
        }
        proof {
            assert(cvs.skip(cvs.len() as int) =~= Seq::<Option<Seq<char>>>::empty());
        }
        match cargo_manifest {
            Some(t) => {
                match crate::resolver::rust::RustResolver::manifest_version(t) {
                    Some(v) => {
                        return Some(v);
                    },
                    None => {},
                }
            },
            None => {},
        }
        match hatch_file {
            Some(h) => Self::extract_version_from_content(h),
            None => None,
        }
    }
}

/// The version of the first candidate source content that carries one.
pub open spec fn spec_first_candidate_version(cs: Seq<Option<Seq<char>>>) -> Option<Seq<char>>
    decreases cs.len(),
{
    if cs.len() == 0 {
        None
    } else {
        match cs[0] {
            Some(c) => match spec_content_version(spec_split(c, '\n')) {
                Some(v) => Some(v),
                None => spec_first_candidate_version(cs.drop_first()),
            },
            None => spec_first_candidate_version(cs.drop_first()),
        }
    }
}

/// How one setup.cfg line changes the scan state `(inside [metadata], name,
/// version)`: the `[metadata]` line opens the section, any other section
/// header closes it, and inside it `name =` and `version =` assignments are
/// recorded (the last one wins).
pub open spec fn cfg_step(
    st: (bool, Option<Seq<char>>, Option<Seq<char>>),
    line: Seq<char>,
) -> (bool, Option<Seq<char>>, Option<Seq<char>>) {
    let t = spec_trim(line);
    if t == "[metadata]"@ {
        (true, st.1, st.2)
    } else {
        let in_meta = if t.len() > 0 && t[0] == '[' {
            false
        } else {
            st.0
        };
        if in_meta && spec_starts_with(t, "name"@) {
            let rest = spec_trim(t.skip(4));
            if rest.len() > 0 && rest[0] == '=' {
                (in_meta, Some(spec_trim(rest.skip(1))), st.2)
            } else {
                (in_meta, st.1, st.2)
            }
        } else if in_meta && spec_starts_with(t, "version"@) {
            let rest = spec_trim(t.skip(7));
            if rest.len() > 0 && rest[0] == '=' {
                (in_meta, st.1, Some(spec_trim(rest.skip(1))))
            } else {
                (in_meta, st.1, st.2)
            }
        } else {
            (in_meta, st.1, st.2)
        }
    }
}

/// The state after scanning all lines of a setup.cfg text.
pub open spec fn cfg_scan(
    lines: Seq<Seq<char>>,
    st: (bool, Option<Seq<char>>, Option<Seq<char>>),
) -> (bool, Option<Seq<char>>, Option<Seq<char>>)
    decreases lines.len(),
{
    if lines.len() == 0 {
        st
    } else {
        cfg_scan(lines.drop_first(), cfg_step(st, lines[0]))
    }
}

/// What the setup.cfg fallback reads: the `[metadata]` name and version.
pub open spec fn spec_setup_cfg(content: Seq<char>) -> (Option<Seq<char>>, Option<Seq<char>>) {
    let st = cfg_scan(spec_split(content, '\n'), (false, None, None));
    (st.1, st.2)
}

/// How one setup.cfg line is rewritten when bumping: a line whose trimmed
/// text starts with `version` becomes the new assignment, any other stays.
pub open spec fn setup_line_out(line: Seq<char>, version: Seq<char>) -> Seq<char> {
    if spec_starts_with(spec_trim(line), "version"@) {
        "version = "@ + version
    } else {
        line
    }
}

/// Whether an `__init__.py` line is a static quoted `__version__`
/// assignment that bumping rewrites.
pub open spec fn init_line_updatable(line: Seq<char>) -> bool {
    let t = spec_trim(line);
    &&& spec_starts_with(t, "__version__"@)
    &&& !dynamic_version_line(t)
    &&& has_char(t, '=')
    &&& ({
        let v = spec_trim(t.subrange(first_char_pos(t, '=') + 1, t.len() as int));
        v.len() >= 1 && ((v[0] == '"' && v.last() == '"') || (v[0] == '\'' && v.last() == '\''))
    })
}

/// How one `__init__.py` line is rewritten when bumping.
pub open spec fn init_line_out(line: Seq<char>, version: Seq<char>) -> Seq<char> {
    if init_line_updatable(line) {
        "__version__ = \""@ + version + "\""@
    } else {
        line
    }
}

/// Whether this line is rewritten by an init-file bump.
fn init_line_updatable_c(line: &Vec<char>) -> (r: bool)
    ensures
        r == init_line_updatable(line@),
{
    proof {
        reveal_strlit("__version__");
        reveal_strlit("version(");
        reveal_strlit("get_version()");
        reveal_strlit("importlib");
        reveal_strlit("pkg_resources");
    }
    let t = text::trim(line);
    let marker = str_chars("__version__");
    if !text::starts_with_c(&t, &marker) {
        return false;
    }
    if text::contains_c(&t, &str_chars("version(")) || text::contains_c(
        &t,
        &str_chars("get_version()"),
    ) || text::contains_c(&t, &str_chars("importlib")) || text::contains_c(
        &t,
        &str_chars("pkg_resources"),
    ) {
        return false;
    }
    let eq = match text::find_char(&t, '=') {
        Some(e) => e,
        None => {
            return false;
        },
    };
    let v = text::trim(&text::subrange(&t, eq + 1, t.len()));
    if v.len() >= 1 && ((v[0] == '"' && v[v.len() - 1] == '"') || (v[0] == '\'' && v[v.len() - 1]
        == '\'')) {
        proof {
            assert(v@.last() == v@[v@.len() - 1]);
        }
        return true;
    }
    proof {
        if v.len() >= 1 {
            assert(v@.last() == v@[v@.len() - 1]);
        }
    }
    return false;
}

impl PythonResolver {
    /// The pyproject path of a package directory.
    pub fn pyproject_path(pkg_path: &str) -> (r: String)
        ensures
            r@ == pkg_path@ + "/pyproject.toml"@,
    {
        let mut v = str_chars(pkg_path);
        let mut tail = str_chars("/pyproject.toml");
        v.append(&mut tail);
        chars_string(&v)
    }

    /// The setup.cfg path of a package directory.
    pub fn setup_cfg_path(pkg_path: &str) -> (r: String)
        ensures
            r@ == pkg_path@ + "/setup.cfg"@,
    {
        let mut v = str_chars(pkg_path);
        let mut tail = str_chars("/setup.cfg");
        v.append(&mut tail);
        chars_string(&v)
    }

    /// Reads one package from its pyproject metadata. `pyproject` is the
    /// content of `<pkg_path>/pyproject.toml`, `None` when that file does
    /// not exist; `source_version` is the version the caller extracted from
    /// source files for a dynamic declaration (`0.0.0` stands in when it
    /// found none). PEP 621 `[project]` metadata wins over Poetry metadata;
    /// either requires its name field.
    pub fn resolve_pyproject(
        pkg_path: &str,
        pyproject: Option<&str>,
        source_version: Option<&str>,
    ) -> (r: Result<ResolvedPackage, ResolveError>)
        ensures
            match r {
                Ok(p) => {
                    &&& pyproject is Some
                    &&& pyproject_project_of(pyproject->0@) matches Some(pi)
                    &&& p.path@ == pkg_path@
                    &&& p.private == false
                    &&& if pi.0 {
                        &&& pi.1 == Some(p.name@)
                        &&& pyproject_dynamic_of(pyproject->0@) matches Some(dl)
                        &&& if dyn_has_version(dl) {
                            match source_version {
                                Some(sv) => p.version@ == sv@,
                                None => p.version@ == "0.0.0"@,
                            }
                        } else {
                            match pi.2 {
                                Some(v) => p.version@ == v,
                                None => p.version@ == "0.0.0"@,
                            }
                        }
                    } else {
                        &&& pyproject_tool_of(pyproject->0@) matches Some(ti)
                        &&& ti.0
                        &&& ti.1 == Some(p.name@)
                        &&& match ti.2 {
                            Some(v) => p.version@ == v,
                            None => p.version@ == "0.0.0"@,
                        }
                    }
                },
                Err(e) => match e {
                    ResolveError::FileOrDirNotFound { path } => {
                        &&& pyproject is None
                        &&& path@ == pkg_path@ + "/pyproject.toml"@
                    },
                    ResolveError::ParseError { .. } => {
                        pyproject is Some && (pyproject_project_of(pyproject->0@) is None
                            || pyproject_dynamic_of(pyproject->0@) is None || pyproject_tool_of(
                            pyproject->0@,
                        ) is None)
                    },
                    ResolveError::InvalidConfig { .. } => {
                        &&& pyproject is Some
                        &&& pyproject_project_of(pyproject->0@) matches Some(pi)
                        &&& if pi.0 {
                            pi.1 is None
                        } else {
                            match pyproject_tool_of(pyproject->0@) {
                                Some(ti) => !ti.0 || ti.1 is None,
                                None => false,
                            }
                        }
                    },
                    _ => false,
                },
            },
    {
        let path = Self::pyproject_path(pkg_path);
        let text_in = match pyproject {
            Some(t) => t,
            None => {
                return Err(ResolveError::FileOrDirNotFound { path });
            },
        };
        let pi = match read_pyproject_project(text_in) {
            Some(pi) => pi,
            None => {
                return Err(
                    ResolveError::ParseError {
                        path,
                        reason: String::from_str("not a valid TOML manifest"),
                    },
                );
            },
        };
        if pi.has_project {
            let name = match pi.name {
                Some(n) => n,
                None => {
                    return Err(
                        ResolveError::InvalidConfig {
                            path,
                            reason: String::from_str("project name not found"),
                        },
                    );
                },
            };
            let (parsed, dynamic) = read_pyproject_dynamic(text_in);
            if !parsed {
                return Err(
                    ResolveError::ParseError {
                        path,
                        reason: String::from_str("not a valid TOML manifest"),
                    },
                );
            }
            let dynamic_version = Self::dynamic_lists_version(&dynamic);
            let version: String = if dynamic_version {
                match source_version {
                    Some(sv) => sv.to_owned(),
                    None => String::from_str("0.0.0"),
                }
            } else {
                match pi.version {
                    Some(v) => v,
                    None => String::from_str("0.0.0"),
                }
            };
            Ok(ResolvedPackage { name, version, path: pkg_path.to_owned(), private: false })
        } else {
            let ti = match read_pyproject_tool(text_in) {
                Some(ti) => ti,
                None => {
                    return Err(
                        ResolveError::ParseError {
                            path,
                            reason: String::from_str("not a valid TOML manifest"),
                        },
                    );
                },
            };
            if !ti.has_poetry {
                return Err(
                    ResolveError::InvalidConfig {
                        path,
                        reason: String::from_str("no project metadata found in pyproject.toml"),
                    },
                );
            }
            let name = match ti.poetry_name {
                Some(n) => n,
                None => {
                    return Err(
                        ResolveError::InvalidConfig {
                            path,
                            reason: String::from_str("Poetry project name not found"),
                        },
                    );
                },
            };
            let version = match ti.poetry_version {
                Some(v) => v,
                None => String::from_str("0.0.0"),
            };
            Ok(ResolvedPackage { name, version, path: pkg_path.to_owned(), private: false })
        }
    }

    /// Whether a `dynamic` field list declares the version dynamic.
    fn dynamic_lists_version(dynamic: &Option<Vec<String>>) -> (r: bool)
        ensures
            r == dyn_has_version(dynamic_view(*dynamic)),
    {
        let list = match dynamic {
            Some(d) => d,
            None => {
                return false;
            },
        };
        let marker = str_chars("version");
        let ghost dv = dynamic_view(*dynamic)->Some_0;
        let mut i: usize = 0;
        while i < list.len()
            invariant
                i <= list@.len(),
                dynamic_view(*dynamic) == Some(dv),
                dv.len() == list@.len(),
                forall|j: int| 0 <= j < dv.len() ==> dv[j] == #[trigger] list@[j]@,
                forall|j: int| 0 <= j < i ==> dv[j] != "version"@,
                marker@ == "version"@,
            decreases list.len() - i,
        {
            let c = str_chars(list[i].as_str());
            if text::chars_eq(&c, &marker) {
                proof {
                    assert(dv.len() == list@.len());
                    assert(dv[i as int] == list@[i as int]@);
                    assert(dv[i as int] == "version"@);
                    assert(Some(dv)->0 == dv);
                    assert(exists|j: int| 0 <= j < dv.len() && dv[j] == "version"@);
                }
                return true;
            }
            i = i + 1;
        }
        proof {
            if dyn_has_version(Some(dv)) {
                let w = choose|j: int| 0 <= j < dv.len() && dv[j] == "version"@;
                assert(dv[w] != "version"@);
            }
        }
        return false;
    }

    /// Reads one package from its setup.cfg, the fallback when no pyproject
    /// metadata resolves. `content` is the file's content, `None` when the
    /// file does not exist. The `[metadata]` name is required; the version
    /// defaults to `0.0.0`.
    pub fn resolve_setup_cfg(pkg_path: &str, content: Option<&str>) -> (r: Result<
        ResolvedPackage,
        ResolveError,
    >)
        ensures
            match r {
                Ok(p) => {
                    &&& content is Some
                    &&& spec_setup_cfg(content->0@).0 == Some(p.name@)
                    &&& match spec_setup_cfg(content->0@).1 {
                        Some(v) => p.version@ == v,
                        None => p.version@ == "0.0.0"@,
                    }
                    &&& p.path@ == pkg_path@
                    &&& p.private == false
                },
                Err(e) => match e {
                    ResolveError::FileOrDirNotFound { path } => {
                        &&& content is None
                        &&& path@ == pkg_path@ + "/setup.cfg"@
                    },
                    ResolveError::InvalidConfig { .. } => {
                        content is Some && spec_setup_cfg(content->0@).0 is None
                    },
                    _ => false,
                },
            },
    {
        let path = Self::setup_cfg_path(pkg_path);
        let text_in = match content {
            Some(t) => t,
            None => {
                return Err(ResolveError::FileOrDirNotFound { path });
            },
        };
        let (name_c, version_c) = Self::scan_setup_cfg(text_in);
        let name = match name_c {
            Some(n) => n,
            None => {
                return Err(
                    ResolveError::InvalidConfig {
                        path,
                        reason: String::from_str("package name not found in setup.cfg"),
                    },
                );
            },
        };
        let version = match version_c {
            Some(v) => v,
            None => String::from_str("0.0.0"),
        };
        Ok(ResolvedPackage { name, version, path: pkg_path.to_owned(), private: false })
    }

    /// Scans a setup.cfg text for its `[metadata]` name and version.
    #[verifier::loop_isolation(false)]
    fn scan_setup_cfg(content: &str) -> (r: (Option<String>, Option<String>))
        ensures
            ({
                let st = spec_setup_cfg(content@);
                &&& (match r.0 {
                    Some(n) => st.0 == Some(n@),
                    None => st.0 is None,
                })
                &&& (match r.1 {
                    Some(v) => st.1 == Some(v@),
                    None => st.1 is None,
                })
            }),
    {
        proof {
            reveal_strlit("[metadata]");
            reveal_strlit("name");
            reveal_strlit("version");
        }
        let v = str_chars(content);
        let lines = text::split_on(&v, '\n');
        let ghost lv = text::lines_view(lines@);
        let metadata_header = str_chars("[metadata]");
        let name_marker = str_chars("name");
        let version_marker = str_chars("version");
        let mut in_meta: bool = false;
        let mut name: Option<Vec<char>> = None;
        let mut version: Option<Vec<char>> = None;
        let ghost st0: (bool, Option<Seq<char>>, Option<Seq<char>>) = (false, None, None);
        let mut k: usize = 0;
        proof {
            assert(lv.skip(0) =~= lv);
        }
        while k < lines.len()
            invariant
                k <= lines@.len(),
                cfg_scan(lv, st0) == cfg_scan(
                    lv.skip(k as int),
                    (
                        in_meta,
                        match name {
                            Some(n) => Some(n@),
                            None => None::<Seq<char>>,
                        },
                        match version {
                            Some(n) => Some(n@),
                            None => None::<Seq<char>>,
                        },
                    ),
                ),
            decreases lines.len() - k,
        {
            proof {
                assert(lv.skip(k as int)[0] == lv[k as int]);
                assert(lv[k as int] == lines@[k as int]@);
                assert(lv.skip(k as int).drop_first() =~= lv.skip(k as int + 1));
            }
            let t = text::trim(&lines[k]);
            proof {
                assert(t@ == spec_trim(lv[k as int]));
            }
            if text::chars_eq(&t, &metadata_header) {
                in_meta = true;
            } else {
                if t.len() > 0 && t[0] == '[' {
                    in_meta = false;
                }
                if in_meta && text::starts_with_c(&t, &name_marker) {
                    proof {
                        assert(t@.subrange(4, t@.len() as int) =~= t@.skip(4));
                    }
                    let rest = text::trim(&text::subrange(&t, 4, t.len()));
                    if rest.len() > 0 && rest[0] == '=' {
                        proof {
                            assert(rest@.subrange(1, rest@.len() as int) =~= rest@.skip(1));
                        }
                        name = Some(text::trim(&text::subrange(&rest, 1, rest.len())));
                    }
                } else if in_meta && text::starts_with_c(&t, &version_marker) {
                    proof {
                        assert(t@.subrange(7, t@.len() as int) =~= t@.skip(7));
                    }
                    let rest = text::trim(&text::subrange(&t, 7, t.len()));
                    if rest.len() > 0 && rest[0] == '=' {
                        proof {
                            assert(rest@.subrange(1, rest@.len() as int) =~= rest@.skip(1));
                        }
                        version = Some(text::trim(&text::subrange(&rest, 1, rest.len())));
                    }
                }
            }
            k = k + 1;
        }
        proof {
            assert(lv.skip(lv.len() as int) =~= Seq::<Seq<char>>::empty());
        }
        (
            match name {
                Some(n) => Some(chars_string(&n)),
                None => None,
            },
            match version {
                Some(n) => Some(chars_string(&n)),
                None => None,
            },
        )
    }
}

/// The characters that end the package-name part of a PEP 508 dependency
/// string.
pub open spec fn dep_sep(c: char) -> bool {
    c == '>' || c == '<' || c == '=' || c == '~' || c == '!'
}

/// Index of the first version-constraint character at or after `from`, or
/// the end of the string.
pub open spec fn dep_end(d: Seq<char>, from: int) -> int
    decreases d.len() - from,
{
    if from < 0 || from >= d.len() || dep_sep(d[from]) {
        from
    } else {
        dep_end(d, from + 1)
    }
}

/// The bare package name of a dependency string: everything before its
/// first version-constraint character, trimmed.
pub open spec fn dep_base(d: Seq<char>) -> Seq<char> {
    spec_trim(d.take(dep_end(d, 0)))
}

/// The Poetry dependency names that count for sequencing: every key but
/// `python`.
pub open spec fn poetry_dep_names(ks: Seq<Seq<char>>) -> Seq<Seq<char>>
    decreases ks.len(),
{
    if ks.len() == 0 {
        Seq::empty()
    } else if ks[0] == "python"@ {
        poetry_dep_names(ks.drop_first())
    } else {
        seq![ks[0]] + poetry_dep_names(ks.drop_first())
    }
}

/// The bare name of one dependency string.
fn dep_base_c(d: &Vec<char>) -> (r: Vec<char>)
    ensures
        r@ == dep_base(d@),
{
    let mut e: usize = 0;
    proof {
        assert(dep_end(d@, 0) == dep_end(d@, 0));
    }
    while e < d.len() && !(d[e] == '>' || d[e] == '<' || d[e] == '=' || d[e] == '~' || d[e] == '!')
        invariant
            e <= d@.len(),
            dep_end(d@, 0) == dep_end(d@, e as int),
        decreases d.len() - e,
    {
        e = e + 1;
    }
    proof {
        assert(dep_end(d@, e as int) == e as int);
        assert(d@.subrange(0, e as int) =~= d@.take(e as int));
    }
    text::trim(&text::subrange(d, 0, e))
}

impl PythonResolver {
    /// The dependency names a pyproject declares, for the sequencer: the
    /// bare names of the PEP 621 dependency strings, then the Poetry
    /// dependency keys (the `python` key aside). `pyproject` is the manifest
    /// content, `None` when the file does not exist (no dependencies then).
    /// Fails with a parse error when the manifest is not TOML.
    #[verifier::loop_isolation(false)]
    pub fn parse_dependencies(pyproject: Option<&str>) -> (r: Result<Vec<String>, ResolveError>)
        ensures
            match r {
                Ok(ds) => match pyproject {
                    Some(t) => {
                        &&& pyproject_deps_of(t@) matches Some(dl)
                        &&& ds@.map_values(|s: String| s@) == (match dl {
                            Some(deps) => deps.map_values(|d: Seq<char>| dep_base(d)),
                            None => Seq::<Seq<char>>::empty(),
                        }) + poetry_dep_names(poetry_deps_of(t@))
                    },
                    None => ds@.len() == 0,
                },
                Err(e) => {
                    &&& pyproject is Some
                    &&& pyproject_deps_of(pyproject->0@) is None
                    &&& e matches ResolveError::ParseError { .. }
                },
            },
    {
        let text_in = match pyproject {
            Some(t) => t,
            None => {
                return Ok(Vec::new());
            },
        };
        let (parsed, dep_list) = read_pyproject_dep_list(text_in);
        if !parsed {
            return Err(
                ResolveError::ParseError {
                    path: String::from_str("pyproject.toml"),
                    reason: String::from_str("not a valid TOML manifest"),
                },
            );
        }
        let poetry_deps = read_poetry_deps(text_in);
        let mut out: Vec<String> = Vec::new();
        let ghost deps_v: Seq<Seq<char>> = match &dep_list {
            Some(d) => d@.map_values(|s: String| s@),
            None => Seq::empty(),
        };
        match &dep_list {
            Some(deps) => {
                let mut i: usize = 0;
                while i < deps.len()
                    invariant
                        i <= deps@.len(),
                        deps_v == deps@.map_values(|s: String| s@),
                        out@.map_values(|s: String| s@) == deps_v.map_values(
                            |d: Seq<char>| dep_base(d),
                        ).take(i as int),
                    decreases deps.len() - i,
                {
                    let dc = str_chars(deps[i].as_str());
                    let base = dep_base_c(&dc);
                    out.push(chars_string(&base));
                    proof {
                        assert(out@.map_values(|s: String| s@) =~= deps_v.map_values(
                            |d: Seq<char>| dep_base(d),
                        ).take(i as int + 1));
                    }
                    i = i + 1;
                }
                proof {
                    assert(deps_v.map_values(|d: Seq<char>| dep_base(d)).take(deps_v.len() as int)
                        =~= deps_v.map_values(|d: Seq<char>| dep_base(d)));
                }
            },
            None => {
                proof {
                    assert(out@.map_values(|s: String| s@) =~= deps_v.map_values(
                        |d: Seq<char>| dep_base(d),
                    ));
                }
            },
        }
        let ghost base_len = out@.map_values(|s: String| s@);
        let ghost kv = poetry_deps@.map_values(|s: String| s@);
        let python_marker = str_chars("python");
        let mut k: usize = 0;
        proof {
            assert(kv.skip(0) =~= kv);
            assert(kv == poetry_deps_of(text_in@));
        }
        while k < poetry_deps.len()
            invariant
                k <= poetry_deps@.len(),
                kv == poetry_deps@.map_values(|s: String| s@),
                kv == poetry_deps_of(text_in@),
                python_marker@ == "python"@,
                out@.map_values(|s: String| s@) + poetry_dep_names(kv.skip(k as int)) == base_len
                    + poetry_dep_names(kv),
            decreases poetry_deps.len() - k,
        {
            proof {
                assert(kv.skip(k as int)[0] == kv[k as int]);
                assert(kv[k as int] == poetry_deps@[k as int]@);
                assert(kv.skip(k as int).drop_first() =~= kv.skip(k as int + 1));
            }
            let ghost prev = out@.map_values(|s: String| s@);
            let cc = str_chars(poetry_deps[k].as_str());
            if !text::chars_eq(&cc, &python_marker) {
                out.push(poetry_deps[k].clone());
                proof {
                    assert(out@.map_values(|s: String| s@) =~= prev.push(kv[k as int]));
                    assert(prev.push(kv[k as int]) + poetry_dep_names(kv.skip(k as int + 1)) =~= prev
                        + (seq![kv[k as int]] + poetry_dep_names(kv.skip(k as int + 1))));
                }
            }
            k = k + 1;
        }
        proof {
            assert(kv.skip(kv.len() as int) =~= Seq::<Seq<char>>::empty());
            assert(poetry_dep_names(Seq::<Seq<char>>::empty()) == Seq::<Seq<char>>::empty());
            assert(out@.map_values(|s: String| s@) + Seq::<Seq<char>>::empty() =~= out@.map_values(
                |s: String| s@,
            ));
        }
        Ok(out)
    }

    /// Rewrites the pyproject's `project.version` and `tool.poetry.version`
    /// fields, preserving all other content and formatting. Returns the
    /// rewritten manifest text. Fails with a parse error when the manifest
    /// cannot be decoded.
    pub fn bump_pyproject(manifest: &str, new_version: &str) -> (r: Result<String, ResolveError>)
        ensures
            match r {
                Ok(s) => pyproject_with_version(manifest@, new_version@) == Some(s@),
                Err(e) => {
                    &&& pyproject_with_version(manifest@, new_version@) is None
                    &&& e matches ResolveError::ParseError { .. }
                },
            },
    {
        match set_pyproject_version(manifest, new_version) {
            Some(s) => Ok(s),
            None => Err(
                ResolveError::ParseError {
                    path: String::from_str("pyproject.toml"),
                    reason: String::from_str("not a valid TOML manifest"),
                },
            ),
        }
    }

    /// Rewrites a setup.cfg's version assignment: every line whose trimmed
    /// text starts with `version` becomes the new assignment, all others
    /// stay, joined back line by line.
    #[verifier::loop_isolation(false)]
    pub fn bump_setup_cfg(content: &str, new_version: &str) -> (r: String)
        ensures
            r@ == text::join_lines(
                text::std_lines(content@).map_values(|l: Seq<char>| setup_line_out(l, new_version@)),
            ),
    {
        proof {
            reveal_strlit("version");
        }
        let v = str_chars(content);
        let lines = text::split_std_lines(&v);
        let ghost lv = text::lines_view(lines@);
        let ghost mapped = lv.map_values(|l: Seq<char>| setup_line_out(l, new_version@));
        let version_marker = str_chars("version");
        let mut out: Vec<char> = Vec::new();
        let mut k: usize = 0;
        while k < lines.len()
            invariant
                k <= lines@.len(),
                k == 0 ==> out@ == text::join_lines(mapped.take(0)),
                k > 0 ==> out@ == text::join_lines(mapped.take(k as int)),
            decreases lines.len() - k,
        {
            proof {
                assert(lv[k as int] == lines@[k as int]@);
                assert(mapped[k as int] == setup_line_out(lv[k as int], new_version@));
            }
            if k > 0 {
                out.push('\n');
            }
            let t = text::trim(&lines[k]);
            if text::starts_with_c(&t, &version_marker) {
                let mut piece = str_chars("version = ");
                out.append(&mut piece);
                let mut nv = str_chars(new_version);
                out.append(&mut nv);
            } else {
                let mut lc = text::subrange(&lines[k], 0, lines[k].len());
                out.append(&mut lc);
            }
            proof {
                if k == 0 {
                    assert(mapped.take(1) =~= seq![mapped[0]]);
                    assert(text::join_lines(seq![mapped[0]]) == mapped[0]);
                    assert(out@ =~= text::join_lines(mapped.take(1)));
                } else {
                    text::lemma_join_lines_snoc(mapped.take(k as int), mapped[k as int]);
                    assert(mapped.take(k as int).push(mapped[k as int]) =~= mapped.take(
                        k as int + 1,
                    ));
                    assert(out@ =~= text::join_lines(mapped.take(k as int + 1)));
                }
            }
            k = k + 1;
        }
        proof {
            assert(mapped.take(mapped.len() as int) =~= mapped);
            if lines@.len() == 0 {
                assert(mapped =~= Seq::<Seq<char>>::empty());
                assert(out@ =~= text::join_lines(mapped));
            }
        }
        chars_string(&out)
    }

    /// Rewrites the static `__version__` assignments of an `__init__.py`:
    /// every static quoted assignment becomes `__version__ = "<version>"`,
    /// dynamic retrievals and everything else stay. Returns the rewritten
    /// content (newline-terminated lines) and whether anything was
    /// rewritten.
    #[verifier::loop_isolation(false)]
    #[verifier::rlimit(100)]
    pub fn update_init_version(content: &str, new_version: &str) -> (r: (String, bool))
        ensures
            r.0@ == crate::changelog::join_nl(
                text::std_lines(content@).map_values(|l: Seq<char>| init_line_out(l, new_version@)),
            ),
            r.1 == exists|i: int|
                0 <= i < text::std_lines(content@).len() && init_line_updatable(
                    #[trigger] text::std_lines(content@)[i],
                ),
    {
        let v = str_chars(content);
        let lines = text::split_std_lines(&v);
        let ghost lv = text::lines_view(lines@);
        let ghost mapped = lv.map_values(|l: Seq<char>| init_line_out(l, new_version@));
        let mut out: Vec<char> = Vec::new();
        let mut updated = false;
        let mut k: usize = 0;
        proof {
            reveal_strlit("\"");
            assert(mapped.take(0) =~= Seq::<Seq<char>>::empty());
            assert(crate::changelog::join_nl(Seq::<Seq<char>>::empty()) == Seq::<char>::empty());
        }
        while k < lines.len()
            invariant
                k <= lines@.len(),
                out@ == crate::changelog::join_nl(mapped.take(k as int)),
                updated == exists|i: int| 0 <= i < k && init_line_updatable(#[trigger] lv[i]),
            decreases lines.len() - k,
        {
            proof {
                assert(lv[k as int] == lines@[k as int]@);
                assert(mapped[k as int] == init_line_out(lv[k as int], new_version@));
            }
            if init_line_updatable_c(&lines[k]) {
                let mut piece = str_chars("__version__ = \"");
                out.append(&mut piece);
                let mut nv = str_chars(new_version);
                out.append(&mut nv);
                out.push('"');
                updated = true;
                proof {
                    assert(init_line_updatable(lv[k as int]));
                    assert(exists|i: int|
                        0 <= i < k + 1 && init_line_updatable(#[trigger] lv[i]));
                }
            } else {
                let mut lc = text::subrange(&lines[k], 0, lines[k].len());
                out.append(&mut lc);
                proof {
                    if exists|i: int| 0 <= i < k + 1 && init_line_updatable(#[trigger] lv[i]) {
                        if !updated {
                            let w = choose|i: int|
                                0 <= i < k + 1 && init_line_updatable(#[trigger] lv[i]);
                            assert(w == k || (0 <= w < k && init_line_updatable(lv[w])));
                        }
                    }
                }
            }
            out.push('\n');
            proof {
                crate::changelog::lemma_join_nl_push(mapped.take(k as int), mapped[k as int]);
                assert(mapped.take(k as int).push(mapped[k as int]) =~= mapped.take(k as int + 1));
                assert(out@ =~= crate::changelog::join_nl(mapped.take(k as int + 1)));
            }
            k = k + 1;
        }
        proof {
            assert(mapped.take(mapped.len() as int) =~= mapped);
        }
        (chars_string(&out), updated)
    }
}

/// The view of an optional string list.
pub open spec fn dynamic_view(d: Option<Vec<String>>) -> Option<Seq<Seq<char>>> {
    match d {
        Some(l) => Some(l@.map_values(|s: String| s@)),
        None => None,
    }
}

/// True when a `dynamic` field list mentions `version`.
pub open spec fn dyn_has_version(d: Option<Seq<Seq<char>>>) -> bool {
    match d {
        Some(l) => exists|i: int| 0 <= i < l.len() && l[i] == "version"@,
        None => false,
    }
}

} // verus!
