//! The changeset store: the pending-change record and its file format.
//!
//! A changeset file is a mapping front matter (one `name: level[:tag]` line
//! per affected package), a separator line `---`, and a free-text summary.
//! The parser splits at the *last* occurrence of the separator, since the
//! front matter itself may legally mention the token.

use vstd::prelude::*;

use crate::error::ResolveError;
use crate::text;
use crate::text::{
    chars_string, first_char_pos, has_char, is_space, spec_split, spec_trim, str_chars,
};

verus! {

/// Version-impact severity of one change, totally ordered by `ordinal`:
/// `Unchanged < Patch < Minor < Major`.
#[derive(Clone, Copy, Debug, PartialEq, Eq, Structural)]
pub enum BumpLevel {
    Major,
    Minor,
    Patch,
    Unchanged,
}

impl BumpLevel {
    /// Position of this level in the severity order.
    pub open spec fn ordinal(self) -> int {
        match self {
            BumpLevel::Unchanged => 0,
            BumpLevel::Patch => 1,
            BumpLevel::Minor => 2,
            BumpLevel::Major => 3,
        }
    }

    /// The more severe of `self` and `other`.
    pub fn max_with(self, other: BumpLevel) -> (r: BumpLevel)
        ensures
            r.ordinal() == if self.ordinal() >= other.ordinal() {
                self.ordinal()
            } else {
                other.ordinal()
            },
            r == self || r == other,
    {
        if self.ordinal_exec() >= other.ordinal_exec() {
            self
        } else {
            other
        }
    }

    /// Exec counterpart of `ordinal`.
    pub fn ordinal_exec(self) -> (r: u32)
        ensures
            r as int == self.ordinal(),
    {
        match self {
            BumpLevel::Unchanged => 0,
            BumpLevel::Patch => 1,
            BumpLevel::Minor => 2,
            BumpLevel::Major => 3,
        }
    }

    /// The level's lowercase token, as written in changeset files.
    pub fn token_chars(self) -> (r: Vec<char>)
        ensures
            r@ == level_token(self),
    {
        let mut r: Vec<char> = Vec::new();
        match self {
            BumpLevel::Major => {
                r.push('m');
                r.push('a');
                r.push('j');
                r.push('o');
                r.push('r');
            },
            BumpLevel::Minor => {
                r.push('m');
                r.push('i');
                r.push('n');
                r.push('o');
                r.push('r');
            },
            BumpLevel::Patch => {
                r.push('p');
                r.push('a');
                r.push('t');
                r.push('c');
                r.push('h');
            },
            BumpLevel::Unchanged => {
                r.push('u');
                r.push('n');
                r.push('c');
                r.push('h');
                r.push('a');
                r.push('n');
                r.push('g');
                r.push('e');
                r.push('d');
            },
        }
        proof {
            assert(r@ =~= level_token(self));
        }
        r
    }

    /// The level's lowercase token as a `String`.
    pub fn token(self) -> (r: String)
        ensures
            r@ == level_token(self),
    {
        chars_string(&self.token_chars())
    }
}

/// Token each level writes into a changeset file.
pub open spec fn level_token(l: BumpLevel) -> Seq<char> {
    match l {
        BumpLevel::Major => seq!['m', 'a', 'j', 'o', 'r'],
        BumpLevel::Minor => seq!['m', 'i', 'n', 'o', 'r'],
        BumpLevel::Patch => seq!['p', 'a', 't', 'c', 'h'],
        BumpLevel::Unchanged => seq!['u', 'n', 'c', 'h', 'a', 'n', 'g', 'e', 'd'],
    }
}

/// The level a front-matter token denotes; `Unchanged` is not written by
/// authors and is deliberately not a recognized token.
pub open spec fn level_of_token(t: Seq<char>) -> Option<BumpLevel> {
    if t == level_token(BumpLevel::Major) {
        Some(BumpLevel::Major)
    } else if t == level_token(BumpLevel::Minor) {
        Some(BumpLevel::Minor)
    } else if t == level_token(BumpLevel::Patch) {
        Some(BumpLevel::Patch)
    } else {
        None
    }
}

/// One package affected by a changeset: the package name, the requested bump
/// level, and an optional category tag used for changelog grouping only.
#[derive(Debug, Clone)]
pub struct ChangePackage {
    pub name: String,
    pub level: BumpLevel,
    pub tag: Option<String>,
}

/// Mathematical image of a `ChangePackage`.
pub struct ChangePackageV {
    pub name: Seq<char>,
    pub level: BumpLevel,
    pub tag: Option<Seq<char>>,
}

impl View for ChangePackage {
    type V = ChangePackageV;

    open spec fn view(&self) -> ChangePackageV {
        ChangePackageV {
            name: self.name@,
            level: self.level,
            tag: match self.tag {
                Some(t) => Some(t@),
                None => None,
            },
        }
    }
}

/// One pending-change record: affected packages, a summary, and where the
/// record lives on disk (`path` is `None` for in-memory drafts).
#[derive(Debug, Clone)]
pub struct Changeset {
    pub name: String,
    pub packages: Vec<ChangePackage>,
    pub summary: String,
    pub root_path: String,
    pub path: Option<String>,
}

/// Mathematical image of a `Changeset`.
pub struct ChangesetV {
    pub name: Seq<char>,
    pub packages: Seq<ChangePackageV>,
    pub summary: Seq<char>,
    pub root_path: Seq<char>,
    pub path: Option<Seq<char>>,
}

impl View for Changeset {
    type V = ChangesetV;

    open spec fn view(&self) -> ChangesetV {
        ChangesetV {
            name: self.name@,
            packages: self.packages@.map_values(|p: ChangePackage| p@),
            summary: self.summary@,
            root_path: self.root_path@,
            path: match self.path {
                Some(p) => Some(p@),
                None => None,
            },
        }
    }
}

/// The separator token.
pub open spec fn dash3() -> Seq<char> {
    seq!['-', '-', '-']
}

/// The front-matter line of one package entry: `name: level[:tag]`.
pub open spec fn entry_line(p: ChangePackageV) -> Seq<char> {
    p.name + seq![':', ' '] + level_token(p.level) + match p.tag {
        Some(t) => seq![':'] + t,
        None => Seq::empty(),
    }
}

/// The newline-terminated front-matter lines of a package list.
pub open spec fn front_matter(ps: Seq<ChangePackageV>) -> Seq<char>
    decreases ps.len(),
{
    if ps.len() == 0 {
        Seq::empty()
    } else {
        entry_line(ps[0]) + seq!['\n'] + front_matter(ps.drop_first())
    }
}

/// The full rendered changeset file: front matter, separator, summary.
pub open spec fn rendered(ps: Seq<ChangePackageV>, summary: Seq<char>) -> Seq<char> {
    front_matter(ps) + dash3() + seq!['\n', '\n'] + summary + seq!['\n']
}

/// A package name the file format can carry: nonempty, no whitespace, no
/// colon.
pub open spec fn wf_name(n: Seq<char>) -> bool {
    n.len() > 0 && forall|i: int| 0 <= i < n.len() ==> !is_space(#[trigger] n[i]) && n[i] != ':'
}

/// A tag the file format can carry: no colon, no line break, already trimmed.
pub open spec fn wf_tag(t: Seq<char>) -> bool {
    &&& forall|i: int| 0 <= i < t.len() ==> #[trigger] t[i] != ':' && t[i] != '\n'
    &&& spec_trim(t) == t
}

/// A summary the file format can carry: already trimmed and free of the
/// separator token (the parser scans for the last separator occurrence, so a
/// separator inside the summary would shift the split point).
pub open spec fn wf_summary(s: Seq<char>) -> bool {
    spec_trim(s) == s && !text::has_match(s, dash3())
}

/// A package entry the file format can carry and re-read: `Unchanged` is
/// excluded because it is not a recognized front-matter token.
pub open spec fn wf_package(p: ChangePackageV) -> bool {
    &&& wf_name(p.name)
    &&& p.level != BumpLevel::Unchanged
    &&& match p.tag {
        Some(t) => wf_tag(t),
        None => true,
    }
}

/// A changeset whose rendered file re-reads to the same data.
pub open spec fn wf_format(ps: Seq<ChangePackageV>, summary: Seq<char>) -> bool {
    &&& forall|i: int| 0 <= i < ps.len() ==> wf_package(#[trigger] ps[i])
    &&& wf_summary(summary)
}

/// The views of a list of package names.
pub open spec fn names_view(known: Seq<String>) -> Seq<Seq<char>> {
    known.map_values(|s: String| s@)
}

/// True when `n` is one of the configured package names.
pub open spec fn known_name(known: Seq<Seq<char>>, n: Seq<char>) -> bool {
    exists|i: int| 0 <= i < known.len() && known[i] == n
}

/// What one trimmed, nonempty front-matter line denotes: the text before the
/// first colon (trimmed) names the package, the text after it (trimmed) is a
/// `level[:tag]` token. `None` when the line has no colon or the level token
/// is not recognized.
pub open spec fn spec_parse_entry(t: Seq<char>) -> Option<ChangePackageV> {
    if !has_char(t, ':') {
        None
    } else {
        let c = first_char_pos(t, ':');
        let name = spec_trim(t.subrange(0, c));
        let value = spec_trim(t.subrange(c + 1, t.len() as int));
        let tok = if has_char(value, ':') {
            value.subrange(0, first_char_pos(value, ':'))
        } else {
            value
        };
        let tag = if has_char(value, ':') {
            Some(value.subrange(first_char_pos(value, ':') + 1, value.len() as int))
        } else {
            None
        };
        match level_of_token(tok) {
            Some(l) => Some(ChangePackageV { name, level: l, tag }),
            None => None,
        }
    }
}

/// What the front-matter lines denote: blank lines are skipped, every other
/// line must be a valid entry naming a configured package.
pub open spec fn spec_parse_lines(lines: Seq<Seq<char>>, known: Seq<Seq<char>>) -> Option<
    Seq<ChangePackageV>,
>
    decreases lines.len(),
{
    if lines.len() == 0 {
        Some(Seq::empty())
    } else {
        let t = spec_trim(lines[0]);
        if t.len() == 0 {
            spec_parse_lines(lines.drop_first(), known)
        } else {
            match spec_parse_entry(t) {
                None => None,
                Some(p) => if !known_name(known, p.name) {
                    None
                } else {
                    match spec_parse_lines(lines.drop_first(), known) {
                        None => None,
                        Some(ps) => Some(seq![p] + ps),
                    }
                },
            }
        }
    }
}

/// What a changeset file's content denotes: the packages of the front matter
/// before the last separator occurrence, and the trimmed summary after it.
/// `None` when the separator is missing or the front matter is invalid.
pub open spec fn spec_parse_content(content: Seq<char>, known: Seq<Seq<char>>) -> Option<
    (Seq<ChangePackageV>, Seq<char>),
> {
    if !text::has_match(content, dash3()) {
        None
    } else {
        let i = text::last_match_pos(content, dash3());
        let left = content.subrange(0, i);
        let tail = content.subrange(i + 3, content.len() as int);
        match spec_parse_lines(spec_split(left, '\n'), known) {
            None => None,
            Some(ps) => Some((ps, spec_trim(tail))),
        }
    }
}

proof fn lemma_front_matter_push(ps: Seq<ChangePackageV>, p: ChangePackageV)
    ensures
        front_matter(ps.push(p)) == front_matter(ps) + entry_line(p) + seq!['\n'],
    decreases ps.len(),
{
    if ps.len() == 0 {
        assert(ps.push(p).drop_first() =~= Seq::<ChangePackageV>::empty());
        assert(front_matter(Seq::<ChangePackageV>::empty()) == Seq::<char>::empty());
        assert(ps.push(p)[0] == p);
        assert(front_matter(ps.push(p)) == entry_line(p) + seq!['\n'] + front_matter(
            Seq::<ChangePackageV>::empty(),
        ));
        assert(front_matter(ps.push(p)) =~= front_matter(ps) + entry_line(p) + seq!['\n']);
    } else {
        assert(ps.push(p).drop_first() =~= ps.drop_first().push(p));
        lemma_front_matter_push(ps.drop_first(), p);
        assert(ps.push(p)[0] == ps[0]);
        assert(front_matter(ps.push(p)) == entry_line(ps[0]) + seq!['\n'] + front_matter(
            ps.drop_first().push(p),
        ));
        assert(front_matter(ps.push(p)) =~= front_matter(ps) + entry_line(p) + seq!['\n']);
    }
}

proof fn lemma_token_facts(l: BumpLevel)
    requires
        l != BumpLevel::Unchanged,
    ensures
        level_token(l).len() > 0,
        forall|i: int|
            0 <= i < level_token(l).len() ==> !is_space(#[trigger] level_token(l)[i])
                && level_token(l)[i] != ':',
{
    let t = level_token(l);
    assert forall|i: int| 0 <= i < t.len() implies !is_space(#[trigger] t[i]) && t[i] != ':' by {
        match l {
            BumpLevel::Major => {
                if i == 0 {
                    assert(t[i] == 'm');
                } else if i == 1 {
                    assert(t[i] == 'a');
                } else if i == 2 {
                    assert(t[i] == 'j');
                } else if i == 3 {
                    assert(t[i] == 'o');
                } else {
                    assert(t[i] == 'r');
                }
            },
            BumpLevel::Minor => {
                if i == 0 {
                    assert(t[i] == 'm');
                } else if i == 1 {
                    assert(t[i] == 'i');
                } else if i == 2 {
                    assert(t[i] == 'n');
                } else if i == 3 {
                    assert(t[i] == 'o');
                } else {
                    assert(t[i] == 'r');
                }
            },
            BumpLevel::Patch => {
                if i == 0 {
                    assert(t[i] == 'p');
                } else if i == 1 {
                    assert(t[i] == 'a');
                } else if i == 2 {
                    assert(t[i] == 't');
                } else if i == 3 {
                    assert(t[i] == 'c');
                } else {
                    assert(t[i] == 'h');
                }
            },
            BumpLevel::Unchanged => {},
        }
    }
}

proof fn lemma_token_distinct()
    ensures
        level_of_token(level_token(BumpLevel::Major)) == Some(BumpLevel::Major),
        level_of_token(level_token(BumpLevel::Minor)) == Some(BumpLevel::Minor),
        level_of_token(level_token(BumpLevel::Patch)) == Some(BumpLevel::Patch),
{
    assert(level_token(BumpLevel::Major)[1] == 'a');
    assert(level_token(BumpLevel::Minor)[1] == 'i');
    assert(level_token(BumpLevel::Patch)[0] == 'p');
    assert(level_token(BumpLevel::Major)[0] == 'm');
    assert(level_token(BumpLevel::Minor)[0] == 'm');
    assert(level_token(BumpLevel::Minor) != level_token(BumpLevel::Major));
    assert(level_token(BumpLevel::Patch) != level_token(BumpLevel::Major));
    assert(level_token(BumpLevel::Patch) != level_token(BumpLevel::Minor));
}

proof fn lemma_entry_line_facts(p: ChangePackageV)
    requires
        wf_package(p),
    ensures
        entry_line(p).len() > 0,
        forall|i: int| 0 <= i < entry_line(p).len() ==> #[trigger] entry_line(p)[i] != '\n',
        !is_space(entry_line(p)[0]),
        !is_space(entry_line(p).last()),
{
    lemma_token_facts(p.level);
    let e = entry_line(p);
    let n = p.name.len() as int;
    let tok = level_token(p.level);
    let tl = tok.len() as int;
    assert forall|i: int| 0 <= i < e.len() implies #[trigger] e[i] != '\n' by {
        if i < n {
            assert(e[i] == p.name[i]);
            assert(!is_space(p.name[i]));
        } else if i == n {
            assert(e[i] == ':');
        } else if i == n + 1 {
            assert(e[i] == ' ');
        } else if i < n + 2 + tl {
            assert(e[i] == tok[i - n - 2]);
            assert(!is_space(tok[i - n - 2]));
        } else {
            match p.tag {
                Some(t) => {
                    if i == n + 2 + tl {
                        assert(e[i] == ':');
                    } else {
                        assert(e[i] == t[i - n - 3 - tl]);
                    }
                },
                None => {},
            }
        }
    }
    assert(e[0] == p.name[0]);
    match p.tag {
        Some(t) => {
            if t.len() > 0 {
                assert(e.last() == t.last());
                text::lemma_trimmed_ends(t);
            } else {
                assert(e.last() == ':');
            }
        },
        None => {
            assert(e.last() == tok.last());
        },
    }
}

#[verifier::rlimit(100)]
proof fn lemma_parse_entry_line(p: ChangePackageV)
    requires
        wf_package(p),
    ensures
        spec_trim(entry_line(p)) == entry_line(p),
        spec_parse_entry(entry_line(p)) == Some(p),
{
    lemma_token_facts(p.level);
    lemma_token_distinct();
    lemma_entry_line_facts(p);
    let e = entry_line(p);
    let n = p.name.len() as int;
    let tok = level_token(p.level);
    let tl = tok.len() as int;
    text::lemma_trim_exact(e, 0, e.len() as int);
    assert(spec_trim(e) =~= e);
    // The first colon of the line sits right after the package name.
    assert(e[n] == ':');
    assert forall|j: int| 0 <= j < n implies e[j] != ':' by {
        assert(e[j] == p.name[j]);
    }
    text::lemma_first_char_pos(e, ':', n);
    // The name part trims to the name itself.
    assert(e.subrange(0, n) =~= p.name);
    text::lemma_trim_exact(p.name, 0, n);
    assert(spec_trim(e.subrange(0, n)) =~= p.name);
    // The value part trims to `token[:tag]`.
    let raw_value = e.subrange(n + 1, e.len() as int);
    let tagpart = match p.tag {
        Some(t) => seq![':'] + t,
        None => Seq::<char>::empty(),
    };
    assert(raw_value =~= seq![' '] + tok + tagpart);
    assert(raw_value[0] == ' ');
    assert(raw_value[1] == tok[0]);
    assert(!is_space(raw_value[1]));
    assert(raw_value.last() == e.last());
    assert forall|j: int| 1 <= j < raw_value.len() implies !is_space(#[trigger] raw_value[j])
        || raw_value[j] == raw_value[j] by {}
    text::lemma_trim_exact(raw_value, 1, raw_value.len() as int);
    let value = spec_trim(raw_value);
    assert(value =~= tok + tagpart);
    // The value decomposes into the token and the optional tag.
    match p.tag {
        Some(t) => {
            assert(value[tl] == ':');
            assert forall|j: int| 0 <= j < tl implies value[j] != ':' by {
                assert(value[j] == tok[j]);
            }
            text::lemma_first_char_pos(value, ':', tl);
            assert(value.subrange(0, tl) =~= tok);
            assert(value.subrange(tl + 1, value.len() as int) =~= t);
        },
        None => {
            assert(value =~= tok);
            if has_char(value, ':') {
                let w = choose|i: int| 0 <= i < value.len() && value[i] == ':';
                assert(!is_space(tok[w]) && tok[w] != ':');
            }
        },
    }
}

#[verifier::rlimit(100)]
proof fn lemma_parse_lines_entries(ps: Seq<ChangePackageV>, known: Seq<Seq<char>>)
    requires
        forall|i: int| 0 <= i < ps.len() ==> wf_package(#[trigger] ps[i]),
    ensures
        spec_parse_lines(ps.map_values(|p: ChangePackageV| entry_line(p)) + seq![Seq::<char>::empty()], known)
            == if forall|i: int| 0 <= i < ps.len() ==> known_name(known, #[trigger] ps[i].name) {
                Some(ps)
            } else {
                None::<Seq<ChangePackageV>>
            },
    decreases ps.len(),
{
    let lines = ps.map_values(|p: ChangePackageV| entry_line(p)) + seq![Seq::<char>::empty()];
    if ps.len() == 0 {
        assert(lines.len() == 1);
        assert(lines[0] =~= Seq::<char>::empty());
        text::lemma_trim_all_space(lines[0]);
        assert(lines.drop_first() =~= Seq::<Seq<char>>::empty());
        assert(spec_parse_lines(lines, known) == Some(Seq::<ChangePackageV>::empty()));
        assert(ps =~= Seq::<ChangePackageV>::empty());
    } else {
        let p0 = ps[0];
        lemma_parse_entry_line(p0);
        assert(lines[0] == entry_line(p0));
        assert(spec_trim(lines[0]).len() > 0) by {
            lemma_entry_line_facts(p0);
        }
        assert(lines.drop_first() =~= ps.drop_first().map_values(
            |p: ChangePackageV| entry_line(p),
        ) + seq![Seq::<char>::empty()]);
        lemma_parse_lines_entries(ps.drop_first(), known);
        if !known_name(known, p0.name) {
            assert(spec_parse_lines(lines, known) is None);
            assert(!(forall|i: int|
                0 <= i < ps.len() ==> known_name(known, #[trigger] ps[i].name)));
        } else {
            if forall|i: int|
                0 <= i < ps.drop_first().len() ==> known_name(
                    known,
                    #[trigger] ps.drop_first()[i].name,
                ) {
                assert(spec_parse_lines(lines.drop_first(), known) == Some(ps.drop_first()));
                assert(seq![p0] + ps.drop_first() =~= ps);
                assert(spec_parse_lines(lines, known) == Some(ps));
                assert forall|i: int| 0 <= i < ps.len() implies known_name(
                    known,
                    #[trigger] ps[i].name,
                ) by {
                    if i > 0 {
                        assert(ps.drop_first()[i - 1] == ps[i]);
                        assert(known_name(known, ps.drop_first()[i - 1].name));
                    }
                }
            } else {
                assert(spec_parse_lines(lines.drop_first(), known) is None);
                assert(spec_parse_lines(lines, known) is None);
                let w = choose|i: int|
                    !(0 <= i < ps.drop_first().len() ==> known_name(
                        known,
                        ps.drop_first()[i].name,
                    ));
                assert(ps.drop_first()[w] == ps[w + 1]);
                assert(!(0 <= w + 1 < ps.len() ==> known_name(known, ps[w + 1].name)));
            }
        }
    }
}

proof fn lemma_rendered_sep(ps: Seq<ChangePackageV>, summary: Seq<char>)
    requires
        wf_format(ps, summary),
    ensures
        text::matches_at(rendered(ps, summary), dash3(), front_matter(ps).len() as int),
        forall|j: int|
            j > front_matter(ps).len() ==> !text::matches_at(rendered(ps, summary), dash3(), j),
{
    let r = rendered(ps, summary);
    let n = front_matter(ps).len() as int;
    let sl = summary.len() as int;
    assert(r.len() == n + 6 + sl);
    assert(r.subrange(n, n + 3) =~= dash3());
    assert(r[n + 3] == '\n');
    assert(r[n + 4] == '\n');
    assert(r[r.len() - 1] == '\n');
    assert forall|j: int| j > n implies !text::matches_at(r, dash3(), j) by {
        if text::matches_at(r, dash3(), j) {
            assert(r.subrange(j, j + 3) =~= dash3());
            assert(r[j] == '-' && r[j + 1] == '-' && r[j + 2] == '-') by {
                assert(r.subrange(j, j + 3)[0] == r[j]);
                assert(r.subrange(j, j + 3)[1] == r[j + 1]);
                assert(r.subrange(j, j + 3)[2] == r[j + 2]);
            }
            if j <= n + 2 {
                assert(r[n + 3] == '-');
            } else if j <= n + 4 {
                assert(r[j] == '\n');
            } else if j + 3 <= n + 5 + sl {
                assert(text::matches_at(summary, dash3(), j - n - 5)) by {
                    assert forall|k: int| 0 <= k < 3 implies summary.subrange(
                        j - n - 5,
                        j - n - 2,
                    )[k] == dash3()[k] by {
                        assert(summary[j - n - 5 + k] == r[j + k]);
                    }
                    assert(summary.subrange(j - n - 5, j - n - 2) =~= dash3());
                }
            } else {
                assert(j + 2 >= n + 5 + sl);
                assert(j + 2 == r.len() - 1);
                assert(r[j + 2] == '\n');
            }
        }
    }
}

/// Persist-then-reload round trip: the rendered file of a well-formed
/// changeset, all of whose packages are configured, reads back to exactly the
/// same packages (names, levels, tags) and the same summary. The
/// `wf_format` premise holds exactly the data the file format can carry at
/// all: a name with whitespace or a colon, a tag with a colon or a line
/// break, a summary holding the separator token, or an `Unchanged` level has
/// no faithful spelling in the format, so no round trip is possible for it.
/// The record's `name`, `root_path` and `path` fields round-trip by the
/// contracts of `commit` (which writes to `<root_path>/<name>.md`) and
/// `parse_file` (which re-derives them from that path).
proof fn lemma_rendered_parts(ps: Seq<ChangePackageV>, summary: Seq<char>)
    requires
        wf_format(ps, summary),
    ensures
        rendered(ps, summary).subrange(0, front_matter(ps).len() as int) == front_matter(ps),
        spec_trim(
            rendered(ps, summary).subrange(
                front_matter(ps).len() as int + 3,
                rendered(ps, summary).len() as int,
            ),
        ) == summary,
{
    let r = rendered(ps, summary);
    let n = front_matter(ps).len() as int;
    let sl = summary.len() as int;
    assert(r.subrange(0, n) =~= front_matter(ps));
    let tail = r.subrange(n + 3, r.len() as int);
    assert(tail =~= seq!['\n', '\n'] + summary + seq!['\n']);
    if sl == 0 {
        assert(forall|j: int| 0 <= j < tail.len() ==> is_space(#[trigger] tail[j])) by {
            assert(tail =~= seq!['\n', '\n', '\n']);
        }
        text::lemma_trim_all_space(tail);
        assert(spec_trim(tail) =~= summary);
    } else {
        text::lemma_trimmed_ends(summary);
        assert(tail[0] == '\n' && tail[1] == '\n');
        assert(tail[2] == summary[0]);
        assert(tail[2 + sl - 1] == summary[sl - 1]);
        assert(tail[tail.len() - 1] == '\n');
        text::lemma_trim_exact(tail, 2, 2 + sl);
        assert(spec_trim(tail) =~= summary);
    }
}

#[verifier::rlimit(100)]
pub proof fn lemma_changeset_round_trip(
    ps: Seq<ChangePackageV>,
    summary: Seq<char>,
    known: Seq<Seq<char>>,
)
    requires
        wf_format(ps, summary),
        forall|i: int| 0 <= i < ps.len() ==> known_name(known, #[trigger] ps[i].name),
    ensures
        spec_parse_content(rendered(ps, summary), known) == Some((ps, summary)),
{
    let r = rendered(ps, summary);
    let n = front_matter(ps).len() as int;
    lemma_rendered_sep(ps, summary);
    text::lemma_last_match_pos(r, dash3(), n);
    lemma_rendered_parts(ps, summary);
    lemma_split_front_matter(ps);
    lemma_parse_lines_entries(ps, known);
}

proof fn lemma_split_front_matter(ps: Seq<ChangePackageV>)
    requires
        forall|i: int| 0 <= i < ps.len() ==> wf_package(#[trigger] ps[i]),
    ensures
        spec_split(front_matter(ps), '\n') == ps.map_values(|p: ChangePackageV| entry_line(p))
            + seq![Seq::<char>::empty()],
    decreases ps.len(),
{
    if ps.len() == 0 {
        assert(front_matter(ps).len() == 0);
        assert(spec_split(front_matter(ps), '\n') =~~= ps.map_values(
            |p: ChangePackageV| entry_line(p),
        ) + seq![Seq::<char>::empty()]);
    } else {
        lemma_entry_line_facts(ps[0]);
        assert(forall|i: int|
            0 <= i < ps.drop_first().len() ==> wf_package(#[trigger] ps.drop_first()[i]));
        lemma_split_front_matter(ps.drop_first());
        assert(front_matter(ps) =~= entry_line(ps[0]) + seq!['\n'] + front_matter(
            ps.drop_first(),
        ));
        text::lemma_split_at_sep(entry_line(ps[0]), front_matter(ps.drop_first()), '\n');
        assert(spec_split(front_matter(ps), '\n') =~~= ps.map_values(
            |p: ChangePackageV| entry_line(p),
        ) + seq![Seq::<char>::empty()]);
    }
}

/// A changeset that names an unconfigured package never parses: its rendered
/// file is rejected as an invalid changeset.
pub proof fn lemma_changeset_unknown_package(
    ps: Seq<ChangePackageV>,
    summary: Seq<char>,
    known: Seq<Seq<char>>,
)
    requires
        wf_format(ps, summary),
        exists|i: int| 0 <= i < ps.len() && !known_name(known, #[trigger] ps[i].name),
    ensures
        spec_parse_content(rendered(ps, summary), known) is None,
{
    let r = rendered(ps, summary);
    let n = front_matter(ps).len() as int;
    lemma_rendered_sep(ps, summary);
    text::lemma_last_match_pos(r, dash3(), n);
    assert(r.subrange(0, n) =~= front_matter(ps));
    lemma_split_front_matter(ps);
    lemma_parse_lines_entries(ps, known);
    let w = choose|i: int| 0 <= i < ps.len() && !known_name(known, #[trigger] ps[i].name);
    assert(!(forall|i: int| 0 <= i < ps.len() ==> known_name(known, #[trigger] ps[i].name)));
}

/// A character a changeset file name may not carry.
pub open spec fn illegal_filename_char(c: char) -> bool {
    c == '<' || c == '>' || c == ':' || c == '"' || c == '/' || c == '\\' || c == '|' || c == ' '
}

/// The ASCII lowercase of a character; anything but an ASCII capital stays.
pub open spec fn lower_ascii(c: char) -> char {
    if c == 'A' {
        'a'
    } else if c == 'B' {
        'b'
    } else if c == 'C' {
        'c'
    } else if c == 'D' {
        'd'
    } else if c == 'E' {
        'e'
    } else if c == 'F' {
        'f'
    } else if c == 'G' {
        'g'
    } else if c == 'H' {
        'h'
    } else if c == 'I' {
        'i'
    } else if c == 'J' {
        'j'
    } else if c == 'K' {
        'k'
    } else if c == 'L' {
        'l'
    } else if c == 'M' {
        'm'
    } else if c == 'N' {
        'n'
    } else if c == 'O' {
        'o'
    } else if c == 'P' {
        'p'
    } else if c == 'Q' {
        'q'
    } else if c == 'R' {
        'r'
    } else if c == 'S' {
        's'
    } else if c == 'T' {
        't'
    } else if c == 'U' {
        'u'
    } else if c == 'V' {
        'v'
    } else if c == 'W' {
        'w'
    } else if c == 'X' {
        'x'
    } else if c == 'Y' {
        'y'
    } else if c == 'Z' {
        'z'
    } else {
        c
    }
}

/// How one character of a requested changeset name lands in the file name.
pub open spec fn sanitized_char(c: char) -> char {
    if illegal_filename_char(c) {
        '-'
    } else {
        lower_ascii(c)
    }
}

/// Exec counterpart of `lower_ascii`.
fn lower_ascii_c(c: char) -> (r: char)
    ensures
        r == lower_ascii(c),
{
    match c {
        'A' => 'a',
        'B' => 'b',
        'C' => 'c',
        'D' => 'd',
        'E' => 'e',
        'F' => 'f',
        'G' => 'g',
        'H' => 'h',
        'I' => 'i',
        'J' => 'j',
        'K' => 'k',
        'L' => 'l',
        'M' => 'm',
        'N' => 'n',
        'O' => 'o',
        'P' => 'p',
        'Q' => 'q',
        'R' => 'r',
        'S' => 's',
        'T' => 't',
        'U' => 'u',
        'V' => 'v',
        'W' => 'w',
        'X' => 'x',
        'Y' => 'y',
        'Z' => 'z',
        other => other,
    }
}

/// Turns a requested changeset name into a safe file name: characters a file
/// name may not carry become dashes, ASCII capitals become lowercase.
pub fn sanitize_filename(filename: &str) -> (r: String)
    ensures
        r@ == filename@.map_values(|c: char| sanitized_char(c)),
{
    let v = str_chars(filename);
    let mut out: Vec<char> = Vec::new();
    let mut i: usize = 0;
    while i < v.len()
        invariant
            i <= v@.len(),
            v@ == filename@,
            out@ == filename@.map_values(|c: char| sanitized_char(c)).take(i as int),
        decreases v.len() - i,
    {
        let c = v[i];
        if c == '<' || c == '>' || c == ':' || c == '"' || c == '/' || c == '\\' || c == '|' || c
            == ' ' {
            out.push('-');
        } else {
            out.push(lower_ascii_c(c));
        }
        proof {
            assert(out@ =~= filename@.map_values(|c: char| sanitized_char(c)).take(i as int + 1));
        }
        i = i + 1;
    }
    proof {
        assert(filename@.map_values(|c: char| sanitized_char(c)).take(filename@.len() as int)
            =~= filename@.map_values(|c: char| sanitized_char(c)));
    }
    chars_string(&out)
}

/// The bump level a front-matter token denotes.
pub fn level_from_token(tok: &Vec<char>) -> (r: Option<BumpLevel>)
    ensures
        r == level_of_token(tok@),
{
    let maj = BumpLevel::Major.token_chars();
    if text::chars_eq(tok, &maj) {
        return Some(BumpLevel::Major);
    }
    let min = BumpLevel::Minor.token_chars();
    if text::chars_eq(tok, &min) {
        return Some(BumpLevel::Minor);
    }
    let pat = BumpLevel::Patch.token_chars();
    if text::chars_eq(tok, &pat) {
        return Some(BumpLevel::Patch);
    }
    return None;
}

/// Whether `name` is one of the configured package names.
pub fn name_known(known: &Vec<String>, name: &Vec<char>) -> (r: bool)
    ensures
        r == known_name(names_view(known@), name@),
{
    let mut i: usize = 0;
    while i < known.len()
        invariant
            i <= known.len(),
            forall|j: int| 0 <= j < i ==> names_view(known@)[j] != name@,
        decreases known.len() - i,
    {
        let kc = str_chars(known[i].as_str());
        if text::chars_eq(&kc, name) {
            proof {
                assert(names_view(known@)[i as int] == name@);
            }
            return true;
        }
        i = i + 1;
    }
    proof {
        if known_name(names_view(known@), name@) {
            let w = choose|j: int|
                0 <= j < names_view(known@).len() && names_view(known@)[j] == name@;
            assert(names_view(known@)[w] != name@);
        }
    }
    return false;
}

/// Parses one trimmed, nonempty front-matter line into a package entry. The
/// error text names what the line got wrong.
pub fn parse_entry(t: &Vec<char>) -> (r: Result<ChangePackage, String>)
    ensures
        match r {
            Ok(p) => spec_parse_entry(t@) == Some(p@),
            Err(_) => spec_parse_entry(t@) is None,
        },
{
    let c = match text::find_char(t, ':') {
        Some(c) => c,
        None => {
            let mut reason = str_chars("not a `name: level[:tag]` entry: ");
            let mut line = text::subrange(t, 0, t.len());
            reason.append(&mut line);
            return Err(chars_string(&reason));
        },
    };
    let name = text::trim(&text::subrange(t, 0, c));
    let value = text::trim(&text::subrange(t, c + 1, t.len()));
    let (tok, tag_chars): (Vec<char>, Option<Vec<char>>) = match text::find_char(&value, ':') {
        Some(c2) => (
            text::subrange(&value, 0, c2),
            Some(text::subrange(&value, c2 + 1, value.len())),
        ),
        None => (value, None),
    };
    match level_from_token(&tok) {
        Some(l) => {
            let p = ChangePackage {
                name: chars_string(&name),
                level: l,
                tag: match tag_chars {
                    Some(tc) => Some(chars_string(&tc)),
                    None => None,
                },
            };
            Ok(p)
        },
        None => {
            let mut reason = str_chars("invalid bump level: ");
            let mut tc = text::subrange(&tok, 0, tok.len());
            reason.append(&mut tc);
            Err(chars_string(&reason))
        },
    }
}

impl Changeset {
    /// Reads a changeset back from the content of its file.
    ///
    /// The separator is the *last* occurrence of `---` in the content; the
    /// front matter before it maps package names to `level[:tag]` tokens, and
    /// the trimmed text after it is the summary. The changeset's `name` is
    /// the file's base name without its extension, and its `root_path` is the
    /// file's directory. Fails with an invalid-changeset error, carrying the
    /// file path, when the separator is missing, a line is not a recognized
    /// mapping entry, or a named package is not configured.
    #[verifier::rlimit(60)]
    #[verifier::loop_isolation(false)]
    pub fn parse_file(path: &str, content: &str, known: &Vec<String>) -> (r: Result<
        Changeset,
        ResolveError,
    >)
        ensures
            match r {
                Ok(cs) => {
                    &&& spec_parse_content(content@, names_view(known@)) == Some(
                        (cs@.packages, cs@.summary),
                    )
                    &&& cs@.name == text::stem_of(path@)
                    &&& cs@.root_path == text::parent_of(path@)
                    &&& cs@.path == Some(path@)
                },
                Err(e) => {
                    &&& spec_parse_content(content@, names_view(known@)) is None
                    &&& match e {
                        ResolveError::InvalidChangeset { path: p, reason: _ } => p@ == path@,
                        _ => false,
                    }
                },
            },
    {
        let ghost kv = names_view(known@);
        let v = str_chars(content);
        let mut sepv: Vec<char> = Vec::new();
        sepv.push('-');
        sepv.push('-');
        sepv.push('-');
        proof {
            assert(sepv@ =~= dash3());
        }
        let sep = match text::rfind(&v, &sepv) {
            Some(i) => i,
            None => {
                return Err(
                    ResolveError::InvalidChangeset {
                        path: path.to_owned(),
                        reason: String::from_str("missing `---` separator"),
                    },
                );
            },
        };
        proof {
            text::lemma_last_match_pos(v@, dash3(), sep as int);
        }
        let left = text::subrange(&v, 0, sep);
        let tail = text::subrange(&v, sep + 3, v.len());
        let summary_chars = text::trim(&tail);
        let lines = text::split_on(&left, '\n');
        let ghost lv = text::lines_view(lines@);
        proof {
            assert(spec_parse_content(v@, kv) == (match spec_parse_lines(
                spec_split(left@, '\n'),
                kv,
            ) {
                None => None::<(Seq<ChangePackageV>, Seq<char>)>,
                Some(ps) => Some((ps, spec_trim(tail@))),
            }));
        }
        let mut packages: Vec<ChangePackage> = Vec::new();
        let mut k: usize = 0;
        proof {
            assert(lv.skip(0) =~= lv);
            assert(packages@.map_values(|p: ChangePackage| p@) =~= Seq::<ChangePackageV>::empty());
        }
        while k < lines.len()
            invariant
                k <= lines.len(),
                lv == text::lines_view(lines@),
                kv == names_view(known@),
                spec_parse_lines(lv, kv) == (match spec_parse_lines(lv.skip(k as int), kv) {
                    Some(tailps) => Some(packages@.map_values(|p: ChangePackage| p@) + tailps),
                    None => None::<Seq<ChangePackageV>>,
                }),
            decreases lines.len() - k,
        {
            proof {
                assert(lv.skip(k as int)[0] == lv[k as int]);
                assert(lv.skip(k as int).drop_first() =~= lv.skip(k as int + 1));
                assert(lv[k as int] == lines@[k as int]@);
            }
            let t = text::trim(&lines[k]);
            if t.len() == 0 {
                proof {
                    assert(spec_parse_lines(lv.skip(k as int), kv) == spec_parse_lines(
                        lv.skip(k as int + 1),
                        kv,
                    ));
                }
            } else {
                let p = match parse_entry(&t) {
                    Ok(p) => p,
                    Err(reason) => {
                        proof {
                            assert(spec_parse_lines(lv.skip(k as int), kv) is None);
                        }
                        return Err(
                            ResolveError::InvalidChangeset { path: path.to_owned(), reason },
                        );
                    },
                };
                let name_chars = str_chars(p.name.as_str());
                if !name_known(known, &name_chars) {
                    proof {
                        assert(spec_parse_lines(lv.skip(k as int), kv) is None);
                    }
                    let mut reason = str_chars("package ");
                    let mut nc = text::subrange(&name_chars, 0, name_chars.len());
                    reason.append(&mut nc);
                    let mut tail_r = str_chars(" is not defined in config");
                    reason.append(&mut tail_r);
                    return Err(
                        ResolveError::InvalidChangeset {
                            path: path.to_owned(),
                            reason: chars_string(&reason),
                        },
                    );
                }
                let ghost prev = packages@.map_values(|p: ChangePackage| p@);
                packages.push(p);
                proof {
                    assert(packages@.map_values(|p: ChangePackage| p@) =~= prev.push(
                        packages@.last()@,
                    ));
                    if spec_parse_lines(lv.skip(k as int + 1), kv) is Some {
                        let tailps = spec_parse_lines(lv.skip(k as int + 1), kv)->Some_0;
                        assert(spec_parse_lines(lv.skip(k as int), kv) == Some(
                            seq![packages@.last()@] + tailps,
                        ));
                        assert(prev.push(packages@.last()@) + tailps =~= prev + (seq![
                            packages@.last()@,
                        ] + tailps));
                    } else {
                        assert(spec_parse_lines(lv.skip(k as int), kv) is None);
                    }
                }
            }
            k = k + 1;
        }
        proof {
            assert(lv.skip(lines@.len() as int) =~= Seq::<Seq<char>>::empty());
            assert(spec_parse_lines(Seq::<Seq<char>>::empty(), kv) == Some(
                Seq::<ChangePackageV>::empty(),
            ));
            assert(packages@.map_values(|p: ChangePackage| p@) + Seq::<ChangePackageV>::empty()
                =~= packages@.map_values(|p: ChangePackage| p@));
        }
        // Derive the changeset name and root directory from the file path.
        let pv = str_chars(path);
        let (base, parent): (Vec<char>, Vec<char>) = match text::rfind_char(&pv, '/') {
            Some(i) => {
                let n = pv.len();
                proof {
                    assert(i < n);
                }
                (text::subrange(&pv, i + 1, n), text::subrange(&pv, 0, i))
            },
            None => (pv, Vec::new()),
        };
        proof {
            assert(base@ == text::base_name(path@));
            assert(parent@ == text::parent_of(path@));
        }
        let stem = match text::rfind_char(&base, '.') {
            Some(j) => text::subrange(&base, 0, j),
            None => base,
        };
        proof {
            assert(stem@ == text::stem_of(path@));
        }
        Ok(
            Changeset {
                name: chars_string(&stem),
                packages,
                summary: chars_string(&summary_chars),
                root_path: chars_string(&parent),
                path: Some(path.to_owned()),
            },
        )
    }

    /// A fresh in-memory changeset with no packages and an empty summary.
    pub fn new(name: String, root_path: &str) -> (r: Changeset)
        ensures
            r@.name == name@,
            r@.packages.len() == 0,
            r@.summary.len() == 0,
            r@.root_path == root_path@,
            r@.path is None,
    {
        Changeset {
            name,
            packages: Vec::new(),
            summary: String::new(),
            root_path: root_path.to_owned(),
            path: None,
        }
    }

    /// Records one affected package.
    pub fn add_package(&mut self, name: String, level: BumpLevel, tag: Option<String>)
        ensures
            final(self)@.packages == old(self)@.packages.push(
                ChangePackageV {
                    name: name@,
                    level,
                    tag: match tag {
                        Some(t) => Some(t@),
                        None => None,
                    },
                },
            ),
            final(self)@.name == old(self)@.name,
            final(self)@.summary == old(self)@.summary,
            final(self)@.root_path == old(self)@.root_path,
            final(self)@.path == old(self)@.path,
    {
        let ghost prev = self.packages@.map_values(|p: ChangePackage| p@);
        self.packages.push(ChangePackage { name, level, tag });
        proof {
            assert(self.packages@.map_values(|p: ChangePackage| p@) =~= prev.push(
                self.packages@.last()@,
            ));
        }
    }

    /// Records every listed package, all at the same level and tag.
    pub fn add_packages(&mut self, packages: &Vec<String>, level: BumpLevel, tag: Option<String>)
        ensures
            final(self)@.packages.len() == old(self)@.packages.len() + packages@.len(),
            forall|i: int|
                0 <= i < old(self)@.packages.len() ==> final(self)@.packages[i] == old(
                    self,
                )@.packages[i],
            forall|i: int|
                0 <= i < packages@.len() ==> final(self)@.packages[old(self)@.packages.len() + i]
                    == (ChangePackageV {
                    name: packages@[i]@,
                    level,
                    tag: match tag {
                        Some(t) => Some(t@),
                        None => None,
                    },
                }),
            final(self)@.name == old(self)@.name,
            final(self)@.summary == old(self)@.summary,
            final(self)@.root_path == old(self)@.root_path,
            final(self)@.path == old(self)@.path,
    {
        let mut i: usize = 0;
        while i < packages.len()
            invariant
                i <= packages@.len(),
                self@.packages.len() == old(self)@.packages.len() + i,
                forall|j: int|
                    0 <= j < old(self)@.packages.len() ==> self@.packages[j] == old(
                        self,
                    )@.packages[j],
                forall|j: int|
                    0 <= j < i ==> self@.packages[old(self)@.packages.len() + j]
                        == (ChangePackageV {
                        name: packages@[j]@,
                        level,
                        tag: match tag {
                            Some(t) => Some(t@),
                            None => None,
                        },
                    }),
                self@.name == old(self)@.name,
                self@.summary == old(self)@.summary,
                self@.root_path == old(self)@.root_path,
                self@.path == old(self)@.path,
            decreases packages.len() - i,
        {
            let name = packages[i].clone();
            let t = match &tag {
                Some(t) => Some(t.clone()),
                None => None,
            };
            self.add_package(name, level, t);
            i = i + 1;
        }
    }

    /// Replaces the free-text summary.
    pub fn summary(&mut self, summary: String)
        ensures
            final(self)@.summary == summary@,
            final(self)@.name == old(self)@.name,
            final(self)@.packages == old(self)@.packages,
            final(self)@.root_path == old(self)@.root_path,
            final(self)@.path == old(self)@.path,
    {
        self.summary = summary;
    }

    /// The file this changeset persists to: `<root_path>/<name>.md`.
    pub open spec fn spec_file_path(root: Seq<char>, name: Seq<char>) -> Seq<char> {
        root + seq!['/'] + name + seq!['.', 'm', 'd']
    }

    /// Renders the file content for this changeset.
    pub fn render(&self) -> (r: Vec<char>)
        ensures
            r@ == rendered(self@.packages, self@.summary),
    {
        let ghost ps = self@.packages;
        let mut r: Vec<char> = Vec::new();
        let mut i: usize = 0;
        while i < self.packages.len()
            invariant
                i <= self.packages@.len(),
                ps == self@.packages,
                ps.len() == self.packages@.len(),
                forall|j: int| 0 <= j < ps.len() ==> ps[j] == #[trigger] self.packages@[j]@,
                r@ == front_matter(ps.take(i as int)),
            decreases self.packages.len() - i,
        {
            let p = &self.packages[i];
            let mut line: Vec<char> = str_chars(p.name.as_str());
            line.push(':');
            line.push(' ');
            let mut tok = p.level.token_chars();
            line.append(&mut tok);
            match &p.tag {
                Some(t) => {
                    line.push(':');
                    let mut tc = str_chars(t.as_str());
                    line.append(&mut tc);
                },
                None => {},
            }
            proof {
                assert(line@ =~= entry_line(ps[i as int]));
            }
            line.push('\n');
            r.append(&mut line);
            proof {
                lemma_front_matter_push(ps.take(i as int), ps[i as int]);
                assert(ps.take(i as int).push(ps[i as int]) =~= ps.take(i + 1));
                assert(r@ =~= front_matter(ps.take(i + 1)));
            }
            i = i + 1;
        }
        proof {
            assert(ps.take(ps.len() as int) =~= ps);
        }
        r.push('-');
        r.push('-');
        r.push('-');
        r.push('\n');
        r.push('\n');
        let mut sc = str_chars(self.summary.as_str());
        r.append(&mut sc);
        r.push('\n');
        proof {
            assert(r@ =~= rendered(ps, self@.summary));
        }
        r
    }

    /// Computes the serialized form of this changeset and records the file
    /// path it belongs at. Returns the target path and the file content; the
    /// caller is responsible for writing the content to the path.
    pub fn commit(&mut self) -> (r: (String, String))
        ensures
            r.0@ == Changeset::spec_file_path(old(self)@.root_path, old(self)@.name),
            r.1@ == rendered(old(self)@.packages, old(self)@.summary),
            final(self)@.path == Some(r.0@),
            final(self)@.name == old(self)@.name,
            final(self)@.packages == old(self)@.packages,
            final(self)@.summary == old(self)@.summary,
            final(self)@.root_path == old(self)@.root_path,
    {
        let mut path_chars: Vec<char> = str_chars(self.root_path.as_str());
        path_chars.push('/');
        let mut nc = str_chars(self.name.as_str());
        path_chars.append(&mut nc);
        path_chars.push('.');
        path_chars.push('m');
        path_chars.push('d');
        proof {
            assert(path_chars@ =~= Changeset::spec_file_path(self@.root_path, self@.name));
        }
        let path = chars_string(&path_chars);
        let content_chars = self.render();
        let content = chars_string(&content_chars);
        self.path = Some(path.clone());
        (path, content)
    }

    /// The path of the backing file to delete once this changeset's effects
    /// have been folded into a version bump.
    pub fn clean_path(&self) -> (r: String)
        ensures
            r@ == Changeset::spec_file_path(self@.root_path, self@.name),
    {
        let mut path_chars: Vec<char> = str_chars(self.root_path.as_str());
        path_chars.push('/');
        let mut nc = str_chars(self.name.as_str());
        path_chars.append(&mut nc);
        path_chars.push('.');
        path_chars.push('m');
        path_chars.push('d');
        proof {
            assert(path_chars@ =~= Changeset::spec_file_path(self@.root_path, self@.name));
        }
        chars_string(&path_chars)
    }
}

} // verus!
