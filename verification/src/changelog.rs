//! The changelog synthesizer: rendering one version's entry lines, reading
//! the newest section back, merging a new section under the document header,
//! and the commit/pull-request attribution rules.

use vstd::prelude::*;

use crate::error::ResolveError;
use crate::text;
use crate::text::{
    chars_string, drop_leading_nl, drop_trailing_nl, has_match, spec_split, spec_trim, str_chars,
};
use crate::version::{dec_val, digit_val, parse_u64, u64_chars};

verus! {

/// The owner and repository name of the hosting remote.
#[derive(Debug, Clone)]
pub struct RepoInfo {
    pub owner: String,
    pub repo_name: String,
}

/// What a pull-request lookup minimally exposes.
#[derive(Debug, Clone)]
pub struct PrInfo {
    pub number: u64,
    pub author: Option<String>,
    pub url: Option<String>,
}

/// One commit, as the attribution walk sees it.
#[derive(Debug, Clone)]
pub struct CommitInfo {
    pub hash: String,
    pub message: String,
}

/// One version section of a changelog document.
#[derive(Debug, Clone)]
pub struct Changelog {
    pub version: String,
    pub body: String,
}

/// The literal header line every changelog document starts with.
pub open spec fn changelog_header() -> Seq<char> {
    "# Changelog"@
}

/// The web address of one commit.
pub open spec fn commit_url(owner: Seq<char>, repo: Seq<char>, hash: Seq<char>) -> Seq<char> {
    "https://github.com/"@ + owner + "/"@ + repo + "/commit/"@ + hash
}

/// One rendered changelog line: the short commit hash linking to the commit
/// (when attribution is known), the changeset summary, and the pull request
/// with its author (each part omitted when unavailable).
pub open spec fn spec_format_line(
    summary: Seq<char>,
    repo: Option<(Seq<char>, Seq<char>)>,
    pr: Option<(u64, Option<Seq<char>>, Option<Seq<char>>)>,
    hash: Option<Seq<char>>,
) -> Seq<char> {
    "- "@ + (match (repo, hash) {
        (Some((o, rn)), Some(h)) => "[`"@ + h.take(7) + "`]("@ + commit_url(o, rn, h) + "): "@,
        _ => Seq::<char>::empty(),
    }) + summary + (match pr {
        Some((n, author, url)) => (match url {
            Some(u) => " ([#"@ + crate::version::dec_str(n as nat) + "]("@ + u + ")"@,
            None => " (#"@ + crate::version::dec_str(n as nat),
        }) + (match author {
            Some(a) => " by @"@ + a,
            None => Seq::<char>::empty(),
        }) + ")"@,
        None => Seq::<char>::empty(),
    })
}

/// The view of an optional repository record.
pub open spec fn repo_view(r: Option<RepoInfo>) -> Option<(Seq<char>, Seq<char>)> {
    match r {
        Some(ri) => Some((ri.owner@, ri.repo_name@)),
        None => None,
    }
}

/// The view of an optional pull-request record.
pub open spec fn pr_view(p: Option<PrInfo>) -> Option<(u64, Option<Seq<char>>, Option<Seq<char>>)> {
    match p {
        Some(pr) => Some(
            (
                pr.number,
                match pr.author {
                    Some(a) => Some(a@),
                    None => None,
                },
                match pr.url {
                    Some(u) => Some(u@),
                    None => None,
                },
            ),
        ),
        None => None,
    }
}

/// The view of an optional string.
pub open spec fn opt_str_view(o: Option<String>) -> Option<Seq<char>> {
    match o {
        Some(s) => Some(s@),
        None => None,
    }
}

/// Renders one changelog line for a changeset's summary, with whatever
/// commit, repository, and pull-request attribution is available.
pub fn format_line(
    changeset: &crate::changeset::Changeset,
    repo_info: &Option<RepoInfo>,
    pr_info: &Option<PrInfo>,
    commit_hash: &Option<String>,
) -> (r: String)
    requires
        (repo_info is Some && commit_hash is Some) ==> commit_hash->0@.len() >= 7,
    ensures
        r@ == spec_format_line(
            changeset@.summary,
            repo_view(*repo_info),
            pr_view(*pr_info),
            opt_str_view(*commit_hash),
        ),
{
    let mut out: Vec<char> = str_chars("- ");
    match (repo_info, commit_hash) {
        (Some(ri), Some(h)) => {
            let hc = str_chars(h.as_str());
            let short = text::subrange(&hc, 0, 7);
            let mut part = str_chars("[`");
            let mut s1 = short;
            part.append(&mut s1);
            let mut s2 = str_chars("`](");
            part.append(&mut s2);
            let mut s3 = str_chars("https://github.com/");
            part.append(&mut s3);
            let mut s4 = str_chars(ri.owner.as_str());
            part.append(&mut s4);
            let mut s5 = str_chars("/");
            part.append(&mut s5);
            let mut s6 = str_chars(ri.repo_name.as_str());
            part.append(&mut s6);
            let mut s7 = str_chars("/commit/");
            part.append(&mut s7);
            let mut s8 = str_chars(h.as_str());
            part.append(&mut s8);
            let mut s9 = str_chars("): ");
            part.append(&mut s9);
            proof {
                assert(part@ =~= "[`"@ + commit_hash->0@.take(7) + "`]("@ + commit_url(
                    repo_info->0.owner@,
                    repo_info->0.repo_name@,
                    commit_hash->0@,
                ) + "): "@);
            }
            out.append(&mut part);
        },
        _ => {},
    }
    let mut sc = str_chars(changeset.summary.as_str());
    out.append(&mut sc);
    match pr_info {
        Some(pr) => {
            let mut part: Vec<char>;
            match &pr.url {
                Some(u) => {
                    part = str_chars(" ([#");
                    let mut n1 = u64_chars(pr.number);
                    part.append(&mut n1);
                    let mut p1 = str_chars("](");
                    part.append(&mut p1);
                    let mut p2 = str_chars(u.as_str());
                    part.append(&mut p2);
                    let mut p3 = str_chars(")");
                    part.append(&mut p3);
                },
                None => {
                    part = str_chars(" (#");
                    let mut n2 = u64_chars(pr.number);
                    part.append(&mut n2);
                },
            }
            match &pr.author {
                Some(a) => {
                    let mut p4 = str_chars(" by @");
                    part.append(&mut p4);
                    let mut p5 = str_chars(a.as_str());
                    part.append(&mut p5);
                },
                None => {},
            }
            let mut p6 = str_chars(")");
            part.append(&mut p6);
            out.append(&mut part);
        },
        None => {},
    }
    proof {
        assert(out@ =~= spec_format_line(
            changeset@.summary,
            repo_view(*repo_info),
            pr_view(*pr_info),
            opt_str_view(*commit_hash),
        ));
    }
    chars_string(&out)
}

/// What merging a new version section into a changelog document produces:
/// the document up to and through its `# Changelog` header (trailing blank
/// lines dropped), one blank line, the new section, then — when anything
/// followed the header — one blank line and the prior content. `None` when
/// the document has no header line.
pub open spec fn spec_merged(content: Seq<char>, entry: Seq<char>) -> Option<Seq<char>> {
    if !has_match(content, changelog_header()) {
        None
    } else {
        let p = text::first_match_pos(content, changelog_header()) + changelog_header().len();
        let before = drop_trailing_nl(content.take(p));
        let after = drop_leading_nl(content.skip(p));
        Some(
            before + "\n\n"@ + spec_trim(entry) + (if after.len() > 0 {
                "\n\n"@ + drop_trailing_nl(after)
            } else {
                Seq::<char>::empty()
            }) + "\n"@,
        )
    }
}

/// Inserts a newly rendered version section immediately after the document's
/// `# Changelog` header, so the newest version is always the first section,
/// with exactly one blank line on each side and all prior content preserved
/// below. Fails with an invalid-changelog error when the header is missing.
pub fn merge_changelog(path: &str, content: &str, new_entry: &str) -> (r: Result<
    String,
    ResolveError,
>)
    ensures
        match r {
            Ok(s) => spec_merged(content@, new_entry@) == Some(s@),
            Err(e) => spec_merged(content@, new_entry@) is None && (match e {
                ResolveError::InvalidChangelog { path: p, reason: _ } => p@ == path@,
                _ => false,
            }),
        },
{
    let v = str_chars(content);
    let headerv = str_chars("# Changelog");
    proof {
        reveal_strlit("# Changelog");
    }
    let pos = match text::find_from(&v, &headerv, 0) {
        Some(i) => i,
        None => {
            proof {
                if has_match(v@, changelog_header()) {
                    let w = choose|i: int| text::matches_at(v@, changelog_header(), i);
                    assert(w >= 0);
                }
            }
            return Err(
                ResolveError::InvalidChangelog {
                    path: path.to_owned(),
                    reason: String::from_str("missing `# Changelog` header"),
                },
            );
        },
    };
    proof {
        text::lemma_first_match_pos(v@, changelog_header(), pos as int);
    }
    let p = pos + headerv.len();
    let before = text::trim_end_nl(&text::subrange(&v, 0, p));
    let after_raw = text::subrange(&v, p, v.len());
    let after = text::trim_start_nl(&after_raw);
    let entryv = str_chars(new_entry);
    let trimmed_entry = text::trim(&entryv);
    let mut out: Vec<char> = before;
    let mut nn = str_chars("\n\n");
    out.append(&mut nn);
    let mut te = trimmed_entry;
    out.append(&mut te);
    if after.len() > 0 {
        let mut nn2 = str_chars("\n\n");
        out.append(&mut nn2);
        let mut rest = text::trim_end_nl(&after);
        out.append(&mut rest);
    }
    let mut nl = str_chars("\n");
    out.append(&mut nl);
    proof {
        assert(v@.skip(p as int) =~= v@.subrange(p as int, v@.len() as int));
        assert(out@ =~= spec_merged(content@, new_entry@)->Some_0);
    }
    Ok(chars_string(&out))
}

/// A changelog version heading: a line whose trimmed text starts `## `.
pub open spec fn is_heading(line: Seq<char>) -> bool {
    spec_trim(line).len() >= 3 && spec_trim(line).take(3) == seq!['#', '#', ' ']
}

/// Index of the first heading line at or after `from`, when one exists.
pub open spec fn first_heading_from(lines: Seq<Seq<char>>, from: int) -> int {
    choose|k: int|
        from <= k < lines.len() && is_heading(lines[k]) && (forall|j: int|
            from <= j < k ==> !is_heading(lines[j]))
}

/// True when some line at or after `from` is a heading.
pub open spec fn has_heading_from(lines: Seq<Seq<char>>, from: int) -> bool {
    exists|k: int| from <= k < lines.len() && is_heading(lines[k])
}

proof fn lemma_first_heading(lines: Seq<Seq<char>>, from: int, k: int)
    requires
        from <= k < lines.len(),
        is_heading(lines[k]),
        forall|j: int| from <= j < k ==> !is_heading(lines[j]),
    ensures
        has_heading_from(lines, from),
        first_heading_from(lines, from) == k,
{
    assert(has_heading_from(lines, from));
    let w = first_heading_from(lines, from);
    assert(from <= w < lines.len() && is_heading(lines[w]) && (forall|j: int|
        from <= j < w ==> !is_heading(lines[j]))) by {
        assert(from <= k < lines.len() && is_heading(lines[k]) && (forall|j: int|
            from <= j < k ==> !is_heading(lines[j])));
    }
    if w < k {
        assert(!is_heading(lines[w]));
    }
    if w > k {
        assert(!is_heading(lines[k]));
    }
}

/// The lines joined back together, each terminated by a newline.
pub open spec fn join_nl(lines: Seq<Seq<char>>) -> Seq<char>
    decreases lines.len(),
{
    if lines.len() == 0 {
        Seq::empty()
    } else {
        lines[0] + seq!['\n'] + join_nl(lines.drop_first())
    }
}

pub proof fn lemma_join_nl_push(lines: Seq<Seq<char>>, l: Seq<char>)
    ensures
        join_nl(lines.push(l)) == join_nl(lines) + l + seq!['\n'],
    decreases lines.len(),
{
    if lines.len() == 0 {
        assert(lines.push(l).drop_first() =~= Seq::<Seq<char>>::empty());
        assert(join_nl(Seq::<Seq<char>>::empty()) == Seq::<char>::empty());
        assert(lines.push(l)[0] == l);
        assert(join_nl(lines.push(l)) == l + seq!['\n'] + join_nl(Seq::<Seq<char>>::empty()));
        assert(join_nl(lines.push(l)) =~= join_nl(lines) + l + seq!['\n']);
    } else {
        assert(lines.push(l).drop_first() =~= lines.drop_first().push(l));
        lemma_join_nl_push(lines.drop_first(), l);
        assert(lines.push(l)[0] == lines[0]);
        assert(join_nl(lines.push(l)) =~= join_nl(lines) + l + seq!['\n']);
    }
}

/// The newest version section of a changelog document: the first `## `
/// heading after the `# Changelog` header line opens it, the next heading
/// (or the end) closes it. The version is the heading's trimmed text after
/// `## `; the body is the section's lines, trimmed. `None` when the header
/// line or any version heading is missing.
pub open spec fn spec_latest_changelog(content: Seq<char>) -> Option<(Seq<char>, Seq<char>)> {
    let lines = spec_split(content, '\n');
    if spec_trim(lines[0]) != changelog_header() {
        None
    } else if !has_heading_from(lines, 1) {
        None
    } else {
        let k = first_heading_from(lines, 1);
        let m = if has_heading_from(lines, k + 1) {
            first_heading_from(lines, k + 1)
        } else {
            lines.len() as int
        };
        Some(
            (
                spec_trim(lines[k]).skip(3),
                spec_trim(join_nl(lines.subrange(k, m))),
            ),
        )
    }
}

/// Whether this line opens a version section.
fn is_heading_c(line: &Vec<char>) -> (r: bool)
    ensures
        r == is_heading(line@),
{
    let t = text::trim(line);
    let r = t.len() >= 3 && t[0] == '#' && t[1] == '#' && t[2] == ' ';
    proof {
        if r {
            assert(spec_trim(line@).take(3) =~= seq!['#', '#', ' ']);
        } else if spec_trim(line@).len() >= 3 {
            assert(spec_trim(line@).take(3)[0] == t@[0]);
            assert(spec_trim(line@).take(3)[1] == t@[1]);
            assert(spec_trim(line@).take(3)[2] == t@[2]);
        }
    }
    r
}

/// Finds the first heading line at or after `from`.
fn find_heading(lines: &Vec<Vec<char>>, from: usize) -> (r: Option<usize>)
    ensures
        match r {
            Some(k) => {
                &&& from <= k < lines@.len()
                &&& is_heading(lines@[k as int]@)
                &&& forall|j: int| from <= j < k ==> !is_heading(lines@[j]@)
                &&& first_heading_from(text::lines_view(lines@), from as int) == k
                &&& has_heading_from(text::lines_view(lines@), from as int)
            },
            None => !has_heading_from(text::lines_view(lines@), from as int),
        },
{
    let ghost lv = text::lines_view(lines@);
    let mut k: usize = from;
    while k < lines.len()
        invariant
            from <= k,
            lv == text::lines_view(lines@),
            lv.len() == lines@.len(),
            forall|j: int| 0 <= j < lv.len() ==> lv[j] == #[trigger] lines@[j]@,
            forall|j: int| from <= j < k ==> !is_heading(lv[j]),
        decreases lines.len() - k,
    {
        if is_heading_c(&lines[k]) {
            proof {
                lemma_first_heading(lv, from as int, k as int);
            }
            return Some(k);
        }
        k = k + 1;
    }
    proof {
        if has_heading_from(lv, from as int) {
            let w = choose|j: int| from <= j < lv.len() && is_heading(lv[j]);
            assert(!is_heading(lv[w]));
        }
    }
    return None;
}

/// Reads the newest version section out of a changelog document. Fails with
/// an invalid-changelog error, carrying the file path, when the `# Changelog`
/// header or a version heading is missing.
#[verifier::loop_isolation(false)]
#[verifier::rlimit(60)]
pub fn read_latest_changelog(path: &str, content: &str) -> (r: Result<Changelog, ResolveError>)
    ensures
        match r {
            Ok(c) => spec_latest_changelog(content@) == Some((c.version@, c.body@)),
            Err(e) => spec_latest_changelog(content@) is None && (match e {
                ResolveError::InvalidChangelog { path: p, reason: _ } => p@ == path@,
                _ => false,
            }),
        },
{
    let v = str_chars(content);
    let lines = text::split_on(&v, '\n');
    let ghost lv = text::lines_view(lines@);
    proof {
        text::lemma_split_len(v@, '\n');
        assert(lv[0] == lines@[0]@);
    }
    let first_trim = text::trim(&lines[0]);
    let headerv = str_chars("# Changelog");
    if !text::chars_eq(&first_trim, &headerv) {
        return Err(
            ResolveError::InvalidChangelog {
                path: path.to_owned(),
                reason: String::from_str("missing `# Changelog` header"),
            },
        );
    }
    let k = match find_heading(&lines, 1) {
        Some(k) => k,
        None => {
            return Err(
                ResolveError::InvalidChangelog {
                    path: path.to_owned(),
                    reason: String::from_str("no version heading found"),
                },
            );
        },
    };
    let m = match find_heading(&lines, k + 1) {
        Some(m) => m,
        None => lines.len(),
    };
    // The version: the heading's trimmed text after `## `.
    let ht = text::trim(&lines[k]);
    let version = text::subrange(&ht, 3, ht.len());
    proof {
        assert(version@ =~= spec_trim(lv[k as int]).skip(3));
    }
    // The body: the section's lines joined back, then trimmed.
    let mut body: Vec<char> = Vec::new();
    let mut i: usize = k;
    proof {
        assert(lv.subrange(k as int, k as int) =~= Seq::<Seq<char>>::empty());
    }
    while i < m
        invariant
            k <= i <= m <= lines@.len(),
            body@ == join_nl(lv.subrange(k as int, i as int)),
        decreases m - i,
    {
        let mut lc = text::subrange(&lines[i], 0, lines[i].len());
        body.append(&mut lc);
        body.push('\n');
        proof {
            lemma_join_nl_push(lv.subrange(k as int, i as int), lv[i as int]);
            assert(lv.subrange(k as int, i as int).push(lv[i as int]) =~= lv.subrange(
                k as int,
                i as int + 1,
            ));
            assert(lines@[i as int]@.subrange(0, lines@[i as int]@.len() as int) =~= lv[i as int]);
            assert(body@ =~= join_nl(lv.subrange(k as int, i as int + 1)));
        }
        i = i + 1;
    }
    let body_trim = text::trim(&body);
    Ok(Changelog { version: chars_string(&version), body: chars_string(&body_trim) })
}

/// Index of the first digit-run end at or after `from`: the first position
/// holding a non-digit character, or the end of `s`.
pub open spec fn digits_end(s: Seq<char>, from: int) -> int
    decreases s.len() - from,
{
    if from < 0 || from >= s.len() || digit_val(s[from]) < 0 {
        from
    } else {
        digits_end(s, from + 1)
    }
}

proof fn lemma_digits_end(s: Seq<char>, from: int)
    requires
        0 <= from <= s.len(),
    ensures
        from <= digits_end(s, from) <= s.len(),
        forall|j: int| from <= j < digits_end(s, from) ==> digit_val(#[trigger] s[j]) >= 0,
        digits_end(s, from) < s.len() ==> digit_val(s[digits_end(s, from)]) < 0,
    decreases s.len() - from,
{
    if from < s.len() && digit_val(s[from]) >= 0 {
        lemma_digits_end(s, from + 1);
    }
}

/// True when a `(#<number>)` marker sits at position `i` of the message.
pub open spec fn pr_marker_at(s: Seq<char>, i: int) -> bool {
    &&& 0 <= i
    &&& i + 2 < s.len()
    &&& s[i] == '('
    &&& s[i + 1] == '#'
    &&& digit_val(s[i + 2]) >= 0
    &&& digits_end(s, i + 2) < s.len()
    &&& s[digits_end(s, i + 2)] == ')'
}

/// The number of the first `(#<number>)` marker of the message.
pub open spec fn first_pr_marker(s: Seq<char>) -> int {
    choose|i: int| pr_marker_at(s, i) && (forall|j: int| 0 <= j < i ==> !pr_marker_at(s, j))
}

proof fn lemma_first_pr_marker(s: Seq<char>, i: int)
    requires
        pr_marker_at(s, i),
        forall|j: int| 0 <= j < i ==> !pr_marker_at(s, j),
    ensures
        first_pr_marker(s) == i,
{
    let w = first_pr_marker(s);
    assert(pr_marker_at(s, w) && (forall|j: int| 0 <= j < w ==> !pr_marker_at(s, j))) by {
        assert(pr_marker_at(s, i) && (forall|j: int| 0 <= j < i ==> !pr_marker_at(s, j)));
    }
    if w < i {
        assert(!pr_marker_at(s, w));
    }
    if w > i {
        assert(!pr_marker_at(s, i));
    }
}

/// Scans a commit message for a `(#<number>)` pull-request marker and reads
/// the number of the first one. `None` when no marker occurs, or the first
/// marker's number does not fit the numeric range.
#[verifier::loop_isolation(false)]
pub fn parse_pr_number(message: &str) -> (r: Option<u64>)
    ensures
        match r {
            Some(n) => {
                &&& exists|i: int| pr_marker_at(message@, i)
                &&& n as int == dec_val(
                    message@.subrange(
                        first_pr_marker(message@) + 2,
                        digits_end(message@, first_pr_marker(message@) + 2),
                    ),
                )
            },
            None => (forall|i: int| !pr_marker_at(message@, i)) || dec_val(
                message@.subrange(
                    first_pr_marker(message@) + 2,
                    digits_end(message@, first_pr_marker(message@) + 2),
                ),
            ) > u64::MAX,
        },
{
    let v = str_chars(message);
    let n = v.len();
    let mut i: usize = 0;
    while i < n
        invariant
            i <= n,
            forall|j: int| 0 <= j < i ==> !pr_marker_at(v@, j),
        decreases n - i,
    {
        if n - i > 2 && v[i] == '(' && v[i + 1] == '#' {
            match crate::version::digit_val_exec(v[i + 2]) {
                Some(_) => {
                    // Walk the digit run after `(#`.
                    let mut e: usize = i + 2;
                    while e < n && crate::version::digit_val_exec(v[e]).is_some()
                        invariant
                            i + 2 <= e <= n,
                            digits_end(v@, i as int + 2) == digits_end(v@, e as int),
                        decreases n - e,
                    {
                        e = e + 1;
                    }
                    proof {
                        assert(digits_end(v@, e as int) == e as int);
                        lemma_digits_end(v@, i as int + 2);
                    }
                    if e < n && v[e] == ')' {
                        proof {
                            assert(pr_marker_at(v@, i as int));
                            lemma_first_pr_marker(v@, i as int);
                        }
                        let digits = text::subrange(&v, i + 2, e);
                        return parse_u64(&digits);
                    } else {
                        proof {
                            assert(!pr_marker_at(v@, i as int));
                        }
                    }
                },
                None => {
                    proof {
                        assert(!pr_marker_at(v@, i as int));
                    }
                },
            }
        } else {
            proof {
                if pr_marker_at(v@, i as int) {
                    assert(i + 2 < n);
                }
            }
        }
        i = i + 1;
    }
    proof {
        if exists|j: int| pr_marker_at(v@, j) {
            let w = choose|j: int| pr_marker_at(v@, j);
            assert(!pr_marker_at(v@, w));
        }
    }
    return None;
}

/// The tag of the first entry of a changeset that names the package:
/// `None` when the changeset does not touch the package at all.
pub open spec fn cs_entry_tag(
    ps: Seq<crate::changeset::ChangePackageV>,
    name: Seq<char>,
) -> Option<Option<Seq<char>>>
    decreases ps.len(),
{
    if ps.len() == 0 {
        None
    } else if ps[0].name == name {
        Some(ps[0].tag)
    } else {
        cs_entry_tag(ps.drop_first(), name)
    }
}

/// The display label of the first configured tag pair keyed by `t`.
pub open spec fn spec_lookup_label(
    tags: Seq<(Seq<char>, Seq<char>)>,
    t: Seq<char>,
) -> Option<Seq<char>>
    decreases tags.len(),
{
    if tags.len() == 0 {
        None
    } else if tags[0].0 == t {
        Some(tags[0].1)
    } else {
        spec_lookup_label(tags.drop_first(), t)
    }
}

/// The group heading of one changeset line: the configured display label of
/// its tag, or the generic `Changes` bucket for untagged or unrecognized
/// tags.
pub open spec fn spec_tag_label(
    tags: Seq<(Seq<char>, Seq<char>)>,
    tag: Option<Seq<char>>,
) -> Seq<char> {
    match tag {
        None => "Changes"@,
        Some(t) => match spec_lookup_label(tags, t) {
            Some(l) => l,
            None => "Changes"@,
        },
    }
}

/// The labelled lines of one package's changelog entry, in changeset order:
/// one line per changeset whose entries name the package.
pub open spec fn spec_changelog_pairs(
    cs: Seq<crate::changeset::ChangesetV>,
    att: Seq<(Option<Seq<char>>, Option<(u64, Option<Seq<char>>, Option<Seq<char>>)>)>,
    repo: Option<(Seq<char>, Seq<char>)>,
    tags: Seq<(Seq<char>, Seq<char>)>,
    name: Seq<char>,
) -> Seq<(Seq<char>, Seq<char>)>
    decreases cs.len(),
{
    if cs.len() == 0 || att.len() == 0 {
        Seq::empty()
    } else {
        let rest = spec_changelog_pairs(cs.drop_first(), att.drop_first(), repo, tags, name);
        match cs_entry_tag(cs[0].packages, name) {
            None => rest,
            Some(tag) => seq![
                (
                    spec_tag_label(tags, tag),
                    spec_format_line(cs[0].summary, repo, att[0].1, att[0].0),
                ),
            ] + rest,
        }
    }
}

/// True when some group carries this label.
pub open spec fn has_group(groups: Seq<(Seq<char>, Seq<Seq<char>>)>, label: Seq<char>) -> bool {
    exists|i: int| 0 <= i < groups.len() && groups[i].0 == label
}

/// Index of the first group carrying this label, when one exists.
pub open spec fn group_idx(groups: Seq<(Seq<char>, Seq<Seq<char>>)>, label: Seq<char>) -> int {
    choose|i: int|
        0 <= i < groups.len() && groups[i].0 == label && (forall|j: int|
            0 <= j < i ==> groups[j].0 != label)
}

proof fn lemma_group_idx(groups: Seq<(Seq<char>, Seq<Seq<char>>)>, label: Seq<char>, i: int)
    requires
        0 <= i < groups.len(),
        groups[i].0 == label,
        forall|j: int| 0 <= j < i ==> groups[j].0 != label,
    ensures
        has_group(groups, label),
        group_idx(groups, label) == i,
{
    assert(has_group(groups, label));
    let w = group_idx(groups, label);
    assert(0 <= w < groups.len() && groups[w].0 == label && (forall|j: int|
        0 <= j < w ==> groups[j].0 != label)) by {
        assert(0 <= i < groups.len() && groups[i].0 == label && (forall|j: int|
            0 <= j < i ==> groups[j].0 != label));
    }
    if w < i {
        assert(groups[w].0 != label);
    }
    if w > i {
        assert(groups[i].0 != label);
    }
}

/// One line joining its group: appended to the first group with its label,
/// or opening a new group at the end.
pub open spec fn spec_add_line(
    groups: Seq<(Seq<char>, Seq<Seq<char>>)>,
    label: Seq<char>,
    line: Seq<char>,
) -> Seq<(Seq<char>, Seq<Seq<char>>)> {
    if !has_group(groups, label) {
        groups.push((label, seq![line]))
    } else {
        let i = group_idx(groups, label);
        groups.update(i, (label, groups[i].1.push(line)))
    }
}

/// The labelled lines grouped by label, labels in order of first appearance.
pub open spec fn spec_group_pairs(
    pairs: Seq<(Seq<char>, Seq<char>)>,
    acc: Seq<(Seq<char>, Seq<Seq<char>>)>,
) -> Seq<(Seq<char>, Seq<Seq<char>>)>
    decreases pairs.len(),
{
    if pairs.len() == 0 {
        acc
    } else {
        spec_group_pairs(pairs.drop_first(), spec_add_line(acc, pairs[0].0, pairs[0].1))
    }
}

/// One rendered group: its heading and its lines.
pub open spec fn spec_section(g: (Seq<char>, Seq<Seq<char>>)) -> Seq<char> {
    "### "@ + g.0 + "\n\n"@ + text::join_lines(g.1)
}

/// Blocks joined with one blank line between them.
pub open spec fn join_blocks(bs: Seq<Seq<char>>) -> Seq<char>
    decreases bs.len(),
{
    if bs.len() == 0 {
        Seq::empty()
    } else if bs.len() == 1 {
        bs[0]
    } else {
        bs[0] + "\n\n"@ + join_blocks(bs.drop_first())
    }
}

proof fn lemma_join_blocks_snoc(bs: Seq<Seq<char>>, b: Seq<char>)
    requires
        bs.len() > 0,
    ensures
        join_blocks(bs.push(b)) == join_blocks(bs) + "\n\n"@ + b,
    decreases bs.len(),
{
    if bs.len() == 1 {
        assert(bs.push(b)[0] == bs[0]);
        assert(bs.push(b).drop_first() =~= seq![b]);
        assert(join_blocks(seq![b]) == b);
        assert(join_blocks(bs.push(b)) =~= join_blocks(bs) + "\n\n"@ + b);
    } else {
        assert(bs.push(b)[0] == bs[0]);
        assert(bs.push(b).drop_first() =~= bs.drop_first().push(b));
        lemma_join_blocks_snoc(bs.drop_first(), b);
        assert(join_blocks(bs.push(b)) =~= join_blocks(bs) + "\n\n"@ + b);
    }
}

/// The full rendered changelog entry of one package version: the version
/// heading, then the groups as subsections.
pub open spec fn spec_changelog_entry(
    version: Seq<char>,
    groups: Seq<(Seq<char>, Seq<Seq<char>>)>,
) -> Seq<char> {
    "## v"@ + version + "\n\n"@ + join_blocks(
        groups.map_values(|g: (Seq<char>, Seq<Seq<char>>)| spec_section(g)),
    )
}

/// The tag of the first entry naming the package, if the changeset touches
/// the package.
fn changeset_entry_tag(cs: &crate::changeset::Changeset, namec: &Vec<char>) -> (r: Option<
    Option<String>,
>)
    ensures
        match r {
            Some(tag) => cs_entry_tag(cs@.packages, namec@) == Some(opt_str_view(tag)),
            None => cs_entry_tag(cs@.packages, namec@) is None,
        },
{
    let ghost ps = cs@.packages;
    let mut i: usize = 0;
    proof {
        assert(ps.skip(0) =~= ps);
    }
    while i < cs.packages.len()
        invariant
            i <= cs.packages@.len(),
            ps == cs@.packages,
            ps.len() == cs.packages@.len(),
            forall|j: int| 0 <= j < ps.len() ==> ps[j] == #[trigger] cs.packages@[j]@,
            cs_entry_tag(ps, namec@) == cs_entry_tag(ps.skip(i as int), namec@),
        decreases cs.packages.len() - i,
    {
        proof {
            assert(ps.skip(i as int)[0] == ps[i as int]);
            assert(ps.skip(i as int).drop_first() =~= ps.skip(i as int + 1));
        }
        let pc = str_chars(cs.packages[i].name.as_str());
        if text::chars_eq(&pc, namec) {
            let tag = match &cs.packages[i].tag {
                Some(t) => Some(t.clone()),
                None => None,
            };
            return Some(tag);
        }
        i = i + 1;
    }
    proof {
        assert(ps.skip(ps.len() as int) =~= Seq::<crate::changeset::ChangePackageV>::empty());
    }
    return None;
}

/// The display label of one line's tag.
#[verifier::loop_isolation(false)]
fn tag_label_of(tags: &Vec<(String, String)>, tag: &Option<String>) -> (r: String)
    ensures
        r@ == spec_tag_label(tags_view(tags@), opt_str_view(*tag)),
{
    let ghost tv = tags_view(tags@);
    match tag {
        Some(t) => {
            proof {
                assert(opt_str_view(*tag) == Some(t@));
            }
            let tc = str_chars(t.as_str());
            let mut i: usize = 0;
            proof {
                assert(tv.skip(0) =~= tv);
            }
            while i < tags.len()
                invariant
                    i <= tags@.len(),
                    tv == tags_view(tags@),
                    tv.len() == tags@.len(),
                    forall|j: int|
                        0 <= j < tv.len() ==> (#[trigger] tv[j]).0 == tags@[j].0@ && tv[j].1
                            == tags@[j].1@,
                    tc@ == t@,
                    spec_lookup_label(tv, t@) == spec_lookup_label(tv.skip(i as int), t@),
                decreases tags.len() - i,
            {
                proof {
                    assert(tv.skip(i as int)[0] == tv[i as int]);
                    assert(tv.skip(i as int).drop_first() =~= tv.skip(i as int + 1));
                }
                let kc = str_chars(tags[i].0.as_str());
                if text::chars_eq(&kc, &tc) {
                    proof {
                        assert(spec_lookup_label(tv.skip(i as int), t@) == Some(tv[i as int].1));
                    }
                    return tags[i].1.clone();
                }
                i = i + 1;
            }
            proof {
                assert(tv.skip(tv.len() as int) =~= Seq::<(Seq<char>, Seq<char>)>::empty());
            }
            return String::from_str("Changes");
        },
        None => {
            return String::from_str("Changes");
        },
    }
}

/// Index of the first accumulated group carrying this label.
fn find_group(groups: &Vec<(String, Vec<String>)>, lc: &Vec<char>) -> (r: Option<usize>)
    ensures
        match r {
            Some(fi) => {
                &&& (fi as int) < groups_view(groups@).len()
                &&& groups_view(groups@)[fi as int].0 == lc@
                &&& forall|j: int| 0 <= j < fi ==> groups_view(groups@)[j].0 != lc@
            },
            None => forall|j: int|
                0 <= j < groups_view(groups@).len() ==> groups_view(groups@)[j].0 != lc@,
        },
{
    let ghost gv = groups_view(groups@);
    let mut g: usize = 0;
    while g < groups.len()
        invariant
            g <= groups@.len(),
            gv == groups_view(groups@),
            gv.len() == groups@.len(),
            forall|j: int| 0 <= j < gv.len() ==> (#[trigger] gv[j]).0 == groups@[j].0@,
            forall|j: int| 0 <= j < g ==> gv[j].0 != lc@,
        decreases groups.len() - g,
    {
        let gc = str_chars(groups[g].0.as_str());
        if text::chars_eq(&gc, lc) {
            return Some(g);
        }
        g = g + 1;
    }
    return None;
}

/// The view of attribution pairs.
pub open spec fn att_view(att: Seq<(Option<String>, Option<PrInfo>)>) -> Seq<
    (Option<Seq<char>>, Option<(u64, Option<Seq<char>>, Option<Seq<char>>)>),
> {
    att.map_values(
        |a: (Option<String>, Option<PrInfo>)| (opt_str_view(a.0), pr_view(a.1)),
    )
}

/// The view of the configured tag pairs.
pub open spec fn tags_view(tags: Seq<(String, String)>) -> Seq<(Seq<char>, Seq<char>)> {
    tags.map_values(|p: (String, String)| (p.0@, p.1@))
}

/// Renders one package's changelog entry for a newly computed version.
///
/// `attributions` pairs each changeset with the commit hash that introduced
/// it and the pull request resolved for that commit, either absent when
/// unavailable. Each changeset naming the package contributes one line,
/// grouped under the display label configured for its tag (the `Changes`
/// bucket otherwise), groups in order of first appearance under the
/// `## v<version>` heading.
#[verifier::loop_isolation(false)]
#[verifier::rlimit(100)]
pub fn render_changelog(
    changesets: &Vec<crate::changeset::Changeset>,
    attributions: &Vec<(Option<String>, Option<PrInfo>)>,
    repo_info: &Option<RepoInfo>,
    tags: &Vec<(String, String)>,
    package_name: &str,
    package_version: &str,
) -> (r: String)
    requires
        attributions@.len() == changesets@.len(),
        forall|k: int|
            0 <= k < attributions@.len() && repo_info is Some && (
            #[trigger] attributions@[k]).0 is Some ==> attributions@[k].0->0@.len() >= 7,
    ensures
        r@ == spec_changelog_entry(
            package_version@,
            spec_group_pairs(
                spec_changelog_pairs(
                    crate::version::changesets_view(changesets@),
                    att_view(attributions@),
                    repo_view(*repo_info),
                    tags_view(tags@),
                    package_name@,
                ),
                Seq::empty(),
            ),
        ),
{
    let ghost csv = crate::version::changesets_view(changesets@);
    let ghost av = att_view(attributions@);
    let ghost tv = tags_view(tags@);
    let namec = str_chars(package_name);
    // Collect the labelled lines, one per changeset naming the package.
    let mut pairs: Vec<(String, String)> = Vec::new();
    let mut k: usize = 0;
    proof {
        assert(csv.skip(0) =~= csv);
        assert(av.skip(0) =~= av);
    }
    while k < changesets.len()
        invariant
            k <= changesets@.len(),
            pairs@.map_values(|p: (String, String)| (p.0@, p.1@)) + spec_changelog_pairs(
                csv.skip(k as int),
                av.skip(k as int),
                repo_view(*repo_info),
                tv,
                package_name@,
            ) == spec_changelog_pairs(csv, av, repo_view(*repo_info), tv, package_name@),
        decreases changesets.len() - k,
    {
        proof {
            assert(csv.skip(k as int)[0] == csv[k as int]);
            assert(csv[k as int] == changesets@[k as int]@);
            assert(csv.skip(k as int).drop_first() =~= csv.skip(k as int + 1));
            assert(av.skip(k as int)[0] == av[k as int]);
            assert(av.skip(k as int).drop_first() =~= av.skip(k as int + 1));
        }
        let ghost prev = pairs@.map_values(|p: (String, String)| (p.0@, p.1@));
        match changeset_entry_tag(&changesets[k], &namec) {
            Some(tag) => {
                let label = tag_label_of(tags, &tag);
                let line = format_line(
                    &changesets[k],
                    repo_info,
                    &attributions[k].1,
                    &attributions[k].0,
                );
                pairs.push((label, line));
                proof {
                    assert(pairs@.map_values(|p: (String, String)| (p.0@, p.1@)) =~~= prev.push(
                        (pairs@.last().0@, pairs@.last().1@),
                    ));
                    assert(prev.push((pairs@.last().0@, pairs@.last().1@))
                        + spec_changelog_pairs(
                        csv.skip(k as int + 1),
                        av.skip(k as int + 1),
                        repo_view(*repo_info),
                        tv,
                        package_name@,
                    ) =~= prev + (seq![(pairs@.last().0@, pairs@.last().1@)]
                        + spec_changelog_pairs(
                        csv.skip(k as int + 1),
                        av.skip(k as int + 1),
                        repo_view(*repo_info),
                        tv,
                        package_name@,
                    )));
                }
            },
            None => {},
        }
        k = k + 1;
    }
    proof {
        assert(csv.skip(csv.len() as int) =~= Seq::<crate::changeset::ChangesetV>::empty());
        assert(pairs@.map_values(|p: (String, String)| (p.0@, p.1@)) + Seq::<
            (Seq<char>, Seq<char>),
        >::empty() =~= pairs@.map_values(|p: (String, String)| (p.0@, p.1@)));
    }
    // Group the lines by label, labels in order of first appearance.
    let mut groups: Vec<(String, Vec<String>)> = Vec::new();
    let ghost pv = pairs@.map_values(|p: (String, String)| (p.0@, p.1@));
    let mut q: usize = 0;
    proof {
        assert(pv.skip(0) =~= pv);
        assert(groups_view(groups@) =~~= Seq::<(Seq<char>, Seq<Seq<char>>)>::empty());
    }
    while q < pairs.len()
        invariant
            q <= pairs@.len(),
            pv == pairs@.map_values(|p: (String, String)| (p.0@, p.1@)),
            spec_group_pairs(pv, Seq::empty()) == spec_group_pairs(
                pv.skip(q as int),
                groups_view(groups@),
            ),
        decreases pairs.len() - q,
    {
        proof {
            assert(pv.skip(q as int)[0] == pv[q as int]);
            assert(pv[q as int] == (pairs@[q as int].0@, pairs@[q as int].1@));
            assert(pv.skip(q as int).drop_first() =~= pv.skip(q as int + 1));
        }
        let label = pairs[q].0.clone();
        let line = pairs[q].1.clone();
        let lc = str_chars(label.as_str());
        let ghost before = groups_view(groups@);
        let found = find_group(&groups, &lc);
        match found {
            Some(fi) => {
                proof {
                    assert(before == groups_view(groups@));
                    lemma_group_idx(before, label@, fi as int);
                }
                let ghost old_groups = groups@;
                let mut entry = groups.remove(fi);
                entry.1.push(line);
                groups.insert(fi, entry);
                proof {
                    assert(groups_view(groups@) =~~= spec_add_line(
                        before,
                        label@,
                        pv[q as int].1,
                    ));
                }
            },
            None => {
                proof {
                    if has_group(before, label@) {
                        let w = choose|j: int| 0 <= j < before.len() && before[j].0 == label@;
                        assert(before[w].0 != label@);
                    }
                }
                let mut lines: Vec<String> = Vec::new();
                lines.push(line);
                groups.push((label, lines));
                proof {
                    assert(groups_view(groups@) =~~= spec_add_line(
                        before,
                        label@,
                        pv[q as int].1,
                    ));
                }
            },
        }
        q = q + 1;
    }
    proof {
        assert(pv.skip(pv.len() as int) =~= Seq::<(Seq<char>, Seq<char>)>::empty());
    }
    // Render: version heading, then the groups as subsections.
    let ghost gv = groups_view(groups@);
    let ghost sections = gv.map_values(|g: (Seq<char>, Seq<Seq<char>>)| spec_section(g));
    let mut out: Vec<char> = str_chars("## v");
    let mut vc = str_chars(package_version);
    out.append(&mut vc);
    let mut nn = str_chars("\n\n");
    out.append(&mut nn);
    let ghost base = out@;
    let mut gi: usize = 0;
    while gi < groups.len()
        invariant
            gi <= groups@.len(),
            gv == groups_view(groups@),
            gv.len() == groups@.len(),
            sections == gv.map_values(|g: (Seq<char>, Seq<Seq<char>>)| spec_section(g)),
            forall|j: int|
                0 <= j < gv.len() ==> (#[trigger] gv[j]).0 == groups@[j].0@ && gv[j].1
                    == groups@[j].1@.map_values(|s: String| s@),
            out@ == base + join_blocks(sections.take(gi as int)),
        decreases groups.len() - gi,
    {
        proof {
            assert(sections[gi as int] == spec_section(gv[gi as int]));
        }
        if gi > 0 {
            let mut sep = str_chars("\n\n");
            out.append(&mut sep);
        }
        let mut sec = str_chars("### ");
        let mut hc = str_chars(groups[gi].0.as_str());
        sec.append(&mut hc);
        let mut nn2 = str_chars("\n\n");
        sec.append(&mut nn2);
        let lines = &groups[gi].1;
        let ghost lv = groups@[gi as int].1@.map_values(|s: String| s@);
        let mut li: usize = 0;
        let ghost sec_base = sec@;
        while li < lines.len()
            invariant
                li <= lines@.len(),
                lines == groups@[gi as int].1,
                gi < groups@.len(),
                lv == groups@[gi as int].1@.map_values(|s: String| s@),
                lv.len() == lines@.len(),
                forall|j: int| 0 <= j < lv.len() ==> lv[j] == #[trigger] lines@[j]@,
                li == 0 ==> sec@ == sec_base,
                li > 0 ==> sec@ == sec_base + text::join_lines(lv.take(li as int)),
            decreases lines.len() - li,
        {
            if li > 0 {
                sec.push('\n');
            }
            let mut lc2 = str_chars(lines[li].as_str());
            sec.append(&mut lc2);
            proof {
                if li == 0 {
                    assert(text::join_lines(lv.take(1)) == lv.take(1)[0]);
                    assert(sec@ =~= sec_base + text::join_lines(lv.take(1)));
                } else {
                    text::lemma_join_lines_snoc(lv.take(li as int), lv[li as int]);
                    assert(lv.take(li as int).push(lv[li as int]) =~= lv.take(li as int + 1));
                    assert(sec@ =~= sec_base + text::join_lines(lv.take(li as int + 1)));
                }
            }
            li = li + 1;
        }
        proof {
            assert(lv.take(lv.len() as int) =~= lv);
            if lv.len() == 0 {
                assert(text::join_lines(lv) == Seq::<char>::empty());
                assert(sec@ =~= sec_base + text::join_lines(lv));
            }
            assert(sec@ =~= spec_section(gv[gi as int]));
        }
        out.append(&mut sec);
        proof {
            if gi == 0 {
                assert(sections.take(1) =~= seq![sections[0]]);
                assert(join_blocks(seq![sections[0]]) == sections[0]);
                assert(out@ =~= base + join_blocks(sections.take(1)));
            } else {
                lemma_join_blocks_snoc(sections.take(gi as int), sections[gi as int]);
                assert(sections.take(gi as int).push(sections[gi as int]) =~= sections.take(
                    gi as int + 1,
                ));
                assert(out@ =~= base + join_blocks(sections.take(gi as int + 1)));
            }
        }
        gi = gi + 1;
    }
    proof {
        assert(sections.take(sections.len() as int) =~= sections);
        if sections.len() == 0 {
            assert(join_blocks(sections) == Seq::<char>::empty());
            assert(out@ =~= base + join_blocks(sections));
        }
        assert(out@ =~= spec_changelog_entry(
            package_version@,
            spec_group_pairs(
                spec_changelog_pairs(csv, av, repo_view(*repo_info), tv, package_name@),
                Seq::empty(),
            ),
        ));
    }
    chars_string(&out)
}

/// The view of the accumulated groups.
pub open spec fn groups_view(groups: Seq<(String, Vec<String>)>) -> Seq<
    (Seq<char>, Seq<Seq<char>>),
> {
    groups.map_values(
        |g: (String, Vec<String>)| (g.0@, g.1@.map_values(|s: String| s@)),
    )
}

/// Index of the attribution commit among commits listed oldest first: the
/// first whose facts say it introduced or last touched the changeset's path
/// (for the root commit, that the path exists in its tree; for any other,
/// that its diff against its first parent, restricted to the path, is
/// nonempty). `None` when no commit matches.
pub fn first_introducing(touches: &Vec<bool>) -> (r: Option<usize>)
    ensures
        match r {
            Some(i) => {
                &&& (i as int) < touches@.len()
                &&& touches@[i as int]
                &&& forall|j: int| 0 <= j < i ==> !touches@[j]
            },
            None => forall|j: int| 0 <= j < touches@.len() ==> !touches@[j],
        },
{
    let mut i: usize = 0;
    while i < touches.len()
        invariant
            i <= touches@.len(),
            forall|j: int| 0 <= j < i ==> !touches@[j],
        decreases touches.len() - i,
    {
        if touches[i] {
            return Some(i);
        }
        i = i + 1;
    }
    return None;
}

} // verus!
