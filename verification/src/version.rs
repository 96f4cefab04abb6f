//! The version engine: bump-level aggregation across changesets and
//! semantic-version computation, including the prerelease counter rules.

use vstd::prelude::*;

use crate::changeset::{BumpLevel, ChangePackageV, Changeset, ChangesetV};
use crate::error::ResolveError;
use crate::text;
use crate::text::{chars_string, has_char, str_chars};

verus! {

/// The decimal digit characters, by value.
pub open spec fn digit_char(d: int) -> char {
    if d == 0 {
        '0'
    } else if d == 1 {
        '1'
    } else if d == 2 {
        '2'
    } else if d == 3 {
        '3'
    } else if d == 4 {
        '4'
    } else if d == 5 {
        '5'
    } else if d == 6 {
        '6'
    } else if d == 7 {
        '7'
    } else if d == 8 {
        '8'
    } else {
        '9'
    }
}

/// The value of a decimal digit character, `-1` for any other character.
pub open spec fn digit_val(c: char) -> int {
    if c == '0' {
        0
    } else if c == '1' {
        1
    } else if c == '2' {
        2
    } else if c == '3' {
        3
    } else if c == '4' {
        4
    } else if c == '5' {
        5
    } else if c == '6' {
        6
    } else if c == '7' {
        7
    } else if c == '8' {
        8
    } else if c == '9' {
        9
    } else {
        -1
    }
}

/// The canonical decimal rendering of a natural number.
pub open spec fn dec_str(n: nat) -> Seq<char>
    decreases n,
{
    if n < 10 {
        seq![digit_char(n as int)]
    } else {
        dec_str(n / 10) + seq![digit_char((n % 10) as int)]
    }
}

/// The number a digit string denotes, read left to right.
pub open spec fn dec_val(s: Seq<char>) -> int
    decreases s.len(),
{
    if s.len() == 0 {
        0
    } else {
        dec_val(s.drop_last()) * 10 + digit_val(s.last())
    }
}

/// A nonempty string of decimal digits.
pub open spec fn is_dec(s: Seq<char>) -> bool {
    s.len() > 0 && forall|i: int| 0 <= i < s.len() ==> digit_val(#[trigger] s[i]) >= 0
}

/// Exec counterpart of `digit_char`.
fn digit_char_exec(d: u64) -> (r: char)
    requires
        d < 10,
    ensures
        r == digit_char(d as int),
{
    match d {
        0 => '0',
        1 => '1',
        2 => '2',
        3 => '3',
        4 => '4',
        5 => '5',
        6 => '6',
        7 => '7',
        8 => '8',
        _ => '9',
    }
}

/// Exec counterpart of `digit_val`.
pub fn digit_val_exec(c: char) -> (r: Option<u64>)
    ensures
        match r {
            Some(d) => d < 10 && digit_val(c) == d as int,
            None => digit_val(c) < 0,
        },
{
    match c {
        '0' => Some(0),
        '1' => Some(1),
        '2' => Some(2),
        '3' => Some(3),
        '4' => Some(4),
        '5' => Some(5),
        '6' => Some(6),
        '7' => Some(7),
        '8' => Some(8),
        '9' => Some(9),
        _ => None,
    }
}

/// Renders a number in decimal.
pub fn u64_chars(n: u64) -> (r: Vec<char>)
    ensures
        r@ == dec_str(n as nat),
    decreases n,
{
    if n < 10 {
        let mut v: Vec<char> = Vec::new();
        v.push(digit_char_exec(n));
        proof {
            assert(v@ =~= dec_str(n as nat));
        }
        v
    } else {
        let mut v = u64_chars(n / 10);
        v.push(digit_char_exec(n % 10));
        proof {
            assert(v@ =~= dec_str(n as nat));
        }
        v
    }
}

proof fn lemma_dec_val_nonneg(s: Seq<char>)
    requires
        forall|i: int| 0 <= i < s.len() ==> digit_val(#[trigger] s[i]) >= 0,
    ensures
        dec_val(s) >= 0,
    decreases s.len(),
{
    if s.len() > 0 {
        lemma_dec_val_nonneg(s.drop_last());
    }
}

proof fn lemma_dec_val_prefix(s: Seq<char>, i: int)
    requires
        is_dec(s),
        0 <= i <= s.len(),
    ensures
        dec_val(s) >= dec_val(s.take(i)),
    decreases s.len() - i,
{
    if i < s.len() {
        lemma_dec_val_prefix(s, i + 1);
        assert(s.take(i + 1).drop_last() =~= s.take(i));
        assert(s.take(i + 1).last() == s[i]);
        assert(dec_val(s.take(i + 1)) == dec_val(s.take(i)) * 10 + digit_val(s[i]));
        assert(forall|j: int| 0 <= j < s.take(i).len() ==> digit_val(#[trigger] s.take(i)[j]) >= 0);
        lemma_dec_val_nonneg(s.take(i));
        assert(digit_val(s[i]) >= 0);
        assert(dec_val(s.take(i)) * 10 >= dec_val(s.take(i)));
        assert(dec_val(s.take(i + 1)) >= dec_val(s.take(i)));
    } else {
        assert(s.take(i) =~= s);
    }
}

/// Reads a nonempty decimal digit string as a number; `None` when a character
/// is not a digit, the string is empty, or the value exceeds `u64::MAX`.
pub fn parse_u64(s: &Vec<char>) -> (r: Option<u64>)
    ensures
        match r {
            Some(v) => is_dec(s@) && v as int == dec_val(s@),
            None => !is_dec(s@) || dec_val(s@) > u64::MAX,
        },
{
    if s.len() == 0 {
        return None;
    }
    let mut acc: u64 = 0;
    let mut i: usize = 0;
    while i < s.len()
        invariant
            0 < s@.len(),
            i <= s.len(),
            forall|j: int| 0 <= j < i ==> digit_val(#[trigger] s@[j]) >= 0,
            acc as int == dec_val(s@.take(i as int)),
        decreases s.len() - i,
    {
        let d = match digit_val_exec(s[i]) {
            Some(d) => d,
            None => {
                return None;
            },
        };
        if acc > (u64::MAX - d) / 10 {
            proof {
                assert(s@.take(i as int + 1).drop_last() =~= s@.take(i as int));
                assert(dec_val(s@.take(i as int + 1)) == acc as int * 10 + d as int);
                assert(acc as int * 10 + d as int > u64::MAX) by (nonlinear_arith)
                    requires
                        acc > (u64::MAX - d) / 10,
                        d < 10,
                ;
                if is_dec(s@) {
                    lemma_dec_val_prefix(s@, i as int + 1);
                }
            }
            return None;
        }
        proof {
            assert(acc as int * 10 + d as int <= u64::MAX) by (nonlinear_arith)
                requires
                    acc <= (u64::MAX - d) / 10,
                    d < 10,
            ;
        }
        acc = acc * 10 + d;
        i = i + 1;
        proof {
            assert(s@.take(i as int).drop_last() =~= s@.take(i as int - 1));
            assert(s@.take(i as int).last() == s@[i as int - 1]);
        }
    }
    proof {
        assert(s@.take(s@.len() as int) =~= s@);
    }
    Some(acc)
}

/// The how of applying a bump: plain semantic increments, or a prerelease
/// channel with the given tag.
#[derive(Debug, Clone)]
pub enum VersionMode {
    Semantic,
    PreRelease { tag: String },
}

/// Mathematical image of a `VersionMode`.
pub enum VersionModeV {
    Semantic,
    PreRelease { tag: Seq<char> },
}

impl View for VersionMode {
    type V = VersionModeV;

    open spec fn view(&self) -> VersionModeV {
        match self {
            VersionMode::Semantic => VersionModeV::Semantic,
            VersionMode::PreRelease { tag } => VersionModeV::PreRelease { tag: tag@ },
        }
    }
}

/// A semantic version as the engine reads it: the numeric triple, the
/// dot-separated prerelease components (empty when the version is a final
/// release), and the build metadata text (carried through unchanged).
#[derive(Debug, Clone)]
pub struct Version {
    pub major: u64,
    pub minor: u64,
    pub patch: u64,
    pub pre: Vec<String>,
    pub build: String,
}

/// Mathematical image of a `Version`.
pub struct VersionV {
    pub major: u64,
    pub minor: u64,
    pub patch: u64,
    pub pre: Seq<Seq<char>>,
    pub build: Seq<char>,
}

impl View for Version {
    type V = VersionV;

    open spec fn view(&self) -> VersionV {
        VersionV {
            major: self.major,
            minor: self.minor,
            patch: self.patch,
            pre: self.pre@.map_values(|s: String| s@),
            build: self.build@,
        }
    }
}

/// What `semver::Version::parse` reads out of a version string: `None` when
/// the string is not a valid semantic version.
pub uninterp spec fn parsed_semver(s: Seq<char>) -> Option<VersionV>;

/// Relies on `semver::Version::parse` for the semantic-version grammar; the
/// result is a function of the input string alone. On success the prerelease
/// part is a sequence of nonempty dot-free components, as semver's grammar
/// guarantees of dot-separated identifiers.
#[verifier::external_body]
fn semver_parse(s: &str) -> (r: Result<Version, String>)
    ensures
        match r {
            Ok(v) => {
                &&& parsed_semver(s@) == Some(v@)
                &&& forall|i: int|
                    0 <= i < v@.pre.len() ==> (#[trigger] v@.pre[i]).len() > 0 && !has_char(
                        v@.pre[i],
                        '.',
                    )
            },
            Err(_) => parsed_semver(s@) is None,
        },
{
    match semver::Version::parse(s) {
        Ok(v) => {
            let pre: Vec<String> = if v.pre.is_empty() {
                Vec::new()
            } else {
                v.pre.as_str().split('.').map(|p| p.to_string()).collect()
            };
            let build = v.build.as_str().to_string();
            Ok(Version { major: v.major, minor: v.minor, patch: v.patch, pre, build })
        },
        Err(e) => Err(e.to_string()),
    }
}

/// Parses a version string into the engine's version model.
pub fn parse_version(s: &str) -> (r: Result<Version, ResolveError>)
    ensures
        match r {
            Ok(v) => parsed_semver(s@) == Some(v@),
            Err(e) => parsed_semver(s@) is None && (match e {
                ResolveError::InvalidVersion { version, reason: _ } => version@ == s@,
                _ => false,
            }),
        },
{
    match semver_parse(s) {
        Ok(v) => Ok(v),
        Err(m) => Err(ResolveError::InvalidVersion { version: s.to_owned(), reason: m }),
    }
}

/// The prerelease components joined with dots.
pub open spec fn join_dot(parts: Seq<Seq<char>>) -> Seq<char>
    decreases parts.len(),
{
    if parts.len() == 0 {
        Seq::empty()
    } else if parts.len() == 1 {
        parts[0]
    } else {
        parts[0] + seq!['.'] + join_dot(parts.drop_first())
    }
}

/// The canonical text of a version: `major.minor.patch[-pre][+build]`.
pub open spec fn version_str(v: VersionV) -> Seq<char> {
    dec_str(v.major as nat) + seq!['.'] + dec_str(v.minor as nat) + seq!['.'] + dec_str(
        v.patch as nat,
    ) + (if v.pre.len() > 0 {
        seq!['-'] + join_dot(v.pre)
    } else {
        Seq::<char>::empty()
    }) + (if v.build.len() > 0 {
        seq!['+'] + v.build
    } else {
        Seq::<char>::empty()
    })
}

/// Renders a version as text.
pub fn version_string(v: &Version) -> (r: String)
    ensures
        r@ == version_str(v@),
{
    let mut out: Vec<char> = u64_chars(v.major);
    out.push('.');
    let mut mc = u64_chars(v.minor);
    out.append(&mut mc);
    out.push('.');
    let mut pc = u64_chars(v.patch);
    out.append(&mut pc);
    if v.pre.len() > 0 {
        out.push('-');
        let mut i: usize = 0;
        let ghost pre = v@.pre;
        let ghost base = out@;
        while i < v.pre.len()
            invariant
                i <= v.pre.len(),
                pre == v@.pre,
                pre.len() == v.pre@.len(),
                0 < pre.len(),
                forall|j: int| 0 <= j < pre.len() ==> pre[j] == #[trigger] v.pre@[j]@,
                i == 0 ==> out@ == base,
                0 < i ==> out@ == base + join_dot(pre.take(i as int)),
            decreases v.pre.len() - i,
        {
            if i > 0 {
                out.push('.');
            }
            let mut cc = str_chars(v.pre[i].as_str());
            out.append(&mut cc);
            proof {
                if i == 0 {
                    assert(join_dot(pre.take(1)) == pre.take(1)[0]);
                    assert(out@ =~= base + join_dot(pre.take(1)));
                } else {
                    lemma_join_dot_snoc(pre.take(i as int), pre[i as int]);
                    assert(pre.take(i as int).push(pre[i as int]) =~= pre.take(i + 1));
                    assert(out@ =~= base + join_dot(pre.take(i + 1)));
                }
            }
            i = i + 1;
        }
        proof {
            assert(pre.take(pre.len() as int) =~= pre);
        }
    }
    if v.build.as_str().unicode_len() > 0 {
        out.push('+');
        let mut bc = str_chars(v.build.as_str());
        out.append(&mut bc);
    }
    proof {
        assert(out@ =~= version_str(v@));
    }
    chars_string(&out)
}

/// Whether the numeric component a semantic bump increments has headroom.
/// A machine limit only: release numbering never approaches it.
pub open spec fn bump_in_range(v: VersionV, level: BumpLevel) -> bool {
    v.pre.len() > 0 || match level {
        BumpLevel::Major => v.major < u64::MAX,
        BumpLevel::Minor => v.minor < u64::MAX,
        BumpLevel::Patch => v.patch < u64::MAX,
        BumpLevel::Unchanged => true,
    }
}

/// What a semantic bump produces: a prerelease is promoted to its final
/// release (the prerelease part is cleared, the triple untouched) whatever
/// the level; otherwise the level's component increments and the lower
/// components reset.
pub open spec fn spec_semantic_bump(v: VersionV, level: BumpLevel) -> VersionV {
    if v.pre.len() > 0 {
        VersionV { pre: Seq::empty(), ..v }
    } else {
        match level {
            BumpLevel::Major => VersionV {
                major: (v.major + 1) as u64,
                minor: 0,
                patch: 0,
                ..v
            },
            BumpLevel::Minor => VersionV { minor: (v.minor + 1) as u64, patch: 0, ..v },
            BumpLevel::Patch => VersionV { patch: (v.patch + 1) as u64, ..v },
            BumpLevel::Unchanged => v,
        }
    }
}

/// True when some prerelease component equals `tag`.
pub open spec fn has_component(pre: Seq<Seq<char>>, tag: Seq<char>) -> bool {
    exists|i: int| 0 <= i < pre.len() && pre[i] == tag
}

/// Position of the first prerelease component equal to `tag`, when one
/// exists.
pub open spec fn pre_tag_pos(pre: Seq<Seq<char>>, tag: Seq<char>) -> int {
    choose|i: int|
        0 <= i < pre.len() && pre[i] == tag && (forall|j: int| 0 <= j < i ==> pre[j] != tag)
}

/// What a prerelease bump produces. A version without the tag's channel
/// starts it at `<tag>.0` (replacing any other channel outright). Within the
/// channel, the component after the tag is a counter: it increments when it
/// parses as a number, is appended as `1` when missing, and is rejected
/// (`None`) when unparsable or at the numeric limit.
pub open spec fn spec_prerelease_bump(pre: Seq<Seq<char>>, tag: Seq<char>) -> Option<
    Seq<Seq<char>>,
> {
    if !has_component(pre, tag) {
        Some(seq![tag, seq!['0']])
    } else {
        let i = pre_tag_pos(pre, tag);
        if i + 1 < pre.len() {
            let c = pre[i + 1];
            if is_dec(c) && dec_val(c) < u64::MAX {
                Some(pre.update(i + 1, dec_str((dec_val(c) + 1) as nat)))
            } else {
                None
            }
        } else {
            Some(pre.push(seq!['1']))
        }
    }
}

/// Finds the first prerelease component equal to `tagc`.
fn find_component(pre: &Vec<String>, tagc: &Vec<char>) -> (r: Option<usize>)
    ensures
        match r {
            Some(p) => {
                &&& (p as int) < pre@.len()
                &&& pre@[p as int]@ == tagc@
                &&& forall|j: int| 0 <= j < p ==> pre@[j]@ != tagc@
            },
            None => forall|j: int| 0 <= j < pre@.len() ==> pre@[j]@ != tagc@,
        },
{
    let mut i: usize = 0;
    while i < pre.len()
        invariant
            i <= pre@.len(),
            forall|j: int| 0 <= j < i ==> pre@[j]@ != tagc@,
        decreases pre.len() - i,
    {
        let cc = str_chars(pre[i].as_str());
        if text::chars_eq(&cc, tagc) {
            return Some(i);
        }
        i = i + 1;
    }
    return None;
}

/// Pins down `pre_tag_pos` from a witness with a tag-free prefix.
proof fn lemma_pre_tag_pos(pre: Seq<Seq<char>>, tag: Seq<char>, i: int)
    requires
        0 <= i < pre.len(),
        pre[i] == tag,
        forall|j: int| 0 <= j < i ==> pre[j] != tag,
    ensures
        has_component(pre, tag),
        pre_tag_pos(pre, tag) == i,
{
    assert(has_component(pre, tag));
    let w = pre_tag_pos(pre, tag);
    assert(0 <= w < pre.len() && pre[w] == tag && (forall|j: int| 0 <= j < w ==> pre[j] != tag))
        by {
        assert(0 <= i < pre.len() && pre[i] == tag && (forall|j: int| 0 <= j < i ==> pre[j] != tag));
    }
    if w < i {
        assert(pre[w] != tag);
    }
    if w > i {
        assert(pre[i] != tag);
    }
}

impl Version {
    /// Applies a prerelease bump with the given tag to this version's
    /// prerelease part, leaving the numeric triple and build metadata alone.
    pub fn bump_prerelease(&mut self, tag: &str) -> (r: Result<(), ResolveError>)
        ensures
            match r {
                Ok(_) => {
                    &&& spec_prerelease_bump(old(self)@.pre, tag@) == Some(final(self)@.pre)
                    &&& final(self)@.major == old(self)@.major
                    &&& final(self)@.minor == old(self)@.minor
                    &&& final(self)@.patch == old(self)@.patch
                    &&& final(self)@.build == old(self)@.build
                },
                Err(e) => {
                    &&& spec_prerelease_bump(old(self)@.pre, tag@) is None
                    &&& final(self)@ == old(self)@
                    &&& match e {
                        ResolveError::InvalidVersion { version: v, reason: _ } => v@
                            == version_str(old(self)@),
                        _ => false,
                    }
                },
            },
    {
        let ghost prev = self@.pre;
        let tagc = str_chars(tag);
        let pos = find_component(&self.pre, &tagc);
        match pos {
            None => {
                proof {
                    assert(forall|j: int| 0 <= j < prev.len() ==> prev[j] == self.pre@[j]@);
                    if has_component(prev, tag@) {
                        let w = choose|j: int| 0 <= j < prev.len() && prev[j] == tag@;
                        assert(prev[w] != tag@);
                    }
                }
                let mut np: Vec<String> = Vec::new();
                np.push(tag.to_owned());
                let mut zero: Vec<char> = Vec::new();
                zero.push('0');
                np.push(chars_string(&zero));
                self.pre = np;
                proof {
                    assert(self@.pre =~= seq![tag@, seq!['0']]);
                }
                Ok(())
            },
            Some(p) => {
                proof {
                    assert(forall|j: int| 0 <= j < prev.len() ==> prev[j] == self.pre@[j]@);
                    lemma_pre_tag_pos(prev, tag@, p as int);
                }
                let n = self.pre.len();
                proof {
                    assert(p < n);
                }
                if p + 1 < n {
                    let cc = str_chars(self.pre[p + 1].as_str());
                    let counter = match parse_u64(&cc) {
                        Some(c) => c,
                        None => {
                            return Err(
                                ResolveError::InvalidVersion {
                                    version: version_string(self),
                                    reason: String::from_str(
                                        "prerelease counter is not a number",
                                    ),
                                },
                            );
                        },
                    };
                    if counter == u64::MAX {
                        return Err(
                            ResolveError::InvalidVersion {
                                version: version_string(self),
                                reason: String::from_str("prerelease counter is out of range"),
                            },
                        );
                    }
                    let nc = u64_chars(counter + 1);
                    self.pre.set(p + 1, chars_string(&nc));
                    proof {
                        assert(self@.pre =~= prev.update(
                            p + 1,
                            dec_str((dec_val(prev[p as int + 1]) + 1) as nat),
                        ));
                    }
                    Ok(())
                } else {
                    let mut one: Vec<char> = Vec::new();
                    one.push('1');
                    self.pre.push(chars_string(&one));
                    proof {
                        assert(self@.pre =~= prev.push(seq!['1']));
                    }
                    Ok(())
                }
            },
        }
    }

    /// Applies a bump of the given level to this version, under the given
    /// mode. Under `Semantic` the triple moves as `spec_semantic_bump` says
    /// (a prerelease is promoted instead); under `PreRelease` an empty tag is
    /// rejected and the prerelease part moves as `spec_prerelease_bump` says.
    pub fn bump(&mut self, level: BumpLevel, mode: &VersionMode) -> (r: Result<(), ResolveError>)
        requires
            mode@ is Semantic ==> bump_in_range(old(self)@, level),
        ensures
            match mode@ {
                VersionModeV::Semantic => {
                    &&& r is Ok
                    &&& final(self)@ == spec_semantic_bump(old(self)@, level)
                },
                VersionModeV::PreRelease { tag } => {
                    if tag.len() == 0 {
                        &&& final(self)@ == old(self)@
                        &&& match r {
                            Err(ResolveError::PreReleaseTagInvalid { tag: t, message: _ }) => t@
                                == tag,
                            _ => false,
                        }
                    } else {
                        match r {
                            Ok(_) => {
                                &&& spec_prerelease_bump(old(self)@.pre, tag) == Some(
                                    final(self)@.pre,
                                )
                                &&& final(self)@.major == old(self)@.major
                                &&& final(self)@.minor == old(self)@.minor
                                &&& final(self)@.patch == old(self)@.patch
                                &&& final(self)@.build == old(self)@.build
                            },
                            Err(e) => {
                                &&& spec_prerelease_bump(old(self)@.pre, tag) is None
                                &&& final(self)@ == old(self)@
                                &&& match e {
                                    ResolveError::InvalidVersion { version: v, reason: _ } => v@
                                        == version_str(old(self)@),
                                    _ => false,
                                }
                            },
                        }
                    }
                },
            },
    {
        match mode {
            VersionMode::Semantic => {
                if self.pre.len() > 0 {
                    self.pre = Vec::new();
                    proof {
                        assert(self@.pre =~= Seq::<Seq<char>>::empty());
                    }
                } else {
                    match level {
                        BumpLevel::Major => {
                            self.major = self.major + 1;
                            self.minor = 0;
                            self.patch = 0;
                        },
                        BumpLevel::Minor => {
                            self.minor = self.minor + 1;
                            self.patch = 0;
                        },
                        BumpLevel::Patch => {
                            self.patch = self.patch + 1;
                        },
                        BumpLevel::Unchanged => {},
                    }
                }
                Ok(())
            },
            VersionMode::PreRelease { tag } => {
                if tag.as_str().unicode_len() == 0 {
                    Err(
                        ResolveError::PreReleaseTagInvalid {
                            tag: tag.clone(),
                            message: String::from_str("prerelease tag is empty"),
                        },
                    )
                } else {
                    let t = tag.clone();
                    self.bump_prerelease(t.as_str())
                }
            },
        }
    }
}

/// Applies a bump of the given level to `version` under `mode`: the version
/// moves exactly as `Version::bump` says.
pub fn bump_version(version: &mut Version, level: BumpLevel, mode: &VersionMode) -> (r: Result<
    (),
    ResolveError,
>)
    requires
        mode@ is Semantic ==> bump_in_range(old(version)@, level),
    ensures
        match mode@ {
            VersionModeV::Semantic => {
                &&& r is Ok
                &&& final(version)@ == spec_semantic_bump(old(version)@, level)
            },
            VersionModeV::PreRelease { tag } => {
                if tag.len() == 0 {
                    &&& final(version)@ == old(version)@
                    &&& match r {
                        Err(ResolveError::PreReleaseTagInvalid { tag: t, message: _ }) => t@
                            == tag,
                        _ => false,
                    }
                } else {
                    match r {
                        Ok(_) => {
                            &&& spec_prerelease_bump(old(version)@.pre, tag) == Some(
                                final(version)@.pre,
                            )
                            &&& final(version)@.major == old(version)@.major
                            &&& final(version)@.minor == old(version)@.minor
                            &&& final(version)@.patch == old(version)@.patch
                            &&& final(version)@.build == old(version)@.build
                        },
                        Err(e) => {
                            &&& spec_prerelease_bump(old(version)@.pre, tag) is None
                            &&& final(version)@ == old(version)@
                            &&& match e {
                                ResolveError::InvalidVersion { version: v, reason: _ } => v@
                                    == version_str(old(version)@),
                                _ => false,
                            }
                        },
                    }
                }
            },
        },
{
    version.bump(level, mode)
}

/// The more severe of two levels.
pub open spec fn spec_level_max(a: BumpLevel, b: BumpLevel) -> BumpLevel {
    if a.ordinal() >= b.ordinal() {
        a
    } else {
        b
    }
}

/// The level an entry contributes to the package called `name`.
pub open spec fn entry_level(p: ChangePackageV, name: Seq<char>) -> BumpLevel {
    if p.name == name {
        p.level
    } else {
        BumpLevel::Unchanged
    }
}

/// The most severe level the entries of one changeset request for `name`.
pub open spec fn entries_level(ps: Seq<ChangePackageV>, name: Seq<char>) -> BumpLevel
    decreases ps.len(),
{
    if ps.len() == 0 {
        BumpLevel::Unchanged
    } else {
        spec_level_max(entries_level(ps.drop_last(), name), entry_level(ps.last(), name))
    }
}

/// The most severe level any changeset requests for `name`; `Unchanged` when
/// none mentions it.
pub open spec fn spec_bump_level(cs: Seq<ChangesetV>, name: Seq<char>) -> BumpLevel
    decreases cs.len(),
{
    if cs.len() == 0 {
        BumpLevel::Unchanged
    } else {
        spec_level_max(spec_bump_level(cs.drop_last(), name), entries_level(cs.last().packages, name))
    }
}

/// The views of a list of changesets.
pub open spec fn changesets_view(cs: Seq<Changeset>) -> Seq<ChangesetV> {
    cs.map_values(|c: Changeset| c@)
}

/// Scans all changesets and returns the most severe bump level requested for
/// the named package, `Unchanged` when no entry names it.
pub fn get_bump_level(changesets: &Vec<Changeset>, package_name: &str) -> (r: BumpLevel)
    ensures
        r == spec_bump_level(changesets_view(changesets@), package_name@),
{
    let ghost csv = changesets_view(changesets@);
    let namec = str_chars(package_name);
    let mut level = BumpLevel::Unchanged;
    let mut i: usize = 0;
    while i < changesets.len()
        invariant
            i <= changesets@.len(),
            csv == changesets_view(changesets@),
            csv.len() == changesets@.len(),
            forall|j: int| 0 <= j < csv.len() ==> csv[j] == #[trigger] changesets@[j]@,
            namec@ == package_name@,
            level == spec_bump_level(csv.take(i as int), package_name@),
        decreases changesets.len() - i,
    {
        let ghost ps = csv[i as int].packages;
        let cs = &changesets[i];
        let mut k: usize = 0;
        let mut inner = BumpLevel::Unchanged;
        while k < cs.packages.len()
            invariant
                k <= cs.packages@.len(),
                ps == csv[i as int].packages,
                i < csv.len(),
                csv[i as int] == changesets@[i as int]@,
                cs == changesets@[i as int],
                ps.len() == cs.packages@.len(),
                forall|j: int| 0 <= j < ps.len() ==> ps[j] == #[trigger] cs.packages@[j]@,
                namec@ == package_name@,
                inner == entries_level(ps.take(k as int), package_name@),
            decreases cs.packages.len() - k,
        {
            let pc = str_chars(cs.packages[k].name.as_str());
            if text::chars_eq(&pc, &namec) {
                inner = inner.max_with(cs.packages[k].level);
            }
            proof {
                assert(ps.take(k as int + 1).drop_last() =~= ps.take(k as int));
                assert(ps.take(k as int + 1).last() == ps[k as int]);
            }
            k = k + 1;
        }
        proof {
            assert(ps.take(ps.len() as int) =~= ps);
            assert(csv.take(i as int + 1).drop_last() =~= csv.take(i as int));
            assert(csv.take(i as int + 1).last() == csv[i as int]);
        }
        level = level.max_with(inner);
        i = i + 1;
    }
    proof {
        assert(csv.take(csv.len() as int) =~= csv);
    }
    level
}

proof fn lemma_entries_level_max(ps: Seq<ChangePackageV>, name: Seq<char>)
    ensures
        forall|j: int|
            0 <= j < ps.len() && (#[trigger] ps[j]).name == name ==> ps[j].level.ordinal()
                <= entries_level(ps, name).ordinal(),
        entries_level(ps, name) != BumpLevel::Unchanged ==> exists|j: int|
            0 <= j < ps.len() && (#[trigger] ps[j]).name == name && ps[j].level == entries_level(
                ps,
                name,
            ),
    decreases ps.len(),
{
    if ps.len() > 0 {
        lemma_entries_level_max(ps.drop_last(), name);
        assert(forall|j: int| 0 <= j < ps.len() - 1 ==> ps.drop_last()[j] == #[trigger] ps[j]);
        let e = entries_level(ps, name);
        if e != BumpLevel::Unchanged {
            if entry_level(ps.last(), name) == e && ps.last().name == name {
                assert(0 <= ps.len() - 1 < ps.len() && ps[ps.len() - 1].name == name
                    && ps[ps.len() - 1].level == e);
            } else {
                assert(entries_level(ps.drop_last(), name) == e);
                let w = choose|j: int|
                    0 <= j < ps.drop_last().len() && (#[trigger] ps.drop_last()[j]).name == name
                        && ps.drop_last()[j].level == e;
                assert(0 <= w < ps.len() && ps[w].name == name && ps[w].level == e);
            }
        }
    }
}

/// The aggregation law: the level `get_bump_level` computes dominates every
/// entry that names the package, and — unless it is `Unchanged` — is itself
/// requested by some entry naming the package. Levels never add up: the
/// maximum alone decides.
pub proof fn lemma_bump_level_is_max(cs: Seq<ChangesetV>, name: Seq<char>)
    ensures
        forall|i: int, j: int|
            0 <= i < cs.len() && 0 <= j < cs[i].packages.len() && (#[trigger] cs[i].packages[j]).name
                == name ==> cs[i].packages[j].level.ordinal() <= spec_bump_level(cs, name).ordinal(),
        spec_bump_level(cs, name) != BumpLevel::Unchanged ==> exists|i: int, j: int|
            0 <= i < cs.len() && 0 <= j < cs[i].packages.len() && (#[trigger] cs[i].packages[j]).name
                == name && cs[i].packages[j].level == spec_bump_level(cs, name),
    decreases cs.len(),
{
    if cs.len() > 0 {
        lemma_bump_level_is_max(cs.drop_last(), name);
        lemma_entries_level_max(cs.last().packages, name);
        assert(forall|i: int| 0 <= i < cs.len() - 1 ==> cs.drop_last()[i] == #[trigger] cs[i]);
        let m = spec_bump_level(cs, name);
        assert forall|i: int, j: int|
            0 <= i < cs.len() && 0 <= j < cs[i].packages.len() && (#[trigger] cs[i].packages[j]).name
                == name implies cs[i].packages[j].level.ordinal() <= m.ordinal() by {
            if i < cs.len() - 1 {
                assert(cs.drop_last()[i] == cs[i]);
                assert(cs[i].packages[j].level.ordinal() <= spec_bump_level(
                    cs.drop_last(),
                    name,
                ).ordinal());
            } else {
                assert(cs[i].packages[j].level.ordinal() <= entries_level(
                    cs.last().packages,
                    name,
                ).ordinal());
            }
        }
        if m != BumpLevel::Unchanged {
            if entries_level(cs.last().packages, name) == m {
                let w = choose|j: int|
                    0 <= j < cs.last().packages.len() && (#[trigger] cs.last().packages[j]).name
                        == name && cs.last().packages[j].level == m;
                assert(0 <= cs.len() - 1 < cs.len() && 0 <= w < cs[cs.len() - 1].packages.len()
                    && cs[cs.len() - 1].packages[w].name == name && cs[cs.len()
                    - 1].packages[w].level == m);
            } else {
                assert(spec_bump_level(cs.drop_last(), name) == m);
                let (wi, wj) = choose|i: int, j: int|
                    0 <= i < cs.drop_last().len() && 0 <= j < cs.drop_last()[i].packages.len() && (
                    #[trigger] cs.drop_last()[i].packages[j]).name == name
                        && cs.drop_last()[i].packages[j].level == m;
                assert(0 <= wi < cs.len() && 0 <= wj < cs[wi].packages.len() && cs[wi].packages[wj].name
                    == name && cs[wi].packages[wj].level == m);
            }
        }
    }
}

proof fn lemma_join_dot_snoc(parts: Seq<Seq<char>>, p: Seq<char>)
    requires
        parts.len() > 0,
    ensures
        join_dot(parts.push(p)) == join_dot(parts) + seq!['.'] + p,
    decreases parts.len(),
{
    if parts.len() == 1 {
        assert(parts.push(p)[0] == parts[0]);
        assert(parts.push(p).drop_first() =~= seq![p]);
        assert(join_dot(seq![p]) == p);
        assert(join_dot(parts.push(p)) =~= join_dot(parts) + seq!['.'] + p);
    } else {
        assert(parts.push(p)[0] == parts[0]);
        assert(parts.push(p).drop_first() =~= parts.drop_first().push(p));
        lemma_join_dot_snoc(parts.drop_first(), p);
        assert(join_dot(parts.push(p)) =~= join_dot(parts) + seq!['.'] + p);
    }
}

} // verus!
