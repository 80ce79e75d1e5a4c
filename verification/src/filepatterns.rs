//! Handling of path patterns: classification of the syntax prefixes,
//! translation of glob and path patterns into byte regexes, parsing of
//! pattern files, and sub-include bookkeeping.
//!
//! All patterns are byte strings; regexes are produced as byte strings too.

use vstd::prelude::*;

verus! {

/// The recognized pattern syntaxes.
#[derive(Debug, PartialEq, Eq)]
pub enum PatternSyntax {
    /// A regular expression
    Regexp,
    /// Glob that matches at the front of the path
    RootGlob,
    /// Glob that matches at any suffix of the path (still anchored at
    /// slashes)
    Glob,
    /// A path relative to repository root, which is matched recursively
    Path,
    /// A single exact path relative to repository root
    FilePath,
    /// A path relative to cwd
    RelPath,
    /// An unrooted glob (*.rs matches Rust files in all dirs)
    RelGlob,
    /// A regexp that needn't match the start of a name
    RelRegexp,
    /// A path relative to repository root, which is matched non-recursively
    /// (will not match subdirectories)
    RootFiles,
    /// A file of patterns to read and include
    Include,
    /// A file of patterns to match against files under the same directory
    SubInclude,
    /// SubInclude with the result of parsing the included file
    ExpandedSubInclude(Box<SubInclude>),
}

/// Represents an entry in an "ignore" file.
#[derive(Debug, PartialEq, Eq)]
pub struct IgnorePattern {
    pub syntax: PatternSyntax,
    pub pattern: Vec<u8>,
    pub source: Vec<u8>,
}

/// Holds all the information needed to handle a `subinclude:` pattern.
#[derive(Debug, PartialEq, Eq)]
pub struct SubInclude {
    /// Used for repository paths that start with this prefix: the directory
    /// of the pattern file relative to the repository root, with a trailing
    /// slash unless empty.
    pub prefix: Vec<u8>,
    /// The file itself, containing the patterns
    pub path: Vec<u8>,
    /// Folder in the filesystem where it applies
    pub root: Vec<u8>,
    pub included_patterns: Vec<IgnorePattern>,
}

/// Errors a pattern can produce.
#[derive(Debug)]
pub enum PatternError {
    /// A pattern syntax name that is not recognized.
    UnsupportedSyntax(String),
    /// A non-regex pattern was handed to the regex builder.
    NonRegexPattern(IgnorePattern),
}

/// Non-fatal warnings collected while reading pattern files.
#[derive(Debug, PartialEq, Eq)]
pub enum PatternFileWarning {
    /// (file path, syntax bytes)
    InvalidSyntax(Vec<u8>, Vec<u8>),
    /// File path
    NoSuchFile(Vec<u8>),
}

/// The first index `j >= i` with `s[j] == b`, if any.
pub open spec fn find_byte(s: Seq<u8>, b: u8, i: int) -> Option<int>
    decreases s.len() - i,
{
    if i < 0 || i >= s.len() {
        None
    } else if s[i] == b {
        Some(i)
    } else {
        find_byte(s, b, i + 1)
    }
}

pub proof fn lemma_find_byte(s: Seq<u8>, b: u8, i: int)
    requires
        i >= 0,
    ensures
        find_byte(s, b, i) matches Some(j) ==> i <= j < s.len() && s[j] == b && (forall|k: int|
            i <= k < j ==> s[k] != b),
        find_byte(s, b, i) is None ==> forall|k: int| i <= k < s.len() ==> s[k] != b,
    decreases s.len() - i,
{
    if i < s.len() && s[i] != b {
        lemma_find_byte(s, b, i + 1);
    }
}

/// The bytes that the escape table prefixes with a backslash: regex
/// metacharacters and a few control characters.
pub open spec fn is_escaped_byte(b: u8) -> bool {
    // ( ) [ ] { } ? * + - | ^ $ \ . & ~ # tab lf cr vt ff
    b == 40 || b == 41 || b == 91 || b == 93 || b == 123 || b == 125 || b == 63 || b == 42
        || b == 43 || b == 45 || b == 124 || b == 94 || b == 36 || b == 92 || b == 46 || b == 38
        || b == 126 || b == 35 || b == 9 || b == 10 || b == 13 || b == 11 || b == 12
}

/// What one byte escapes to: itself, backslash-prefixed when it is special.
pub open spec fn escape_byte(b: u8) -> Seq<u8> {
    if is_escaped_byte(b) {
        seq![92u8, b]
    } else {
        seq![b]
    }
}

/// The escape of the suffix of `s` starting at `i`.
pub open spec fn spec_escape_at(s: Seq<u8>, i: int) -> Seq<u8>
    decreases s.len() - i,
{
    if i < 0 || i >= s.len() {
        Seq::empty()
    } else {
        escape_byte(s[i]) + spec_escape_at(s, i + 1)
    }
}

/// The full escape of a pattern: each byte through the escape table.
pub open spec fn spec_escape(s: Seq<u8>) -> Seq<u8> {
    spec_escape_at(s, 0)
}

fn push_escaped(res: &mut Vec<u8>, b: u8)
    ensures
        final(res)@ == old(res)@ + escape_byte(b),
{
    if b == 40 || b == 41 || b == 91 || b == 93 || b == 123 || b == 125 || b == 63 || b == 42
        || b == 43 || b == 45 || b == 124 || b == 94 || b == 36 || b == 92 || b == 46 || b == 38
        || b == 126 || b == 35 || b == 9 || b == 10 || b == 13 || b == 11 || b == 12 {
        res.push(92);
        res.push(b);
        assert(res@ =~= old(res)@ + escape_byte(b));
    } else {
        res.push(b);
        assert(res@ =~= old(res)@ + escape_byte(b));
    }
}

/// Escapes every byte of the pattern through the escape table.
pub fn escape_pattern(pattern: &[u8]) -> (r: Vec<u8>)
    ensures
        r@ == spec_escape(pattern@),
{
    let mut res: Vec<u8> = Vec::new();
    let mut i: usize = 0;
    while i < pattern.len()
        invariant
            i <= pattern.len(),
            spec_escape(pattern@) == res@ + spec_escape_at(pattern@, i as int),
        decreases pattern.len() - i,
    {
        push_escaped(&mut res, pattern[i]);
        i = i + 1;
    }
    res
}

/// The first index `j >= start` with `s[j] == b`, if any; agrees with the
/// specification-level search.
pub fn find_byte_from(s: &[u8], b: u8, start: usize) -> (r: Option<usize>)
    ensures
        match r {
            Some(j) => find_byte(s@, b, start as int) == Some(j as int),
            None => find_byte(s@, b, start as int) is None,
        },
{
    let mut j: usize = start;
    while j < s.len()
        invariant
            start <= j,
            find_byte(s@, b, start as int) == find_byte(s@, b, j as int),
        decreases s.len() - j,
    {
        if s[j] == b {
            return Some(j);
        }
        j = j + 1;
    }
    None
}

/// What one byte inside a `[...]` character class translates to, at the
/// given position within the class: a leading `!` negates, a leading `^` is
/// escaped, a backslash is doubled, everything else passes through.
pub open spec fn class_byte(b: u8, pos: int) -> Seq<u8> {
    if b == 33 && pos == 0 {
        seq![94u8]
    } else if b == 94 && pos == 0 {
        seq![92u8, 94u8]
    } else if b == 92 {
        seq![92u8, 92u8]
    } else {
        seq![b]
    }
}

/// The translation of the class content `s[start .. end]`, from index `i`.
pub open spec fn spec_class_at(s: Seq<u8>, start: int, i: int, end: int) -> Seq<u8>
    decreases end - i,
{
    if i < start || i >= end || i >= s.len() {
        Seq::empty()
    } else {
        class_byte(s[i], i - start) + spec_class_at(s, start, i + 1, end)
    }
}

/// The glob-to-regex translation of the suffix of `s` starting at `i`, with
/// `depth` open `{` groups:
/// `**/` becomes `(?:.*/)?`, `**` becomes `.*`, `*` becomes `[^/]*`, `?`
/// becomes `.`; `[...]` classes translate via `class_byte` (an unterminated
/// `[` is a literal); `{`/`,`/`}` become `(?:`/`|`/`)`; a backslash escapes
/// the next byte; everything else passes through the escape table.
pub open spec fn spec_glob_at(s: Seq<u8>, i: int, depth: int) -> Seq<u8>
    decreases s.len() - i,
    via spec_glob_at_decreases
{
    if i < 0 || i >= s.len() {
        Seq::empty()
    } else {
        let c = s[i];
        if c == 42 {
            if s.len() - i > 2 && s[i + 1] == 42 && s[i + 2] == 47 {
                seq![40u8, 63u8, 58u8, 46u8, 42u8, 47u8, 41u8, 63u8] + spec_glob_at(s, i + 3, depth)
            } else if s.len() - i > 1 && s[i + 1] == 42 {
                seq![46u8, 42u8] + spec_glob_at(s, i + 2, depth)
            } else {
                seq![91u8, 94u8, 47u8, 93u8, 42u8] + spec_glob_at(s, i + 1, depth)
            }
        } else if c == 63 {
            seq![46u8] + spec_glob_at(s, i + 1, depth)
        } else if c == 91 {
            match find_byte(s, 93u8, i + 2) {
                None => seq![92u8, 91u8] + spec_glob_at(s, i + 1, depth),
                Some(j) => seq![91u8] + spec_class_at(s, i + 1, i + 1, j) + seq![93u8]
                    + spec_glob_at(s, j + 1, depth),
            }
        } else if c == 123 {
            seq![40u8, 63u8, 58u8] + spec_glob_at(s, i + 1, depth + 1)
        } else if c == 125 && depth > 0 {
            seq![41u8] + spec_glob_at(s, i + 1, depth - 1)
        } else if c == 44 && depth > 0 {
            seq![124u8] + spec_glob_at(s, i + 1, depth)
        } else if c == 92 {
            if s.len() - i > 1 {
                escape_byte(s[i + 1]) + spec_glob_at(s, i + 2, depth)
            } else {
                escape_byte(92u8) + spec_glob_at(s, i + 1, depth)
            }
        } else {
            escape_byte(c) + spec_glob_at(s, i + 1, depth)
        }
    }
}

#[via_fn]
proof fn spec_glob_at_decreases(s: Seq<u8>, i: int, depth: int) {
    if 0 <= i < s.len() && s[i] == 91 {
        lemma_find_byte(s, 93u8, i + 2);
    }
}

/// The glob-to-regex translation of a whole pattern.
pub open spec fn spec_glob(s: Seq<u8>) -> Seq<u8> {
    spec_glob_at(s, 0, 0)
}

/// Transforms a glob pattern into a regex.
pub fn glob_to_re(pat: &[u8]) -> (r: Vec<u8>)
    ensures
        r@ == spec_glob(pat@),
{
    let mut res: Vec<u8> = Vec::new();
    let mut i: usize = 0;
    let mut depth: usize = 0;
    while i < pat.len()
        invariant
            i <= pat.len(),
            depth <= i,
            spec_glob(pat@) == res@ + spec_glob_at(pat@, i as int, depth as int),
        decreases pat.len() - i,
    {
        let c = pat[i];
        if c == 42 {
            if pat.len() - i > 2 && pat[i + 1] == 42 && pat[i + 2] == 47 {
                let mut piece: Vec<u8> = vec![40u8, 63u8, 58u8, 46u8, 42u8, 47u8, 41u8, 63u8];
                res.append(&mut piece);
                i = i + 3;
            } else if pat.len() - i > 1 && pat[i + 1] == 42 {
                let mut piece: Vec<u8> = vec![46u8, 42u8];
                res.append(&mut piece);
                i = i + 2;
            } else {
                let mut piece: Vec<u8> = vec![91u8, 94u8, 47u8, 93u8, 42u8];
                res.append(&mut piece);
                i = i + 1;
            }
        } else if c == 63 {
            res.push(46);
            i = i + 1;
        } else if c == 91 {
            let end = if pat.len() - i > 2 {
                find_byte_from(pat, 93, i + 2)
            } else {
                None
            };
            match end {
                None => {
                    let mut piece: Vec<u8> = vec![92u8, 91u8];
                    res.append(&mut piece);
                    i = i + 1;
                },
                Some(j) => {
                    proof {
                        lemma_find_byte(pat@, 93u8, i as int + 2);
                    }
                    let ghost snap: Seq<u8> = res@;
                    let ghost start: int = i as int + 1;
                    let ghost target: Seq<u8> = spec_class_at(pat@, start, start, j as int);
                    res.push(91);
                    let mut k: usize = i + 1;
                    while k < j
                        invariant
                            i + 1 <= k <= j,
                            j < pat.len(),
                            start == i as int + 1,
                            target == spec_class_at(pat@, start, start, j as int),
                            res@ + spec_class_at(pat@, start, k as int, j as int) == snap
                                + seq![91u8] + target,
                        decreases j - k,
                    {
                        let b = pat[k];
                        let ghost before: Seq<u8> = res@;
                        if b == 33 && k == i + 1 {
                            res.push(94);
                        } else if b == 94 && k == i + 1 {
                            res.push(92);
                            res.push(94);
                        } else if b == 92 {
                            res.push(92);
                            res.push(92);
                        } else {
                            res.push(b);
                        }
                        assert(res@ =~= before + class_byte(pat@[k as int], k as int - start));
                        k = k + 1;
                    }
                    res.push(93);
                    assert(res@ =~= snap + (seq![91u8] + spec_class_at(
                        pat@,
                        start,
                        start,
                        j as int,
                    ) + seq![93u8]));
                    i = j + 1;
                },
            }
        } else if c == 123 {
            let mut piece: Vec<u8> = vec![40u8, 63u8, 58u8];
            res.append(&mut piece);
            depth = depth + 1;
            i = i + 1;
        } else if c == 125 && depth > 0 {
            res.push(41);
            depth = depth - 1;
            i = i + 1;
        } else if c == 44 && depth > 0 {
            res.push(124);
            i = i + 1;
        } else if c == 92 {
            if pat.len() - i > 1 {
                push_escaped(&mut res, pat[i + 1]);
                i = i + 2;
            } else {
                push_escaped(&mut res, 92);
                i = i + 1;
            }
        } else {
            push_escaped(&mut res, c);
            i = i + 1;
        }
    }
    res
}

/// The number of consecutive slashes in `s` from index `i` on.
pub open spec fn count_slashes_from(s: Seq<u8>, i: int) -> int
    decreases s.len() - i,
{
    if i < 0 || i >= s.len() || s[i] != 47 {
        0
    } else {
        1 + count_slashes_from(s, i + 1)
    }
}

/// How many leading slashes a normalized path keeps: one or two as given;
/// three or more collapse to a single one.
pub open spec fn initial_slashes(s: Seq<u8>) -> int {
    if count_slashes_from(s, 0) > 2 {
        1
    } else {
        count_slashes_from(s, 0)
    }
}

/// The pieces of `s[i ..]` split on the separator byte.
pub open spec fn split_from(s: Seq<u8>, sep: u8, i: int) -> Seq<Seq<u8>>
    decreases s.len() - i,
    via split_from_decreases
{
    if i < 0 || i > s.len() {
        Seq::empty()
    } else {
        match find_byte(s, sep, i) {
            None => seq![s.subrange(i, s.len() as int)],
            Some(j) => seq![s.subrange(i, j)] + split_from(s, sep, j + 1),
        }
    }
}

#[via_fn]
proof fn split_from_decreases(s: Seq<u8>, sep: u8, i: int) {
    if 0 <= i <= s.len() {
        lemma_find_byte(s, sep, i);
    }
}

pub open spec fn dot() -> Seq<u8> {
    seq![46u8]
}

pub open spec fn dotdot() -> Seq<u8> {
    seq![46u8, 46u8]
}

/// Which split pieces survive: empty pieces and `.` components are dropped.
pub open spec fn keep_comp(c: Seq<u8>) -> bool {
    c.len() > 0 && c != dot()
}

pub open spec fn filter_comps(cs: Seq<Seq<u8>>) -> Seq<Seq<u8>>
    decreases cs.len(),
{
    if cs.len() == 0 {
        Seq::empty()
    } else if keep_comp(cs[0]) {
        seq![cs[0]] + filter_comps(cs.skip(1))
    } else {
        filter_comps(cs.skip(1))
    }
}

/// One step of `..` resolution: a `..` component pops the previous
/// component, except at an absolute root, or when there is nothing left to
/// pop and the path is relative (then the `..` is kept).
pub open spec fn fold_step(acc: Seq<Seq<u8>>, comp: Seq<u8>, isl: int) -> Seq<Seq<u8>> {
    if comp != dotdot() || (isl == 0 && acc.len() == 0) || (acc.len() > 0 && acc.last()
        == dotdot()) {
        acc.push(comp)
    } else if acc.len() > 0 {
        acc.drop_last()
    } else {
        acc
    }
}

pub open spec fn fold_comps(acc: Seq<Seq<u8>>, cs: Seq<Seq<u8>>, isl: int) -> Seq<Seq<u8>>
    decreases cs.len(),
{
    if cs.len() == 0 {
        acc
    } else {
        fold_comps(fold_step(acc, cs[0], isl), cs.skip(1), isl)
    }
}

pub open spec fn join_comps(cs: Seq<Seq<u8>>) -> Seq<u8>
    decreases cs.len(),
{
    if cs.len() == 0 {
        Seq::empty()
    } else if cs.len() == 1 {
        cs[0]
    } else {
        cs[0] + seq![47u8] + join_comps(cs.skip(1))
    }
}

pub open spec fn slashes(n: int) -> Seq<u8> {
    Seq::new(n as nat, |i: int| 47u8)
}

/// What is still to be emitted when joining `cs` once the first `k`
/// components are out: a separating slash and the rest.
pub open spec fn join_rest(cs: Seq<Seq<u8>>, k: int) -> Seq<u8> {
    if k >= cs.len() {
        Seq::empty()
    } else if k == 0 {
        join_comps(cs)
    } else {
        seq![47u8] + join_comps(cs.skip(k))
    }
}

/// Path normalization: collapse duplicate slashes, drop `.` components,
/// resolve `..` against the accumulated components (but never above an
/// absolute root), keep up to two leading slashes, and map an empty result
/// to `.`.
pub open spec fn spec_normalize(s: Seq<u8>) -> Seq<u8> {
    if s.len() == 0 {
        dot()
    } else {
        let isl = initial_slashes(s);
        let cs = fold_comps(Seq::empty(), filter_comps(split_from(s, 47u8, 0)), isl);
        let r = slashes(isl) + join_comps(cs);
        if r.len() == 0 {
            dot()
        } else {
            r
        }
    }
}

fn is_dot(c: &Vec<u8>) -> (r: bool)
    ensures
        r == (c@ == dot()),
{
    let r = c.len() == 1 && c[0] == 46;
    proof {
        if r {
            assert(c@ =~= dot());
        }
    }
    r
}

fn is_dotdot(c: &Vec<u8>) -> (r: bool)
    ensures
        r == (c@ == dotdot()),
{
    let r = c.len() == 2 && c[0] == 46 && c[1] == 46;
    proof {
        if r {
            assert(c@ =~= dotdot());
        }
    }
    r
}

/// Splits `bytes` on the separator into its pieces, empty ones included.
fn split_on_byte(bytes: &[u8], sep: u8) -> (r: Vec<Vec<u8>>)
    ensures
        r.deep_view() == split_from(bytes@, sep, 0),
{
    let mut comps: Vec<Vec<u8>> = Vec::new();
    let mut i: usize = 0;
    loop
        invariant
            i <= bytes.len(),
            split_from(bytes@, sep, 0) == comps.deep_view() + split_from(bytes@, sep, i as int),
        decreases bytes.len() - i + 1,
    {
        match find_byte_from(bytes, sep, i) {
            Some(j) => {
                proof {
                    lemma_find_byte(bytes@, sep, i as int);
                }
                let ghost dv: Seq<Seq<u8>> = comps.deep_view();
                let piece = vstd::slice::slice_to_vec(&bytes[i..j]);
                comps.push(piece);
                proof {
                    assert(comps.deep_view() =~~= dv.push(bytes@.subrange(i as int, j as int)));
                    assert(dv.push(bytes@.subrange(i as int, j as int)) =~~= dv + seq![
                        bytes@.subrange(i as int, j as int),
                    ]);
                }
                i = j + 1;
            },
            None => {
                let ghost dv: Seq<Seq<u8>> = comps.deep_view();
                let piece = vstd::slice::slice_to_vec(&bytes[i..bytes.len()]);
                comps.push(piece);
                proof {
                    assert(comps.deep_view() =~~= dv.push(
                        bytes@.subrange(i as int, bytes@.len() as int),
                    ));
                    assert(dv.push(bytes@.subrange(i as int, bytes@.len() as int)) =~~= dv + seq![
                        bytes@.subrange(i as int, bytes@.len() as int),
                    ]);
                }
                return comps;
            },
        }
    }
}

/// Normalizes a byte path as the pattern compiler needs it.
pub fn normalize_path_bytes(bytes: &[u8]) -> (r: Vec<u8>)
    ensures
        r@ == spec_normalize(bytes@),
{
    if bytes.len() == 0 {
        let r: Vec<u8> = vec![46u8];
        return r;
    }
    // count the leading slashes
    let mut sl: usize = 0;
    while sl < bytes.len() && bytes[sl] == 47
        invariant
            sl <= bytes.len(),
            count_slashes_from(bytes@, 0) == sl + count_slashes_from(bytes@, sl as int),
        decreases bytes.len() - sl,
    {
        sl = sl + 1;
    }
    let isl: usize = if sl > 2 {
        1
    } else {
        sl
    };
    assert(isl as int == initial_slashes(bytes@));
    // split, then filter and resolve `..` in one pass
    let comps = split_on_byte(bytes, 47);
    let ghost all: Seq<Seq<u8>> = comps.deep_view();
    let mut acc: Vec<Vec<u8>> = Vec::new();
    proof {
        assert(acc.deep_view() =~~= Seq::<Seq<u8>>::empty());
        assert(all.skip(0) =~~= all);
    }
    let mut k: usize = 0;
    while k < comps.len()
        invariant
            k <= comps.len(),
            all == comps.deep_view(),
            fold_comps(acc.deep_view(), filter_comps(all.skip(k as int)), isl as int)
                == fold_comps(Seq::empty(), filter_comps(all), isl as int),
        decreases comps.len() - k,
    {
        let ghost accd: Seq<Seq<u8>> = acc.deep_view();
        let comp = &comps[k];
        proof {
            assert(all.skip(k as int).skip(1) =~~= all.skip(k as int + 1));
            assert(all[k as int] == comps@[k as int].deep_view());
            assert(comps@[k as int].deep_view() =~= comps@[k as int]@);
            assert(all.skip(k as int)[0] == all[k as int]);
        }
        if comp.len() > 0 && !is_dot(comp) {
            assert(keep_comp(all.skip(k as int)[0]));
            proof {
                let rest = filter_comps(all.skip(k as int + 1));
                assert((seq![all[k as int]] + rest).skip(1) =~= rest);
            }
            proof {
                if acc.len() > 0 {
                    assert(accd.last() =~= acc@[acc.len() - 1]@);
                }
            }
            let keep_it = if !is_dotdot(comp) {
                true
            } else if isl == 0 && acc.len() == 0 {
                true
            } else if acc.len() > 0 && is_dotdot(&acc[acc.len() - 1]) {
                true
            } else {
                false
            };
            if keep_it {
                let c = vstd::slice::slice_to_vec(comp.as_slice());
                acc.push(c);
                proof {
                    assert(acc.deep_view() =~~= accd.push(all[k as int]));
                }
            } else if acc.len() > 0 {
                let _popped = acc.pop();
                proof {
                    assert(acc.deep_view() =~~= accd.drop_last());
                }
            }
            assert(acc.deep_view() == fold_step(accd, all[k as int], isl as int));
        }
        k = k + 1;
    }
    proof {
        assert(all.skip(comps.len() as int) =~~= Seq::<Seq<u8>>::empty());
    }
    let ghost folded: Seq<Seq<u8>> = acc.deep_view();
    // join with slashes
    let mut res: Vec<u8> = Vec::new();
    let mut t: usize = 0;
    while t < isl
        invariant
            t <= isl,
            res@ =~= slashes(t as int),
        decreases isl - t,
    {
        res.push(47);
        proof {
            assert(res@ =~= slashes(t as int + 1));
        }
        t = t + 1;
    }
    let mut k2: usize = 0;
    while k2 < acc.len()
        invariant
            k2 <= acc.len(),
            folded == acc.deep_view(),
            res@ + join_rest(folded, k2 as int) == slashes(isl as int) + join_comps(folded),
        decreases acc.len() - k2,
    {
        proof {
            assert(folded.skip(k2 as int).skip(1) =~= folded.skip(k2 as int + 1));
            if k2 > 0 {
                assert(folded.skip(k2 as int).len() == folded.len() - k2);
            }
        }
        if k2 > 0 {
            res.push(47);
        }
        let piece = &acc[k2];
        res.extend_from_slice(piece.as_slice());
        k2 = k2 + 1;
    }
    if res.len() == 0 {
        let r: Vec<u8> = vec![46u8];
        return r;
    }
    res
}

/// A path component free of separators.
pub open spec fn no_slash(c: Seq<u8>) -> bool {
    forall|k: int| 0 <= k < c.len() ==> c[k] != 47
}

pub proof fn lemma_find_byte_is(s: Seq<u8>, b: u8, i: int, j: int)
    requires
        0 <= i <= j < s.len(),
        s[j] == b,
        forall|k: int| i <= k < j ==> s[k] != b,
    ensures
        find_byte(s, b, i) == Some(j),
    decreases j - i,
{
    if i < j {
        lemma_find_byte_is(s, b, i + 1, j);
    }
}

pub proof fn lemma_find_byte_none(s: Seq<u8>, b: u8, i: int)
    requires
        i >= 0,
        forall|k: int| i <= k < s.len() ==> s[k] != b,
    ensures
        find_byte(s, b, i) is None,
    decreases s.len() - i,
{
    if i < s.len() {
        lemma_find_byte_none(s, b, i + 1);
    }
}

/// Every piece that splitting yields is free of the separator.
pub proof fn lemma_split_clean(s: Seq<u8>, i: int)
    requires
        0 <= i <= s.len(),
    ensures
        forall|j: int|
            0 <= j < split_from(s, 47u8, i).len() ==> no_slash(#[trigger] split_from(s, 47u8, i)[j]),
    decreases s.len() - i,
{
    lemma_find_byte(s, 47u8, i);
    match find_byte(s, 47u8, i) {
        None => {
            assert(no_slash(s.subrange(i, s.len() as int)));
        },
        Some(j) => {
            lemma_split_clean(s, j + 1);
            assert(no_slash(s.subrange(i, j)));
            assert forall|k: int|
                0 <= k < split_from(s, 47u8, i).len() implies no_slash(
                #[trigger] split_from(s, 47u8, i)[k],
            ) by {
                if k > 0 {
                    assert(split_from(s, 47u8, i)[k] == split_from(s, 47u8, j + 1)[k - 1]);
                }
            }
        },
    }
}

/// The filtered pieces are the kept ones, and keep any pointwise property.
pub proof fn lemma_filter_clean(cs: Seq<Seq<u8>>)
    requires
        forall|i: int| 0 <= i < cs.len() ==> no_slash(#[trigger] cs[i]),
    ensures
        forall|j: int|
            0 <= j < filter_comps(cs).len() ==> keep_comp(#[trigger] filter_comps(cs)[j])
                && no_slash(filter_comps(cs)[j]),
    decreases cs.len(),
{
    if cs.len() > 0 {
        assert(forall|i: int| 0 <= i < cs.skip(1).len() ==> no_slash(#[trigger] cs.skip(1)[i]));
        lemma_filter_clean(cs.skip(1));
        if keep_comp(cs[0]) {
            assert forall|j: int|
                0 <= j < filter_comps(cs).len() implies keep_comp(#[trigger] filter_comps(cs)[j])
                && no_slash(filter_comps(cs)[j]) by {
                if j > 0 {
                    assert(filter_comps(cs)[j] == filter_comps(cs.skip(1))[j - 1]);
                }
            }
        }
    }
}

/// The shape that `..` resolution produces and preserves: every component
/// is kept and clean, and `..` components form a prefix run that exists
/// only in relative paths.
pub open spec fn comps_shape(cs: Seq<Seq<u8>>, isl: int) -> bool {
    &&& forall|i: int| 0 <= i < cs.len() ==> keep_comp(#[trigger] cs[i]) && no_slash(cs[i])
    &&& forall|i: int|
        0 <= i < cs.len() && #[trigger] cs[i] == dotdot() ==> isl == 0 && (forall|j: int|
            0 <= j < i ==> cs[j] == dotdot())
}

/// Folding shaped input onto a shaped accumulator yields a shaped result.
pub proof fn lemma_fold_shape(acc: Seq<Seq<u8>>, cs: Seq<Seq<u8>>, isl: int)
    requires
        comps_shape(acc, isl),
        forall|i: int| 0 <= i < cs.len() ==> keep_comp(#[trigger] cs[i]) && no_slash(cs[i]),
    ensures
        comps_shape(fold_comps(acc, cs, isl), isl),
    decreases cs.len(),
{
    if cs.len() > 0 {
        let acc2 = fold_step(acc, cs[0], isl);
        assert(comps_shape(acc2, isl)) by {
            if cs[0] != dotdot() || (isl == 0 && acc.len() == 0) || (acc.len() > 0 && acc.last()
                == dotdot()) {
                assert(acc2 == acc.push(cs[0]));
                assert(keep_comp(dotdot()) && no_slash(dotdot()));
                assert forall|i: int|
                    0 <= i < acc2.len() && #[trigger] acc2[i] == dotdot() implies isl == 0 && (
                forall|j: int| 0 <= j < i ==> acc2[j] == dotdot()) by {
                    if i < acc.len() {
                        assert(acc[i] == dotdot());
                    } else {
                        // the new element is a `..`: it is only pushed at
                        // the root of a relative path or after other `..`s,
                        // which by the shape of `acc` are the whole of it
                        assert(cs[0] == dotdot());
                        if acc.len() > 0 {
                            assert(acc.last() == dotdot());
                            assert(acc[acc.len() - 1] == dotdot());
                        }
                        assert forall|j: int| 0 <= j < i implies acc2[j] == dotdot() by {
                            assert(acc[acc.len() - 1] == dotdot() || acc.len() == 0);
                            if acc.len() > 0 {
                                assert(forall|m: int|
                                    0 <= m < acc.len() - 1 ==> acc[m] == dotdot());
                            }
                        }
                    }
                }
            } else if acc.len() > 0 {
                assert(acc2 == acc.drop_last());
            }
        }
        lemma_fold_shape(acc2, cs.skip(1), isl);
    }
}

/// Folding a shaped sequence changes nothing: every component is appended.
pub proof fn lemma_fold_id(acc: Seq<Seq<u8>>, cs: Seq<Seq<u8>>, isl: int)
    requires
        comps_shape(acc + cs, isl),
    ensures
        fold_comps(acc, cs, isl) == acc + cs,
    decreases cs.len(),
{
    if cs.len() == 0 {
        assert(acc + cs =~= acc);
    } else {
        let whole = acc + cs;
        assert(cs[0] == whole[acc.len() as int]);
        assert(keep_comp(cs[0]));
        let pushed = if cs[0] != dotdot() || (isl == 0 && acc.len() == 0) || (acc.len() > 0
            && acc.last() == dotdot()) {
            true
        } else {
            false
        };
        assert(pushed) by {
            if cs[0] == dotdot() {
                assert(isl == 0);
                if acc.len() > 0 {
                    assert(whole[acc.len() - 1] == dotdot());
                    assert(acc.last() == whole[acc.len() - 1]);
                }
            }
        }
        assert(fold_step(acc, cs[0], isl) == acc.push(cs[0]));
        assert(acc.push(cs[0]) + cs.skip(1) =~= acc + cs);
        lemma_fold_id(acc.push(cs[0]), cs.skip(1), isl);
        assert(fold_comps(acc, cs, isl) == fold_comps(acc.push(cs[0]), cs.skip(1), isl));
    }
}

/// Splitting a join gives the components back, one by one: if the bytes
/// from `i` on are exactly `join_comps(cs)` for kept, clean components,
/// then splitting from `i` and filtering yields `cs`.
pub proof fn lemma_split_of_join(r: Seq<u8>, i: int, cs: Seq<Seq<u8>>)
    requires
        0 <= i <= r.len(),
        r.skip(i) == join_comps(cs),
        forall|k: int| 0 <= k < cs.len() ==> keep_comp(#[trigger] cs[k]) && no_slash(cs[k]),
    ensures
        filter_comps(split_from(r, 47u8, i)) == cs,
    decreases cs.len(),
{
    if cs.len() == 0 {
        assert(r.skip(i).len() == 0);
        assert(i == r.len());
        lemma_find_byte_none(r, 47u8, i);
        assert(split_from(r, 47u8, i) =~= seq![r.subrange(i, r.len() as int)]);
        let sp = split_from(r, 47u8, i);
        assert(sp[0].len() == 0);
        assert(!keep_comp(sp[0]));
        assert(sp.skip(1) =~= Seq::<Seq<u8>>::empty());
        assert(filter_comps(sp) == filter_comps(sp.skip(1)));
        assert(filter_comps(Seq::<Seq<u8>>::empty()) =~= Seq::<Seq<u8>>::empty());
        assert(filter_comps(sp) =~= cs);
    } else if cs.len() == 1 {
        assert(r.skip(i) == cs[0]);
        assert forall|k: int| i <= k < r.len() implies r[k] != 47 by {
            assert(r[k] == r.skip(i)[k - i]);
        }
        lemma_find_byte_none(r, 47u8, i);
        assert(split_from(r, 47u8, i) =~= seq![r.subrange(i, r.len() as int)]);
        let sp = split_from(r, 47u8, i);
        assert(sp[0] =~= cs[0]);
        assert(keep_comp(sp[0]));
        assert(sp.skip(1) =~= Seq::<Seq<u8>>::empty());
        assert(filter_comps(sp) == seq![sp[0]] + filter_comps(sp.skip(1)));
        assert(filter_comps(Seq::<Seq<u8>>::empty()) =~= Seq::<Seq<u8>>::empty());
        assert(filter_comps(sp) =~= cs);
    } else {
        let c = cs[0];
        let j = i + c.len() as int;
        assert(r.skip(i) == c + seq![47u8] + join_comps(cs.skip(1)));
        assert(r[j] == 47) by {
            assert(r[j] == r.skip(i)[c.len() as int]);
        }
        assert forall|k: int| i <= k < j implies r[k] != 47 by {
            assert(r[k] == r.skip(i)[k - i]);
            assert(r.skip(i)[k - i] == c[k - i]);
        }
        lemma_find_byte_is(r, 47u8, i, j);
        assert(r.subrange(i, j) =~= c);
        assert(r.skip(j + 1) =~= join_comps(cs.skip(1))) by {
            assert forall|k: int| 0 <= k < r.len() - j - 1 implies r.skip(j + 1)[k] == join_comps(
                cs.skip(1),
            )[k] by {
                assert(r.skip(j + 1)[k] == r.skip(i)[k + c.len() + 1]);
            }
        }
        lemma_split_of_join(r, j + 1, cs.skip(1));
        assert(split_from(r, 47u8, i) == seq![c] + split_from(r, 47u8, j + 1));
        let tail = split_from(r, 47u8, j + 1);
        assert((seq![c] + tail)[0] == c);
        assert(keep_comp(c));
        assert((seq![c] + tail).skip(1) =~= tail);
        assert(filter_comps(split_from(r, 47u8, i)) =~= cs) by {
            assert(filter_comps(seq![c] + tail) == seq![c] + filter_comps(tail));
            assert(filter_comps(tail) == cs.skip(1));
            assert(seq![c] + cs.skip(1) =~= cs);
        }
    }
}

/// Normalization is idempotent: normalizing a normalized path changes
/// nothing.
pub proof fn lemma_normalize_idempotent(s: Seq<u8>)
    ensures
        spec_normalize(spec_normalize(s)) == spec_normalize(s),
{
    lemma_normalize_of_normal(spec_normalize(s), s);
}

/// The core of idempotence: anything `spec_normalize` can produce is a
/// fixed point of `spec_normalize`.
proof fn lemma_normalize_of_normal(r: Seq<u8>, s: Seq<u8>)
    requires
        r == spec_normalize(s),
    ensures
        spec_normalize(r) == r,
{
    lemma_normalize_dot();
    if s.len() == 0 {
        // r is "."
    } else {
        let isl = initial_slashes(s);
        let split0 = split_from(s, 47u8, 0);
        lemma_split_clean(s, 0);
        lemma_filter_clean(split0);
        let filtered = filter_comps(split0);
        let cs = fold_comps(Seq::empty(), filtered, isl);
        assert(comps_shape(Seq::<Seq<u8>>::empty(), isl));
        lemma_fold_shape(Seq::empty(), filtered, isl);
        assert(comps_shape(cs, isl));
        lemma_count_slashes_nonneg(s, 0);
        assert(0 <= isl <= 2);
        let body = slashes(isl) + join_comps(cs);
        if body.len() == 0 {
            // r is "." again
        } else {
            assert(r == body);
            assert(r.len() > 0);
            // the leading slashes of r are exactly isl
            assert(count_slashes_from(r, isl) == 0) by {
                if cs.len() == 0 {
                    assert(join_comps(cs).len() == 0);
                    assert(r.len() == isl);
                } else {
                    assert(join_comps(cs)[0] == cs[0][0]);
                    assert(r[isl] == join_comps(cs)[0]);
                    assert(keep_comp(cs[0]) && no_slash(cs[0]));
                    assert(cs[0][0] != 47);
                }
            }
            assert(forall|k: int| 0 <= k < isl ==> r[k] == 47);
            assert(count_slashes_from(r, 0) == isl) by {
                lemma_count_slashes_upto(r, 0, isl);
            }
            assert(initial_slashes(r) == isl);
            // splitting r gives isl empty pieces and then the components
            assert(r.skip(isl) =~= join_comps(cs));
            lemma_split_skip_slashes(r, 0, isl, cs);
            assert(filter_comps(split_from(r, 47u8, 0)) == cs);
            // folding the shaped components changes nothing
            assert(Seq::<Seq<u8>>::empty() + cs =~= cs);
            lemma_fold_id(Seq::empty(), cs, isl);
            assert(fold_comps(Seq::empty(), cs, isl) == cs);
            assert(spec_normalize(r) == r);
        }
    }
}

proof fn lemma_count_slashes_nonneg(s: Seq<u8>, i: int)
    ensures
        count_slashes_from(s, i) >= 0,
    decreases s.len() - i,
{
    if 0 <= i < s.len() && s[i] == 47 {
        lemma_count_slashes_nonneg(s, i + 1);
    }
}

/// Counting slashes stops exactly at `upto` when everything before is a
/// slash and the run stops there.
proof fn lemma_count_slashes_upto(r: Seq<u8>, i: int, upto: int)
    requires
        0 <= i <= upto,
        forall|k: int| i <= k < upto ==> r[k] == 47,
        count_slashes_from(r, upto) == 0,
        upto <= r.len(),
    ensures
        count_slashes_from(r, i) == upto - i,
    decreases upto - i,
{
    if i < upto {
        lemma_count_slashes_upto(r, i + 1, upto);
    }
}

/// Splitting past a run of leading slashes yields empty pieces that the
/// filter drops, leaving the join's components.
proof fn lemma_split_skip_slashes(r: Seq<u8>, i: int, isl: int, cs: Seq<Seq<u8>>)
    requires
        0 <= i <= isl <= r.len(),
        forall|k: int| 0 <= k < isl ==> r[k] == 47,
        r.skip(isl) == join_comps(cs),
        forall|k: int| 0 <= k < cs.len() ==> keep_comp(#[trigger] cs[k]) && no_slash(cs[k]),
    ensures
        filter_comps(split_from(r, 47u8, i)) == cs,
    decreases isl - i,
{
    if i == isl {
        lemma_split_of_join(r, i, cs);
    } else {
        assert(r[i] == 47);
        assert(find_byte(r, 47u8, i) == Some(i));
        lemma_split_skip_slashes(r, i + 1, isl, cs);
        assert(split_from(r, 47u8, i) == seq![r.subrange(i, i)] + split_from(r, 47u8, i + 1));
        assert(r.subrange(i, i).len() == 0);
        assert(!keep_comp(r.subrange(i, i)));
        let tail = split_from(r, 47u8, i + 1);
        assert((seq![r.subrange(i, i)] + tail).skip(1) =~= tail);
        assert(filter_comps(split_from(r, 47u8, i)) == filter_comps(tail));
    }
}

/// The current-directory path is a fixed point of normalization.
proof fn lemma_normalize_dot()
    ensures
        spec_normalize(dot()) == dot(),
{
    let d = dot();
    assert(d[0] == 46 && d.len() == 1);
    assert(find_byte(d, 47u8, 0) is None) by {
        lemma_find_byte_none(d, 47u8, 0);
    }
    assert(split_from(d, 47u8, 0) =~= seq![d.subrange(0, 1)]);
    assert(d.subrange(0, 1) =~= d);
    assert(!keep_comp(d));
    let sp = split_from(d, 47u8, 0);
    assert(sp.skip(1) =~= Seq::<Seq<u8>>::empty());
    assert(!keep_comp(sp[0]));
    assert(filter_comps(sp) == filter_comps(sp.skip(1)));
    assert(filter_comps(Seq::<Seq<u8>>::empty()) =~= Seq::<Seq<u8>>::empty());
    assert(count_slashes_from(d, 0) == 0);
    assert(initial_slashes(d) == 0);
    assert(slashes(0) =~= Seq::<u8>::empty());
    assert(fold_comps(Seq::empty(), Seq::empty(), 0) =~= Seq::<Seq<u8>>::empty());
    assert((slashes(0) + join_comps(Seq::empty())).len() == 0);
}

/// `s` begins with `p`.
pub open spec fn spec_starts_with(s: Seq<u8>, p: Seq<u8>) -> bool {
    s.len() >= p.len() && s.subrange(0, p.len() as int) == p
}

/// Whether `s` begins with `p`.
pub fn starts_with_bytes(s: &[u8], p: &[u8]) -> (r: bool)
    ensures
        r == spec_starts_with(s@, p@),
{
    if s.len() < p.len() {
        return false;
    }
    let mut i: usize = 0;
    while i < p.len()
        invariant
            i <= p.len() <= s.len(),
            forall|k: int| 0 <= k < i ==> s@[k] == p@[k],
        decreases p.len() - i,
    {
        if s[i] != p[i] {
            assert(s@.subrange(0, p@.len() as int)[i as int] != p@[i as int]);
            return false;
        }
        i = i + 1;
    }
    assert(s@.subrange(0, p@.len() as int) =~= p@);
    true
}

/// Whether the two byte strings are equal.
pub fn bytes_eq(a: &[u8], b: &[u8]) -> (r: bool)
    ensures
        r == (a@ == b@),
{
    if a.len() != b.len() {
        return false;
    }
    let mut i: usize = 0;
    while i < a.len()
        invariant
            i <= a.len() == b.len(),
            forall|k: int| 0 <= k < i ==> a@[k] == b@[k],
        decreases a.len() - i,
    {
        if a[i] != b[i] {
            return false;
        }
        i = i + 1;
    }
    assert(a@ =~= b@);
    true
}

/// The glob metacharacters: a root glob without any of them matches
/// literally.
pub open spec fn is_glob_special(b: u8) -> bool {
    b == 42 || b == 63 || b == 91 || b == 93 || b == 123 || b == 125 || b == 92
}

pub open spec fn has_glob_special(s: Seq<u8>) -> bool {
    exists|i: int| 0 <= i < s.len() && is_glob_special(s[i])
}

fn contains_glob_special(s: &[u8]) -> (r: bool)
    ensures
        r == has_glob_special(s@),
{
    let mut i: usize = 0;
    while i < s.len()
        invariant
            i <= s.len(),
            forall|k: int| 0 <= k < i ==> !is_glob_special(s@[k]),
        decreases s.len() - i,
    {
        let b = s[i];
        if b == 42 || b == 63 || b == 91 || b == 93 || b == 123 || b == 125 || b == 92 {
            return true;
        }
        i = i + 1;
    }
    false
}

/// The inline-flag letters a regex may carry in a `(?...)` group.
pub open spec fn is_flag_byte(b: u8) -> bool {
    // a i L m s u x
    b == 97 || b == 105 || b == 76 || b == 109 || b == 115 || b == 117 || b == 120
}

/// The first index `>= i` whose byte is not a flag letter (or the length).
pub open spec fn first_non_flag(p: Seq<u8>, i: int) -> int
    decreases p.len() - i,
{
    if i < 0 || i >= p.len() {
        p.len() as int
    } else if !is_flag_byte(p[i]) {
        i
    } else {
        first_non_flag(p, i + 1)
    }
}

pub proof fn lemma_first_non_flag(p: Seq<u8>, i: int)
    requires
        0 <= i <= p.len(),
    ensures
        i <= first_non_flag(p, i) <= p.len(),
        forall|k: int| i <= k < first_non_flag(p, i) ==> is_flag_byte(p[k]),
    decreases p.len() - i,
{
    if i < p.len() && is_flag_byte(p[i]) {
        lemma_first_non_flag(p, i + 1);
    }
}

/// Where an inline-flag group `(?flags)` at the very start of the pattern
/// ends (the index just past the closing parenthesis), if the pattern
/// starts with one: an opening `(?`, at least one flag letter, then `)`.
pub open spec fn spec_flag_group_end(p: Seq<u8>) -> Option<int> {
    let k = first_non_flag(p, 2);
    if p.len() >= 2 && p[0] == 40 && p[1] == 63 && k > 2 && k < p.len() && p[k] == 41 {
        Some(k + 1)
    } else {
        None
    }
}

/// Finds the inline-flag group at the start of the pattern.
///
/// Relies on `regex::bytes::Regex`, compiled from the anchored pattern
/// `^\(\?[aiLmsux]+\)`: it matches exactly when the input starts with `(?`,
/// one or more flag letters and a closing parenthesis, and the match ends
/// just past that parenthesis.
#[verifier::external_body]
fn flag_group_end(p: &[u8]) -> (r: Option<usize>)
    ensures
        match r {
            Some(e) => spec_flag_group_end(p@) == Some(e as int),
            None => spec_flag_group_end(p@) is None,
        },
{
    let re = regex::bytes::Regex::new(r"^\(\?[aiLmsux]+\)").unwrap();
    re.find(p).map(|m| m.end())
}

/// The relative-regexp synthesis: patterns that already float (starting
/// with `^`, `*` or `.*`) pass verbatim; an inline flag group is re-emitted
/// around the floated body; anything else gets a `.*` prefix.
pub open spec fn spec_relregexp(p: Seq<u8>) -> Seq<u8> {
    if p.len() > 0 && (p[0] == 94 || p[0] == 42 || (p.len() >= 2 && p[0] == 46 && p[1] == 42)) {
        p
    } else {
        match spec_flag_group_end(p) {
            Some(e) => {
                let rest = p.skip(e);
                let verbatim = rest.len() > 0 && (rest[0] == 94 || rest[0] == 42 || (rest.len()
                    >= 2 && rest[0] == 46 && rest[1] == 42));
                seq![40u8, 63u8] + p.subrange(2, e - 1) + seq![58u8] + (if verbatim {
                    Seq::<u8>::empty()
                } else {
                    seq![46u8, 42u8]
                }) + rest + seq![41u8]
            },
            None => seq![46u8, 42u8] + p,
        }
    }
}

/// The regex a single pattern compiles to, by syntax. The pattern is
/// assumed already normalized where the syntax requires it; an empty
/// pattern always compiles to the empty regex.
pub open spec fn spec_build_single_regex(
    syntax: PatternSyntax,
    p: Seq<u8>,
    glob_suffix: Seq<u8>,
) -> Seq<u8> {
    if p.len() == 0 {
        Seq::empty()
    } else {
        match syntax {
            PatternSyntax::Regexp => p,
            PatternSyntax::RelRegexp => spec_relregexp(p),
            PatternSyntax::Path | PatternSyntax::RelPath => {
                if p == dot() {
                    Seq::empty()
                } else {
                    // "(?:/|$)"
                    spec_escape(p) + seq![40u8, 63u8, 58u8, 47u8, 124u8, 36u8, 41u8]
                }
            },
            PatternSyntax::RootFiles => {
                (if p == dot() {
                    Seq::<u8>::empty()
                } else {
                    spec_escape(p) + seq![47u8]
                    // "[^/]+$"
                }) + seq![91u8, 94u8, 47u8, 93u8, 43u8, 36u8]
            },
            PatternSyntax::RelGlob => {
                let g = spec_glob(p);
                if spec_starts_with(g, seq![91u8, 94u8, 47u8, 93u8, 42u8]) {
                    seq![46u8, 42u8] + g.skip(5) + glob_suffix
                } else {
                    seq![40u8, 63u8, 58u8, 46u8, 42u8, 47u8, 41u8, 63u8] + g + glob_suffix
                }
            },
            PatternSyntax::Glob | PatternSyntax::RootGlob => spec_glob(p) + glob_suffix,
            _ => Seq::empty(),
        }
    }
}

/// Builds the regex that corresponds to the given pattern: within a
/// `syntax: regexp` context the pattern itself, otherwise the translation
/// of the glob or path pattern. Include and sub-include patterns must have
/// been expanded away before this point.
pub fn build_single_regex_unchecked(entry: &IgnorePattern, glob_suffix: &[u8]) -> (r: Vec<u8>)
    requires
        !(entry.syntax matches PatternSyntax::Include),
        !(entry.syntax matches PatternSyntax::SubInclude),
        !(entry.syntax matches PatternSyntax::ExpandedSubInclude(_)),
        !(entry.syntax matches PatternSyntax::FilePath),
    ensures
        r@ == spec_build_single_regex(entry.syntax, entry.pattern@, glob_suffix@),
{
    let pattern: &Vec<u8> = &entry.pattern;
    if pattern.len() == 0 {
        let r: Vec<u8> = Vec::new();
        return r;
    }
    match &entry.syntax {
        PatternSyntax::Regexp => vstd::slice::slice_to_vec(pattern.as_slice()),
        PatternSyntax::RelRegexp => {
            if pattern[0] == 94 || pattern[0] == 42 || (pattern.len() >= 2 && pattern[0] == 46
                && pattern[1] == 42) {
                return vstd::slice::slice_to_vec(pattern.as_slice());
            }
            match flag_group_end(pattern.as_slice()) {
                Some(e) => {
                    proof {
                        lemma_first_non_flag(pattern@, 2);
                    }
                    let mut res: Vec<u8> = vec![40u8, 63u8];
                    res.extend_from_slice(&pattern.as_slice()[2..e - 1]);
                    res.push(58);
                    let verbatim = e < pattern.len() && (pattern[e] == 94 || pattern[e] == 42 || (
                    e + 1 < pattern.len() && pattern[e] == 46 && pattern[e + 1] == 42));
                    proof {
                        let rest = pattern@.skip(e as int);
                        assert(rest.len() > 0 <==> e < pattern.len());
                        if rest.len() > 0 {
                            assert(rest[0] == pattern@[e as int]);
                        }
                        if rest.len() >= 2 {
                            assert(rest[1] == pattern@[e as int + 1]);
                        }
                    }
                    if !verbatim {
                        let mut piece: Vec<u8> = vec![46u8, 42u8];
                        res.append(&mut piece);
                    }
                    res.extend_from_slice(&pattern.as_slice()[e..pattern.len()]);
                    res.push(41);
                    proof {
                        assert(res@ =~= spec_relregexp(pattern@));
                    }
                    res
                },
                None => {
                    let mut res: Vec<u8> = vec![46u8, 42u8];
                    res.extend_from_slice(pattern.as_slice());
                    res
                },
            }
        },
        PatternSyntax::Path | PatternSyntax::RelPath => {
            if pattern.len() == 1 && pattern[0] == 46 {
                assert(pattern@ =~= dot());
                let r: Vec<u8> = Vec::new();
                return r;
            }
            assert(pattern@ != dot());
            let mut res = escape_pattern(pattern.as_slice());
            let mut piece: Vec<u8> = vec![40u8, 63u8, 58u8, 47u8, 124u8, 36u8, 41u8];
            res.append(&mut piece);
            res
        },
        PatternSyntax::RootFiles => {
            let mut res: Vec<u8>;
            if pattern.len() == 1 && pattern[0] == 46 {
                assert(pattern@ =~= dot());
                res = Vec::new();
            } else {
                assert(pattern@ != dot());
                res = escape_pattern(pattern.as_slice());
                res.push(47);
            }
            let mut piece: Vec<u8> = vec![91u8, 94u8, 47u8, 93u8, 43u8, 36u8];
            res.append(&mut piece);
            res
        },
        PatternSyntax::RelGlob => {
            let glob_re = glob_to_re(pattern.as_slice());
            let prefix: Vec<u8> = vec![91u8, 94u8, 47u8, 93u8, 42u8];
            if starts_with_bytes(glob_re.as_slice(), prefix.as_slice()) {
                let mut res: Vec<u8> = vec![46u8, 42u8];
                res.extend_from_slice(&glob_re.as_slice()[5..glob_re.len()]);
                res.extend_from_slice(glob_suffix);
                res
            } else {
                let mut res: Vec<u8> = vec![40u8, 63u8, 58u8, 46u8, 42u8, 47u8, 41u8, 63u8];
                res.extend_from_slice(glob_re.as_slice());
                res.extend_from_slice(glob_suffix);
                res
            }
        },
        PatternSyntax::Glob | PatternSyntax::RootGlob => {
            let mut res = glob_to_re(pattern.as_slice());
            res.extend_from_slice(glob_suffix);
            res
        },
        PatternSyntax::FilePath
        | PatternSyntax::Include
        | PatternSyntax::SubInclude
        | PatternSyntax::ExpandedSubInclude(_) => {
            // excluded by the preconditions
            let r: Vec<u8> = Vec::new();
            r
        },
    }
}

/// Duplicates a syntax label that carries no expansion payload.
fn dup_simple_syntax(s: &PatternSyntax) -> (r: PatternSyntax)
    requires
        !(s matches PatternSyntax::ExpandedSubInclude(_)),
    ensures
        r == *s,
{
    match s {
        PatternSyntax::Regexp => PatternSyntax::Regexp,
        PatternSyntax::RootGlob => PatternSyntax::RootGlob,
        PatternSyntax::Glob => PatternSyntax::Glob,
        PatternSyntax::Path => PatternSyntax::Path,
        PatternSyntax::FilePath => PatternSyntax::FilePath,
        PatternSyntax::RelPath => PatternSyntax::RelPath,
        PatternSyntax::RelGlob => PatternSyntax::RelGlob,
        PatternSyntax::RelRegexp => PatternSyntax::RelRegexp,
        PatternSyntax::RootFiles => PatternSyntax::RootFiles,
        PatternSyntax::Include => PatternSyntax::Include,
        PatternSyntax::SubInclude => PatternSyntax::SubInclude,
        // excluded by the precondition
        PatternSyntax::ExpandedSubInclude(_) => PatternSyntax::SubInclude,
    }
}

/// Duplicates an ignore pattern whose syntax carries no expansion payload.
fn dup_pattern(e: &IgnorePattern) -> (r: IgnorePattern)
    requires
        !(e.syntax matches PatternSyntax::ExpandedSubInclude(_)),
    ensures
        r.syntax == e.syntax,
        r.pattern@ == e.pattern@,
        r.source@ == e.source@,
{
    IgnorePattern {
        syntax: dup_simple_syntax(&e.syntax),
        pattern: vstd::slice::slice_to_vec(e.pattern.as_slice()),
        source: vstd::slice::slice_to_vec(e.source.as_slice()),
    }
}

/// The pattern text a syntax actually compiles: the path-like syntaxes are
/// normalized first.
pub open spec fn spec_bsr_pattern(syntax: PatternSyntax, p: Seq<u8>) -> Seq<u8> {
    match syntax {
        PatternSyntax::RootGlob
        | PatternSyntax::Path
        | PatternSyntax::RelGlob
        | PatternSyntax::RelPath
        | PatternSyntax::RootFiles => spec_normalize(p),
        _ => p,
    }
}

/// Wrapper around the regex builder that short-circuits "exact" root globs
/// which need no regex at all, and normalizes path-like patterns first.
///
/// `Ok(None)` means the pattern matches literally; include patterns are
/// rejected because they must have been expanded before this point.
pub fn build_single_regex(entry: &IgnorePattern, glob_suffix: &[u8]) -> (r: Result<
    Option<Vec<u8>>,
    PatternError,
>)
    requires
        !(entry.syntax matches PatternSyntax::ExpandedSubInclude(_)),
    ensures
        ((entry.syntax matches PatternSyntax::Include) || (entry.syntax
            matches PatternSyntax::SubInclude)) ==> (r matches Err(
            PatternError::NonRegexPattern(e),
        ) && e.syntax == entry.syntax && e.pattern@ == entry.pattern@ && e.source@
            == entry.source@),
        entry.syntax matches PatternSyntax::FilePath ==> (r matches Ok(o) && o is None),
        ((entry.syntax matches PatternSyntax::RootGlob) && !has_glob_special(
            spec_normalize(entry.pattern@),
        )) ==> (r matches Ok(o) && o is None),
        !(entry.syntax matches PatternSyntax::Include) && !(entry.syntax
            matches PatternSyntax::SubInclude) && !(entry.syntax matches PatternSyntax::FilePath)
            && !(entry.syntax matches PatternSyntax::RootGlob && !has_glob_special(
            spec_normalize(entry.pattern@),
        )) ==> (r matches Ok(o) && o matches Some(v) && v@ == spec_build_single_regex(
            entry.syntax,
            spec_bsr_pattern(entry.syntax, entry.pattern@),
            glob_suffix@,
        )),
{
    let pattern: Vec<u8> = match &entry.syntax {
        PatternSyntax::RootGlob
        | PatternSyntax::Path
        | PatternSyntax::RelGlob
        | PatternSyntax::RelPath
        | PatternSyntax::RootFiles => normalize_path_bytes(entry.pattern.as_slice()),
        PatternSyntax::Include | PatternSyntax::SubInclude => {
            return Err(PatternError::NonRegexPattern(dup_pattern(entry)));
        },
        _ => vstd::slice::slice_to_vec(entry.pattern.as_slice()),
    };
    let is_simple_rootglob = matches!(entry.syntax, PatternSyntax::RootGlob)
        && !contains_glob_special(pattern.as_slice());
    if is_simple_rootglob || matches!(entry.syntax, PatternSyntax::FilePath) {
        Ok(None)
    } else {
        let rebuilt = IgnorePattern {
            syntax: dup_simple_syntax(&entry.syntax),
            pattern,
            source: vstd::slice::slice_to_vec(entry.source.as_slice()),
        };
        Ok(Some(build_single_regex_unchecked(&rebuilt, glob_suffix)))
    }
}

/// The table of syntax prefixes, in the order they are tried. At most one
/// prefix can match a given pattern, since none is a prefix of another.
pub open spec fn spec_table() -> Seq<(Seq<u8>, PatternSyntax)> {
    seq![
        (seq![114u8, 101u8, 58u8], PatternSyntax::Regexp),  // re:
        (seq![114u8, 101u8, 103u8, 101u8, 120u8, 112u8, 58u8], PatternSyntax::Regexp),  // regexp:
        (seq![112u8, 97u8, 116u8, 104u8, 58u8], PatternSyntax::Path),  // path:
        (
            seq![102u8, 105u8, 108u8, 101u8, 112u8, 97u8, 116u8, 104u8, 58u8],
            PatternSyntax::FilePath,
        ),  // filepath:
        (seq![114u8, 101u8, 108u8, 112u8, 97u8, 116u8, 104u8, 58u8], PatternSyntax::RelPath),  // relpath:
        (
            seq![114u8, 111u8, 111u8, 116u8, 102u8, 105u8, 108u8, 101u8, 115u8, 105u8, 110u8, 58u8],
            PatternSyntax::RootFiles,
        ),  // rootfilesin:
        (seq![114u8, 101u8, 108u8, 103u8, 108u8, 111u8, 98u8, 58u8], PatternSyntax::RelGlob),  // relglob:
        (seq![114u8, 101u8, 108u8, 114u8, 101u8, 58u8], PatternSyntax::RelRegexp),  // relre:
        (seq![103u8, 108u8, 111u8, 98u8, 58u8], PatternSyntax::Glob),  // glob:
        (
            seq![114u8, 111u8, 111u8, 116u8, 103u8, 108u8, 111u8, 98u8, 58u8],
            PatternSyntax::RootGlob,
        ),  // rootglob:
        (seq![105u8, 110u8, 99u8, 108u8, 117u8, 100u8, 101u8, 58u8], PatternSyntax::Include),  // include:
        (
            seq![115u8, 117u8, 98u8, 105u8, 110u8, 99u8, 108u8, 117u8, 100u8, 101u8, 58u8],
            PatternSyntax::SubInclude,
        ),  // subinclude:
    ]
}

/// The executable form of the syntax prefix table.
fn syntax_table() -> (r: Vec<(Vec<u8>, PatternSyntax)>)
    ensures
        r@.len() == spec_table().len(),
        forall|i: int| 0 <= i < r@.len() ==> (#[trigger] r@[i]).0@ == spec_table()[i].0,
        forall|i: int| 0 <= i < r@.len() ==> (#[trigger] r@[i]).1 == spec_table()[i].1,
        forall|i: int|
            0 <= i < r@.len() ==> !((#[trigger] r@[i]).1 matches PatternSyntax::ExpandedSubInclude(
                _,
            )),
{
    let mut r: Vec<(Vec<u8>, PatternSyntax)> = Vec::new();
    r.push((vec![114u8, 101u8, 58u8], PatternSyntax::Regexp));
    r.push((vec![114u8, 101u8, 103u8, 101u8, 120u8, 112u8, 58u8], PatternSyntax::Regexp));
    r.push((vec![112u8, 97u8, 116u8, 104u8, 58u8], PatternSyntax::Path));
    r.push(
        (vec![102u8, 105u8, 108u8, 101u8, 112u8, 97u8, 116u8, 104u8, 58u8], PatternSyntax::FilePath),
    );
    r.push(
        (vec![114u8, 101u8, 108u8, 112u8, 97u8, 116u8, 104u8, 58u8], PatternSyntax::RelPath),
    );
    r.push(
        (
            vec![114u8, 111u8, 111u8, 116u8, 102u8, 105u8, 108u8, 101u8, 115u8, 105u8, 110u8, 58u8],
            PatternSyntax::RootFiles,
        ),
    );
    r.push(
        (vec![114u8, 101u8, 108u8, 103u8, 108u8, 111u8, 98u8, 58u8], PatternSyntax::RelGlob),
    );
    r.push((vec![114u8, 101u8, 108u8, 114u8, 101u8, 58u8], PatternSyntax::RelRegexp));
    r.push((vec![103u8, 108u8, 111u8, 98u8, 58u8], PatternSyntax::Glob));
    r.push(
        (
            vec![114u8, 111u8, 111u8, 116u8, 103u8, 108u8, 111u8, 98u8, 58u8],
            PatternSyntax::RootGlob,
        ),
    );
    r.push(
        (vec![105u8, 110u8, 99u8, 108u8, 117u8, 100u8, 101u8, 58u8], PatternSyntax::Include),
    );
    r.push(
        (
            vec![115u8, 117u8, 98u8, 105u8, 110u8, 99u8, 108u8, 117u8, 100u8, 101u8, 58u8],
            PatternSyntax::SubInclude,
        ),
    );
    proof {
        assert forall|i: int| 0 <= i < r@.len() implies (#[trigger] r@[i]).0@ == spec_table()[i].0
            && r@[i].1 == spec_table()[i].1 by {
            assert(r@[i].0@ =~= spec_table()[i].0);
        }
    }
    r
}

/// The first table entry whose prefix starts the pattern, with the prefix
/// length, searching from entry `i` on.
pub open spec fn spec_prefix_syntax_at(
    p: Seq<u8>,
    t: Seq<(Seq<u8>, PatternSyntax)>,
    i: int,
) -> Option<(PatternSyntax, int)>
    decreases t.len() - i,
{
    if i < 0 || i >= t.len() {
        None
    } else if spec_starts_with(p, t[i].0) {
        Some((t[i].1, t[i].0.len() as int))
    } else {
        spec_prefix_syntax_at(p, t, i + 1)
    }
}

pub open spec fn spec_prefix_syntax(p: Seq<u8>) -> Option<(PatternSyntax, int)> {
    spec_prefix_syntax_at(p, spec_table(), 0)
}

/// The syntaxes whose pattern is a path and is normalized before use.
pub open spec fn is_path_like(sy: PatternSyntax) -> bool {
    match sy {
        PatternSyntax::RootGlob
        | PatternSyntax::Path
        | PatternSyntax::Glob
        | PatternSyntax::RelGlob
        | PatternSyntax::RelPath
        | PatternSyntax::RootFiles => true,
        _ => false,
    }
}

/// What parsing one pattern line yields: the syntax from an explicit
/// prefix, or the given default; and the remaining pattern text, normalized
/// for the path-like syntaxes when requested.
pub open spec fn spec_parse_one(p: Seq<u8>, default: PatternSyntax, normalize: bool) -> (
    PatternSyntax,
    Seq<u8>,
) {
    let picked = match spec_prefix_syntax(p) {
        Some((sy, l)) => (sy, p.skip(l)),
        None => (default, p),
    };
    if normalize && is_path_like(picked.0) {
        (picked.0, spec_normalize(picked.1))
    } else {
        picked
    }
}

/// Parses a single pattern with an optional explicit syntax prefix.
pub fn parse_one_pattern(pattern: &[u8], source: &[u8], default: PatternSyntax, normalize: bool)
    -> (r: IgnorePattern)
    requires
        !(default matches PatternSyntax::ExpandedSubInclude(_)),
    ensures
        r.syntax == spec_parse_one(pattern@, default, normalize).0,
        r.pattern@ == spec_parse_one(pattern@, default, normalize).1,
        r.source@ == source@,
{
    let table = syntax_table();
    let mut found: Option<(PatternSyntax, usize)> = None;
    let mut i: usize = 0;
    while i < table.len() && found.is_none()
        invariant
            i <= table.len(),
            table@.len() == spec_table().len(),
            forall|k: int| 0 <= k < table@.len() ==> (#[trigger] table@[k]).0@ == spec_table()[k].0,
            forall|k: int| 0 <= k < table@.len() ==> (#[trigger] table@[k]).1 == spec_table()[k].1,
            forall|k: int|
                0 <= k < table@.len() ==> !((#[trigger] table@[k]).1
                    matches PatternSyntax::ExpandedSubInclude(_)),
            match found {
                Some((sy, l)) => Some((sy, l as int)) == spec_prefix_syntax(pattern@) && l
                    <= pattern@.len(),
                None => spec_prefix_syntax(pattern@) == spec_prefix_syntax_at(
                    pattern@,
                    spec_table(),
                    i as int,
                ),
            },
        decreases table.len() - i,
    {
        let entry = &table[i];
        if starts_with_bytes(pattern, entry.0.as_slice()) {
            found = Some((dup_simple_syntax(&entry.1), entry.0.len()));
        }
        i = i + 1;
    }
    let (syntax, rest_start): (PatternSyntax, usize) = match found {
        Some((sy, l)) => (sy, l),
        None => (default, 0),
    };
    let rest = &pattern[rest_start..pattern.len()];
    proof {
        assert(pattern@.subrange(rest_start as int, pattern@.len() as int) =~= pattern@.skip(
            rest_start as int,
        ));
    }
    let do_normalize = normalize && matches!(
        syntax,
        PatternSyntax::RootGlob | PatternSyntax::Path | PatternSyntax::Glob
            | PatternSyntax::RelGlob | PatternSyntax::RelPath | PatternSyntax::RootFiles,
    );
    assert(syntax == (match spec_prefix_syntax(pattern@) {
        Some((sy, _l)) => sy,
        None => default,
    }));
    assert(rest@ == (match spec_prefix_syntax(pattern@) {
        Some((_sy, l)) => pattern@.skip(l),
        None => pattern@,
    }));
    assert(do_normalize == (normalize && is_path_like(syntax)));
    let pattern_out: Vec<u8> = if do_normalize {
        normalize_path_bytes(rest)
    } else {
        vstd::slice::slice_to_vec(rest)
    };
    IgnorePattern {
        syntax,
        pattern: pattern_out,
        source: vstd::slice::slice_to_vec(source),
    }
}

/// The syntax a `kind:` marker names, when given explicitly by a caller.
/// The alias at table index 1 is accepted only inside pattern files, so it
/// is skipped here.
pub open spec fn spec_parse_syntax_at(
    k: Seq<u8>,
    t: Seq<(Seq<u8>, PatternSyntax)>,
    i: int,
) -> Option<PatternSyntax>
    decreases t.len() - i,
{
    if i < 0 || i >= t.len() {
        None
    } else if i != 1 && k == t[i].0 {
        Some(t[i].1)
    } else {
        spec_parse_syntax_at(k, t, i + 1)
    }
}

pub open spec fn spec_parse_pattern_syntax(k: Seq<u8>) -> Option<PatternSyntax> {
    spec_parse_syntax_at(k, spec_table(), 0)
}

/// Parses one of the syntax markers (`re:`, `glob:`, ...) into its syntax;
/// an unknown marker is an error carrying the marker text.
pub fn parse_pattern_syntax(kind: &[u8]) -> (r: Result<PatternSyntax, PatternError>)
    ensures
        match spec_parse_pattern_syntax(kind@) {
            Some(sy) => r matches Ok(got) && got == sy,
            None => r matches Err(PatternError::UnsupportedSyntax(s)) && ((forall|i: int|
                0 <= i < kind@.len() ==> kind@[i] < 128) ==> s@ == kind@.map_values(
                |b: u8| b as char,
            )),
        },
{
    let table = syntax_table();
    let mut i: usize = 0;
    while i < table.len()
        invariant
            i <= table.len(),
            table@.len() == spec_table().len(),
            forall|k: int| 0 <= k < table@.len() ==> (#[trigger] table@[k]).0@ == spec_table()[k].0,
            forall|k: int| 0 <= k < table@.len() ==> (#[trigger] table@[k]).1 == spec_table()[k].1,
            forall|k: int|
                0 <= k < table@.len() ==> !((#[trigger] table@[k]).1
                    matches PatternSyntax::ExpandedSubInclude(_)),
            spec_parse_pattern_syntax(kind@) == spec_parse_syntax_at(kind@, spec_table(), i as int),
        decreases table.len() - i,
    {
        let entry = &table[i];
        if i != 1 && bytes_eq(kind, entry.0.as_slice()) {
            return Ok(dup_simple_syntax(&entry.1));
        }
        i = i + 1;
    }
    Err(PatternError::UnsupportedSyntax(crate::ui::local_to_utf8(kind)))
}

impl IgnorePattern {
    pub fn new(syntax: PatternSyntax, pattern: &[u8], source: &[u8]) -> (r: Self)
        ensures
            r.syntax == syntax,
            r.pattern@ == pattern@,
            r.source@ == source@,
    {
        Self {
            syntax,
            pattern: vstd::slice::slice_to_vec(pattern),
            source: vstd::slice::slice_to_vec(source),
        }
    }

    /// Reinterprets an anchored syntax as its relative counterpart.
    pub fn to_relative(self) -> (r: Self)
        ensures
            r.syntax == spec_to_relative(self.syntax),
            r.pattern@ == self.pattern@,
            r.source@ == self.source@,
    {
        let IgnorePattern { syntax, pattern, source } = self;
        let syntax = match syntax {
            PatternSyntax::Regexp => PatternSyntax::RelRegexp,
            PatternSyntax::Glob => PatternSyntax::RelGlob,
            x => x,
        };
        IgnorePattern { syntax, pattern, source }
    }
}

pub open spec fn spec_to_relative(sy: PatternSyntax) -> PatternSyntax {
    match sy {
        PatternSyntax::Regexp => PatternSyntax::RelRegexp,
        PatternSyntax::Glob => PatternSyntax::RelGlob,
        x => x,
    }
}

/// The ASCII whitespace bytes that line trimming removes.
pub open spec fn is_ws(b: u8) -> bool {
    b == 9 || b == 10 || b == 12 || b == 13 || b == 32
}

pub open spec fn spec_trim_end(s: Seq<u8>) -> Seq<u8>
    decreases s.len(),
{
    if s.len() > 0 && is_ws(s.last()) {
        spec_trim_end(s.drop_last())
    } else {
        s
    }
}

pub open spec fn spec_trim_start(s: Seq<u8>) -> Seq<u8>
    decreases s.len(),
{
    if s.len() > 0 && is_ws(s[0]) {
        spec_trim_start(s.skip(1))
    } else {
        s
    }
}

pub open spec fn spec_trim(s: Seq<u8>) -> Seq<u8> {
    spec_trim_start(spec_trim_end(s))
}

fn is_ws_byte(b: u8) -> (r: bool)
    ensures
        r == is_ws(b),
{
    b == 9 || b == 10 || b == 12 || b == 13 || b == 32
}

/// The index where the trimmed tail of `s` ends.
fn trim_end_index(s: &[u8]) -> (r: usize)
    ensures
        r <= s.len(),
        spec_trim_end(s@) == s@.take(r as int),
{
    let mut e: usize = s.len();
    proof {
        assert(s@.take(s@.len() as int) =~= s@);
    }
    while e > 0 && is_ws_byte(s[e - 1])
        invariant
            e <= s.len(),
            spec_trim_end(s@) == spec_trim_end(s@.take(e as int)),
        decreases e,
    {
        proof {
            assert(s@.take(e as int).drop_last() =~= s@.take(e as int - 1));
        }
        e = e - 1;
    }
    proof {
        if e > 0 {
            assert(s@.take(e as int).last() == s@[e as int - 1]);
        }
    }
    e
}

/// Trims ASCII whitespace from both ends of `s`.
fn trim(s: &[u8]) -> (r: &[u8])
    ensures
        r@ == spec_trim(s@),
{
    let e = trim_end_index(s);
    let mut b: usize = 0;
    proof {
        assert(s@.take(e as int).skip(0) =~= s@.take(e as int));
    }
    while b < e && is_ws_byte(s[b])
        invariant
            b <= e <= s.len(),
            spec_trim_end(s@) == s@.take(e as int),
            spec_trim_start(s@.take(e as int)) == spec_trim_start(
                s@.take(e as int).skip(b as int),
            ),
        decreases e - b,
    {
        proof {
            assert(s@.take(e as int).skip(b as int).skip(1) =~= s@.take(e as int).skip(
                b as int + 1,
            ));
            assert(s@.take(e as int).skip(b as int)[0] == s@[b as int]);
        }
        b = b + 1;
    }
    proof {
        assert(s@.subrange(b as int, e as int) =~= s@.take(e as int).skip(b as int));
        if b < e {
            assert(s@.take(e as int).skip(b as int)[0] == s@[b as int]);
        }
    }
    &s[b..e]
}

/// The number of consecutive backslashes immediately before index `i`.
pub open spec fn backslash_run(s: Seq<u8>, i: int) -> int
    decreases i,
{
    if i <= 0 || i > s.len() || s[i - 1] != 92 {
        0
    } else {
        1 + backslash_run(s, i - 1)
    }
}

/// The first `#` in `s[i ..]` that an even number of consecutive
/// backslashes precedes: where a comment starts.
pub open spec fn find_comment(s: Seq<u8>, i: int) -> Option<int>
    decreases s.len() - i,
{
    if i < 0 || i >= s.len() {
        None
    } else if s[i] == 35 && backslash_run(s, i) % 2 == 0 {
        Some(i)
    } else {
        find_comment(s, i + 1)
    }
}

pub proof fn lemma_find_comment(s: Seq<u8>, i: int)
    requires
        i >= 0,
    ensures
        find_comment(s, i) matches Some(j) ==> i <= j < s.len(),
    decreases s.len() - i,
{
    if 0 <= i < s.len() && !(s[i] == 35 && backslash_run(s, i) % 2 == 0) {
        lemma_find_comment(s, i + 1);
    }
}

/// `\#` pairs decoded to a plain `#`, left to right.
pub open spec fn spec_unescape_hash(s: Seq<u8>) -> Seq<u8>
    decreases s.len(),
{
    if s.len() >= 2 && s[0] == 92 && s[1] == 35 {
        seq![35u8] + spec_unescape_hash(s.skip(2))
    } else if s.len() > 0 {
        seq![s[0]] + spec_unescape_hash(s.skip(1))
    } else {
        Seq::empty()
    }
}

/// Finds where a comment starts in a pattern line.
///
/// Relies on `regex::bytes::Regex` compiled from `((?:^|[^\\])(?:\\\\)*)#.*`:
/// its leftmost match puts the end of capture group 1 exactly at the first
/// `#` preceded by an even number of consecutive backslashes, and it matches
/// exactly when such a `#` exists.
#[verifier::external_body]
fn comment_start(line: &[u8]) -> (r: Option<usize>)
    ensures
        match r {
            Some(e) => find_comment(line@, 0) == Some(e as int),
            None => find_comment(line@, 0) is None,
        },
{
    let re = regex::bytes::Regex::new(r"((?:^|[^\\])(?:\\\\)*)#.*").unwrap();
    re.captures(line).map(|cap| cap.get(1).unwrap().end())
}

/// Replaces each escaped `\#` pair by a literal `#`.
///
/// Relies on `regex::bytes::Regex::replace_all` with the pattern `\\#`:
/// non-overlapping pairs are replaced left to right.
#[verifier::external_body]
fn unescape_hashes(line: &[u8]) -> (r: Vec<u8>)
    ensures
        r@ == spec_unescape_hash(line@),
{
    let re = regex::bytes::Regex::new(r"\\#").unwrap();
    re.replace_all(line, regex::bytes::NoExpand(b"#")).into_owned()
}

/// A raw pattern-file line with its comment removed, escaped hashes
/// decoded, and trailing whitespace trimmed.
pub open spec fn spec_clean_line(line: Seq<u8>) -> Seq<u8> {
    let stripped = if find_byte(line, 35u8, 0) is Some {
        match find_comment(line, 0) {
            Some(i) => spec_unescape_hash(line.take(i)),
            None => spec_unescape_hash(line),
        }
    } else {
        line
    };
    spec_trim_end(stripped)
}

fn clean_line(line: &[u8]) -> (r: Vec<u8>)
    ensures
        r@ == spec_clean_line(line@),
{
    let has_hash = match find_byte_from(line, 35, 0) {
        Some(_) => true,
        None => false,
    };
    let mut stripped: Vec<u8> = if has_hash {
        match comment_start(line) {
            Some(e) => {
                proof {
                    lemma_find_comment(line@, 0);
                }
                unescape_hashes(&line[0..e])
            },
            None => unescape_hashes(line),
        }
    } else {
        vstd::slice::slice_to_vec(line)
    };
    let e = trim_end_index(stripped.as_slice());
    stripped.truncate(e);
    stripped
}

/// The keyword that changes the default syntax of a pattern file.
pub open spec fn syntax_kw() -> Seq<u8> {
    // "syntax:"
    seq![115u8, 121u8, 110u8, 116u8, 97u8, 120u8, 58u8]
}

/// The table entry whose marker is `name` followed by a colon, if any,
/// searching from entry `i`.
pub open spec fn spec_syntax_for_name_at(
    name: Seq<u8>,
    t: Seq<(Seq<u8>, PatternSyntax)>,
    i: int,
) -> Option<PatternSyntax>
    decreases t.len() - i,
{
    if i < 0 || i >= t.len() {
        None
    } else if name.push(58u8) == t[i].0 {
        Some(t[i].1)
    } else {
        spec_syntax_for_name_at(name, t, i + 1)
    }
}

pub open spec fn spec_syntax_for_name(name: Seq<u8>) -> Option<PatternSyntax> {
    spec_syntax_for_name_at(name, spec_table(), 0)
}

fn syntax_for_name(name: &[u8]) -> (r: Option<PatternSyntax>)
    ensures
        match r {
            Some(sy) => spec_syntax_for_name(name@) == Some(sy) && !(
            sy matches PatternSyntax::ExpandedSubInclude(_)),
            None => spec_syntax_for_name(name@) is None,
        },
{
    let mut key: Vec<u8> = vstd::slice::slice_to_vec(name);
    key.push(58);
    assert(key@ =~= name@.push(58u8));
    let table = syntax_table();
    let mut i: usize = 0;
    while i < table.len()
        invariant
            i <= table.len(),
            key@ == name@.push(58u8),
            table@.len() == spec_table().len(),
            forall|k: int| 0 <= k < table@.len() ==> (#[trigger] table@[k]).0@ == spec_table()[k].0,
            forall|k: int| 0 <= k < table@.len() ==> (#[trigger] table@[k]).1 == spec_table()[k].1,
            forall|k: int|
                0 <= k < table@.len() ==> !((#[trigger] table@[k]).1
                    matches PatternSyntax::ExpandedSubInclude(_)),
            spec_syntax_for_name(name@) == spec_syntax_for_name_at(name@, spec_table(), i as int),
        decreases table.len() - i,
    {
        let entry = &table[i];
        if bytes_eq(key.as_slice(), entry.0.as_slice()) {
            return Some(dup_simple_syntax(&entry.1));
        }
        i = i + 1;
    }
    None
}

/// The `(syntax, pattern)` pairs that the lines of a pattern file produce,
/// from line `i` on, with `cur` as the current default syntax.
pub open spec fn spec_ppfc_pats(
    lines: Seq<Seq<u8>>,
    i: int,
    cur: PatternSyntax,
    relativize: bool,
) -> Seq<(PatternSyntax, Seq<u8>)>
    decreases lines.len() - i,
{
    if i < 0 || i >= lines.len() {
        Seq::empty()
    } else {
        let l = spec_clean_line(lines[i]);
        if l.len() == 0 {
            spec_ppfc_pats(lines, i + 1, cur, relativize)
        } else if spec_starts_with(l, syntax_kw()) {
            let name = spec_trim(l.skip(7));
            match spec_syntax_for_name(name) {
                Some(sy) => spec_ppfc_pats(lines, i + 1, sy, relativize),
                None => spec_ppfc_pats(lines, i + 1, cur, relativize),
            }
        } else {
            let p0 = spec_parse_one(l, cur, false);
            let sy1 = if relativize {
                spec_to_relative(p0.0)
            } else {
                p0.0
            };
            seq![(sy1, p0.1)] + spec_ppfc_pats(lines, i + 1, cur, relativize)
        }
    }
}

/// The unknown syntax names that the lines of a pattern file warn about,
/// from line `i` on; none when warnings are off.
pub open spec fn spec_ppfc_warns(lines: Seq<Seq<u8>>, i: int, warn: bool) -> Seq<Seq<u8>>
    decreases lines.len() - i,
{
    if i < 0 || i >= lines.len() || !warn {
        Seq::empty()
    } else {
        let l = spec_clean_line(lines[i]);
        if l.len() > 0 && spec_starts_with(l, syntax_kw()) {
            let name = spec_trim(l.skip(7));
            if spec_syntax_for_name(name) is None {
                seq![name] + spec_ppfc_warns(lines, i + 1, warn)
            } else {
                spec_ppfc_warns(lines, i + 1, warn)
            }
        } else {
            spec_ppfc_warns(lines, i + 1, warn)
        }
    }
}

/// Parses the contents of a pattern file: comments and blank lines are
/// dropped, `syntax:` lines change the default syntax for what follows
/// (warning about unknown names), and every other line is one pattern.
pub fn parse_pattern_file_contents(
    lines: &[u8],
    file_path: &[u8],
    default_syntax_override: Option<PatternSyntax>,
    warn: bool,
    relativize: bool,
) -> (r: Result<(Vec<IgnorePattern>, Vec<PatternFileWarning>), PatternError>)
    requires
        match default_syntax_override {
            Some(sy) => !(sy matches PatternSyntax::ExpandedSubInclude(_)),
            None => true,
        },
    ensures
        ({
            let lv = split_from(lines@, 10u8, 0);
            let init = match default_syntax_override {
                Some(sy) => sy,
                None => PatternSyntax::RelRegexp,
            };
            let pats = spec_ppfc_pats(lv, 0, init, relativize);
            let warns = spec_ppfc_warns(lv, 0, warn);
            r matches Ok((ps, ws)) && ps@.len() == pats.len() && (forall|k: int|
                0 <= k < pats.len() ==> (#[trigger] ps@[k]).syntax == pats[k].0 && ps@[k].pattern@
                    == pats[k].1 && ps@[k].source@ == file_path@) && ws@.len() == warns.len() && (
            forall|k: int|
                0 <= k < warns.len() ==> ((#[trigger] ws@[k])
                    matches PatternFileWarning::InvalidSyntax(p, sx) && p@ == file_path@ && sx@
                    == warns[k]))
        }),
{
    let lines_vec = split_on_byte(lines, 10);
    let ghost lv: Seq<Seq<u8>> = lines_vec.deep_view();
    let mut inputs: Vec<IgnorePattern> = Vec::new();
    let mut warnings: Vec<PatternFileWarning> = Vec::new();
    let mut current_syntax: PatternSyntax = match default_syntax_override {
        Some(sy) => sy,
        None => PatternSyntax::RelRegexp,
    };
    let ghost init: PatternSyntax = current_syntax;
    let ghost pats_all: Seq<(PatternSyntax, Seq<u8>)> = spec_ppfc_pats(lv, 0, init, relativize);
    let ghost warns_all: Seq<Seq<u8>> = spec_ppfc_warns(lv, 0, warn);
    let ghost mut pv: Seq<(PatternSyntax, Seq<u8>)> = Seq::empty();
    let ghost mut wv: Seq<Seq<u8>> = Seq::empty();
    let mut li: usize = 0;
    while li < lines_vec.len()
        invariant
            li <= lines_vec.len(),
            lv == lines_vec.deep_view(),
            !(current_syntax matches PatternSyntax::ExpandedSubInclude(_)),
            pats_all == pv + spec_ppfc_pats(lv, li as int, current_syntax, relativize),
            warns_all == wv + spec_ppfc_warns(lv, li as int, warn),
            inputs@.len() == pv.len(),
            forall|k: int|
                0 <= k < pv.len() ==> (#[trigger] inputs@[k]).syntax == pv[k].0
                    && inputs@[k].pattern@ == pv[k].1 && inputs@[k].source@ == file_path@,
            warnings@.len() == wv.len(),
            forall|k: int|
                0 <= k < wv.len() ==> ((#[trigger] warnings@[k])
                    matches PatternFileWarning::InvalidSyntax(p, sx) && p@ == file_path@ && sx@
                    == wv[k]),
        decreases lines_vec.len() - li,
    {
        let line = &lines_vec[li];
        proof {
            assert(lv[li as int] =~= line@);
        }
        let clean = clean_line(line.as_slice());
        let kw: Vec<u8> = vec![115u8, 121u8, 110u8, 116u8, 97u8, 120u8, 58u8];
        assert(kw@ =~= syntax_kw());
        if clean.len() == 0 {
            // blank or comment-only line
        } else if starts_with_bytes(clean.as_slice(), kw.as_slice()) {
            let name = trim(&clean.as_slice()[7..clean.len()]);
            proof {
                assert(clean@.subrange(7, clean@.len() as int) =~= clean@.skip(7));
            }
            match syntax_for_name(name) {
                Some(sy) => {
                    current_syntax = sy;
                },
                None => {
                    if warn {
                        warnings.push(
                            PatternFileWarning::InvalidSyntax(
                                vstd::slice::slice_to_vec(file_path),
                                vstd::slice::slice_to_vec(name),
                            ),
                        );
                        proof {
                            wv = wv.push(spec_trim(spec_clean_line(lv[li as int]).skip(7)));
                            assert(wv.drop_last() + seq![wv.last()] =~= wv);
                        }
                    }
                },
            }
        } else {
            let mut pat = parse_one_pattern(
                clean.as_slice(),
                file_path,
                dup_simple_syntax(&current_syntax),
                false,
            );
            if relativize {
                pat = pat.to_relative();
            }
            let ghost l = spec_clean_line(lv[li as int]);
            let ghost p0 = spec_parse_one(l, current_syntax, false);
            let ghost sy1 = if relativize {
                spec_to_relative(p0.0)
            } else {
                p0.0
            };
            inputs.push(pat);
            proof {
                pv = pv.push((sy1, p0.1));
                assert(pv.drop_last() + seq![pv.last()] =~= pv);
            }
        }
        li = li + 1;
    }
    proof {
        assert(pats_all =~= pv);
        assert(warns_all =~= wv);
    }
    Ok((inputs, warnings))
}

/// A path that cannot be expressed relative to the repository root.
#[derive(Debug, PartialEq, Eq)]
pub enum HgPathError {
    NotUnderRoot { path: Vec<u8>, root: Vec<u8> },
}

/// The index of the last slash of `s`, if any.
pub open spec fn last_slash(s: Seq<u8>) -> Option<int>
    decreases s.len(),
{
    if s.len() == 0 {
        None
    } else if s.last() == 47 {
        Some(s.len() - 1)
    } else {
        last_slash(s.drop_last())
    }
}

/// The parent directory of a normalized byte path: everything before the
/// last slash; the root stays the root, a bare name's parent is empty.
pub open spec fn spec_parent(p: Seq<u8>) -> Seq<u8> {
    match last_slash(p) {
        None => Seq::empty(),
        Some(j) => if j == 0 {
            seq![47u8]
        } else {
            p.take(j)
        },
    }
}

/// Byte-path join: an absolute right side wins; an empty left side
/// disappears; otherwise the two are joined with a slash.
pub open spec fn spec_join(a: Seq<u8>, b: Seq<u8>) -> Seq<u8> {
    if b.len() > 0 && b[0] == 47 {
        b
    } else if a.len() == 0 {
        b
    } else {
        a + seq![47u8] + b
    }
}

/// `p` relative to `root`: empty when they are equal, stripped of the root
/// prefix when `p` lies under it, `p` itself when the root is the current
/// directory, and nothing when `p` escapes the root.
pub open spec fn spec_relative_to(p: Seq<u8>, root: Seq<u8>) -> Option<Seq<u8>> {
    if p == root {
        Some(Seq::empty())
    } else if spec_starts_with(p, root + seq![47u8]) {
        Some(p.skip(root.len() as int + 1))
    } else if root == dot() || root.len() == 0 {
        Some(p)
    } else {
        None
    }
}

fn exec_last_slash(p: &[u8]) -> (r: Option<usize>)
    ensures
        match r {
            Some(j) => last_slash(p@) == Some(j as int) && j < p@.len(),
            None => last_slash(p@) is None,
        },
{
    let mut e: usize = p.len();
    proof {
        assert(p@.take(p@.len() as int) =~= p@);
    }
    while e > 0
        invariant
            e <= p.len(),
            last_slash(p@) == last_slash(p@.take(e as int)),
        decreases e,
    {
        proof {
            assert(p@.take(e as int).last() == p@[e as int - 1]);
            assert(p@.take(e as int).drop_last() =~= p@.take(e as int - 1));
        }
        if p[e - 1] == 47 {
            return Some(e - 1);
        }
        e = e - 1;
    }
    None
}

fn exec_parent(p: &[u8]) -> (r: Vec<u8>)
    ensures
        r@ == spec_parent(p@),
{
    match exec_last_slash(p) {
        None => Vec::new(),
        Some(j) => {
            if j == 0 {
                let r: Vec<u8> = vec![47u8];
                r
            } else {
                vstd::slice::slice_to_vec(&p[0..j])
            }
        },
    }
}

fn exec_join(a: &[u8], b: &[u8]) -> (r: Vec<u8>)
    ensures
        r@ == spec_join(a@, b@),
{
    if b.len() > 0 && b[0] == 47 {
        vstd::slice::slice_to_vec(b)
    } else if a.len() == 0 {
        vstd::slice::slice_to_vec(b)
    } else {
        let mut r = vstd::slice::slice_to_vec(a);
        r.push(47);
        r.extend_from_slice(b);
        proof {
            assert(r@ =~= a@ + seq![47u8] + b@);
        }
        r
    }
}

fn exec_relative_to(p: &[u8], root: &[u8]) -> (r: Option<Vec<u8>>)
    ensures
        match r {
            Some(v) => spec_relative_to(p@, root@) == Some(v@),
            None => spec_relative_to(p@, root@) is None,
        },
{
    if bytes_eq(p, root) {
        return Some(Vec::new());
    }
    let mut root_slash = vstd::slice::slice_to_vec(root);
    root_slash.push(47);
    proof {
        assert(root_slash@ =~= root@ + seq![47u8]);
    }
    if starts_with_bytes(p, root_slash.as_slice()) {
        proof {
            assert(p@.len() >= root@.len() + 1);
            assert(p@.subrange(root@.len() as int + 1, p@.len() as int) =~= p@.skip(root@.len() as int + 1));
        }
        return Some(vstd::slice::slice_to_vec(&p[root_slash.len()..p.len()]));
    }
    let dot_v: Vec<u8> = vec![46u8];
    proof {
        assert(dot_v@ =~= dot());
    }
    if bytes_eq(root, dot_v.as_slice()) || root.len() == 0 {
        return Some(vstd::slice::slice_to_vec(p));
    }
    None
}

/// The `(prefix, path, root)` of a sub-include: the pattern is resolved
/// against the directory of the file naming it, its own directory becomes
/// the new root, and the prefix is that root relative to the repository
/// root with a trailing slash unless empty.
pub open spec fn spec_subinclude(root_dir: Seq<u8>, pattern: Seq<u8>, source: Seq<u8>) -> Option<
    (Seq<u8>, Seq<u8>, Seq<u8>),
> {
    let normalized_source = spec_normalize(source);
    let source_root = spec_parent(normalized_source);
    let path = spec_join(source_root, pattern);
    let new_root = spec_parent(path);
    match spec_relative_to(new_root, root_dir) {
        None => None,
        Some(rel) => {
            let prefix = if rel.len() == 0 {
                rel
            } else {
                rel + seq![47u8]
            };
            Some((prefix, path, new_root))
        },
    }
}

impl SubInclude {
    /// Resolves a `subinclude:` pattern found in `source` against the
    /// repository root.
    pub fn new(root_dir: &[u8], pattern: &[u8], source: &[u8]) -> (r: Result<
        SubInclude,
        HgPathError,
    >)
        ensures
            match spec_subinclude(root_dir@, pattern@, source@) {
                Some(t) => r matches Ok(s) && s.prefix@ == t.0 && s.path@ == t.1 && s.root@ == t.2
                    && s.included_patterns@.len() == 0,
                None => r matches Err(HgPathError::NotUnderRoot { path: p, root: rt }) && rt@
                    == root_dir@,
            },
    {
        let normalized_source = normalize_path_bytes(source);
        let source_root = exec_parent(normalized_source.as_slice());
        let path = exec_join(source_root.as_slice(), pattern);
        let new_root = exec_parent(path.as_slice());
        match exec_relative_to(new_root.as_slice(), root_dir) {
            None => Err(
                HgPathError::NotUnderRoot {
                    path: new_root,
                    root: vstd::slice::slice_to_vec(root_dir),
                },
            ),
            Some(rel) => {
                let mut prefix = rel;
                if prefix.len() > 0 {
                    prefix.push(47);
                }
                proof {
                    let t = spec_subinclude(root_dir@, pattern@, source@);
                    assert(prefix@ =~= t.unwrap().0);
                }
                Ok(
                    SubInclude {
                        prefix,
                        path,
                        root: new_root,
                        included_patterns: Vec::new(),
                    },
                )
            },
        }
    }
}

/// The sub-includes among a pattern list, in order.
pub open spec fn spec_subincludes_of(ps: Seq<IgnorePattern>) -> Seq<SubInclude>
    decreases ps.len(),
{
    if ps.len() == 0 {
        Seq::empty()
    } else {
        match ps[0].syntax {
            PatternSyntax::ExpandedSubInclude(sub) => seq![*sub] + spec_subincludes_of(ps.skip(1)),
            _ => spec_subincludes_of(ps.skip(1)),
        }
    }
}

/// The patterns of a list that are not sub-includes, in order.
pub open spec fn spec_others_of(ps: Seq<IgnorePattern>) -> Seq<IgnorePattern>
    decreases ps.len(),
{
    if ps.len() == 0 {
        Seq::empty()
    } else {
        match ps[0].syntax {
            PatternSyntax::ExpandedSubInclude(_) => spec_others_of(ps.skip(1)),
            _ => seq![ps[0]] + spec_others_of(ps.skip(1)),
        }
    }
}

/// Separates the expanded sub-includes from the other patterns, keeping
/// both in their original order.
pub fn filter_subincludes(ignore_patterns: Vec<IgnorePattern>) -> (r: Result<
    (Vec<SubInclude>, Vec<IgnorePattern>),
    HgPathError,
>)
    ensures
        r matches Ok((subs, others)) && subs@ == spec_subincludes_of(ignore_patterns@) && others@
            == spec_others_of(ignore_patterns@),
{
    let ghost orig: Seq<IgnorePattern> = ignore_patterns@;
    let mut rest = ignore_patterns;
    let mut subincludes: Vec<SubInclude> = Vec::new();
    let mut others: Vec<IgnorePattern> = Vec::new();
    while rest.len() > 0
        invariant
            spec_subincludes_of(orig) == subincludes@ + spec_subincludes_of(rest@),
            spec_others_of(orig) == others@ + spec_others_of(rest@),
        decreases rest.len(),
    {
        let ghost before: Seq<IgnorePattern> = rest@;
        let pattern = rest.remove(0);
        proof {
            assert(rest@ =~= before.skip(1));
        }
        match pattern.syntax {
            PatternSyntax::ExpandedSubInclude(sub_include) => {
                subincludes.push(*sub_include);
                proof {
                    assert(subincludes@.drop_last() + seq![subincludes@.last()] =~= subincludes@);
                }
            },
            syntax => {
                others.push(IgnorePattern { syntax, pattern: pattern.pattern, source: pattern.source });
                proof {
                    assert(others@.drop_last() + seq![others@.last()] =~= others@);
                }
            },
        }
    }
    proof {
        assert(spec_subincludes_of(orig) =~= subincludes@);
        assert(spec_others_of(orig) =~= others@);
    }
    Ok((subincludes, others))
}

} // verus!
