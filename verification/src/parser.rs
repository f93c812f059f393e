//! The descriptor parser: a recursive-descent parser for the theme
//! descriptor grammar, over raw bytes.
//!
//! The grammar: JSON-style double-quoted string literals; line comments from
//! `;` to the end of the physical line; directive lines (file inclusion,
//! resource registration, unknown directives passed through); expression
//! spans `#{ ... }` with arbitrary brace nesting, allowed to span lines; and
//! plain code.
//!
//! Every parsing function is mirrored by a spec function over `Seq<u8>`; the
//! executable parser returns exactly what its mirror says. Soft failures
//! (`hard == false`) let an enclosing alternative try the next branch; hard
//! failures abort the whole parse, as the grammar demands for malformed
//! strings, non-relative paths, bad globs and malformed directives.

use vstd::prelude::*;

use crate::textutil::{ascii_bytes, str_bytes};

verus! {

pub const B_NL: u8 = 0x0a;
pub const B_QUOTE: u8 = 0x22;
pub const B_HASH: u8 = 0x23;
pub const B_SEMI: u8 = 0x3b;
pub const B_BSLASH: u8 = 0x5c;
pub const B_LBRACE: u8 = 0x7b;
pub const B_RBRACE: u8 = 0x7d;
pub const B_COLON: u8 = 0x3a;

#[derive(Debug, PartialEq, Eq, Clone, Structural)]
pub enum ParseErrorKind {
    /// A string literal that is not valid JSON.
    MalformedString,
    /// A path literal with a drive letter or a leading absolute marker.
    NotRelativePath,
    /// A resource pattern glob that does not compile.
    InvalidGlobPattern,
    /// A file-inclusion directive whose tail is not a single path string.
    MalformedInclusionDirective,
    /// A resource directive whose tail is not `"glob"` or `"dest": "glob"`.
    MalformedResourceDirective,
    /// Any other way the text fails to match the grammar.
    Syntax,
}

/// Line/column position of a byte offset, with the offending fragment.
#[derive(Debug, Clone)]
pub struct ErrorLocation {
    pub offset: usize,
    pub line: usize,
    pub column_ascii: usize,
    pub column_utf8: usize,
    pub fragment: Vec<u8>,
}

#[derive(Debug, Clone)]
pub struct ParseError {
    pub kind: ParseErrorKind,
    pub location: ErrorLocation,
}

/// Outcome of one parsing step, spec level: the next position and the parsed
/// value, or a failure with its kind and fragment span.
pub ghost enum SpStep<T> {
    Found { next: int, val: T },
    Failed { hard: bool, kind: ParseErrorKind, at: int, to: int },
}

/// Outcome of one parsing step.
#[derive(Debug)]
pub enum Step<T> {
    Found { next: usize, val: T },
    Failed { hard: bool, kind: ParseErrorKind, at: usize, to: usize },
}

impl<T: View> View for Step<T> {
    type V = SpStep<T::V>;

    open spec fn view(&self) -> SpStep<T::V> {
        match self {
            Step::Found { next, val } => SpStep::Found { next: *next as int, val: val@ },
            Step::Failed { hard, kind, at, to } => SpStep::Failed {
                hard: *hard,
                kind: *kind,
                at: *at as int,
                to: *to as int,
            },
        }
    }
}

// ---------------------------------------------------------------------------
// Locations
// ---------------------------------------------------------------------------

/// Number of newline bytes in `s` before `end`.
pub open spec fn spec_count_nl(s: Seq<u8>, end: int) -> int
    decreases end,
{
    if end <= 0 {
        0
    } else {
        spec_count_nl(s, end - 1) + if 0 <= end - 1 < s.len() && s[end - 1] == B_NL {
            1int
        } else {
            0int
        }
    }
}

/// Offset of the first byte of the line that `off` lies on.
pub open spec fn spec_line_start(s: Seq<u8>, off: int) -> int
    decreases off,
{
    if off <= 0 {
        0
    } else if 0 <= off - 1 < s.len() && s[off - 1] == B_NL {
        off
    } else {
        spec_line_start(s, off - 1)
    }
}

/// A byte that begins a UTF-8 character (not a continuation byte).
pub open spec fn spec_is_char_start(b: u8) -> bool {
    !(0x80 <= b < 0xc0)
}

/// Number of character-starting bytes in `s[from..to]`.
pub open spec fn spec_count_chars(s: Seq<u8>, from: int, to: int) -> int
    decreases to - from,
{
    if to <= from {
        0
    } else {
        spec_count_chars(s, from, to - 1) + if 0 <= to - 1 < s.len() && spec_is_char_start(
            s[to - 1],
        ) {
            1int
        } else {
            0int
        }
    }
}

/// 1-based line number of a byte offset.
pub open spec fn spec_line_of(s: Seq<u8>, off: int) -> int {
    1 + spec_count_nl(s, off)
}

/// 1-based byte column of a byte offset.
pub open spec fn spec_col_ascii(s: Seq<u8>, off: int) -> int {
    1 + off - spec_line_start(s, off)
}

/// 1-based character column of a byte offset.
pub open spec fn spec_col_utf8(s: Seq<u8>, off: int) -> int {
    1 + spec_count_chars(s, spec_line_start(s, off), off)
}

proof fn lemma_line_start_bounds(s: Seq<u8>, off: int)
    requires
        0 <= off,
    ensures
        0 <= spec_line_start(s, off) <= off,
    decreases off,
{
    if off > 0 && !(0 <= off - 1 < s.len() && s[off - 1] == B_NL) {
        lemma_line_start_bounds(s, off - 1);
    }
}

proof fn lemma_count_chars_bounds(s: Seq<u8>, from: int, to: int)
    ensures
        0 <= spec_count_chars(s, from, to) <= if to >= from {
            to - from
        } else {
            0
        },
    decreases to - from,
{
    if to > from {
        lemma_count_chars_bounds(s, from, to - 1);
    }
}

proof fn lemma_count_nl_bounds(s: Seq<u8>, end: int)
    ensures
        0 <= spec_count_nl(s, end) <= if end >= 0 {
            end
        } else {
            0
        },
    decreases end,
{
    if end > 0 {
        lemma_count_nl_bounds(s, end - 1);
    }
}

/// Line, byte column and character column of a byte offset.
pub fn locate(s: &[u8], off: usize) -> (r: (usize, usize, usize))
    requires
        off <= s@.len(),
        s@.len() < usize::MAX,
    ensures
        r.0 == spec_line_of(s@, off as int),
        r.1 == spec_col_ascii(s@, off as int),
        r.2 == spec_col_utf8(s@, off as int),
{
    let mut j: usize = 0;
    let mut nl: usize = 0;
    let mut ls: usize = 0;
    while j < off
        invariant
            j <= off <= s@.len(),
            nl == spec_count_nl(s@, j as int),
            ls == spec_line_start(s@, j as int),
            nl <= j,
            ls <= j,
        decreases off - j,
    {
        proof {
            lemma_count_nl_bounds(s@, j + 1);
            lemma_line_start_bounds(s@, j + 1);
        }
        if s[j] == B_NL {
            nl += 1;
            ls = j + 1;
        }
        j += 1;
    }
    let mut k: usize = ls;
    let mut chars: usize = 0;
    while k < off
        invariant
            ls <= k <= off <= s@.len(),
            chars == spec_count_chars(s@, ls as int, k as int),
            chars <= k - ls,
        decreases off - k,
    {
        proof {
            lemma_count_chars_bounds(s@, ls as int, k + 1);
        }
        let b = s[k];
        if !(0x80 <= b && b < 0xc0) {
            chars += 1;
        }
        k += 1;
    }
    (nl + 1, (off - ls) + 1, chars + 1)
}

// ---------------------------------------------------------------------------
// Scanning helpers
// ---------------------------------------------------------------------------

pub open spec fn spec_is_space(b: u8) -> bool {
    b == 0x20 || b == 0x09
}

/// First position at or after `i` that is not a space or tab.
pub open spec fn spec_skip_spaces(s: Seq<u8>, i: int) -> int
    decreases s.len() - i,
{
    if 0 <= i < s.len() && spec_is_space(s[i]) {
        spec_skip_spaces(s, i + 1)
    } else {
        i
    }
}

/// First position at or after `i` holding a newline, or the end.
pub open spec fn spec_till_nl(s: Seq<u8>, i: int) -> int
    decreases s.len() - i,
{
    if 0 <= i < s.len() && s[i] != B_NL {
        spec_till_nl(s, i + 1)
    } else {
        i
    }
}

pub proof fn lemma_skip_spaces_bounds(s: Seq<u8>, i: int)
    requires
        0 <= i <= s.len(),
    ensures
        i <= spec_skip_spaces(s, i) <= s.len(),
    decreases s.len() - i,
{
    if i < s.len() && spec_is_space(s[i]) {
        lemma_skip_spaces_bounds(s, i + 1);
    }
}

pub proof fn lemma_till_nl_bounds(s: Seq<u8>, i: int)
    requires
        0 <= i <= s.len(),
    ensures
        i <= spec_till_nl(s, i) <= s.len(),
    decreases s.len() - i,
{
    if i < s.len() && s[i] != B_NL {
        lemma_till_nl_bounds(s, i + 1);
    }
}

pub fn skip_spaces(s: &[u8], i: usize) -> (r: usize)
    requires
        i <= s@.len(),
    ensures
        r == spec_skip_spaces(s@, i as int),
        i <= r <= s@.len(),
{
    let mut j = i;
    while j < s.len() && (s[j] == 0x20 || s[j] == 0x09)
        invariant
            i <= j <= s@.len(),
            spec_skip_spaces(s@, i as int) == spec_skip_spaces(s@, j as int),
        decreases s@.len() - j,
    {
        j += 1;
    }
    j
}

pub fn till_nl(s: &[u8], i: usize) -> (r: usize)
    requires
        i <= s@.len(),
    ensures
        r == spec_till_nl(s@, i as int),
        i <= r <= s@.len(),
{
    let mut j = i;
    while j < s.len() && s[j] != B_NL
        invariant
            i <= j <= s@.len(),
            spec_till_nl(s@, i as int) == spec_till_nl(s@, j as int),
        decreases s@.len() - j,
    {
        j += 1;
    }
    j
}

/// Whether `kw` occurs at position `i` of `s`.
pub open spec fn spec_has_prefix(s: Seq<u8>, i: int, kw: Seq<u8>) -> bool {
    0 <= i && i + kw.len() <= s.len() && s.subrange(i, i + kw.len()) == kw
}

pub fn has_prefix_at(s: &[u8], i: usize, kw: &[u8]) -> (r: bool)
    requires
        i <= s@.len(),
    ensures
        r == spec_has_prefix(s@, i as int, kw@),
{
    if s.len() - i < kw.len() {
        return false;
    }
    let mut j: usize = 0;
    while j < kw.len()
        invariant
            j <= kw@.len(),
            i + kw@.len() <= s@.len(),
            s@.len() <= usize::MAX,
            forall|k: int| 0 <= k < j ==> s@[i + k] == kw@[k],
        decreases kw@.len() - j,
    {
        let pos = i + j;
        if s[pos] != kw[j] {
            assert(s@.subrange(i as int, i + kw@.len())[j as int] != kw@[j as int]);
            return false;
        }
        j += 1;
    }
    assert(s@.subrange(i as int, i + kw@.len()) =~= kw@);
    true
}

// ---------------------------------------------------------------------------
// String literals and path literals
// ---------------------------------------------------------------------------

/// End of a string literal's body: the position of the closing quote
/// candidate, scanning from just after the opening quote. A backslash
/// escapes the byte after it.
pub open spec fn spec_str_body_end(s: Seq<u8>, j: int) -> int
    decreases s.len() - j,
{
    if !(0 <= j < s.len()) {
        j
    } else if s[j] == B_QUOTE {
        j
    } else if s[j] == B_BSLASH {
        if j + 1 < s.len() {
            spec_str_body_end(s, j + 2)
        } else {
            j
        }
    } else {
        spec_str_body_end(s, j + 1)
    }
}

pub proof fn lemma_str_body_end_bounds(s: Seq<u8>, j: int)
    requires
        0 <= j <= s.len(),
    ensures
        j <= spec_str_body_end(s, j) <= s.len(),
    decreases s.len() - j,
{
    if 0 <= j < s.len() && s[j] != B_QUOTE {
        if s[j] == B_BSLASH {
            if j + 1 < s.len() {
                lemma_str_body_end_bounds(s, j + 2);
            }
        } else {
            lemma_str_body_end_bounds(s, j + 1);
        }
    }
}

/// A parsed string literal: the decoded text and the raw span, quotes
/// included.
#[derive(Debug)]
pub struct StrLit {
    pub decoded: Vec<u8>,
    pub raw_from: usize,
    pub raw_to: usize,
}

pub ghost struct SpStrLit {
    pub decoded: Seq<u8>,
    pub raw_from: int,
    pub raw_to: int,
}

impl View for StrLit {
    type V = SpStrLit;

    open spec fn view(&self) -> SpStrLit {
        SpStrLit {
            decoded: self.decoded@,
            raw_from: self.raw_from as int,
            raw_to: self.raw_to as int,
        }
    }
}

/// A JSON-style string literal: the raw span runs to the first unescaped
/// quote; the raw span must decode as a JSON string, else the parse fails
/// hard.
pub open spec fn spec_string(s: Seq<u8>, i: int) -> SpStep<SpStrLit> {
    if !(0 <= i < s.len() && s[i] == B_QUOTE) {
        SpStep::Failed { hard: false, kind: ParseErrorKind::Syntax, at: i, to: s.len() as int }
    } else {
        let e = spec_str_body_end(s, i + 1);
        if !(e < s.len() && s[e] == B_QUOTE) {
            SpStep::Failed { hard: false, kind: ParseErrorKind::Syntax, at: i, to: s.len() as int }
        } else {
            match crate::trusted::json_decoded(s.subrange(i, e + 1)) {
                Some(d) => SpStep::Found {
                    next: e + 1,
                    val: SpStrLit { decoded: d, raw_from: i, raw_to: e + 1 },
                },
                None => SpStep::Failed {
                    hard: true,
                    kind: ParseErrorKind::MalformedString,
                    at: i,
                    to: e + 1,
                },
            }
        }
    }
}

pub fn p_string(s: &[u8], i: usize) -> (r: Step<StrLit>)
    requires
        i <= s@.len(),
        s@.len() < usize::MAX,
    ensures
        r@ == spec_string(s@, i as int),
        r matches Step::Failed { at, to, .. } ==> at <= to <= s@.len(),
        r matches Step::Found { next, val } ==> val.raw_from <= val.raw_to <= s@.len() && next
            <= s@.len(),
{
    let n = s.len();
    if i >= n || s[i] != B_QUOTE {
        return Step::Failed { hard: false, kind: ParseErrorKind::Syntax, at: i, to: n };
    }
    let mut j = i + 1;
    proof {
        lemma_str_body_end_bounds(s@, i + 1);
    }
    while j < n && s[j] != B_QUOTE && !(s[j] == B_BSLASH && j + 1 >= n)
        invariant
            i + 1 <= j <= n,
            n == s@.len() < usize::MAX,
            spec_str_body_end(s@, i + 1) == spec_str_body_end(s@, j as int),
        decreases n - j,
    {
        if s[j] == B_BSLASH {
            j += 2;
        } else {
            j += 1;
        }
    }
    assert(spec_str_body_end(s@, j as int) == j);
    let e = j;
    if e >= n || s[e] != B_QUOTE {
        return Step::Failed { hard: false, kind: ParseErrorKind::Syntax, at: i, to: n };
    }
    let raw = crate::textutil::slice_range(s, i, e + 1);
    match crate::trusted::json_decode_string(raw.as_slice()) {
        Some(d) => Step::Found {
            next: e + 1,
            val: StrLit { decoded: d, raw_from: i, raw_to: e + 1 },
        },
        None => Step::Failed { hard: true, kind: ParseErrorKind::MalformedString, at: i, to: e + 1 },
    }
}

pub open spec fn spec_is_ascii_alpha(b: u8) -> bool {
    (0x41 <= b <= 0x5a) || (0x61 <= b <= 0x7a)
}

/// A relative path per the descriptor rules: no leading slash or backslash,
/// no drive letter.
pub open spec fn spec_is_relative(d: Seq<u8>) -> bool {
    &&& !(d.len() > 0 && (d[0] == 0x2f || d[0] == 0x5c))
    &&& !(d.len() >= 2 && spec_is_ascii_alpha(d[0]) && d[1] == B_COLON)
}

pub fn is_relative_path(d: &[u8]) -> (r: bool)
    ensures
        r == spec_is_relative(d@),
{
    if d.len() > 0 && (d[0] == 0x2f || d[0] == 0x5c) {
        return false;
    }
    if d.len() >= 2 && ((0x41 <= d[0] && d[0] <= 0x5a) || (0x61 <= d[0] && d[0] <= 0x7a)) && d[1]
        == B_COLON {
        return false;
    }
    true
}

/// A string literal that must hold a relative path: an absolute path is a
/// hard failure.
pub open spec fn spec_relpath(s: Seq<u8>, i: int) -> SpStep<SpStrLit> {
    match spec_string(s, i) {
        SpStep::Found { next, val } => {
            if spec_is_relative(val.decoded) {
                SpStep::Found { next, val }
            } else {
                SpStep::Failed {
                    hard: true,
                    kind: ParseErrorKind::NotRelativePath,
                    at: val.raw_from,
                    to: val.raw_to,
                }
            }
        },
        SpStep::Failed { hard, kind, at, to } => SpStep::Failed { hard, kind, at, to },
    }
}

pub fn p_relpath(s: &[u8], i: usize) -> (r: Step<StrLit>)
    requires
        i <= s@.len(),
        s@.len() < usize::MAX,
    ensures
        r@ == spec_relpath(s@, i as int),
        r matches Step::Failed { at, to, .. } ==> at <= to <= s@.len(),
        r matches Step::Found { next, val } ==> val.raw_from <= val.raw_to <= s@.len() && next
            <= s@.len(),
{
    match p_string(s, i) {
        Step::Found { next, val } => {
            if is_relative_path(val.decoded.as_slice()) {
                Step::Found { next, val }
            } else {
                Step::Failed {
                    hard: true,
                    kind: ParseErrorKind::NotRelativePath,
                    at: val.raw_from,
                    to: val.raw_to,
                }
            }
        },
        Step::Failed { hard, kind, at, to } => Step::Failed { hard, kind, at, to },
    }
}

// ---------------------------------------------------------------------------
// Directives
// ---------------------------------------------------------------------------

/// The keyword of the file-inclusion directive.
pub open spec fn kw_dir_inclusion() -> Seq<u8> {
    ascii_bytes("#incl"@) + ascii_bytes("ude"@)
}

fn kw_dir_inclusion_vec() -> (r: Vec<u8>)
    ensures
        r@ == kw_dir_inclusion(),
{
    proof {
        reveal_strlit("#incl");
        reveal_strlit("ude");
        assert(vstd::utf8::is_ascii_chars("#incl"@));
        assert(vstd::utf8::is_ascii_chars("ude"@));
    }
    let mut v = str_bytes("#incl");
    let mut w = str_bytes("ude");
    v.append(&mut w);
    v
}

/// The keyword of the resource directive.
pub open spec fn kw_dir_resource() -> Seq<u8> {
    ascii_bytes("#resource"@)
}

fn kw_dir_resource_vec() -> (r: Vec<u8>)
    ensures
        r@ == kw_dir_resource(),
{
    proof {
        reveal_strlit("#resource");
        assert(vstd::utf8::is_ascii_chars("#resource"@));
    }
    str_bytes("#resource")
}

/// The default resource destination: the directive's own directory.
pub open spec fn kw_dot() -> Seq<u8> {
    ascii_bytes("."@)
}

pub fn kw_dot_vec() -> (r: Vec<u8>)
    ensures
        r@ == kw_dot(),
{
    proof {
        reveal_strlit(".");
        assert(vstd::utf8::is_ascii_chars("."@));
    }
    str_bytes(".")
}

#[derive(Debug)]
pub enum Directive {
    /// Splice another file in, by path relative to the current file.
    Inclusion { path: Vec<u8> },
    /// Register the files matching `pattern` under the destination
    /// directory `dest`.
    Resource { pattern: Vec<u8>, dest: Vec<u8> },
    /// Any other `#name` line: passed through as an inert comment.
    Unknown { name: Vec<u8>, contents: Vec<u8> },
}

pub ghost enum SpDirective {
    Inclusion { path: Seq<u8> },
    Resource { pattern: Seq<u8>, dest: Seq<u8> },
    Unknown { name: Seq<u8>, contents: Seq<u8> },
}

impl View for Directive {
    type V = SpDirective;

    open spec fn view(&self) -> SpDirective {
        match self {
            Directive::Inclusion { path } => SpDirective::Inclusion { path: path@ },
            Directive::Resource { pattern, dest } => SpDirective::Resource {
                pattern: pattern@,
                dest: dest@,
            },
            Directive::Unknown { name, contents } => SpDirective::Unknown {
                name: name@,
                contents: contents@,
            },
        }
    }
}

/// `#include "relative/path"`: the keyword, at least one space, one relative
/// path string. Any other tail is a hard failure naming the keyword.
pub open spec fn spec_inclusion_dir(s: Seq<u8>, i: int) -> SpStep<SpDirective> {
    let kw = kw_dir_inclusion();
    if !spec_has_prefix(s, i, kw) {
        SpStep::Failed { hard: false, kind: ParseErrorKind::Syntax, at: i, to: s.len() as int }
    } else {
        let t = i + kw.len();
        if !(t < s.len() && spec_is_space(s[t])) {
            SpStep::Failed { hard: true, kind: ParseErrorKind::MalformedInclusionDirective, at: i, to: t }
        } else {
            match spec_relpath(s, spec_skip_spaces(s, t)) {
                SpStep::Found { next, val } => SpStep::Found {
                    next,
                    val: SpDirective::Inclusion { path: val.decoded },
                },
                SpStep::Failed { hard, kind, at, to } => {
                    if hard {
                        SpStep::Failed { hard, kind, at, to }
                    } else {
                        SpStep::Failed {
                            hard: true,
                            kind: ParseErrorKind::MalformedInclusionDirective,
                            at: i,
                            to: t,
                        }
                    }
                },
            }
        }
    }
}

pub fn p_inclusion_dir(s: &[u8], i: usize) -> (r: Step<Directive>)
    requires
        i <= s@.len(),
        s@.len() < usize::MAX,
    ensures
        r@ == spec_inclusion_dir(s@, i as int),
        r matches Step::Failed { at, to, .. } ==> at <= to <= s@.len(),
        r matches Step::Found { next, .. } ==> next <= s@.len(),
{
    let n = s.len();
    let kw = kw_dir_inclusion_vec();
    if !has_prefix_at(s, i, kw.as_slice()) {
        return Step::Failed { hard: false, kind: ParseErrorKind::Syntax, at: i, to: n };
    }
    let t = i + kw.len();
    if !(t < n && (s[t] == 0x20 || s[t] == 0x09)) {
        return Step::Failed {
            hard: true,
            kind: ParseErrorKind::MalformedInclusionDirective,
            at: i,
            to: t,
        };
    }
    let q = skip_spaces(s, t);
    match p_relpath(s, q) {
        Step::Found { next, val } => Step::Found {
            next,
            val: Directive::Inclusion { path: val.decoded },
        },
        Step::Failed { hard, kind, at, to } => {
            if hard {
                Step::Failed { hard, kind, at, to }
            } else {
                Step::Failed {
                    hard: true,
                    kind: ParseErrorKind::MalformedInclusionDirective,
                    at: i,
                    to: t,
                }
            }
        },
    }
}

/// `#resource "glob"` or `#resource "dest": "glob"`: paths must be relative
/// and the glob must compile; a missing or malformed first string is a hard
/// failure naming the keyword. Two strings without the colon are not caught
/// here: the first parses as a complete single-pattern directive, and the
/// leftover second string fails the document parse where the line ends.
pub open spec fn spec_resource_dir(s: Seq<u8>, i: int) -> SpStep<SpDirective> {
    let kw = kw_dir_resource();
    if !spec_has_prefix(s, i, kw) {
        SpStep::Failed { hard: false, kind: ParseErrorKind::Syntax, at: i, to: s.len() as int }
    } else {
        let t = i + kw.len();
        if !(t < s.len() && spec_is_space(s[t])) {
            SpStep::Failed { hard: true, kind: ParseErrorKind::MalformedResourceDirective, at: i, to: t }
        } else {
            match spec_relpath(s, spec_skip_spaces(s, t)) {
                SpStep::Failed { hard, kind, at, to } => {
                    if hard {
                        SpStep::Failed { hard, kind, at, to }
                    } else {
                        SpStep::Failed {
                            hard: true,
                            kind: ParseErrorKind::MalformedResourceDirective,
                            at: i,
                            to: t,
                        }
                    }
                },
                SpStep::Found { next: n1, val: v1 } => {
                    let c = spec_skip_spaces(s, n1);
                    if c < s.len() && s[c] == B_COLON {
                        match spec_relpath(s, spec_skip_spaces(s, c + 1)) {
                            SpStep::Failed { hard, kind, at, to } => {
                                if hard {
                                    SpStep::Failed { hard, kind, at, to }
                                } else {
                                    SpStep::Failed {
                                        hard: true,
                                        kind: ParseErrorKind::MalformedResourceDirective,
                                        at: i,
                                        to: t,
                                    }
                                }
                            },
                            SpStep::Found { next: n2, val: v2 } => {
                                if crate::trusted::glob_pattern_ok(v2.decoded) {
                                    SpStep::Found {
                                        next: n2,
                                        val: SpDirective::Resource {
                                            pattern: v2.decoded,
                                            dest: v1.decoded,
                                        },
                                    }
                                } else {
                                    SpStep::Failed {
                                        hard: true,
                                        kind: ParseErrorKind::InvalidGlobPattern,
                                        at: v2.raw_from,
                                        to: v2.raw_to,
                                    }
                                }
                            },
                        }
                    } else {
                        if crate::trusted::glob_pattern_ok(v1.decoded) {
                            SpStep::Found {
                                next: n1,
                                val: SpDirective::Resource { pattern: v1.decoded, dest: kw_dot() },
                            }
                        } else {
                            SpStep::Failed {
                                hard: true,
                                kind: ParseErrorKind::InvalidGlobPattern,
                                at: v1.raw_from,
                                to: v1.raw_to,
                            }
                        }
                    }
                },
            }
        }
    }
}

pub fn p_resource_dir(s: &[u8], i: usize) -> (r: Step<Directive>)
    requires
        i <= s@.len(),
        s@.len() < usize::MAX,
    ensures
        r@ == spec_resource_dir(s@, i as int),
        r matches Step::Failed { at, to, .. } ==> at <= to <= s@.len(),
        r matches Step::Found { next, .. } ==> next <= s@.len(),
{
    let n = s.len();
    let kw = kw_dir_resource_vec();
    if !has_prefix_at(s, i, kw.as_slice()) {
        return Step::Failed { hard: false, kind: ParseErrorKind::Syntax, at: i, to: n };
    }
    let t = i + kw.len();
    if !(t < n && (s[t] == 0x20 || s[t] == 0x09)) {
        return Step::Failed {
            hard: true,
            kind: ParseErrorKind::MalformedResourceDirective,
            at: i,
            to: t,
        };
    }
    let q = skip_spaces(s, t);
    match p_relpath(s, q) {
        Step::Failed { hard, kind, at, to } => {
            if hard {
                Step::Failed { hard, kind, at, to }
            } else {
                Step::Failed {
                    hard: true,
                    kind: ParseErrorKind::MalformedResourceDirective,
                    at: i,
                    to: t,
                }
            }
        },
        Step::Found { next: n1, val: v1 } => {
            let c = skip_spaces(s, n1);
            if c < n && s[c] == B_COLON {
                let q2 = skip_spaces(s, c + 1);
                match p_relpath(s, q2) {
                    Step::Failed { hard, kind, at, to } => {
                        if hard {
                            Step::Failed { hard, kind, at, to }
                        } else {
                            Step::Failed {
                                hard: true,
                                kind: ParseErrorKind::MalformedResourceDirective,
                                at: i,
                                to: t,
                            }
                        }
                    },
                    Step::Found { next: n2, val: v2 } => {
                        if crate::trusted::glob_pattern_valid(v2.decoded.as_slice()) {
                            Step::Found {
                                next: n2,
                                val: Directive::Resource { pattern: v2.decoded, dest: v1.decoded },
                            }
                        } else {
                            Step::Failed {
                                hard: true,
                                kind: ParseErrorKind::InvalidGlobPattern,
                                at: v2.raw_from,
                                to: v2.raw_to,
                            }
                        }
                    },
                }
            } else {
                if crate::trusted::glob_pattern_valid(v1.decoded.as_slice()) {
                    Step::Found {
                        next: n1,
                        val: Directive::Resource { pattern: v1.decoded, dest: kw_dot_vec() },
                    }
                } else {
                    Step::Failed {
                        hard: true,
                        kind: ParseErrorKind::InvalidGlobPattern,
                        at: v1.raw_from,
                        to: v1.raw_to,
                    }
                }
            }
        },
    }
}

/// First position at or after `i` that is not an ASCII letter.
pub open spec fn spec_skip_alpha(s: Seq<u8>, i: int) -> int
    decreases s.len() - i,
{
    if 0 <= i < s.len() && spec_is_ascii_alpha(s[i]) {
        spec_skip_alpha(s, i + 1)
    } else {
        i
    }
}

pub fn skip_alpha(s: &[u8], i: usize) -> (r: usize)
    requires
        i <= s@.len(),
    ensures
        r == spec_skip_alpha(s@, i as int),
        i <= r <= s@.len(),
{
    let mut j = i;
    while j < s.len() && ((0x41 <= s[j] && s[j] <= 0x5a) || (0x61 <= s[j] && s[j] <= 0x7a))
        invariant
            i <= j <= s@.len(),
            spec_skip_alpha(s@, i as int) == spec_skip_alpha(s@, j as int),
        decreases s@.len() - j,
    {
        j += 1;
    }
    j
}

/// `#name rest-of-line` for any alphabetic name: never an error, passed
/// through.
pub open spec fn spec_unknown_dir(s: Seq<u8>, i: int) -> SpStep<SpDirective> {
    if !(0 <= i < s.len() && s[i] == B_HASH) {
        SpStep::Failed { hard: false, kind: ParseErrorKind::Syntax, at: i, to: s.len() as int }
    } else {
        let e = spec_skip_alpha(s, i + 1);
        if e == i + 1 {
            SpStep::Failed { hard: false, kind: ParseErrorKind::Syntax, at: i, to: s.len() as int }
        } else {
            let c = spec_till_nl(s, e);
            SpStep::Found {
                next: c,
                val: SpDirective::Unknown {
                    name: s.subrange(i + 1, e),
                    contents: s.subrange(e, c),
                },
            }
        }
    }
}

pub fn p_unknown_dir(s: &[u8], i: usize) -> (r: Step<Directive>)
    requires
        i <= s@.len(),
        s@.len() < usize::MAX,
    ensures
        r@ == spec_unknown_dir(s@, i as int),
        r matches Step::Failed { at, to, .. } ==> at <= to <= s@.len(),
        r matches Step::Found { next, .. } ==> next <= s@.len(),
{
    let n = s.len();
    if !(i < n && s[i] == B_HASH) {
        return Step::Failed { hard: false, kind: ParseErrorKind::Syntax, at: i, to: n };
    }
    let e = skip_alpha(s, i + 1);
    if e == i + 1 {
        return Step::Failed { hard: false, kind: ParseErrorKind::Syntax, at: i, to: n };
    }
    let c = till_nl(s, e);
    let name = crate::textutil::slice_range(s, i + 1, e);
    let contents = crate::textutil::slice_range(s, e, c);
    Step::Found { next: c, val: Directive::Unknown { name, contents } }
}

/// The directive alternative: a hard failure from an earlier branch aborts;
/// a soft one tries the next branch.
pub open spec fn spec_directive(s: Seq<u8>, i: int) -> SpStep<SpDirective> {
    match spec_inclusion_dir(s, i) {
        SpStep::Found { next, val } => SpStep::Found { next, val },
        SpStep::Failed { hard, kind, at, to } => {
            if hard {
                SpStep::Failed { hard, kind, at, to }
            } else {
                match spec_resource_dir(s, i) {
                    SpStep::Found { next, val } => SpStep::Found { next, val },
                    SpStep::Failed { hard, kind, at, to } => {
                        if hard {
                            SpStep::Failed { hard, kind, at, to }
                        } else {
                            spec_unknown_dir(s, i)
                        }
                    },
                }
            }
        },
    }
}

// ---------------------------------------------------------------------------
// Brace pairs, expressions, plain code
// ---------------------------------------------------------------------------

/// A raw span of the input.
#[derive(Debug)]
pub struct Span {
    pub from: usize,
    pub to: usize,
}

pub ghost struct SpSpan {
    pub from: int,
    pub to: int,
}

impl View for Span {
    type V = SpSpan;

    open spec fn view(&self) -> SpSpan {
        SpSpan { from: self.from as int, to: self.to as int }
    }
}

/// First position at or after `i` holding a brace, or the end.
pub open spec fn spec_till_braces(s: Seq<u8>, i: int) -> int
    decreases s.len() - i,
{
    if 0 <= i < s.len() && s[i] != B_LBRACE && s[i] != B_RBRACE {
        spec_till_braces(s, i + 1)
    } else {
        i
    }
}

pub proof fn lemma_till_braces_bounds(s: Seq<u8>, i: int)
    requires
        0 <= i <= s.len(),
    ensures
        i <= spec_till_braces(s, i) <= s.len(),
    decreases s.len() - i,
{
    if i < s.len() && s[i] != B_LBRACE && s[i] != B_RBRACE {
        lemma_till_braces_bounds(s, i + 1);
    }
}

pub fn till_braces(s: &[u8], i: usize) -> (r: usize)
    requires
        i <= s@.len(),
    ensures
        r == spec_till_braces(s@, i as int),
        i <= r <= s@.len(),
{
    let mut j = i;
    while j < s.len() && s[j] != B_LBRACE && s[j] != B_RBRACE
        invariant
            i <= j <= s@.len(),
            spec_till_braces(s@, i as int) == spec_till_braces(s@, j as int),
        decreases s@.len() - j,
    {
        j += 1;
    }
    j
}

/// A balanced brace pair: `{`, any mix of brace-free runs and nested pairs,
/// `}`. The parsed span includes both outer braces.
pub open spec fn spec_brace(s: Seq<u8>, i: int) -> SpStep<SpSpan>
    decreases s.len() - i, 0int,
{
    if !(0 <= i < s.len() && s[i] == B_LBRACE) {
        SpStep::Failed { hard: false, kind: ParseErrorKind::Syntax, at: i, to: s.len() as int }
    } else {
        let j = spec_brace_items(s, i + 1);
        if 0 <= j < s.len() && s[j] == B_RBRACE {
            SpStep::Found { next: j + 1, val: SpSpan { from: i, to: j + 1 } }
        } else {
            SpStep::Failed { hard: false, kind: ParseErrorKind::Syntax, at: i, to: s.len() as int }
        }
    }
}

/// End of the interior of a brace pair: repeatedly consume brace-free runs
/// and nested pairs, stopping at the first unmatched brace or the end.
pub open spec fn spec_brace_items(s: Seq<u8>, j: int) -> int
    decreases s.len() - j, 1int,
{
    if !(0 <= j < s.len()) {
        j
    } else if s[j] != B_LBRACE && s[j] != B_RBRACE {
        let t = spec_till_braces(s, j);
        if j < t <= s.len() {
            spec_brace_items(s, t)
        } else {
            j
        }
    } else if s[j] == B_LBRACE {
        match spec_brace(s, j) {
            SpStep::Found { next, val } => {
                if j < next <= s.len() {
                    spec_brace_items(s, next)
                } else {
                    j
                }
            },
            SpStep::Failed { .. } => j,
        }
    } else {
        j
    }
}

pub proof fn lemma_brace_bounds(s: Seq<u8>, i: int)
    requires
        0 <= i <= s.len(),
    ensures
        spec_brace(s, i) matches SpStep::Found { next, val } ==> i < next <= s.len() && val.from
            == i && val.to == next && i + 2 <= next,
    decreases s.len() - i, 0int,
{
    if 0 <= i < s.len() && s[i] == B_LBRACE {
        lemma_brace_items_bounds(s, i + 1);
    }
}

pub proof fn lemma_brace_items_bounds(s: Seq<u8>, j: int)
    requires
        0 <= j <= s.len(),
    ensures
        j <= spec_brace_items(s, j) <= s.len(),
    decreases s.len() - j, 1int,
{
    if !(0 <= j < s.len()) {
    } else if s[j] != B_LBRACE && s[j] != B_RBRACE {
        lemma_till_braces_bounds(s, j);
        let t = spec_till_braces(s, j);
        if j < t <= s.len() {
            lemma_brace_items_bounds(s, t);
        }
    } else if s[j] == B_LBRACE {
        lemma_brace_bounds(s, j);
        match spec_brace(s, j) {
            SpStep::Found { next, val } => {
                if j < next <= s.len() {
                    lemma_brace_items_bounds(s, next);
                }
            },
            SpStep::Failed { .. } => {},
        }
    }
}

pub fn p_brace(s: &[u8], i: usize) -> (r: Step<Span>)
    requires
        i <= s@.len(),
        s@.len() < usize::MAX,
    ensures
        r@ == spec_brace(s@, i as int),
        r matches Step::Failed { at, to, .. } ==> at <= to <= s@.len(),
        r matches Step::Found { next, val } ==> val.from <= val.to <= s@.len() && next <= s@.len(),
    decreases s@.len() - i, 0int,
{
    let n = s.len();
    if !(i < n && s[i] == B_LBRACE) {
        return Step::Failed { hard: false, kind: ParseErrorKind::Syntax, at: i, to: n };
    }
    proof {
        lemma_brace_items_bounds(s@, i + 1);
    }
    let j = p_brace_items(s, i + 1);
    if j < n && s[j] == B_RBRACE {
        Step::Found { next: j + 1, val: Span { from: i, to: j + 1 } }
    } else {
        Step::Failed { hard: false, kind: ParseErrorKind::Syntax, at: i, to: n }
    }
}

pub fn p_brace_items(s: &[u8], j: usize) -> (r: usize)
    requires
        j <= s@.len(),
        s@.len() < usize::MAX,
    ensures
        r == spec_brace_items(s@, j as int),
        j <= r <= s@.len(),
    decreases s@.len() - j, 1int,
{
    proof {
        lemma_brace_items_bounds(s@, j as int);
    }
    let n = s.len();
    if !(j < n) {
        return j;
    }
    if s[j] != B_LBRACE && s[j] != B_RBRACE {
        let t = till_braces(s, j);
        if j < t {
            p_brace_items(s, t)
        } else {
            j
        }
    } else if s[j] == B_LBRACE {
        proof {
            lemma_brace_bounds(s@, j as int);
        }
        match p_brace(s, j) {
            Step::Found { next, val } => {
                if j < next {
                    p_brace_items(s, next)
                } else {
                    j
                }
            },
            Step::Failed { .. } => j,
        }
    } else {
        j
    }
}

/// An expression span `#{ ... }`: the parsed value is the code between the
/// braces.
pub open spec fn spec_expression(s: Seq<u8>, i: int) -> SpStep<SpSpan> {
    if !(0 <= i < s.len() && s[i] == B_HASH) {
        SpStep::Failed { hard: false, kind: ParseErrorKind::Syntax, at: i, to: s.len() as int }
    } else {
        match spec_brace(s, i + 1) {
            SpStep::Found { next, val } => SpStep::Found {
                next,
                val: SpSpan { from: i + 2, to: next - 1 },
            },
            SpStep::Failed { hard, kind, at, to } => SpStep::Failed { hard, kind, at, to },
        }
    }
}

pub fn p_expression(s: &[u8], i: usize) -> (r: Step<Span>)
    requires
        i <= s@.len(),
        s@.len() < usize::MAX,
    ensures
        r@ == spec_expression(s@, i as int),
        r matches Step::Failed { at, to, .. } ==> at <= to <= s@.len(),
        r matches Step::Found { next, val } ==> val.from <= val.to <= s@.len() && next <= s@.len(),
{
    let n = s.len();
    if !(i < n && s[i] == B_HASH) {
        return Step::Failed { hard: false, kind: ParseErrorKind::Syntax, at: i, to: n };
    }
    proof {
        lemma_brace_bounds(s@, i + 1);
    }
    match p_brace(s, i + 1) {
        Step::Found { next, val } => Step::Found { next, val: Span { from: i + 2, to: next - 1 } },
        Step::Failed { hard, kind, at, to } => Step::Failed { hard, kind, at, to },
    }
}

/// First position at or after `i` holding a newline, semicolon or hash, or
/// the end.
pub open spec fn spec_till_code_end(s: Seq<u8>, i: int) -> int
    decreases s.len() - i,
{
    if 0 <= i < s.len() && s[i] != B_NL && s[i] != B_HASH && s[i] != B_SEMI {
        spec_till_code_end(s, i + 1)
    } else {
        i
    }
}

pub proof fn lemma_till_code_end_bounds(s: Seq<u8>, i: int)
    requires
        0 <= i <= s.len(),
    ensures
        i <= spec_till_code_end(s, i) <= s.len(),
    decreases s.len() - i,
{
    if i < s.len() && s[i] != B_NL && s[i] != B_HASH && s[i] != B_SEMI {
        lemma_till_code_end_bounds(s, i + 1);
    }
}

pub fn till_code_end(s: &[u8], i: usize) -> (r: usize)
    requires
        i <= s@.len(),
    ensures
        r == spec_till_code_end(s@, i as int),
        i <= r <= s@.len(),
{
    let mut j = i;
    while j < s.len() && s[j] != B_NL && s[j] != B_HASH && s[j] != B_SEMI
        invariant
            i <= j <= s@.len(),
            spec_till_code_end(s@, i as int) == spec_till_code_end(s@, j as int),
        decreases s@.len() - j,
    {
        j += 1;
    }
    j
}

/// End of a run of plain code: stops at a newline, a semicolon or a hash
/// that opens an expression; a hash that does not open an expression is
/// ordinary code (legacy macro interpolation writes `##`).
pub open spec fn spec_walter_end(s: Seq<u8>, j: int) -> int
    decreases s.len() - j,
{
    if !(0 <= j < s.len()) {
        j
    } else if s[j] != B_NL && s[j] != B_HASH && s[j] != B_SEMI {
        let t = spec_till_code_end(s, j);
        if j < t <= s.len() {
            spec_walter_end(s, t)
        } else {
            j
        }
    } else if s[j] == B_HASH {
        if spec_expression(s, j) is Found {
            j
        } else {
            spec_walter_end(s, j + 1)
        }
    } else {
        j
    }
}

pub proof fn lemma_walter_end_bounds(s: Seq<u8>, j: int)
    requires
        0 <= j <= s.len(),
    ensures
        j <= spec_walter_end(s, j) <= s.len(),
    decreases s.len() - j,
{
    if !(0 <= j < s.len()) {
    } else if s[j] != B_NL && s[j] != B_HASH && s[j] != B_SEMI {
        lemma_till_code_end_bounds(s, j);
        let t = spec_till_code_end(s, j);
        if j < t <= s.len() {
            lemma_walter_end_bounds(s, t);
        }
    } else if s[j] == B_HASH {
        if !(spec_expression(s, j) is Found) {
            lemma_walter_end_bounds(s, j + 1);
        }
    }
}

pub fn p_walter_end(s: &[u8], j: usize) -> (r: usize)
    requires
        j <= s@.len(),
        s@.len() < usize::MAX,
    ensures
        r == spec_walter_end(s@, j as int),
        j <= r <= s@.len(),
    decreases s@.len() - j,
{
    proof {
        lemma_walter_end_bounds(s@, j as int);
    }
    let n = s.len();
    if !(j < n) {
        return j;
    }
    if s[j] != B_NL && s[j] != B_HASH && s[j] != B_SEMI {
        let t = till_code_end(s, j);
        if j < t {
            p_walter_end(s, t)
        } else {
            j
        }
    } else if s[j] == B_HASH {
        match p_expression(s, j) {
            Step::Found { .. } => j,
            Step::Failed { .. } => p_walter_end(s, j + 1),
        }
    } else {
        j
    }
}

/// A run of plain code: at least one byte, else a soft failure.
pub open spec fn spec_walter(s: Seq<u8>, i: int) -> SpStep<SpSpan> {
    let e = spec_walter_end(s, i);
    if e > i {
        SpStep::Found { next: e, val: SpSpan { from: i, to: e } }
    } else {
        SpStep::Failed { hard: false, kind: ParseErrorKind::Syntax, at: i, to: s.len() as int }
    }
}

pub fn p_walter(s: &[u8], i: usize) -> (r: Step<Span>)
    requires
        i <= s@.len(),
        s@.len() < usize::MAX,
    ensures
        r@ == spec_walter(s@, i as int),
        r matches Step::Failed { at, to, .. } ==> at <= to <= s@.len(),
        r matches Step::Found { next, val } ==> val.from <= val.to <= s@.len() && next <= s@.len(),
{
    let n = s.len();
    let e = p_walter_end(s, i);
    if e > i {
        Step::Found { next: e, val: Span { from: i, to: e } }
    } else {
        Step::Failed { hard: false, kind: ParseErrorKind::Syntax, at: i, to: n }
    }
}

// ---------------------------------------------------------------------------
// Content items, lines, the whole document
// ---------------------------------------------------------------------------

/// One item of parsed descriptor content, in document order.
#[derive(Debug)]
pub enum RtconfigContent {
    Newline,
    Code(Vec<u8>),
    Comment(Vec<u8>),
    /// The code between the braces of a `#{ ... }` span, with the 1-based
    /// line and character column where that code starts.
    Expression { code: Vec<u8>, offset: usize, line: usize, column: usize },
    Directive(Directive),
}

pub ghost enum SpContent {
    Newline,
    Code(Seq<u8>),
    Comment(Seq<u8>),
    Expression { code: Seq<u8>, offset: int, line: int, column: int },
    Directive(SpDirective),
}

impl View for RtconfigContent {
    type V = SpContent;

    open spec fn view(&self) -> SpContent {
        match self {
            RtconfigContent::Newline => SpContent::Newline,
            RtconfigContent::Code(c) => SpContent::Code(c@),
            RtconfigContent::Comment(c) => SpContent::Comment(c@),
            RtconfigContent::Expression { code, offset, line, column } => SpContent::Expression {
                code: code@,
                offset: *offset as int,
                line: *line as int,
                column: *column as int,
            },
            RtconfigContent::Directive(d) => SpContent::Directive(d@),
        }
    }
}

pub open spec fn contents_view(v: Seq<RtconfigContent>) -> Seq<SpContent> {
    v.map_values(|c: RtconfigContent| c@)
}

/// A run of newlines: `count` many `Newline` items.
pub open spec fn spec_newline_items(count: int) -> Seq<SpContent> {
    Seq::new(if count >= 0 {
        count as nat
    } else {
        0
    }, |k: int| SpContent::Newline)
}

/// A line comment: `;` to the end of the physical line, the semicolon
/// included.
pub open spec fn spec_comment(s: Seq<u8>, i: int) -> SpStep<SpSpan> {
    if 0 <= i < s.len() && s[i] == B_SEMI {
        let e = spec_till_nl(s, i + 1);
        SpStep::Found { next: e, val: SpSpan { from: i, to: e } }
    } else {
        SpStep::Failed { hard: false, kind: ParseErrorKind::Syntax, at: i, to: s.len() as int }
    }
}

pub fn p_comment(s: &[u8], i: usize) -> (r: Step<Span>)
    requires
        i <= s@.len(),
        s@.len() < usize::MAX,
    ensures
        r@ == spec_comment(s@, i as int),
        r matches Step::Failed { at, to, .. } ==> at <= to <= s@.len(),
        r matches Step::Found { next, val } ==> val.from <= val.to <= s@.len() && next <= s@.len(),
{
    let n = s.len();
    if i < n && s[i] == B_SEMI {
        let e = till_nl(s, i + 1);
        Step::Found { next: e, val: Span { from: i, to: e } }
    } else {
        Step::Failed { hard: false, kind: ParseErrorKind::Syntax, at: i, to: n }
    }
}

/// A maximal run of code and expression items: code spans verbatim,
/// expression spans with the location of their first code byte. Stops when
/// neither matches; never fails.
pub open spec fn spec_code_items(s: Seq<u8>, j: int) -> (int, Seq<SpContent>)
    decreases s.len() - j,
{
    match spec_walter(s, j) {
        SpStep::Found { next, val } => {
            if j < next <= s.len() {
                let (e, rest) = spec_code_items(s, next);
                (e, seq![SpContent::Code(s.subrange(j, next))] + rest)
            } else {
                (j, Seq::<SpContent>::empty())
            }
        },
        SpStep::Failed { .. } => {
            match spec_expression(s, j) {
                SpStep::Found { next, val } => {
                    if j < next <= s.len() {
                        let (e, rest) = spec_code_items(s, next);
                        (
                            e,
                            seq![
                                SpContent::Expression {
                                    code: s.subrange(val.from, val.to),
                                    offset: val.from,
                                    line: spec_line_of(s, val.from),
                                    column: spec_col_utf8(s, val.from),
                                },
                            ] + rest,
                        )
                    } else {
                        (j, Seq::<SpContent>::empty())
                    }
                },
                SpStep::Failed { .. } => (j, Seq::<SpContent>::empty()),
            }
        },
    }
}

pub proof fn lemma_code_items_bounds(s: Seq<u8>, j: int)
    requires
        0 <= j <= s.len(),
    ensures
        j <= spec_code_items(s, j).0 <= s.len(),
    decreases s.len() - j,
{
    match spec_walter(s, j) {
        SpStep::Found { next, val } => {
            if j < next <= s.len() {
                lemma_code_items_bounds(s, next);
            }
        },
        SpStep::Failed { .. } => {
            match spec_expression(s, j) {
                SpStep::Found { next, val } => {
                    if j < next <= s.len() {
                        lemma_code_items_bounds(s, next);
                    }
                },
                SpStep::Failed { .. } => {},
            }
        },
    }
}

pub fn p_code_items(s: &[u8], j: usize) -> (r: (usize, Vec<RtconfigContent>))
    requires
        j <= s@.len(),
        s@.len() < usize::MAX,
    ensures
        r.0 == spec_code_items(s@, j as int).0,
        contents_view(r.1@) == spec_code_items(s@, j as int).1,
        j <= r.0 <= s@.len(),
    decreases s@.len() - j,
{
    proof {
        lemma_code_items_bounds(s@, j as int);
    }
    match p_walter(s, j) {
        Step::Found { next, val } => {
            if j < next {
                let (e, rest) = p_code_items(s, next);
                let code = crate::textutil::slice_range(s, val.from, val.to);
                let mut v: Vec<RtconfigContent> = Vec::new();
                v.push(RtconfigContent::Code(code));
                let mut rv = rest;
                v.append(&mut rv);
                assert(contents_view(v@) =~= spec_code_items(s@, j as int).1);
                (e, v)
            } else {
                let v: Vec<RtconfigContent> = Vec::new();
                assert(contents_view(v@) =~= spec_code_items(s@, j as int).1);
                (j, v)
            }
        },
        Step::Failed { .. } => {
            match p_expression(s, j) {
                Step::Found { next, val } => {
                    if j < next {
                        let (e, rest) = p_code_items(s, next);
                        let code = crate::textutil::slice_range(s, val.from, val.to);
                        let loc = locate(s, val.from);
                        let mut v: Vec<RtconfigContent> = Vec::new();
                        v.push(
                            RtconfigContent::Expression {
                                code,
                                offset: val.from,
                                line: loc.0,
                                column: loc.2,
                            },
                        );
                        let mut rv = rest;
                        v.append(&mut rv);
                        assert(contents_view(v@) =~= spec_code_items(s@, j as int).1);
                        (e, v)
                    } else {
                        let v: Vec<RtconfigContent> = Vec::new();
                        assert(contents_view(v@) =~= spec_code_items(s@, j as int).1);
                        (j, v)
                    }
                },
                Step::Failed { .. } => {
                    let v: Vec<RtconfigContent> = Vec::new();
                    assert(contents_view(v@) =~= spec_code_items(s@, j as int).1);
                    (j, v)
                },
            }
        },
    }
}

/// A line without its trailing comment: either a directive between optional
/// spaces, or at least one code/expression item. A directive's hard failure
/// aborts; its soft failure falls back to plain code.
pub open spec fn spec_commentless(s: Seq<u8>, i: int) -> SpStep<Seq<SpContent>> {
    let q = spec_skip_spaces(s, i);
    match spec_directive(s, q) {
        SpStep::Found { next, val } => SpStep::Found {
            next: spec_skip_spaces(s, next),
            val: seq![SpContent::Directive(val)],
        },
        SpStep::Failed { hard, kind, at, to } => {
            if hard {
                SpStep::Failed { hard, kind, at, to }
            } else {
                let (e, items) = spec_code_items(s, i);
                if items.len() > 0 {
                    SpStep::Found { next: e, val: items }
                } else {
                    SpStep::Failed {
                        hard: false,
                        kind: ParseErrorKind::Syntax,
                        at: i,
                        to: s.len() as int,
                    }
                }
            }
        },
    }
}

pub fn p_commentless(s: &[u8], i: usize) -> (r: Step<Vec<RtconfigContent>>)
    requires
        i <= s@.len(),
        s@.len() < usize::MAX,
    ensures
        r matches Step::Found { next, val } ==> spec_commentless(s@, i as int) == (SpStep::Found {
            next: next as int,
            val: contents_view(val@),
        }) && next <= s@.len(),
        r matches Step::Failed { hard, kind, at, to } ==> spec_commentless(s@, i as int) == (
        SpStep::Failed::<Seq<SpContent>> {
            hard,
            kind,
            at: at as int,
            to: to as int,
        }) && at <= to <= s@.len(),
{
    let q = skip_spaces(s, i);
    match p_directive(s, q) {
        Step::Found { next, val } => {
            let next2 = skip_spaces(s, next);
            let mut v: Vec<RtconfigContent> = Vec::new();
            v.push(RtconfigContent::Directive(val));
            assert(contents_view(v@) =~= seq![SpContent::Directive(val@)]);
            Step::Found { next: next2, val: v }
        },
        Step::Failed { hard, kind, at, to } => {
            if hard {
                Step::Failed { hard, kind, at, to }
            } else {
                let (e, items) = p_code_items(s, i);
                if items.len() > 0 {
                    assert(contents_view(items@).len() > 0);
                    Step::Found { next: e, val: items }
                } else {
                    assert(contents_view(items@).len() == 0);
                    let n = s.len();
                    Step::Failed { hard: false, kind: ParseErrorKind::Syntax, at: i, to: n }
                }
            }
        },
    }
}

/// A full line: a commentless line with an optional trailing comment, or a
/// comment alone.
pub open spec fn spec_line(s: Seq<u8>, i: int) -> SpStep<Seq<SpContent>> {
    match spec_commentless(s, i) {
        SpStep::Found { next, val } => {
            match spec_comment(s, next) {
                SpStep::Found { next: n2, val: sp } => SpStep::Found {
                    next: n2,
                    val: val.push(SpContent::Comment(s.subrange(sp.from, sp.to))),
                },
                SpStep::Failed { .. } => SpStep::Found { next, val },
            }
        },
        SpStep::Failed { hard, kind, at, to } => {
            if hard {
                SpStep::Failed { hard, kind, at, to }
            } else {
                match spec_comment(s, i) {
                    SpStep::Found { next, val: sp } => SpStep::Found {
                        next,
                        val: seq![SpContent::Comment(s.subrange(sp.from, sp.to))],
                    },
                    SpStep::Failed { .. } => SpStep::Failed {
                        hard: false,
                        kind: ParseErrorKind::Syntax,
                        at: i,
                        to: s.len() as int,
                    },
                }
            }
        },
    }
}

pub fn p_line(s: &[u8], i: usize) -> (r: Step<Vec<RtconfigContent>>)
    requires
        i <= s@.len(),
        s@.len() < usize::MAX,
    ensures
        r matches Step::Found { next, val } ==> spec_line(s@, i as int) == (SpStep::Found {
            next: next as int,
            val: contents_view(val@),
        }) && next <= s@.len(),
        r matches Step::Failed { hard, kind, at, to } ==> spec_line(s@, i as int) == (
        SpStep::Failed::<Seq<SpContent>> {
            hard,
            kind,
            at: at as int,
            to: to as int,
        }) && at <= to <= s@.len(),
{
    match p_commentless(s, i) {
        Step::Found { next, val } => {
            match p_comment(s, next) {
                Step::Found { next: n2, val: sp } => {
                    let cm = crate::textutil::slice_range(s, sp.from, sp.to);
                    let mut v = val;
                    let ghost pre = v@;
                    v.push(RtconfigContent::Comment(cm));
                    assert(contents_view(v@) =~= contents_view(pre).push(
                        SpContent::Comment(s@.subrange(sp.from as int, sp.to as int)),
                    ));
                    Step::Found { next: n2, val: v }
                },
                Step::Failed { .. } => Step::Found { next, val },
            }
        },
        Step::Failed { hard, kind, at, to } => {
            if hard {
                Step::Failed { hard, kind, at, to }
            } else {
                match p_comment(s, i) {
                    Step::Found { next, val: sp } => {
                        let cm = crate::textutil::slice_range(s, sp.from, sp.to);
                        let mut v: Vec<RtconfigContent> = Vec::new();
                        v.push(RtconfigContent::Comment(cm));
                        assert(contents_view(v@) =~= seq![
                            SpContent::Comment(s@.subrange(sp.from as int, sp.to as int)),
                        ]);
                        Step::Found { next, val: v }
                    },
                    Step::Failed { .. } => {
                        let n = s.len();
                        Step::Failed { hard: false, kind: ParseErrorKind::Syntax, at: i, to: n }
                    },
                }
            }
        },
    }
}

/// First position at or after `i` that is not a newline.
pub open spec fn spec_newlines(s: Seq<u8>, i: int) -> int
    decreases s.len() - i,
{
    if 0 <= i < s.len() && s[i] == B_NL {
        spec_newlines(s, i + 1)
    } else {
        i
    }
}

pub proof fn lemma_newlines_bounds(s: Seq<u8>, i: int)
    requires
        0 <= i <= s.len(),
    ensures
        i <= spec_newlines(s, i) <= s.len(),
    decreases s.len() - i,
{
    if i < s.len() && s[i] == B_NL {
        lemma_newlines_bounds(s, i + 1);
    }
}

pub fn p_newlines(s: &[u8], i: usize) -> (r: usize)
    requires
        i <= s@.len(),
    ensures
        r == spec_newlines(s@, i as int),
        i <= r <= s@.len(),
{
    let mut j = i;
    while j < s.len() && s[j] == B_NL
        invariant
            i <= j <= s@.len(),
            spec_newlines(s@, i as int) == spec_newlines(s@, j as int),
        decreases s@.len() - j,
    {
        j += 1;
    }
    j
}

fn push_newlines(v: &mut Vec<RtconfigContent>, count: usize)
    ensures
        contents_view(final(v)@) == contents_view(old(v)@) + spec_newline_items(count as int),
{
    let mut k: usize = 0;
    assert(contents_view(v@) =~= contents_view(v@) + spec_newline_items(0));
    while k < count
        invariant
            k <= count,
            contents_view(v@) == contents_view(old(v)@) + spec_newline_items(k as int),
        decreases count - k,
    {
        let ghost pre = v@;
        v.push(RtconfigContent::Newline);
        k += 1;
        assert(contents_view(v@) =~= contents_view(pre).push(SpContent::Newline));
        assert(contents_view(pre).push(SpContent::Newline) =~= contents_view(old(v)@)
            + spec_newline_items(k as int));
    }
}

/// The rest of the document after the first line: groups of one or more
/// newlines followed by a line, until no further group matches. A group
/// whose line fails softly is rolled back; a hard failure aborts.
pub open spec fn spec_line_loop(s: Seq<u8>, j: int) -> SpStep<Seq<SpContent>>
    decreases s.len() - j,
{
    let k = spec_newlines(s, j);
    if !(j < k <= s.len()) {
        SpStep::Found { next: j, val: Seq::<SpContent>::empty() }
    } else {
        match spec_line(s, k) {
            SpStep::Found { next, val } => {
                if k < next <= s.len() {
                    match spec_line_loop(s, next) {
                        SpStep::Found { next: e, val: rest } => SpStep::Found {
                            next: e,
                            val: spec_newline_items(k - j) + val + rest,
                        },
                        SpStep::Failed { hard, kind, at, to } => SpStep::Failed {
                            hard,
                            kind,
                            at,
                            to,
                        },
                    }
                } else {
                    SpStep::Found { next: j, val: Seq::<SpContent>::empty() }
                }
            },
            SpStep::Failed { hard, kind, at, to } => {
                if hard {
                    SpStep::Failed { hard, kind, at, to }
                } else {
                    SpStep::Found { next: j, val: Seq::<SpContent>::empty() }
                }
            },
        }
    }
}

pub fn p_line_loop(s: &[u8], j: usize) -> (r: Step<Vec<RtconfigContent>>)
    requires
        j <= s@.len(),
        s@.len() < usize::MAX,
    ensures
        r matches Step::Found { next, val } ==> spec_line_loop(s@, j as int) == (SpStep::Found {
            next: next as int,
            val: contents_view(val@),
        }) && next <= s@.len(),
        r matches Step::Failed { hard, kind, at, to } ==> spec_line_loop(s@, j as int) == (
        SpStep::Failed::<Seq<SpContent>> {
            hard,
            kind,
            at: at as int,
            to: to as int,
        }) && at <= to <= s@.len(),
    decreases s@.len() - j,
{
    let k = p_newlines(s, j);
    if !(j < k) {
        let v: Vec<RtconfigContent> = Vec::new();
        assert(contents_view(v@) =~= Seq::<SpContent>::empty());
        return Step::Found { next: j, val: v };
    }
    match p_line(s, k) {
        Step::Found { next, val } => {
            if k < next {
                match p_line_loop(s, next) {
                    Step::Found { next: e, val: rest } => {
                        let mut v: Vec<RtconfigContent> = Vec::new();
                        push_newlines(&mut v, k - j);
                        let mut lv = val;
                        let mut rv = rest;
                        let ghost lpre = lv@;
                        let ghost vpre = v@;
                        v.append(&mut lv);
                        assert(contents_view(v@) =~= contents_view(vpre) + contents_view(lpre));
                        let ghost rpre = rv@;
                        let ghost vpre2 = v@;
                        v.append(&mut rv);
                        assert(contents_view(v@) =~= contents_view(vpre2) + contents_view(rpre));
                        assert(contents_view(v@) =~= spec_newline_items(k - j) + contents_view(
                            lpre,
                        ) + contents_view(rpre));
                        Step::Found { next: e, val: v }
                    },
                    Step::Failed { hard, kind, at, to } => Step::Failed { hard, kind, at, to },
                }
            } else {
                let v: Vec<RtconfigContent> = Vec::new();
                assert(contents_view(v@) =~= Seq::<SpContent>::empty());
                Step::Found { next: j, val: v }
            }
        },
        Step::Failed { hard, kind, at, to } => {
            if hard {
                Step::Failed { hard, kind, at, to }
            } else {
                let v: Vec<RtconfigContent> = Vec::new();
                assert(contents_view(v@) =~= Seq::<SpContent>::empty());
                Step::Found { next: j, val: v }
            }
        },
    }
}

/// The whole document: optional leading newlines, a first line, further
/// newline-separated lines, optional trailing newlines.
pub open spec fn spec_rtconfig(s: Seq<u8>) -> SpStep<Seq<SpContent>> {
    let p1 = spec_newlines(s, 0);
    match spec_line(s, p1) {
        SpStep::Failed { hard, kind, at, to } => SpStep::Failed { hard, kind, at, to },
        SpStep::Found { next, val } => {
            match spec_line_loop(s, next) {
                SpStep::Failed { hard, kind, at, to } => SpStep::Failed { hard, kind, at, to },
                SpStep::Found { next: e, val: more } => {
                    let p2 = spec_newlines(s, e);
                    SpStep::Found {
                        next: p2,
                        val: spec_newline_items(p1) + val + more + spec_newline_items(p2 - e),
                    }
                },
            }
        },
    }
}

/// A parse of the whole text: the document grammar, consuming every byte.
pub open spec fn spec_parse(s: Seq<u8>) -> SpStep<Seq<SpContent>> {
    match spec_rtconfig(s) {
        SpStep::Found { next, val } => {
            if next == s.len() {
                SpStep::Found { next, val }
            } else {
                SpStep::Failed {
                    hard: false,
                    kind: ParseErrorKind::Syntax,
                    at: next,
                    to: s.len() as int,
                }
            }
        },
        SpStep::Failed { hard, kind, at, to } => SpStep::Failed { hard, kind, at, to },
    }
}

// ---------------------------------------------------------------------------
// The output invariant: parsing loses no text
// ---------------------------------------------------------------------------

/// The text a content item stands for: code, comments and newlines
/// verbatim, an expression re-wrapped in its span markers. A directive
/// renders as nothing (directive lines never reach the expanded output).
pub open spec fn spec_render_item(c: SpContent) -> Seq<u8> {
    match c {
        SpContent::Newline => seq![B_NL],
        SpContent::Code(t) => t,
        SpContent::Comment(t) => t,
        SpContent::Expression { code, .. } => seq![B_HASH, B_LBRACE] + code + seq![B_RBRACE],
        SpContent::Directive(_) => Seq::<u8>::empty(),
    }
}

pub open spec fn spec_render(items: Seq<SpContent>) -> Seq<u8>
    decreases items.len(),
{
    if items.len() == 0 {
        Seq::<u8>::empty()
    } else {
        spec_render_item(items[0]) + spec_render(items.drop_first())
    }
}

pub open spec fn spec_no_directives(items: Seq<SpContent>) -> bool {
    forall|k: int| 0 <= k < items.len() ==> !(#[trigger] items[k] is Directive)
}

pub proof fn lemma_render_concat(a: Seq<SpContent>, b: Seq<SpContent>)
    ensures
        spec_render(a + b) == spec_render(a) + spec_render(b),
    decreases a.len(),
{
    if a.len() == 0 {
        assert(a + b =~= b);
        assert(spec_render(a) + spec_render(b) =~= spec_render(b));
    } else {
        assert((a + b).drop_first() =~= a.drop_first() + b);
        lemma_render_concat(a.drop_first(), b);
        assert(spec_render_item((a + b)[0]) == spec_render_item(a[0]));
        assert(spec_render(a + b) =~= spec_render(a) + spec_render(b));
    }
}

proof fn lemma_render_single(c: SpContent)
    ensures
        spec_render(seq![c]) == spec_render_item(c),
{
    let s1 = seq![c];
    assert(s1.drop_first() =~= Seq::<SpContent>::empty());
    assert(spec_render(Seq::<SpContent>::empty()) == Seq::<u8>::empty());
    assert(s1[0] == c);
    assert(spec_render(s1) == spec_render_item(c) + Seq::<u8>::empty());
    assert(spec_render_item(c) + Seq::<u8>::empty() =~= spec_render_item(c));
}

proof fn lemma_render_push(items: Seq<SpContent>, c: SpContent)
    ensures
        spec_render(items.push(c)) == spec_render(items) + spec_render_item(c),
{
    assert(items.push(c) =~= items + seq![c]);
    lemma_render_concat(items, seq![c]);
    lemma_render_single(c);
}

proof fn lemma_subrange_glue(s: Seq<u8>, a: int, b: int, c: int)
    requires
        0 <= a <= b <= c <= s.len(),
    ensures
        s.subrange(a, b) + s.subrange(b, c) == s.subrange(a, c),
{
    assert(s.subrange(a, b) + s.subrange(b, c) =~= s.subrange(a, c));
}

/// Every byte a newline run covers is a newline.
proof fn lemma_newlines_region(s: Seq<u8>, j: int)
    requires
        0 <= j <= s.len(),
    ensures
        forall|x: int| j <= x < spec_newlines(s, j) ==> s[x] == B_NL,
    decreases s.len() - j,
{
    lemma_newlines_bounds(s, j);
    if j < s.len() && s[j] == B_NL {
        lemma_newlines_region(s, j + 1);
        lemma_newlines_bounds(s, j + 1);
    }
}

/// A run of newline items renders as the newline bytes it came from.
proof fn lemma_render_newline_items(s: Seq<u8>, j: int, k: int)
    requires
        0 <= j <= k <= s.len(),
        forall|x: int| j <= x < k ==> s[x] == B_NL,
    ensures
        spec_render(spec_newline_items(k - j)) == s.subrange(j, k),
    decreases k - j,
{
    if j == k {
        assert(spec_render(spec_newline_items(0)) =~= s.subrange(j, k));
    } else {
        lemma_render_newline_items(s, j + 1, k);
        assert(spec_newline_items(k - j).drop_first() =~= spec_newline_items(k - (j + 1)));
        assert(spec_render_item(spec_newline_items(k - j)[0]) =~= seq![B_NL]);
        assert(spec_render(spec_newline_items(k - j)) =~= s.subrange(j, k));
    }
}

/// Code and expression items render as exactly the bytes they consumed.
proof fn lemma_code_items_render(s: Seq<u8>, j: int)
    requires
        0 <= j <= s.len(),
    ensures
        spec_render(spec_code_items(s, j).1) == s.subrange(j, spec_code_items(s, j).0),
        spec_no_directives(spec_code_items(s, j).1),
    decreases s.len() - j,
{
    lemma_code_items_bounds(s, j);
    match spec_walter(s, j) {
        SpStep::Found { next, val } => {
            if j < next <= s.len() {
                lemma_code_items_bounds(s, next);
                lemma_code_items_render(s, next);
                let (e, rest) = spec_code_items(s, next);
                lemma_render_concat(seq![SpContent::Code(s.subrange(j, next))], rest);
                lemma_render_single(SpContent::Code(s.subrange(j, next)));
                lemma_subrange_glue(s, j, next, e);
                assert(spec_no_directives(spec_code_items(s, j).1));
            } else {
                assert(spec_render(Seq::<SpContent>::empty()) =~= s.subrange(j, j));
            }
        },
        SpStep::Failed { .. } => {
            match spec_expression(s, j) {
                SpStep::Found { next, val } => {
                    lemma_brace_bounds(s, j + 1);
                    if j < next <= s.len() {
                        lemma_code_items_bounds(s, next);
                        lemma_code_items_render(s, next);
                        let (e, rest) = spec_code_items(s, next);
                        let item = SpContent::Expression {
                            code: s.subrange(val.from, val.to),
                            offset: val.from,
                            line: spec_line_of(s, val.from),
                            column: spec_col_utf8(s, val.from),
                        };
                        lemma_render_concat(seq![item], rest);
                        lemma_render_single(item);
                        // the span markers around the code are the consumed bytes
                        assert(s[j] == B_HASH);
                        assert(spec_brace(s, j + 1) matches SpStep::Found { next: bn, val: bv }
                            && bn == next && bv.from == j + 1 && bv.to == next);
                        assert(s[j + 1] == B_LBRACE);
                        assert(s[next - 1] == B_RBRACE) by {
                            let bj = spec_brace_items(s, j + 2);
                            assert(spec_brace(s, j + 1) matches SpStep::Found { .. } ==> 0 <= bj
                                < s.len() && s[bj] == B_RBRACE && bj + 1 == next);
                        }
                        assert(spec_render_item(item) =~= s.subrange(j, next));
                        lemma_subrange_glue(s, j, next, e);
                        assert(spec_no_directives(spec_code_items(s, j).1));
                    } else {
                        assert(spec_render(Seq::<SpContent>::empty()) =~= s.subrange(j, j));
                    }
                },
                SpStep::Failed { .. } => {
                    assert(spec_render(Seq::<SpContent>::empty()) =~= s.subrange(j, j));
                },
            }
        },
    }
}

/// A parsed line without directives renders as the bytes it consumed.
proof fn lemma_line_render(s: Seq<u8>, i: int)
    requires
        0 <= i <= s.len(),
    ensures
        spec_line(s, i) matches SpStep::Found { next, val } ==> (spec_no_directives(val) ==> i
            <= next <= s.len() && spec_render(val) == s.subrange(i, next)),
{
    lemma_skip_spaces_bounds(s, i);
    let q = spec_skip_spaces(s, i);
    match spec_commentless(s, i) {
        SpStep::Found { next: cn, val: cv } => {
            match spec_directive(s, q) {
                SpStep::Found { next: dn, val: dv } => {
                    // the line holds a directive item: the claim is vacuous
                    assert(cv == seq![SpContent::Directive(dv)]);
                    assert(cv[0] is Directive);
                    match spec_comment(s, cn) {
                        SpStep::Found { next: n2, val: sp } => {
                            let pushed = cv.push(
                                SpContent::Comment(s.subrange(sp.from, sp.to)),
                            );
                            assert(pushed[0] is Directive);
                            assert(!spec_no_directives(pushed));
                        },
                        SpStep::Failed { .. } => {
                            assert(!spec_no_directives(cv));
                        },
                    }
                },
                SpStep::Failed { hard, .. } => {
                    if !hard {
                        let (e, items) = spec_code_items(s, i);
                        lemma_code_items_bounds(s, i);
                        lemma_code_items_render(s, i);
                        assert(cn == e && cv == items);
                        match spec_comment(s, cn) {
                            SpStep::Found { next: n2, val: sp } => {
                                assert(cn < s.len() && s[cn] == B_SEMI);
                                lemma_till_nl_bounds(s, cn + 1);
                                let citem = SpContent::Comment(s.subrange(sp.from, sp.to));
                                lemma_render_push(items, citem);
                                lemma_subrange_glue(s, i, cn, n2);
                                assert(spec_line(s, i) == SpStep::Found {
                                    next: n2,
                                    val: items.push(citem),
                                });
                                assert(spec_render(items.push(citem)) == s.subrange(i, n2));
                            },
                            SpStep::Failed { .. } => {
                                assert(spec_line(s, i) == SpStep::Found { next: cn, val: cv });
                                assert(spec_render(cv) == s.subrange(i, cn));
                            },
                        }
                    }
                },
            }
        },
        SpStep::Failed { hard, .. } => {
            if !hard {
                match spec_comment(s, i) {
                    SpStep::Found { next: n2, val: sp } => {
                        assert(i < s.len() && s[i] == B_SEMI);
                        lemma_till_nl_bounds(s, i + 1);
                        let citem = SpContent::Comment(s.subrange(sp.from, sp.to));
                        lemma_render_single(citem);
                        assert(spec_line(s, i) == SpStep::Found { next: n2, val: seq![citem] });
                        assert(spec_render(seq![citem]) == s.subrange(i, n2));
                    },
                    SpStep::Failed { .. } => {},
                }
            }
        },
    }
}

/// The line loop's items, without directives, render as the consumed bytes.
proof fn lemma_line_loop_render(s: Seq<u8>, j: int)
    requires
        0 <= j <= s.len(),
    ensures
        spec_line_loop(s, j) matches SpStep::Found { next, val } ==> (spec_no_directives(val) ==> j
            <= next <= s.len() && spec_render(val) == s.subrange(j, next)),
    decreases s.len() - j,
{
    lemma_newlines_bounds(s, j);
    let k = spec_newlines(s, j);
    match spec_line_loop(s, j) {
        SpStep::Failed { .. } => {},
        SpStep::Found { next: lnext, val: lval } => if spec_no_directives(lval) {
            if !(j < k <= s.len()) {
                assert(spec_render(Seq::<SpContent>::empty()) =~= s.subrange(j, j));
            } else {
                match spec_line(s, k) {
                    SpStep::Found { next, val } => {
                        if k < next <= s.len() {
                            match spec_line_loop(s, next) {
                                SpStep::Found { next: e, val: rest } => {
                                    let nls = spec_newline_items(k - j);
                                    assert(spec_no_directives(val)) by {
                                        assert(forall|x: int|
                                            0 <= x < val.len() ==> lval[nls.len() + x] == val[x]);
                                    }
                                    assert(spec_no_directives(rest)) by {
                                        assert(forall|x: int|
                                            0 <= x < rest.len() ==> lval[nls.len() + val.len() + x]
                                                == rest[x]);
                                    }
                                    lemma_line_render(s, k);
                                    lemma_line_loop_render(s, next);
                                    lemma_newlines_region(s, j);
                                    lemma_render_newline_items(s, j, k);
                                    lemma_render_concat(nls + val, rest);
                                    lemma_render_concat(nls, val);
                                    lemma_subrange_glue(s, j, k, next);
                                    lemma_subrange_glue(s, j, next, e);
                                    assert(spec_render(lval) == s.subrange(j, lnext));
                                },
                                SpStep::Failed { .. } => {},
                            }
                        } else {
                            assert(spec_render(Seq::<SpContent>::empty()) =~= s.subrange(j, j));
                        }
                    },
                    SpStep::Failed { .. } => {
                        assert(spec_render(Seq::<SpContent>::empty()) =~= s.subrange(j, j));
                    },
                }
            }
        },
    }
}

/// The parser's output invariant: when a parse succeeds and yields no
/// directive, concatenating what the items stand for reproduces the source
/// text byte for byte.
pub proof fn lemma_parse_round_trip(s: Seq<u8>)
    ensures
        spec_parse(s) matches SpStep::Found { next, val } ==> (spec_no_directives(val) ==>
            spec_render(val) == s),
{
    match spec_parse(s) {
        SpStep::Failed { .. } => {},
        SpStep::Found { next, val } => if spec_no_directives(val) {
            let p1 = spec_newlines(s, 0);
            lemma_newlines_bounds(s, 0);
            match spec_line(s, p1) {
                SpStep::Found { next: ln, val: lv } => {
                    match spec_line_loop(s, ln) {
                        SpStep::Found { next: e, val: more } => {
                            let p2 = spec_newlines(s, e);
                            lemma_newlines_bounds(s, e);
                            let nls1 = spec_newline_items(p1);
                            let nls2 = spec_newline_items(p2 - e);
                            assert(val == nls1 + lv + more + nls2);
                            assert(spec_no_directives(lv)) by {
                                assert(forall|x: int|
                                    0 <= x < lv.len() ==> val[nls1.len() + x] == lv[x]);
                            }
                            assert(spec_no_directives(more)) by {
                                assert(forall|x: int|
                                    0 <= x < more.len() ==> val[nls1.len() + lv.len() + x]
                                        == more[x]);
                            }
                            lemma_line_render(s, p1);
                            lemma_line_loop_render(s, ln);
                            lemma_newlines_region(s, 0);
                            lemma_render_newline_items(s, 0, p1);
                            lemma_newlines_region(s, e);
                            lemma_render_newline_items(s, e, p2);
                            lemma_render_concat(nls1 + lv + more, nls2);
                            lemma_render_concat(nls1 + lv, more);
                            lemma_render_concat(nls1, lv);
                            lemma_subrange_glue(s, 0, p1, ln);
                            lemma_subrange_glue(s, 0, ln, e);
                            lemma_subrange_glue(s, 0, e, p2);
                            assert(s.subrange(0, s.len() as int) =~= s);
                        },
                        SpStep::Failed { .. } => {},
                    }
                },
                SpStep::Failed { .. } => {},
            }
        },
    }
}

// ---------------------------------------------------------------------------
// Configuration values
// ---------------------------------------------------------------------------

/// One piece of an imported configuration value: plain text, or an embedded
/// expression span. The expression-span grammar is the descriptor's;
/// directives and comments do not apply inside values.
#[derive(Debug)]
pub enum ReaperThemeContent {
    Text(Vec<u8>),
    Expression { code: Vec<u8>, offset: usize, line: usize, column: usize },
}

pub ghost enum SpValueContent {
    Text(Seq<u8>),
    Expression { code: Seq<u8>, offset: int, line: int, column: int },
}

impl View for ReaperThemeContent {
    type V = SpValueContent;

    open spec fn view(&self) -> SpValueContent {
        match self {
            ReaperThemeContent::Text(t) => SpValueContent::Text(t@),
            ReaperThemeContent::Expression { code, offset, line, column } => {
                SpValueContent::Expression {
                    code: code@,
                    offset: *offset as int,
                    line: *line as int,
                    column: *column as int,
                }
            },
        }
    }
}

pub open spec fn value_contents_view(v: Seq<ReaperThemeContent>) -> Seq<SpValueContent> {
    v.map_values(|c: ReaperThemeContent| c@)
}

/// End of a run of plain value text: the next position that opens an
/// expression span, or the end.
pub open spec fn spec_text_end(s: Seq<u8>, j: int) -> int
    decreases s.len() - j,
{
    if !(0 <= j < s.len()) {
        j
    } else if s[j] == B_HASH && spec_expression(s, j) is Found {
        j
    } else {
        spec_text_end(s, j + 1)
    }
}

pub proof fn lemma_text_end_bounds(s: Seq<u8>, j: int)
    requires
        0 <= j <= s.len(),
    ensures
        j <= spec_text_end(s, j) <= s.len(),
    decreases s.len() - j,
{
    if 0 <= j < s.len() && !(s[j] == B_HASH && spec_expression(s, j) is Found) {
        lemma_text_end_bounds(s, j + 1);
    }
}

pub fn p_text_end(s: &[u8], j: usize) -> (r: usize)
    requires
        j <= s@.len(),
        s@.len() < usize::MAX,
    ensures
        r == spec_text_end(s@, j as int),
        j <= r <= s@.len(),
    decreases s@.len() - j,
{
    proof {
        lemma_text_end_bounds(s@, j as int);
    }
    let n = s.len();
    if !(j < n) {
        return j;
    }
    if s[j] == B_HASH {
        match p_expression(s, j) {
            Step::Found { .. } => j,
            Step::Failed { .. } => p_text_end(s, j + 1),
        }
    } else {
        p_text_end(s, j + 1)
    }
}

/// The pieces of a configuration value, in order: expression spans where
/// they open, plain text elsewhere. Never fails; every byte is covered.
pub open spec fn spec_value_items(s: Seq<u8>, j: int) -> Seq<SpValueContent>
    decreases s.len() - j,
{
    if !(0 <= j < s.len()) {
        Seq::<SpValueContent>::empty()
    } else {
        match spec_expression(s, j) {
            SpStep::Found { next, val } => {
                if j < next <= s.len() {
                    seq![
                        SpValueContent::Expression {
                            code: s.subrange(val.from, val.to),
                            offset: val.from,
                            line: spec_line_of(s, val.from),
                            column: spec_col_utf8(s, val.from),
                        },
                    ] + spec_value_items(s, next)
                } else {
                    Seq::<SpValueContent>::empty()
                }
            },
            SpStep::Failed { .. } => {
                let t = spec_text_end(s, j + 1);
                if j < t <= s.len() {
                    seq![SpValueContent::Text(s.subrange(j, t))] + spec_value_items(s, t)
                } else {
                    Seq::<SpValueContent>::empty()
                }
            },
        }
    }
}

/// Re-scan one imported configuration value for embedded expressions.
pub fn parse_reapertheme(text: &[u8]) -> (r: Vec<ReaperThemeContent>)
    requires
        text@.len() < usize::MAX,
    ensures
        value_contents_view(r@) == spec_value_items(text@, 0),
{
    let v = p_value_items(text, 0);
    v
}

fn p_value_items(s: &[u8], j: usize) -> (r: Vec<ReaperThemeContent>)
    requires
        j <= s@.len(),
        s@.len() < usize::MAX,
    ensures
        value_contents_view(r@) == spec_value_items(s@, j as int),
    decreases s@.len() - j,
{
    let n = s.len();
    if !(j < n) {
        let v: Vec<ReaperThemeContent> = Vec::new();
        assert(value_contents_view(v@) =~= spec_value_items(s@, j as int));
        return v;
    }
    match p_expression(s, j) {
        Step::Found { next, val } => {
            if j < next {
                let rest = p_value_items(s, next);
                let code = crate::textutil::slice_range(s, val.from, val.to);
                let loc = locate(s, val.from);
                let mut v: Vec<ReaperThemeContent> = Vec::new();
                v.push(
                    ReaperThemeContent::Expression {
                        code,
                        offset: val.from,
                        line: loc.0,
                        column: loc.2,
                    },
                );
                let mut rv = rest;
                v.append(&mut rv);
                assert(value_contents_view(v@) =~= spec_value_items(s@, j as int));
                v
            } else {
                let v: Vec<ReaperThemeContent> = Vec::new();
                assert(value_contents_view(v@) =~= spec_value_items(s@, j as int));
                v
            }
        },
        Step::Failed { .. } => {
            let t = p_text_end(s, j + 1);
            if j < t {
                let rest = p_value_items(s, t);
                let txt = crate::textutil::slice_range(s, j, t);
                let mut v: Vec<ReaperThemeContent> = Vec::new();
                v.push(ReaperThemeContent::Text(txt));
                let mut rv = rest;
                v.append(&mut rv);
                assert(value_contents_view(v@) =~= spec_value_items(s@, j as int));
                v
            } else {
                let v: Vec<ReaperThemeContent> = Vec::new();
                assert(value_contents_view(v@) =~= spec_value_items(s@, j as int));
                v
            }
        },
    }
}

fn mk_error(text: &[u8], kind: ParseErrorKind, at: usize, to: usize) -> (r: ParseError)
    requires
        at <= to <= text@.len(),
        text@.len() < usize::MAX,
    ensures
        r.kind == kind,
        r.location.offset == at,
        r.location.line == spec_line_of(text@, at as int),
        r.location.column_ascii == spec_col_ascii(text@, at as int),
        r.location.column_utf8 == spec_col_utf8(text@, at as int),
        r.location.fragment@ == text@.subrange(at as int, to as int),
{
    let loc = locate(text, at);
    let frag = crate::textutil::slice_range(text, at, to);
    ParseError {
        kind,
        location: ErrorLocation {
            offset: at,
            line: loc.0,
            column_ascii: loc.1,
            column_utf8: loc.2,
            fragment: frag,
        },
    }
}

/// Parse a whole descriptor text into its content sequence.
///
/// The parse succeeds exactly when the text matches the document grammar;
/// any failure carries the byte offset, line, column and offending fragment,
/// and no partial result.
pub fn parse(text: &[u8]) -> (r: Result<Vec<RtconfigContent>, ParseError>)
    requires
        text@.len() < usize::MAX,
    ensures
        (r is Ok) == (spec_parse(text@) is Found),
        r matches Ok(v) ==> spec_parse(text@) == (SpStep::Found {
            next: text@.len() as int,
            val: contents_view(v@),
        }),
        r matches Err(e) ==> (match spec_parse(text@) {
            SpStep::Failed { kind, at, to, .. } => {
                &&& e.kind == kind
                &&& e.location.offset == at
                &&& e.location.line == spec_line_of(text@, at)
                &&& e.location.column_ascii == spec_col_ascii(text@, at)
                &&& e.location.column_utf8 == spec_col_utf8(text@, at)
                &&& e.location.fragment@ == text@.subrange(at, to)
            },
            SpStep::Found { .. } => false,
        }),
{
    let n = text.len();
    let p1 = p_newlines(text, 0);
    match p_line(text, p1) {
        Step::Failed { hard, kind, at, to } => Err(mk_error(text, kind, at, to)),
        Step::Found { next, val } => {
            match p_line_loop(text, next) {
                Step::Failed { hard, kind, at, to } => Err(mk_error(text, kind, at, to)),
                Step::Found { next: e, val: more } => {
                    let p2 = p_newlines(text, e);
                    if p2 == n {
                        let mut v: Vec<RtconfigContent> = Vec::new();
                        push_newlines(&mut v, p1);
                        let mut lv = val;
                        let mut rv = more;
                        let ghost lpre = lv@;
                        let ghost vpre = v@;
                        v.append(&mut lv);
                        assert(contents_view(v@) =~= contents_view(vpre) + contents_view(lpre));
                        let ghost rpre = rv@;
                        let ghost vpre2 = v@;
                        v.append(&mut rv);
                        assert(contents_view(v@) =~= contents_view(vpre2) + contents_view(rpre));
                        let ghost vpre3 = v@;
                        push_newlines(&mut v, p2 - e);
                        assert(contents_view(v@) =~= spec_newline_items(p1 as int) + contents_view(
                            lpre,
                        ) + contents_view(rpre) + spec_newline_items(p2 - e));
                        Ok(v)
                    } else {
                        Err(mk_error(text, ParseErrorKind::Syntax, p2, n))
                    }
                },
            }
        },
    }
}

pub fn p_directive(s: &[u8], i: usize) -> (r: Step<Directive>)
    requires
        i <= s@.len(),
        s@.len() < usize::MAX,
    ensures
        r@ == spec_directive(s@, i as int),
        r matches Step::Failed { at, to, .. } ==> at <= to <= s@.len(),
        r matches Step::Found { next, .. } ==> next <= s@.len(),
{
    match p_inclusion_dir(s, i) {
        Step::Found { next, val } => Step::Found { next, val },
        Step::Failed { hard, kind, at, to } => {
            if hard {
                Step::Failed { hard, kind, at, to }
            } else {
                match p_resource_dir(s, i) {
                    Step::Found { next, val } => Step::Found { next, val },
                    Step::Failed { hard, kind, at, to } => {
                        if hard {
                            Step::Failed { hard, kind, at, to }
                        } else {
                            p_unknown_dir(s, i)
                        }
                    },
                }
            }
        },
    }
}

} // verus!
