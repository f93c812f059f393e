//! The preprocessing engine: walks parsed descriptor content against a
//! shared build state, expanding code and comments verbatim, splicing
//! evaluated expressions, resolving resource directives with a
//! first-registration-wins policy, and passing unknown directives through
//! as inert comments.
//!
//! The engine owns no script engine and reads no files itself: a caller
//! drives it, performing each `FeedOutcome` it is handed (evaluating an
//! expression, reading an imported file) and feeding the result back in.

use vstd::prelude::*;

use crate::color::{rgb_value, rgb_value_rev, rgba_value, rgba_value_rev, Color};
use crate::parser::{ParseError, RtconfigContent, SpContent, SpDirective};
use crate::table::{
    opt_bytes_view, spec_manifest_get, spec_tbl_get, ConfigTable, ResourceManifest,
    SpConfigSection, SpResourceEntry,
};
use crate::textutil::{
    ascii_bytes, bytes_eq, dec_i64, dec_u32, indent_by_spaces, slice_range, spec_dec,
    spec_dec_int, spec_indent, str_bytes,
};

verus! {

// ---------------------------------------------------------------------------
// Script values and their serialization
// ---------------------------------------------------------------------------

/// The closed value space the script engine can hand back. A floating-point
/// number arrives as its decimal text, already rendered by the engine's
/// host. `Other` carries the kind name of any unsupported value.
#[derive(Debug)]
pub enum ScriptValue {
    Nil,
    Bool(bool),
    Int(i64),
    Num(Vec<u8>),
    Str(Vec<u8>),
    ColorValue(Color),
    Other(Vec<u8>),
}

pub ghost enum SpScriptValue {
    Nil,
    Bool(bool),
    Int(int),
    Num(Seq<u8>),
    Str(Seq<u8>),
    ColorValue(Color),
    Other(Seq<u8>),
}

impl View for ScriptValue {
    type V = SpScriptValue;

    open spec fn view(&self) -> SpScriptValue {
        match self {
            ScriptValue::Nil => SpScriptValue::Nil,
            ScriptValue::Bool(b) => SpScriptValue::Bool(*b),
            ScriptValue::Int(i) => SpScriptValue::Int(*i as int),
            ScriptValue::Num(s) => SpScriptValue::Num(s@),
            ScriptValue::Str(s) => SpScriptValue::Str(s@),
            ScriptValue::ColorValue(c) => SpScriptValue::ColorValue(*c),
            ScriptValue::Other(k) => SpScriptValue::Other(k@),
        }
    }
}

/// A value that cannot be spliced into text.
#[derive(Debug)]
pub enum SerializeError {
    /// The engine handed back a value kind outside the closed union.
    Unsupported { kind: Vec<u8> },
    /// Fewer evaluated values than expression spans.
    MissingValue,
}

/// What an evaluated expression becomes as text. Into descriptor code
/// (`config == false`): nil is empty, booleans and numbers their plain
/// text, strings verbatim, a color its packed value in construction order.
/// Into a configuration value (`config == true`): a string is re-indented
/// to the column the expression started at, and a color uses the reversed
/// byte order, the target format's convention. Unsupported kinds have no
/// text.
pub open spec fn spec_serialize_value(v: SpScriptValue, config: bool, column: int) -> Option<
    Seq<u8>,
> {
    match v {
        SpScriptValue::Nil => Some(Seq::<u8>::empty()),
        SpScriptValue::Bool(b) => Some(
            if b {
                ascii_bytes("true"@)
            } else {
                ascii_bytes("false"@)
            },
        ),
        SpScriptValue::Int(i) => Some(spec_dec_int(i)),
        SpScriptValue::Num(s) => Some(s),
        SpScriptValue::Str(s) => Some(
            if config {
                spec_indent(column - 3, s)
            } else {
                s
            },
        ),
        SpScriptValue::ColorValue(c) => Some(
            match c {
                Color::RGB(x) => if config {
                    spec_dec(rgb_value_rev(x) as nat)
                } else {
                    spec_dec(rgb_value(x) as nat)
                },
                Color::RGBA(x) => if config {
                    spec_dec(rgba_value_rev(x) as nat)
                } else {
                    spec_dec(rgba_value(x) as nat)
                },
            },
        ),
        SpScriptValue::Other(_) => None,
    }
}

fn kw_true_vec() -> (r: Vec<u8>)
    ensures
        r@ == ascii_bytes("true"@),
{
    proof {
        reveal_strlit("true");
        assert(vstd::utf8::is_ascii_chars("true"@));
    }
    str_bytes("true")
}

fn kw_false_vec() -> (r: Vec<u8>)
    ensures
        r@ == ascii_bytes("false"@),
{
    proof {
        reveal_strlit("false");
        assert(vstd::utf8::is_ascii_chars("false"@));
    }
    str_bytes("false")
}

fn clone_bytes(v: &Vec<u8>) -> (r: Vec<u8>)
    ensures
        r@ == v@,
{
    let r = slice_range(v.as_slice(), 0, v.len());
    assert(r@ =~= v@);
    r
}

/// Render one evaluated value as the text to splice.
pub fn serialize_value(v: &ScriptValue, config: bool, column: usize) -> (r: Result<
    Vec<u8>,
    SerializeError,
>)
    requires
        column >= 3,
    ensures
        match spec_serialize_value(v@, config, column as int) {
            Some(t) => r matches Ok(o) && o@ == t,
            None => r matches Err(e) && (e matches SerializeError::Unsupported { kind } && (
            v@ matches SpScriptValue::Other(k) && kind@ == k)),
        },
{
    match v {
        ScriptValue::Nil => Ok(Vec::new()),
        ScriptValue::Bool(b) => {
            if *b {
                Ok(kw_true_vec())
            } else {
                Ok(kw_false_vec())
            }
        },
        ScriptValue::Int(i) => Ok(dec_i64(*i)),
        ScriptValue::Num(s) => Ok(clone_bytes(s)),
        ScriptValue::Str(s) => {
            if config {
                Ok(indent_by_spaces(column - 3, s.as_slice()))
            } else {
                Ok(clone_bytes(s))
            }
        },
        ScriptValue::ColorValue(c) => {
            match c {
                Color::RGB(x) => {
                    if config {
                        Ok(dec_u32(x.value_rev()))
                    } else {
                        Ok(dec_u32(x.value()))
                    }
                },
                Color::RGBA(x) => {
                    if config {
                        Ok(dec_u32(x.value_rev()))
                    } else {
                        Ok(dec_u32(x.value()))
                    }
                },
            }
        },
        ScriptValue::Other(k) => Err(SerializeError::Unsupported { kind: clone_bytes(k) }),
    }
}

// ---------------------------------------------------------------------------
// Paths, extensions, inclusion kinds
// ---------------------------------------------------------------------------

/// Join a destination directory and a file name with a forward slash, as
/// relative paths are joined: an empty directory contributes nothing, a
/// trailing slash is not doubled.
pub open spec fn spec_join_rel(dir: Seq<u8>, name: Seq<u8>) -> Seq<u8> {
    if dir.len() == 0 {
        name
    } else if dir.last() == 0x2fu8 {
        dir + name
    } else {
        dir + seq![0x2fu8] + name
    }
}

pub fn join_rel(dir: &[u8], name: &[u8]) -> (r: Vec<u8>)
    ensures
        r@ == spec_join_rel(dir@, name@),
{
    let mut v = slice_range(dir, 0, dir.len());
    if dir.len() > 0 && dir[dir.len() - 1] != 0x2f {
        v.push(0x2f);
    }
    let mut n = slice_range(name, 0, name.len());
    v.append(&mut n);
    assert(v@ =~= spec_join_rel(dir@, name@));
    v
}

/// Start of the final path component: just after the last slash.
pub open spec fn spec_name_start(p: Seq<u8>, i: int) -> int
    decreases i,
{
    if i <= 0 {
        0
    } else if 0 <= i - 1 < p.len() && p[i - 1] == 0x2fu8 {
        i
    } else {
        spec_name_start(p, i - 1)
    }
}

/// Position of the last dot strictly above `floor`, scanning down from `i`.
pub open spec fn spec_last_dot(p: Seq<u8>, i: int, floor: int) -> Option<int>
    decreases i - floor,
{
    if i <= floor {
        None
    } else if 0 <= i - 1 < p.len() && p[i - 1] == 0x2eu8 {
        Some(i - 1)
    } else {
        spec_last_dot(p, i - 1, floor)
    }
}

/// The extension of a relative path: the text after the last dot of its
/// final component; a name with no dot, or only a leading one, has none.
pub open spec fn spec_ext(p: Seq<u8>) -> Option<Seq<u8>> {
    let ns = spec_name_start(p, p.len() as int);
    match spec_last_dot(p, p.len() as int, ns) {
        None => None,
        Some(d) => if d > ns {
            Some(p.subrange(d + 1, p.len() as int))
        } else {
            None
        },
    }
}

/// ASCII lower case, byte for byte.
pub open spec fn spec_lower(s: Seq<u8>) -> Seq<u8> {
    Seq::new(
        s.len(),
        |k: int|
            if 0x41 <= s[k] <= 0x5a {
                (s[k] + 0x20) as u8
            } else {
                s[k]
            },
    )
}

pub fn ascii_lower(s: &[u8]) -> (r: Vec<u8>)
    ensures
        r@ == spec_lower(s@),
{
    let mut v: Vec<u8> = Vec::new();
    let mut k: usize = 0;
    while k < s.len()
        invariant
            k <= s@.len(),
            v@ == spec_lower(s@).subrange(0, k as int),
        decreases s@.len() - k,
    {
        let b = s[k];
        if 0x41 <= b && b <= 0x5a {
            v.push(b + 0x20);
        } else {
            v.push(b);
        }
        k += 1;
        assert(v@ =~= spec_lower(s@).subrange(0, k as int));
    }
    assert(v@ =~= spec_lower(s@));
    v
}

/// How an inclusion target is handled, decided by its extension.
#[derive(Debug, PartialEq, Eq, Clone, Copy, Structural)]
pub enum InclusionKind {
    /// Parsed as descriptor content and expanded in place, depth first.
    Rtconfig,
    /// Imported as configuration.
    ReaperTheme,
    /// Executed once in the shared script engine.
    Lua,
}

pub open spec fn spec_inclusion_kind(p: Seq<u8>) -> InclusionKind {
    match spec_ext(p) {
        None => InclusionKind::Rtconfig,
        Some(e) => {
            let l = spec_lower(e);
            if l == ascii_bytes("reapertheme"@) || l == ascii_bytes("ini"@) {
                InclusionKind::ReaperTheme
            } else if l == ascii_bytes("lua"@) {
                InclusionKind::Lua
            } else {
                InclusionKind::Rtconfig
            }
        },
    }
}

fn kw_reapertheme_vec() -> (r: Vec<u8>)
    ensures
        r@ == ascii_bytes("reapertheme"@),
{
    proof {
        reveal_strlit("reapertheme");
        assert(vstd::utf8::is_ascii_chars("reapertheme"@));
    }
    str_bytes("reapertheme")
}

fn kw_ini_vec() -> (r: Vec<u8>)
    ensures
        r@ == ascii_bytes("ini"@),
{
    proof {
        reveal_strlit("ini");
        assert(vstd::utf8::is_ascii_chars("ini"@));
    }
    str_bytes("ini")
}

fn kw_lua_vec() -> (r: Vec<u8>)
    ensures
        r@ == ascii_bytes("lua"@),
{
    proof {
        reveal_strlit("lua");
        assert(vstd::utf8::is_ascii_chars("lua"@));
    }
    str_bytes("lua")
}

fn name_start(p: &[u8]) -> (r: usize)
    ensures
        r == spec_name_start(p@, p@.len() as int),
        r <= p@.len(),
{
    let mut i = p.len();
    while i > 0 && p[i - 1] != 0x2f
        invariant
            0 <= i <= p@.len(),
            spec_name_start(p@, p@.len() as int) == spec_name_start(p@, i as int),
        decreases i,
    {
        i -= 1;
    }
    i
}

fn last_dot(p: &[u8], floor: usize) -> (r: Option<usize>)
    requires
        floor <= p@.len(),
    ensures
        match r {
            Some(d) => spec_last_dot(p@, p@.len() as int, floor as int) == Some(d as int) && d
                < p@.len(),
            None => spec_last_dot(p@, p@.len() as int, floor as int) is None,
        },
{
    let mut i = p.len();
    while i > floor && p[i - 1] != 0x2e
        invariant
            floor <= i <= p@.len(),
            spec_last_dot(p@, p@.len() as int, floor as int) == spec_last_dot(
                p@,
                i as int,
                floor as int,
            ),
        decreases i,
    {
        i -= 1;
    }
    if i > floor {
        Some(i - 1)
    } else {
        None
    }
}

/// Decide how an inclusion target is handled, from its extension.
pub fn inclusion_kind(p: &[u8]) -> (r: InclusionKind)
    ensures
        r == spec_inclusion_kind(p@),
{
    let ns = name_start(p);
    match last_dot(p, ns) {
        None => InclusionKind::Rtconfig,
        Some(d) => {
            if d > ns {
                let n = p.len();
                let ext = slice_range(p, d + 1, n);
                let low = ascii_lower(ext.as_slice());
                let krt = kw_reapertheme_vec();
                let kini = kw_ini_vec();
                let klua = kw_lua_vec();
                if bytes_eq(low.as_slice(), krt.as_slice()) || bytes_eq(
                    low.as_slice(),
                    kini.as_slice(),
                ) {
                    InclusionKind::ReaperTheme
                } else if bytes_eq(low.as_slice(), klua.as_slice()) {
                    InclusionKind::Lua
                } else {
                    InclusionKind::Rtconfig
                }
            } else {
                InclusionKind::Rtconfig
            }
        },
    }
}

// ---------------------------------------------------------------------------
// Glob matches and warnings
// ---------------------------------------------------------------------------

/// One result of enumerating a resource glob against the filesystem.
#[derive(Debug)]
pub enum GlobEntry {
    /// A match: its full path, and its final name component if it has one.
    Hit { path: Vec<u8>, name: Option<Vec<u8>> },
    /// An enumeration error, never fatal.
    Fault { message: Vec<u8> },
}

pub ghost enum SpGlobEntry {
    Hit { path: Seq<u8>, name: Option<Seq<u8>> },
    Fault { message: Seq<u8> },
}

impl View for GlobEntry {
    type V = SpGlobEntry;

    open spec fn view(&self) -> SpGlobEntry {
        match self {
            GlobEntry::Hit { path, name } => SpGlobEntry::Hit {
                path: path@,
                name: match name {
                    Some(n) => Some(n@),
                    None => None,
                },
            },
            GlobEntry::Fault { message } => SpGlobEntry::Fault { message: message@ },
        }
    }
}

/// An advisory condition: recorded, never fatal.
#[derive(Debug)]
pub enum Warning {
    /// A destination was already taken; the first registration wins.
    ResourceCollision { source: Vec<u8>, dest: Vec<u8> },
    /// The filesystem could not be enumerated at some match.
    GlobFault { message: Vec<u8> },
    /// A match without a final name component cannot be packaged.
    UnnamedMatch { path: Vec<u8> },
}

pub ghost enum SpWarning {
    ResourceCollision { source: Seq<u8>, dest: Seq<u8> },
    GlobFault { message: Seq<u8> },
    UnnamedMatch { path: Seq<u8> },
}

impl View for Warning {
    type V = SpWarning;

    open spec fn view(&self) -> SpWarning {
        match self {
            Warning::ResourceCollision { source, dest } => SpWarning::ResourceCollision {
                source: source@,
                dest: dest@,
            },
            Warning::GlobFault { message } => SpWarning::GlobFault { message: message@ },
            Warning::UnnamedMatch { path } => SpWarning::UnnamedMatch { path: path@ },
        }
    }
}

/// One glob result applied to the manifest: an error or a nameless match
/// becomes a warning; a named match lands under the destination directory
/// unless that destination is taken, in which case a warning records the
/// collision and the manifest keeps the first registration.
pub open spec fn spec_resource_step(
    res: Seq<SpResourceEntry>,
    warns: Seq<SpWarning>,
    dest: Seq<u8>,
    e: SpGlobEntry,
) -> (Seq<SpResourceEntry>, Seq<SpWarning>) {
    match e {
        SpGlobEntry::Fault { message } => (res, warns.push(SpWarning::GlobFault { message })),
        SpGlobEntry::Hit { path, name: None } => (
            res,
            warns.push(SpWarning::UnnamedMatch { path }),
        ),
        SpGlobEntry::Hit { path, name: Some(nm) } => {
            let df = spec_join_rel(dest, nm);
            if spec_manifest_get(res, df) is Some {
                (res, warns.push(SpWarning::ResourceCollision { source: path, dest: df }))
            } else {
                (res.push(SpResourceEntry { dest: df, source: path }), warns)
            }
        },
    }
}

/// The glob results from index `k` on, folded over manifest and warnings.
pub open spec fn spec_resource_fold(
    res: Seq<SpResourceEntry>,
    warns: Seq<SpWarning>,
    dest: Seq<u8>,
    es: Seq<SpGlobEntry>,
    k: int,
) -> (Seq<SpResourceEntry>, Seq<SpWarning>)
    decreases es.len() - k,
{
    if !(0 <= k < es.len()) {
        (res, warns)
    } else {
        let (r2, w2) = spec_resource_step(res, warns, dest, es[k]);
        spec_resource_fold(r2, w2, dest, es, k + 1)
    }
}

/// Folding glob results only appends: existing manifest entries and
/// warnings stay in place, and an occupied destination keeps what the first
/// registration put there.
pub proof fn lemma_resource_fold_extends(
    res: Seq<SpResourceEntry>,
    warns: Seq<SpWarning>,
    dest: Seq<u8>,
    es: Seq<SpGlobEntry>,
    k: int,
)
    ensures
        ({
            let (r2, w2) = spec_resource_fold(res, warns, dest, es, k);
            &&& res.is_prefix_of(r2)
            &&& warns.is_prefix_of(w2)
            &&& forall|d2: Seq<u8>|
                spec_manifest_get(res, d2) is Some ==> #[trigger] spec_manifest_get(r2, d2)
                    == spec_manifest_get(res, d2)
        }),
    decreases es.len() - k,
{
    if !(0 <= k < es.len()) {
        let (r2, w2) = spec_resource_fold(res, warns, dest, es, k);
        assert(res.is_prefix_of(r2)) by {
            assert(res.subrange(0, res.len() as int) =~= res);
        }
        assert(warns.is_prefix_of(w2)) by {
            assert(warns.subrange(0, warns.len() as int) =~= warns);
        }
    } else {
        let (r1, w1) = spec_resource_step(res, warns, dest, es[k]);
        lemma_resource_fold_extends(r1, w1, dest, es, k + 1);
        let (r2, w2) = spec_resource_fold(res, warns, dest, es, k);
        assert(res.is_prefix_of(r1)) by {
            assert(res.subrange(0, res.len() as int) =~= res);
            match es[k] {
                SpGlobEntry::Hit { path, name: Some(nm) } => {
                    if !(spec_manifest_get(res, spec_join_rel(dest, nm)) is Some) {
                        assert(r1.subrange(0, res.len() as int) =~= res);
                    }
                },
                _ => {},
            }
        }
        assert(warns.is_prefix_of(w1)) by {
            assert(warns.subrange(0, warns.len() as int) =~= warns);
            if w1.len() == warns.len() + 1 {
                assert(w1.subrange(0, warns.len() as int) =~= warns);
            }
        }
        assert(res.is_prefix_of(r2)) by {
            assert(res =~= r1.subrange(0, res.len() as int));
            assert(r1 =~= r2.subrange(0, r1.len() as int));
            assert(res =~= r2.subrange(0, res.len() as int));
        }
        assert(warns.is_prefix_of(w2)) by {
            assert(warns =~= w1.subrange(0, warns.len() as int));
            assert(w1 =~= w2.subrange(0, w1.len() as int));
            assert(warns =~= w2.subrange(0, warns.len() as int));
        }
        assert forall|d2: Seq<u8>|
            spec_manifest_get(res, d2) is Some implies #[trigger] spec_manifest_get(r2, d2)
            == spec_manifest_get(res, d2) by {
            match es[k] {
                SpGlobEntry::Hit { path, name: Some(nm) } => {
                    let df = spec_join_rel(dest, nm);
                    if !(spec_manifest_get(res, df) is Some) {
                        crate::table::lemma_find_dest_push(
                            res,
                            d2,
                            SpResourceEntry { dest: df, source: path },
                            0,
                        );
                        crate::table::lemma_find_dest_bounds(res, d2, 0);
                    }
                },
                _ => {},
            }
            assert(spec_manifest_get(r1, d2) == spec_manifest_get(res, d2));
        }
    }
}

// ---------------------------------------------------------------------------
// The build state
// ---------------------------------------------------------------------------

/// The build state model: the expanded output text, the merged
/// configuration, the resource manifest, the warnings so far, and whether
/// the next newline is swallowed. Resource and unknown-directive lines
/// leave no trace in the output, their line terminator included; a
/// descriptor inclusion keeps its terminator, since the items of the
/// included file are fed next and their newlines are their own.
pub ghost struct SpBuilder {
    pub out: Seq<u8>,
    pub config: Seq<SpConfigSection>,
    pub resources: Seq<SpResourceEntry>,
    pub warnings: Seq<SpWarning>,
    pub skip_next_newline: bool,
}

/// What the engine asks its driver to do next.
#[derive(Debug)]
pub enum FeedOutcome {
    /// Nothing: the item was handled internally.
    Done,
    /// Evaluate this expression code in the shared script engine, then hand
    /// the value to `apply_eval_rtconfig`; the location is for error
    /// reports.
    Eval { code: Vec<u8>, line: usize, column: usize },
    /// Read the file at this path, relative to the current file's
    /// directory, and import it as `kind` says.
    Import { path: Vec<u8>, kind: InclusionKind },
}

pub ghost enum SpFeedOutcome {
    Done,
    Eval { code: Seq<u8>, line: int, column: int },
    Import { path: Seq<u8>, kind: InclusionKind },
}

impl View for FeedOutcome {
    type V = SpFeedOutcome;

    open spec fn view(&self) -> SpFeedOutcome {
        match self {
            FeedOutcome::Done => SpFeedOutcome::Done,
            FeedOutcome::Eval { code, line, column } => SpFeedOutcome::Eval {
                code: code@,
                line: *line as int,
                column: *column as int,
            },
            FeedOutcome::Import { path, kind } => SpFeedOutcome::Import {
                path: path@,
                kind: *kind,
            },
        }
    }
}

/// The text an unknown directive leaves in the expanded output: an inert
/// comment line.
pub open spec fn spec_unknown_render(name: Seq<u8>, contents: Seq<u8>) -> Seq<u8> {
    ascii_bytes("; #"@) + name + contents + seq![0x0au8]
}

fn kw_unknown_prefix_vec() -> (r: Vec<u8>)
    ensures
        r@ == ascii_bytes("; #"@),
{
    proof {
        reveal_strlit("; #");
        assert(vstd::utf8::is_ascii_chars("; #"@));
    }
    str_bytes("; #")
}

/// The build state threaded through one whole build: parts of the expanded
/// descriptor, the merged configuration, the resource manifest, warnings,
/// and the newline-suppression flag.
pub struct ThemeBuilder {
    out: Vec<u8>,
    config: ConfigTable,
    resources: ResourceManifest,
    warnings: Vec<Warning>,
    skip_next_newline: bool,
}

impl View for ThemeBuilder {
    type V = SpBuilder;

    closed spec fn view(&self) -> SpBuilder {
        SpBuilder {
            out: self.out@,
            config: self.config@,
            resources: self.resources@,
            warnings: self.warnings@.map_values(|w: Warning| w@),
            skip_next_newline: self.skip_next_newline,
        }
    }
}

impl ThemeBuilder {
    pub fn new() -> (r: Self)
        ensures
            r@ == (SpBuilder {
                out: Seq::<u8>::empty(),
                config: Seq::<SpConfigSection>::empty(),
                resources: Seq::<SpResourceEntry>::empty(),
                warnings: Seq::<SpWarning>::empty(),
                skip_next_newline: false,
            }),
    {
        let r = ThemeBuilder {
            out: Vec::new(),
            config: ConfigTable::new(),
            resources: ResourceManifest::new(),
            warnings: Vec::new(),
            skip_next_newline: false,
        };
        proof {
            assert(r@.warnings =~= Seq::<SpWarning>::empty());
            assert(r@.out =~= Seq::<u8>::empty());
        }
        r
    }

    /// The expanded descriptor text accumulated so far.
    pub fn rtconfig(&self) -> (r: &Vec<u8>)
        ensures
            r@ == self@.out,
    {
        &self.out
    }

    /// The merged configuration accumulated so far.
    pub fn reapertheme(&self) -> (r: &ConfigTable)
        ensures
            r@ == self@.config,
    {
        &self.config
    }

    /// The resource manifest accumulated so far.
    pub fn resources(&self) -> (r: &ResourceManifest)
        ensures
            r@ == self@.resources,
    {
        &self.resources
    }

    /// The advisory warnings recorded so far.
    pub fn warnings(&self) -> (r: &Vec<Warning>)
        ensures
            r@.map_values(|w: Warning| w@) == self@.warnings,
    {
        &self.warnings
    }

    /// Feed one content item. Newlines, code, comments, unknown directives
    /// and resource directives are handled here; an expression or a file
    /// inclusion comes back as an outcome for the driver. A descriptor
    /// inclusion changes nothing: the driver feeds the included file's
    /// items next, and a suppression flag set here would wrongly swallow
    /// the first newline of the included content instead of the directive
    /// line's own terminator, which stays.
    #[verifier::rlimit(60)]
    pub fn feed(&mut self, content: &RtconfigContent, source_dir: &[u8]) -> (r: FeedOutcome)
        ensures
            content@ is Newline ==> r is Done && final(self)@ == (if old(self)@.skip_next_newline {
                SpBuilder { skip_next_newline: false, ..old(self)@ }
            } else {
                SpBuilder { out: old(self)@.out + seq![0x0au8], ..old(self)@ }
            }),
            content@ matches SpContent::Code(t) ==> r is Done && final(self)@ == (SpBuilder {
                out: old(self)@.out + t,
                ..old(self)@
            }),
            content@ matches SpContent::Comment(t) ==> r is Done && final(self)@ == (SpBuilder {
                out: old(self)@.out + t,
                ..old(self)@
            }),
            content@ matches SpContent::Expression { code, line, column, .. } ==> final(self)@
                == old(self)@ && r@ == (SpFeedOutcome::Eval { code, line, column }),
            content@ matches SpContent::Directive(SpDirective::Inclusion { path }) ==> r@ == (
            SpFeedOutcome::Import { path, kind: spec_inclusion_kind(path) }) && final(self)@ == (
            if spec_inclusion_kind(path) == InclusionKind::Rtconfig {
                old(self)@
            } else {
                SpBuilder { skip_next_newline: true, ..old(self)@ }
            }),
            content@ matches SpContent::Directive(SpDirective::Unknown { name, contents }) ==> r
                is Done && final(self)@ == (SpBuilder {
                skip_next_newline: true,
                out: old(self)@.out + spec_unknown_render(name, contents),
                ..old(self)@
            }),
            content@ matches SpContent::Directive(SpDirective::Resource { pattern, dest }) ==> r
                is Done && final(self)@.skip_next_newline == true && final(self)@.out == old(self)@.out && final(self)@.config == old(self)@.config,
            content@ matches SpContent::Directive(SpDirective::Resource { pattern, dest })
                ==> old(self)@.resources.is_prefix_of(final(self)@.resources) && old(
                self,
            )@.warnings.is_prefix_of(final(self)@.warnings) && forall|d2: Seq<u8>|
                spec_manifest_get(old(self)@.resources, d2) is Some ==> #[trigger] spec_manifest_get(
                    final(self)@.resources,
                    d2,
                ) == spec_manifest_get(old(self)@.resources, d2),
    {
        match content {
            RtconfigContent::Newline => {
                if self.skip_next_newline {
                    self.skip_next_newline = false;
                } else {
                    self.out.push(0x0a);
                    assert(self@.out =~= old(self)@.out + seq![0x0au8]);
                }
                FeedOutcome::Done
            },
            RtconfigContent::Code(t) => {
                let mut tv = clone_bytes(t);
                self.out.append(&mut tv);
                assert(self@.out =~= old(self)@.out + t@);
                FeedOutcome::Done
            },
            RtconfigContent::Comment(t) => {
                let mut tv = clone_bytes(t);
                self.out.append(&mut tv);
                assert(self@.out =~= old(self)@.out + t@);
                FeedOutcome::Done
            },
            RtconfigContent::Expression { code, offset: _, line, column } => FeedOutcome::Eval {
                code: clone_bytes(code),
                line: *line,
                column: *column,
            },
            RtconfigContent::Directive(d) => {
                match d {
                    crate::parser::Directive::Inclusion { path } => {
                        let kind = inclusion_kind(path.as_slice());
                        if kind != InclusionKind::Rtconfig {
                            self.skip_next_newline = true;
                        }
                        FeedOutcome::Import { path: clone_bytes(path), kind }
                    },
                    crate::parser::Directive::Unknown { name, contents } => {
                        self.skip_next_newline = true;
                        let mut frag = kw_unknown_prefix_vec();
                        let mut nm = clone_bytes(name);
                        frag.append(&mut nm);
                        let mut ct = clone_bytes(contents);
                        frag.append(&mut ct);
                        frag.push(0x0a);
                        let ghost fragv = frag@;
                        assert(fragv =~= spec_unknown_render(name@, contents@));
                        self.out.append(&mut frag);
                        assert(self@.out =~= old(self)@.out + spec_unknown_render(
                            name@,
                            contents@,
                        ));
                        FeedOutcome::Done
                    },
                    crate::parser::Directive::Resource { pattern, dest } => {
                        self.skip_next_newline = true;
                        self.apply_resource_directive(pattern.as_slice(), dest.as_slice(), source_dir);
                        FeedOutcome::Done
                    },
                }
            },
        }
    }

    /// Resolve one resource directive: the glob, resolved against the
    /// current file's directory, is enumerated on the filesystem and every
    /// match lands in the manifest under the destination directory, first
    /// registration winning. Also the path for resources a script stages:
    /// the driver drains its queue through here after each evaluation.
    /// Never fatal: output, configuration and the suppression flag are
    /// untouched, manifest entries and warnings only accumulate, and an
    /// occupied destination keeps what the first registration put there.
    pub fn apply_resource_directive(&mut self, pattern: &[u8], dest: &[u8], source_dir: &[u8])
        ensures
            final(self)@.out == old(self)@.out,
            final(self)@.config == old(self)@.config,
            final(self)@.skip_next_newline == old(self)@.skip_next_newline,
            old(self)@.resources.is_prefix_of(final(self)@.resources),
            old(self)@.warnings.is_prefix_of(final(self)@.warnings),
            forall|d2: Seq<u8>|
                spec_manifest_get(old(self)@.resources, d2) is Some ==> #[trigger] spec_manifest_get(
                    final(self)@.resources,
                    d2,
                ) == spec_manifest_get(old(self)@.resources, d2),
    {
        let full = join_rel(source_dir, pattern);
        let entries = crate::trusted::glob_entries(full.as_slice());
        self.apply_resource_matches(dest, &entries);
        proof {
            let es = entries@.map_values(|e: GlobEntry| e@);
            lemma_resource_fold_extends(
                old(self)@.resources,
                old(self)@.warnings,
                dest@,
                es,
                0,
            );
        }
    }

    /// Apply an already enumerated list of glob results to the manifest:
    /// exactly the first-wins fold, one step per entry.
    pub fn apply_resource_matches(&mut self, dest: &[u8], entries: &Vec<GlobEntry>)
        ensures
            final(self)@.out == old(self)@.out,
            final(self)@.config == old(self)@.config,
            final(self)@.skip_next_newline == old(self)@.skip_next_newline,
            (final(self)@.resources, final(self)@.warnings) == spec_resource_fold(
                old(self)@.resources,
                old(self)@.warnings,
                dest@,
                entries@.map_values(|e: GlobEntry| e@),
                0,
            ),
    {
        let ghost es = entries@.map_values(|e: GlobEntry| e@);
        let n = entries.len();
        let mut k: usize = 0;
        while k < n
            invariant
                k <= n == es.len(),
                es == entries@.map_values(|e: GlobEntry| e@),
                self@.out == old(self)@.out,
                self@.config == old(self)@.config,
                self@.skip_next_newline == old(self)@.skip_next_newline,
                spec_resource_fold(
                    old(self)@.resources,
                    old(self)@.warnings,
                    dest@,
                    es,
                    0,
                ) == spec_resource_fold(self@.resources, self@.warnings, dest@, es, k as int),
            decreases n - k,
        {
            let ghost pre = self@;
            match &entries[k] {
                GlobEntry::Fault { message } => {
                    self.warnings.push(Warning::GlobFault { message: clone_bytes(message) });
                    assert(self@.warnings =~= pre.warnings.push(
                        SpWarning::GlobFault { message: message@ },
                    ));
                },
                GlobEntry::Hit { path, name } => {
                    match name {
                        None => {
                            self.warnings.push(
                                Warning::UnnamedMatch { path: clone_bytes(path) },
                            );
                            assert(self@.warnings =~= pre.warnings.push(
                                SpWarning::UnnamedMatch { path: path@ },
                            ));
                        },
                        Some(nm) => {
                            let dest_file = join_rel(dest, nm.as_slice());
                            if self.resources.contains_dest(dest_file.as_slice()) {
                                self.warnings.push(
                                    Warning::ResourceCollision {
                                        source: clone_bytes(path),
                                        dest: dest_file,
                                    },
                                );
                                assert(self@.warnings =~= pre.warnings.push(
                                    SpWarning::ResourceCollision {
                                        source: path@,
                                        dest: spec_join_rel(dest@, nm@),
                                    },
                                ));
                            } else {
                                let added = self.resources.insert_first_wins(
                                    dest_file,
                                    clone_bytes(path),
                                );
                            }
                        },
                    }
                },
            }
            k += 1;
        }
    }

    /// Splice one evaluated expression into the expanded descriptor text.
    /// An unsupported value kind is a hard evaluation error and leaves the
    /// state unchanged.
    pub fn apply_eval_rtconfig(&mut self, value: &ScriptValue) -> (r: Result<(), SerializeError>)
        ensures
            match spec_serialize_value(value@, false, 3) {
                Some(t) => r is Ok && final(self)@ == (SpBuilder {
                    out: old(self)@.out + t,
                    ..old(self)@
                }),
                None => r is Err && final(self)@ == old(self)@,
            },
    {
        match serialize_value(value, false, 3) {
            Ok(mut t) => {
                self.out.append(&mut t);
                assert(self@.out =~= old(self)@.out + spec_serialize_value(
                    value@,
                    false,
                    3,
                ).unwrap());
                Ok(())
            },
            Err(e) => Err(e),
        }
    }

    /// Store one configuration value under a section and key; a later
    /// import of the same pair overwrites, every other pair is untouched.
    pub fn set_config(&mut self, section: Option<Vec<u8>>, key: Vec<u8>, value: Vec<u8>)
        ensures
            final(self)@.out == old(self)@.out,
            final(self)@.resources == old(self)@.resources,
            final(self)@.warnings == old(self)@.warnings,
            final(self)@.skip_next_newline == old(self)@.skip_next_newline,
            spec_tbl_get(final(self)@.config, opt_bytes_view(section), key@) == Some(value@),
            forall|n2: Option<Seq<u8>>, k2: Seq<u8>|
                !(n2 == opt_bytes_view(section) && k2 == key@) ==> #[trigger] spec_tbl_get(
                    final(self)@.config,
                    n2,
                    k2,
                ) == spec_tbl_get(old(self)@.config, n2, k2),
    {
        self.config.set(section, key, value);
    }
}

// ---------------------------------------------------------------------------
// Configuration value splicing
// ---------------------------------------------------------------------------

/// What splicing a configuration value comes to: the finished text, or the
/// kind name of an unsupported value, or too few evaluated values.
pub ghost enum SpSplice {
    Done(Seq<u8>),
    Unsupported(Seq<u8>),
    Short,
}

/// The spliced text of a configuration value: its plain pieces verbatim,
/// each expression span replaced by its evaluated value's text (config
/// conventions: reversed color byte order, strings re-indented to the
/// expression's column). The first expression whose value cannot be
/// rendered, or that has no evaluated value left, decides the failure.
pub open spec fn spec_splice_from(
    ps: Seq<crate::parser::SpValueContent>,
    es: Seq<SpScriptValue>,
    pi: int,
    ei: int,
) -> SpSplice
    decreases ps.len() - pi,
{
    if !(0 <= pi < ps.len()) {
        SpSplice::Done(Seq::<u8>::empty())
    } else {
        match ps[pi] {
            crate::parser::SpValueContent::Text(t) => match spec_splice_from(
                ps,
                es,
                pi + 1,
                ei,
            ) {
                SpSplice::Done(rest) => SpSplice::Done(t + rest),
                e => e,
            },
            crate::parser::SpValueContent::Expression { code, column, .. } => {
                if !(0 <= ei < es.len()) {
                    SpSplice::Short
                } else {
                    match spec_serialize_value(es[ei], true, column) {
                        None => match es[ei] {
                            SpScriptValue::Other(k) => SpSplice::Unsupported(k),
                            _ => SpSplice::Unsupported(Seq::<u8>::empty()),
                        },
                        Some(t) => match spec_splice_from(ps, es, pi + 1, ei + 1) {
                            SpSplice::Done(rest) => SpSplice::Done(t + rest),
                            e => e,
                        },
                    }
                }
            },
        }
    }
}

/// Splice the evaluated expression values back into a configuration
/// value's pieces, in order: the text of the whole value as imported, or
/// the first failure.
pub fn splice_config_value(
    pieces: &Vec<crate::parser::ReaperThemeContent>,
    evals: &Vec<ScriptValue>,
) -> (r: Result<Vec<u8>, SerializeError>)
    requires
        forall|k: int|
            0 <= k < pieces@.len() ==> (#[trigger] pieces@[k]@ matches
                crate::parser::SpValueContent::Expression { column, .. } ==> column >= 3),
    ensures
        ({
            let sp = spec_splice_from(
                pieces@.map_values(|c: crate::parser::ReaperThemeContent| c@),
                evals@.map_values(|v: ScriptValue| v@),
                0,
                0,
            );
            match sp {
                SpSplice::Done(t) => r matches Ok(v) && v@ == t,
                SpSplice::Unsupported(k) => r matches Err(e) && (e matches
                    SerializeError::Unsupported { kind } && kind@ == k),
                SpSplice::Short => r matches Err(e) && e is MissingValue,
            }
        }),
{
    splice_from(pieces, evals, 0, 0)
}

fn splice_from(
    pieces: &Vec<crate::parser::ReaperThemeContent>,
    evals: &Vec<ScriptValue>,
    pi: usize,
    ei: usize,
) -> (r: Result<Vec<u8>, SerializeError>)
    requires
        forall|k: int|
            0 <= k < pieces@.len() ==> (#[trigger] pieces@[k]@ matches
                crate::parser::SpValueContent::Expression { column, .. } ==> column >= 3),
    ensures
        ({
            let sp = spec_splice_from(
                pieces@.map_values(|c: crate::parser::ReaperThemeContent| c@),
                evals@.map_values(|v: ScriptValue| v@),
                pi as int,
                ei as int,
            );
            match sp {
                SpSplice::Done(t) => r matches Ok(v) && v@ == t,
                SpSplice::Unsupported(k) => r matches Err(e) && (e matches
                    SerializeError::Unsupported { kind } && kind@ == k),
                SpSplice::Short => r matches Err(e) && e is MissingValue,
            }
        }),
    decreases pieces@.len() - pi,
{
    let ghost psv = pieces@.map_values(|c: crate::parser::ReaperThemeContent| c@);
    let ghost esv = evals@.map_values(|v: ScriptValue| v@);
    if pi >= pieces.len() {
        let v: Vec<u8> = Vec::new();
        assert(v@ =~= Seq::<u8>::empty());
        return Ok(v);
    }
    match &pieces[pi] {
        crate::parser::ReaperThemeContent::Text(t) => {
            match splice_from(pieces, evals, pi + 1, ei) {
                Ok(rest) => {
                    let mut v = clone_bytes(t);
                    let mut rv = rest;
                    v.append(&mut rv);
                    assert(SpSplice::Done(v@) =~= spec_splice_from(psv, esv, pi as int, ei as int));
                    Ok(v)
                },
                Err(e) => Err(e),
            }
        },
        crate::parser::ReaperThemeContent::Expression { code: _, offset: _, line: _, column } => {
            if ei >= evals.len() {
                return Err(SerializeError::MissingValue);
            }
            assert(psv[pi as int] matches crate::parser::SpValueContent::Expression { .. });
            match serialize_value(&evals[ei], true, *column) {
                Err(e) => {
                    assert(spec_serialize_value(esv[ei as int], true, psv[pi as int]->column)
                        is None);
                    Err(e)
                },
                Ok(t) => {
                    match splice_from(pieces, evals, pi + 1, ei + 1) {
                        Ok(rest) => {
                            let mut v = t;
                            let mut rv = rest;
                            v.append(&mut rv);
                            assert(SpSplice::Done(v@) =~= spec_splice_from(
                                psv,
                                esv,
                                pi as int,
                                ei as int,
                            ));
                            Ok(v)
                        },
                        Err(e) => Err(e),
                    }
                },
            }
        },
    }
}

// ---------------------------------------------------------------------------
// Expanding plain content
// ---------------------------------------------------------------------------

/// No item is a directive or an expression span.
pub open spec fn spec_all_plain(items: Seq<SpContent>) -> bool {
    forall|k: int|
        0 <= k < items.len() ==> !((#[trigger] items[k]) is Directive) && !(items[k] is Expression)
}

/// The output text after feeding plain items: newlines and text appended in
/// order (with no directive in sight the newline-suppression flag never
/// fires).
pub open spec fn spec_expand_plain(out: Seq<u8>, items: Seq<SpContent>, k: int) -> Seq<u8>
    decreases items.len() - k,
{
    if !(0 <= k < items.len()) {
        out
    } else {
        match items[k] {
            SpContent::Newline => spec_expand_plain(out + seq![0x0au8], items, k + 1),
            SpContent::Code(t) => spec_expand_plain(out + t, items, k + 1),
            SpContent::Comment(t) => spec_expand_plain(out + t, items, k + 1),
            _ => spec_expand_plain(out, items, k + 1),
        }
    }
}

/// Feeding plain items appends exactly what the items stand for.
pub proof fn lemma_expand_plain_is_render(out: Seq<u8>, items: Seq<SpContent>, k: int)
    requires
        0 <= k <= items.len(),
        spec_all_plain(items),
    ensures
        spec_expand_plain(out, items, k) == out + crate::parser::spec_render(
            items.subrange(k, items.len() as int),
        ),
    decreases items.len() - k,
{
    if k == items.len() {
        assert(items.subrange(k, items.len() as int) =~= Seq::<SpContent>::empty());
        assert(out + crate::parser::spec_render(Seq::<SpContent>::empty()) =~= out);
    } else {
        lemma_expand_plain_is_render(
            match items[k] {
                SpContent::Newline => out + seq![0x0au8],
                SpContent::Code(t) => out + t,
                SpContent::Comment(t) => out + t,
                _ => out,
            },
            items,
            k + 1,
        );
        let tail = items.subrange(k, items.len() as int);
        assert(tail.drop_first() =~= items.subrange(k + 1, items.len() as int));
        assert(tail[0] == items[k]);
        match items[k] {
            SpContent::Newline => {
                assert(crate::parser::spec_render_item(items[k]) =~= seq![0x0au8]);
                assert((out + seq![0x0au8]) + crate::parser::spec_render(tail.drop_first()) =~= out
                    + crate::parser::spec_render(tail));
            },
            SpContent::Code(t) => {
                assert((out + t) + crate::parser::spec_render(tail.drop_first()) =~= out
                    + crate::parser::spec_render(tail));
            },
            SpContent::Comment(t) => {
                assert((out + t) + crate::parser::spec_render(tail.drop_first()) =~= out
                    + crate::parser::spec_render(tail));
            },
            _ => {},
        }
    }
}

/// Round trip: a descriptor that parses to content with no directive and no
/// expression expands to byte-identical text.
pub proof fn lemma_descriptor_round_trip(s: Seq<u8>, items: Seq<SpContent>)
    requires
        crate::parser::spec_parse(s) == (crate::parser::SpStep::Found {
            next: s.len() as int,
            val: items,
        }),
        spec_all_plain(items),
    ensures
        spec_expand_plain(Seq::<u8>::empty(), items, 0) == s,
{
    crate::parser::lemma_parse_round_trip(s);
    assert(crate::parser::spec_no_directives(items));
    lemma_expand_plain_is_render(Seq::<u8>::empty(), items, 0);
    assert(items.subrange(0, items.len() as int) =~= items);
    assert(Seq::<u8>::empty() + crate::parser::spec_render(items) =~= crate::parser::spec_render(
        items,
    ));
}

impl ThemeBuilder {
    /// Feed a whole run of plain items (no directives, no expressions):
    /// `true` when every item was plain and fed, in which case the output
    /// grew by exactly what the items stand for and nothing else changed;
    /// `false`, with no state change, as soon as an item is not plain.
    pub fn feed_plain(&mut self, items: &Vec<RtconfigContent>, source_dir: &[u8]) -> (ok: bool)
        requires
            old(self)@.skip_next_newline == false,
        ensures
            ok == spec_all_plain(crate::parser::contents_view(items@)),
            ok ==> final(self)@ == (SpBuilder {
                out: spec_expand_plain(
                    old(self)@.out,
                    crate::parser::contents_view(items@),
                    0,
                ),
                ..old(self)@
            }),
            !ok ==> final(self)@ == old(self)@,
    {
        let ghost itemsv = crate::parser::contents_view(items@);
        let n = items.len();
        let mut k: usize = 0;
        while k < n
            invariant
                k <= n == itemsv.len(),
                itemsv == crate::parser::contents_view(items@),
                self@ == old(self)@,
                forall|x: int|
                    0 <= x < k ==> !((#[trigger] itemsv[x]) is Directive) && !(itemsv[x]
                        is Expression),
            decreases n - k,
        {
            match &items[k] {
                RtconfigContent::Directive(_) => {
                    assert(itemsv[k as int] is Directive);
                    return false;
                },
                RtconfigContent::Expression { .. } => {
                    assert(itemsv[k as int] is Expression);
                    return false;
                },
                _ => {
                    assert(!(itemsv[k as int] is Directive) && !(itemsv[k as int] is Expression));
                },
            }
            k += 1;
        }
        assert(spec_all_plain(itemsv));
        let mut j: usize = 0;
        while j < n
            invariant
                j <= n == itemsv.len(),
                itemsv == crate::parser::contents_view(items@),
                spec_all_plain(itemsv),
                self@.skip_next_newline == false,
                self@.config == old(self)@.config,
                self@.resources == old(self)@.resources,
                self@.warnings == old(self)@.warnings,
                spec_expand_plain(old(self)@.out, itemsv, 0) == spec_expand_plain(
                    self@.out,
                    itemsv,
                    j as int,
                ),
            decreases n - j,
        {
            let outcome = self.feed(&items[j], source_dir);
            proof {
                assert(itemsv[j as int] == items@[j as int]@);
            }
            j += 1;
        }
        true
    }
}

// ---------------------------------------------------------------------------
// Errors
// ---------------------------------------------------------------------------

/// A fatal condition during preprocessing. Paths are carried as bytes of
/// their text form. No root-containment check is made on inclusions or
/// resources: a descriptor may reach outside its own directory, as the
/// build has always allowed.
#[derive(Debug)]
pub enum PreprocessError {
    /// A descriptor or imported file could not be read.
    ReadError { path: Vec<u8> },
    /// A descriptor failed to parse.
    RtconfigParseError { path: Vec<u8>, error: ParseError },
    /// An imported configuration value failed to parse.
    ReaperThemeParseError { path: Vec<u8>, error: ParseError },
    /// An imported configuration file could not be read as one.
    IniError { path: Vec<u8>, message: Vec<u8> },
    /// A script file could not be read.
    ReadScriptError { path: Vec<u8>, message: Vec<u8> },
    /// Script evaluation failed, or handed back an unsupported value.
    EvaluateError { path: Vec<u8>, line: usize, column: usize, message: Vec<u8> },
    /// A chain of descriptor inclusions went deeper than the driver's cap.
    InclusionDepthExceeded { path: Vec<u8> },
}

impl PreprocessError {
    /// The path the failure is about.
    pub fn path(&self) -> (r: &Vec<u8>)
        ensures
            r@ == match self {
                PreprocessError::ReadError { path } => path@,
                PreprocessError::RtconfigParseError { path, .. } => path@,
                PreprocessError::ReaperThemeParseError { path, .. } => path@,
                PreprocessError::IniError { path, .. } => path@,
                PreprocessError::ReadScriptError { path, .. } => path@,
                PreprocessError::EvaluateError { path, .. } => path@,
                PreprocessError::InclusionDepthExceeded { path } => path@,
            },
    {
        match self {
            PreprocessError::ReadError { path } => path,
            PreprocessError::RtconfigParseError { path, .. } => path,
            PreprocessError::ReaperThemeParseError { path, .. } => path,
            PreprocessError::IniError { path, .. } => path,
            PreprocessError::ReadScriptError { path, .. } => path,
            PreprocessError::EvaluateError { path, .. } => path,
            PreprocessError::InclusionDepthExceeded { path } => path,
        }
    }

    /// A short fixed description of the failure kind.
    pub fn message(&self) -> (r: &'static str)
        ensures
            self is ReadError ==> r@ == "failed to read file"@,
            self is RtconfigParseError ==> r@ == "failed to parse rtconfig"@,
            self is ReaperThemeParseError ==> r@ == "failed to parse reapertheme"@,
            self is IniError ==> r@ == "failed to read reapertheme file"@,
            self is ReadScriptError ==> r@ == "failed to read script file"@,
            self is EvaluateError ==> r@ == "failed to evaluate lua code"@,
            self is InclusionDepthExceeded ==> r@ == "inclusion depth limit exceeded"@,
    {
        match self {
            PreprocessError::ReadError { .. } => "failed to read file",
            PreprocessError::RtconfigParseError { .. } => "failed to parse rtconfig",
            PreprocessError::ReaperThemeParseError { .. } => "failed to parse reapertheme",
            PreprocessError::IniError { .. } => "failed to read reapertheme file",
            PreprocessError::ReadScriptError { .. } => "failed to read script file",
            PreprocessError::EvaluateError { .. } => "failed to evaluate lua code",
            PreprocessError::InclusionDepthExceeded { .. } => "inclusion depth limit exceeded",
        }
    }
}

} // verus!
