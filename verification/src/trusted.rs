//! The crate's trust boundary: thin wrappers around functions of other
//! crates, with the contracts the rest of the library is verified against.

use vstd::prelude::*;

verus! {

/// What serde_json makes of a JSON string literal (quotes and escapes
/// included): `None` when the bytes are not UTF-8 text that forms exactly one
/// JSON string, otherwise the bytes of the decoded text.
pub uninterp spec fn json_decoded(raw: Seq<u8>) -> Option<Seq<u8>>;

/// Relies on serde_json::from_str::<String>: what a JSON string literal
/// decodes to depends on its bytes alone.
#[verifier::external_body]
pub(crate) fn json_decode_string(raw: &[u8]) -> (r: Option<Vec<u8>>)
    ensures
        r is Some <==> json_decoded(raw@) is Some,
        r matches Some(v) ==> json_decoded(raw@) == Some(v@),
{
    match std::str::from_utf8(raw) {
        Ok(s) => serde_json::from_str::<String>(s).ok().map(|x| x.into_bytes()),
        Err(_) => None,
    }
}

/// Whether glob::Pattern accepts these bytes as a pattern. Bytes that are
/// not UTF-8 are not a pattern. Pattern compilation consults the target's
/// path-separator rules, so validity of a pattern holding a backslash can
/// differ between compile targets; within one build the answer is fixed.
pub uninterp spec fn glob_pattern_ok(p: Seq<u8>) -> bool;

/// Relies on glob::Pattern::new: whether a pattern compiles depends on its
/// bytes alone.
#[verifier::external_body]
pub(crate) fn glob_pattern_valid(p: &[u8]) -> (r: bool)
    ensures
        r == glob_pattern_ok(p@),
{
    match std::str::from_utf8(p) {
        Ok(s) => glob::Pattern::new(s).is_ok(),
        Err(_) => false,
    }
}

/// Relies on glob::glob: enumerates the filesystem for matches of a
/// pattern. What comes back depends on the machine's disk, so nothing is
/// promised of the entries; the logic that consumes them is verified for
/// every possible list. A pattern that cannot be compiled, or bytes that
/// are not UTF-8, yield one error entry, never a panic.
#[verifier::external_body]
pub(crate) fn glob_entries(pattern: &[u8]) -> (r: Vec<crate::preprocess::GlobEntry>)
{
    let walk = std::str::from_utf8(pattern).map_err(|e| e.to_string()).and_then(
        |p| glob::glob(p).map_err(|e| e.to_string()),
    );
    match walk {
        Err(m) => vec![crate::preprocess::GlobEntry::Fault { message: m.into_bytes() }],
        Ok(paths) => paths.map(|item| match item {
            Ok(pb) => crate::preprocess::GlobEntry::Hit {
                name: pb.file_name().map(|n| n.to_string_lossy().into_owned().into_bytes()),
                path: pb.to_string_lossy().into_owned().into_bytes(),
            },
            Err(e) => crate::preprocess::GlobEntry::Fault { message: e.to_string().into_bytes() },
        }).collect(),
    }
}

} // verus!
