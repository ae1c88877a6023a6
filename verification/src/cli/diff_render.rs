//! Unified diff rendering for `rsenv swap diff --patch`: pure formatting.
use vstd::prelude::*;

use crate::text::push_str;

verus! {

/// Number of unchanged context lines around each hunk, matching git's default.
pub const CONTEXT_RADIUS: usize = 3;

/// How many leading bytes are searched for a NUL, as git does.
pub const BINARY_PROBE_LEN: usize = 8000;

/// Content is binary by git's heuristic: a NUL byte among its first 8000
/// bytes.
pub open spec fn binary(data: Seq<u8>) -> bool {
    exists|i: int| 0 <= i < data.len() && i < BINARY_PROBE_LEN && data[i] == 0
}

/// Content is binary by git's heuristic.
pub fn is_binary(data: &[u8]) -> (b: bool)
    ensures
        b == binary(data@),
{
    let mut i: usize = 0;
    while i < data.len() && i < BINARY_PROBE_LEN
        invariant
            i <= data.len(),
            i <= BINARY_PROBE_LEN,
            forall|j: int| 0 <= j < i ==> data@[j] != 0,
        decreases data.len() - i,
    {
        if data[i] == 0 {
            return true;
        }
        i = i + 1;
    }
    false
}

/// The text `String::from_utf8_lossy` decodes from `bytes`.
pub uninterp spec fn utf8_lossy(bytes: Seq<u8>) -> Seq<char>;

/// `String::from_utf8_lossy`: the bytes decoded as UTF-8, invalid sequences
/// replaced. The result is named, not stated.
#[verifier::external_body]
fn decode_lossy(bytes: &[u8]) -> (r: String)
    ensures
        r@ == utf8_lossy(bytes@),
{
    String::from_utf8_lossy(bytes).into_owned()
}

/// The unified diff `similar` renders between two texts, with the given
/// labels and context radius.
pub uninterp spec fn unified_diff_text(old: Seq<char>, new: Seq<char>, old_label: Seq<char>, new_label: Seq<char>, radius: usize) -> Seq<char>;

/// `similar::TextDiff::from_lines(old, new).unified_diff()` with the given
/// context radius and header, as text. The result is named, not stated.
#[verifier::external_body]
fn unified_diff(old: &str, new: &str, old_label: &str, new_label: &str, radius: usize) -> (r: String)
    ensures
        r@ == unified_diff_text(old@, new@, old_label@, new_label@, radius),
{
    similar::TextDiff::from_lines(old, new).unified_diff().context_radius(radius).header(
        old_label,
        new_label,
    ).to_string()
}

/// The stand-in emitted instead of a patch for binary content.
pub open spec fn spec_binary_marker(old_label: Seq<char>, new_label: Seq<char>) -> Seq<char> {
    "Binary files "@ + old_label + " and "@ + new_label + " differ\n"@
}

/// The stand-in emitted instead of a patch for binary content.
pub fn binary_marker(old_label: &str, new_label: &str) -> (r: String)
    ensures
        r@ == spec_binary_marker(old_label@, new_label@),
{
    let mut v = crate::text::chars_of("Binary files ");
    push_str(&mut v, old_label);
    push_str(&mut v, " and ");
    push_str(&mut v, new_label);
    push_str(&mut v, " differ\n");
    crate::text::string_of(&v)
}

/// A unified diff between two byte buffers. Binary content on either side
/// is never rendered: the binary marker stands in for it.
pub fn render_unified(old: &[u8], new: &[u8], old_label: &str, new_label: &str) -> (r: String)
    ensures
        binary(old@) || binary(new@) ==> r@ == spec_binary_marker(old_label@, new_label@),
        !binary(old@) && !binary(new@) ==> r@ == unified_diff_text(utf8_lossy(old@), utf8_lossy(new@), old_label@, new_label@, CONTEXT_RADIUS),
{
    if is_binary(old) || is_binary(new) {
        return binary_marker(old_label, new_label);
    }
    let old_text = decode_lossy(old);
    let new_text = decode_lossy(new);
    unified_diff(old_text.as_str(), new_text.as_str(), old_label, new_label, CONTEXT_RADIUS)
}

} // verus!
