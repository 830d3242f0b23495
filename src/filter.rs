//! Which archive entries are kept: size limits, excluded path shapes,
//! per-suffix caps, and a look at the first bytes of the content.

use vstd::prelude::*;

use crate::text::{has_prefix, has_suffix, split_segments, split_slash, str_eq};

verus! {

pub const KB: u64 = 1024;

pub const MB: u64 = 1048576;

/// Largest entry that is kept at all.
pub const MAX_FILE_SIZE: u64 = 5242880;

/// Packages whose releases are never ingested.
pub open spec fn excluded_package(name: Seq<char>) -> bool {
    name == "pydwf"@ || name == "tensorflow-gpu"@ || name == "tensorflow-cpu"@ || name
        == "tf-nightly"@ || name == "tf-nightly-cpu"@ || name == "tensorflow-io-nightly"@ || name
        == "tf-nightly-intel"@ || name == "tf-nightly-cpu-aws"@ || name == "pyagrum-nightly"@
}

/// Whether the package is on the blocklist of known-pathological packages.
pub fn is_excluded_package(package_name: &str) -> (r: bool)
    ensures
        r == excluded_package(package_name@),
{
    str_eq(package_name, "pydwf") || str_eq(package_name, "tensorflow-gpu") || str_eq(
        package_name,
        "tensorflow-cpu",
    ) || str_eq(package_name, "tf-nightly") || str_eq(package_name, "tf-nightly-cpu") || str_eq(
        package_name,
        "tensorflow-io-nightly",
    ) || str_eq(package_name, "tf-nightly-intel") || str_eq(package_name, "tf-nightly-cpu-aws")
        || str_eq(package_name, "pyagrum-nightly")
}

/// A path segment that marks the entry as excluded.
pub open spec fn excluded_segment(seg: Seq<char>) -> bool {
    seg == ".git"@ || seg == "__pycache__"@ || has_suffix(seg, ".dist-info"@)
}

/// File suffixes that are never kept.
pub open spec fn excluded_suffix(name: Seq<char>) -> bool {
    has_suffix(name, ".pyc"@) || has_suffix(name, ".js"@) || has_suffix(name, ".map"@)
        || has_suffix(name, ".po"@) || has_suffix(name, ".css"@) || has_suffix(name, ".scss"@)
        || has_suffix(name, ".less"@) || has_suffix(name, ".stl"@) || has_suffix(name, ".dae"@)
}

/// Entries whose suffix has a cap of its own, and exceed it.
pub open spec fn over_suffix_cap(name: Seq<char>, size: u64) -> bool {
    (has_suffix(name, ".json"@) && size > MB) || (has_suffix(name, ".geojson"@) && size > MB) || (
    has_suffix(name, ".csv"@) && size > MB) || (has_suffix(name, ".txt"@) && size > 2 * MB) || (
    has_suffix(name, ".svg"@) && size > 5 * KB) || (has_suffix(name, ".c"@) && size > 2 * MB) || (
    has_suffix(name, ".cpp"@) && size > 2 * MB) || (has_suffix(name, ".html"@) && size > 15 * KB)
        || (has_suffix(name, ".ipynb"@) && size > 5 * MB) || (has_suffix(name, ".edf"@) && size
        > MB) || (has_suffix(name, ".log"@) && size > 3 * MB)
}

/// The rules on an entry's name and size, before its content is read.
pub open spec fn entry_skipped(name: Seq<char>, size: u64) -> bool {
    size == 0 || size > MAX_FILE_SIZE || (exists|i: int|
        0 <= i < split_slash(name).len() && excluded_segment(#[trigger] split_slash(name)[i]))
        || excluded_suffix(name) || over_suffix_cap(name, size)
}

/// Whether `s` ends with `suffix`.
pub fn ends_with(s: &str, suffix: &str) -> (r: bool)
    ensures
        r == has_suffix(s@, suffix@),
{
    let n = s.unicode_len();
    let m = suffix.unicode_len();
    if m > n {
        return false;
    }
    let tail = s.substring_char(n - m, n);
    str_eq(tail, suffix)
}

/// Whether `s` starts with `prefix`.
pub fn starts_with(s: &str, prefix: &str) -> (r: bool)
    ensures
        r == has_prefix(s@, prefix@),
{
    let n = s.unicode_len();
    let m = prefix.unicode_len();
    if m > n {
        return false;
    }
    let head = s.substring_char(0, m);
    str_eq(head, prefix)
}

fn is_excluded_segment(seg: &str) -> (r: bool)
    ensures
        r == excluded_segment(seg@),
{
    str_eq(seg, ".git") || str_eq(seg, "__pycache__") || ends_with(seg, ".dist-info")
}

fn exceeds_suffix_cap(name: &str, size: u64) -> (r: bool)
    ensures
        r == over_suffix_cap(name@, size),
{
    (ends_with(name, ".json") && size > MB) || (ends_with(name, ".geojson") && size > MB) || (
    ends_with(name, ".csv") && size > MB) || (ends_with(name, ".txt") && size > 2 * MB) || (
    ends_with(name, ".svg") && size > 5 * KB) || (ends_with(name, ".c") && size > 2 * MB) || (
    ends_with(name, ".cpp") && size > 2 * MB) || (ends_with(name, ".html") && size > 15 * KB) || (
    ends_with(name, ".ipynb") && size > 5 * MB) || (ends_with(name, ".edf") && size > MB) || (
    ends_with(name, ".log") && size > 3 * MB)
}

/// Whether an entry is dropped on its name and size alone.
pub fn skip_archive_entry(name: &str, size: u64) -> (r: bool)
    ensures
        r == entry_skipped(name@, size),
{
    if size == 0 || size > MAX_FILE_SIZE {
        return true;
    }
    let segs = split_segments(name);
    let ghost views = segs@.map_values(|x: String| x@);
    let mut k: usize = 0;
    while k < segs.len()
        invariant
            views == segs@.map_values(|x: String| x@),
            views == split_slash(name@),
            k <= segs.len(),
            forall|j: int| 0 <= j < k ==> !excluded_segment(#[trigger] views[j]),
        decreases segs.len() - k,
    {
        if is_excluded_segment(segs[k].as_str()) {
            assert(excluded_segment(views[k as int]));
            return true;
        }
        k = k + 1;
    }
    ends_with(name, ".pyc") || ends_with(name, ".js") || ends_with(name, ".map") || ends_with(
        name,
        ".po",
    ) || ends_with(name, ".css") || ends_with(name, ".scss") || ends_with(name, ".less")
        || ends_with(name, ".stl") || ends_with(name, ".dae") || exceeds_suffix_cap(name, size)
}

/// Whether `b` starts with the given byte sequence.
pub open spec fn bytes_prefix(b: Seq<u8>, p: Seq<u8>) -> bool {
    p.len() <= b.len() && b.subrange(0, p.len() as int) == p
}

/// Whether `b` starts with the ASCII text `t`.
pub open spec fn starts_with_text(b: Seq<u8>, t: Seq<char>) -> bool {
    t.len() <= b.len() && forall|i: int| 0 <= i < t.len() ==> b[i] as u32 == #[trigger] t[i] as u32
}

/// A byte order mark that `content_inspector` reads as text.
pub open spec fn text_bom(b: Seq<u8>) -> bool {
    bytes_prefix(b, seq![0xEFu8, 0xBBu8, 0xBFu8]) || bytes_prefix(
        b,
        seq![0x00u8, 0x00u8, 0xFEu8, 0xFFu8],
    ) || bytes_prefix(b, seq![0xFFu8, 0xFEu8, 0x00u8, 0x00u8]) || bytes_prefix(
        b,
        seq![0xFEu8, 0xFFu8],
    ) || bytes_prefix(b, seq![0xFFu8, 0xFEu8])
}

/// `content_inspector::inspect` reports binary content: no byte order mark,
/// and a zero byte among the first 1024 bytes or a PDF or PNG signature.
pub open spec fn inspected_binary(b: Seq<u8>) -> bool {
    !text_bom(b) && ((exists|i: int| 0 <= i < b.len() && i < 1024 && #[trigger] b[i] == 0u8)
        || bytes_prefix(b, seq![0x25u8, 0x50u8, 0x44u8, 0x46u8]) || bytes_prefix(
        b,
        seq![0x89u8, 0x50u8, 0x4Eu8, 0x47u8],
    ))
}

/// Relies on content_inspector::inspect, which looks for byte order marks,
/// zero bytes in the first 1024 bytes, and the PDF and PNG signatures.
#[verifier::external_body]
fn inspect_is_binary(b: &[u8]) -> (r: bool)
    ensures
        r == inspected_binary(b@),
{
    content_inspector::inspect(b).is_binary()
}

fn bytes_start_with_text(b: &[u8], t: &str) -> (r: bool)
    ensures
        r == starts_with_text(b@, t@),
{
    let m = t.unicode_len();
    if m > b.len() {
        return false;
    }
    let mut i: usize = 0;
    while i < m
        invariant
            m == t@.len(),
            m <= b@.len(),
            i <= m,
            forall|j: int| 0 <= j < i ==> b@[j] as u32 == #[trigger] t@[j] as u32,
        decreases m - i,
    {
        if b[i] as u32 != t.get_char(i) as u32 {
            return false;
        }
        i = i + 1;
    }
    true
}

/// The content rules: binary data, obfuscated bytecode bundles and large-file
/// pointer files are dropped.
pub open spec fn content_skipped(b: Seq<u8>) -> bool {
    inspected_binary(b) || starts_with_text(b, "__pyarmor"@) || starts_with_text(
        b,
        "version https://git-lfs"@,
    )
}

/// Whether an entry is dropped on its content.
pub fn skip_content(content: &[u8]) -> (r: bool)
    ensures
        r == content_skipped(content@),
{
    inspect_is_binary(content) || bytes_start_with_text(content, "__pyarmor")
        || bytes_start_with_text(content, "version https://git-lfs")
}

} // verus!
