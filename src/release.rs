//! A release artifact to ingest, and what is derived from it: its file name,
//! its archive kind, its place in the tree and its commit message.

use vstd::prelude::*;

use crate::filter::ends_with;
use crate::text::has_suffix;

verus! {

/// One downloadable release file of a package. `uploaded_on` is in seconds
/// since the Unix epoch (UTC).
pub struct DownloadJob {
    pub name: String,
    pub version: String,
    pub url: String,
    pub uploaded_on: i64,
}

impl View for DownloadJob {
    type V = (Seq<char>, Seq<char>, Seq<char>, i64);

    open spec fn view(&self) -> (Seq<char>, Seq<char>, Seq<char>, i64) {
        (self.name@, self.version@, self.url@, self.uploaded_on)
    }
}

impl Clone for DownloadJob {
    fn clone(&self) -> (r: DownloadJob)
        ensures
            r@ == self@,
    {
        DownloadJob {
            name: self.name.clone(),
            version: self.version.clone(),
            url: self.url.clone(),
            uploaded_on: self.uploaded_on,
        }
    }
}

/// The last segment of a URL's path, for a URL that parses and has a
/// hierarchical path.
pub uninterp spec fn url_file_name(url: Seq<char>) -> Option<Seq<char>>;

/// Relies on url::Url::parse and Url::path_segments: the path after its
/// leading slash, split on slashes; `None` for a URL that does not parse or
/// cannot be a base.
#[verifier::external_body]
pub(crate) fn last_path_segment(url: &str) -> (r: Option<String>)
    ensures
        match r {
            Some(s) => url_file_name(url@) == Some(s@),
            None => url_file_name(url@) is None,
        },
{
    let parsed = url::Url::parse(url).ok()?;
    let last = parsed.path_segments()?.last()?;
    Some(last.to_string())
}

impl DownloadJob {
    /// The artifact's file name: the last segment of its URL's path.
    pub fn package_filename(&self) -> (r: Option<String>)
        ensures
            match r {
                Some(s) => url_file_name(self.url@) == Some(s@),
                None => url_file_name(self.url@) is None,
            },
    {
        last_path_segment(self.url.as_str())
    }
}

/// The container format of an artifact.
#[derive(Debug, Clone, Copy, PartialEq, Eq, Structural)]
pub enum ArchiveKind {
    Zip,
    TarGz,
    TarBz,
}

/// The kind of archive a file name announces, if any.
pub open spec fn kind_of(filename: Seq<char>) -> Option<ArchiveKind> {
    if has_suffix(filename, ".zip"@) || has_suffix(filename, ".whl"@) || has_suffix(
        filename,
        ".egg"@,
    ) || has_suffix(filename, ".exe"@) {
        Some(ArchiveKind::Zip)
    } else if has_suffix(filename, ".gz"@) {
        Some(ArchiveKind::TarGz)
    } else if has_suffix(filename, ".bz2"@) {
        Some(ArchiveKind::TarBz)
    } else {
        None
    }
}

/// Recognises the archive kind by the file name's suffix; other files are
/// not ingested.
pub fn archive_kind(filename: &str) -> (r: Option<ArchiveKind>)
    ensures
        r == kind_of(filename@),
{
    if ends_with(filename, ".zip") || ends_with(filename, ".whl") || ends_with(filename, ".egg")
        || ends_with(filename, ".exe") {
        Some(ArchiveKind::Zip)
    } else if ends_with(filename, ".gz") {
        Some(ArchiveKind::TarGz)
    } else if ends_with(filename, ".bz2") {
        Some(ArchiveKind::TarBz)
    } else {
        None
    }
}

/// Where an artifact's tree is attached: `packages/<name>/<filename>`.
pub open spec fn logical_path_of(name: Seq<char>, filename: Seq<char>) -> Seq<char> {
    "packages/"@ + name + "/"@ + filename
}

/// The path under which an artifact's tree is attached.
pub fn logical_path(name: &str, filename: &str) -> (r: String)
    ensures
        r@ == logical_path_of(name@, filename@),
{
    let mut out = String::from_str("packages/");
    out.append(name);
    out.append("/");
    out.append(filename);
    out
}

/// A string as a JSON string literal, quoted and escaped.
pub uninterp spec fn json_quoted(s: Seq<char>) -> Seq<char>;

/// Relies on serde_json::to_string on a `str`, which writes the escaped,
/// quoted literal into a `Vec` and so cannot fail.
#[verifier::external_body]
fn json_string(s: &str) -> (r: String)
    ensures
        r@ == json_quoted(s@),
{
    serde_json::to_string(s).unwrap_or_default()
}

/// The commit message of an artifact: a JSON object with the fields
/// `name`, `version`, `file` and `path`, in that order.
pub open spec fn message_of(
    name: Seq<char>,
    version: Seq<char>,
    file: Seq<char>,
    path: Seq<char>,
) -> Seq<char> {
    "{\"name\":"@ + json_quoted(name) + ",\"version\":"@ + json_quoted(version) + ",\"file\":"@
        + json_quoted(file) + ",\"path\":"@ + json_quoted(path) + "}"@
}

/// Builds the machine-readable commit message of an artifact.
pub fn commit_message(name: &str, version: &str, file: &str, path: &str) -> (r: String)
    ensures
        r@ == message_of(name@, version@, file@, path@),
{
    let mut out = String::from_str("{\"name\":");
    let q = json_string(name);
    out.append(q.as_str());
    out.append(",\"version\":");
    let q = json_string(version);
    out.append(q.as_str());
    out.append(",\"file\":");
    let q = json_string(file);
    out.append(q.as_str());
    out.append(",\"path\":");
    let q = json_string(path);
    out.append(q.as_str());
    out.append("}");
    out
}

/// The string value of a top-level key of a JSON object, when the text
/// parses as JSON and the key holds a string.
pub uninterp spec fn json_field(doc: Seq<char>, key: Seq<char>) -> Option<Seq<char>>;

/// Relies on serde_json::from_str into a serde_json::Value, then
/// Value::get and Value::as_str: the string held by `key` in the parsed
/// object, `None` when the text does not parse or the key holds no string.
#[verifier::external_body]
fn json_string_field(doc: &str, key: &str) -> (r: Option<String>)
    ensures
        match r {
            Some(s) => json_field(doc@, key@) == Some(s@),
            None => json_field(doc@, key@) is None,
        },
{
    let value: serde_json::Value = serde_json::from_str(doc).ok()?;
    Some(value.get(key)?.as_str()?.to_string())
}

/// The provenance record that a commit's message carries.
pub struct CommitMessage {
    pub name: String,
    pub version: String,
    pub file: String,
    pub path: String,
}

pub type MessageView = (Seq<char>, Seq<char>, Seq<char>, Seq<char>);

impl View for CommitMessage {
    type V = MessageView;

    open spec fn view(&self) -> MessageView {
        (self.name@, self.version@, self.file@, self.path@)
    }
}

/// The record a message text holds, when all four fields are strings.
pub open spec fn decoded(text: Seq<char>) -> Option<MessageView> {
    if json_field(text, "name"@) is Some && json_field(text, "version"@) is Some && json_field(
        text,
        "file"@,
    ) is Some && json_field(text, "path"@) is Some {
        Some(
            (
                json_field(text, "name"@)->0,
                json_field(text, "version"@)->0,
                json_field(text, "file"@)->0,
                json_field(text, "path"@)->0,
            ),
        )
    } else {
        None
    }
}

/// The `name` of a decoded message.
pub open spec fn decoded_name(text: Seq<char>) -> Seq<char> {
    match decoded(text) {
        Some(m) => m.0,
        None => Seq::empty(),
    }
}

/// The `version` of a decoded message.
pub open spec fn decoded_version(text: Seq<char>) -> Seq<char> {
    match decoded(text) {
        Some(m) => m.1,
        None => Seq::empty(),
    }
}

/// The `path` of a decoded message.
pub open spec fn decoded_path(text: Seq<char>) -> Seq<char> {
    match decoded(text) {
        Some(m) => m.3,
        None => Seq::empty(),
    }
}

impl CommitMessage {
    /// The message text: a JSON object with the fields in order.
    pub fn encode(&self) -> (r: String)
        ensures
            r@ == message_of(self.name@, self.version@, self.file@, self.path@),
    {
        commit_message(self.name.as_str(), self.version.as_str(), self.file.as_str(), self.path.as_str())
    }

    /// Reads the record back from a message text.
    pub fn decode(text: &str) -> (r: Option<CommitMessage>)
        ensures
            match r {
                Some(m) => decoded(text@) == Some(m@),
                None => decoded(text@) is None,
            },
    {
        let name = json_string_field(text, "name")?;
        let version = json_string_field(text, "version")?;
        let file = json_string_field(text, "file")?;
        let path = json_string_field(text, "path")?;
        Some(CommitMessage { name, version, file, path })
    }
}

} // verus!
