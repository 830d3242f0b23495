//! The merger: commits of many partition repositories, ordered globally by
//! time, become one linear fast-import stream.

use vstd::prelude::*;

use crate::order::{key_lt, key_views, lemma_stable_order, permutes, sort_order, stable_order, SortKey};
use crate::release::{decoded, decoded_name, decoded_path, decoded_version, CommitMessage};
use crate::text::{append_decimal, append_signed, decimal, signed_decimal, split_segments, split_slash, utf8_len};

verus! {

/// What the merger reads of a commit: its id and tree id (hex), its time,
/// its author, and its message.
pub struct CommitHeader {
    pub oid: String,
    pub time: i64,
    pub author_name: String,
    pub author_email: String,
    pub tree: String,
    pub message: String,
}

pub type HeaderView = (Seq<char>, i64, Seq<char>, Seq<char>, Seq<char>, Seq<char>);

impl View for CommitHeader {
    type V = HeaderView;

    open spec fn view(&self) -> HeaderView {
        (self.oid@, self.time, self.author_name@, self.author_email@, self.tree@, self.message@)
    }
}

pub open spec fn header_views(v: Seq<CommitHeader>) -> Seq<HeaderView> {
    v.map_values(|h: CommitHeader| h@)
}

/// One commit of the import branch.
pub struct ImportRecord {
    pub mark: u64,
    pub from: Option<u64>,
    pub time: i64,
    pub author_name: String,
    pub author_email: String,
    pub tree: String,
    pub path: String,
    pub message: String,
    pub name: String,
    pub version: String,
}

pub type RecordView = (
    nat,
    Option<nat>,
    i64,
    Seq<char>,
    Seq<char>,
    Seq<char>,
    Seq<char>,
    Seq<char>,
    Seq<char>,
    Seq<char>,
);

impl View for ImportRecord {
    type V = RecordView;

    open spec fn view(&self) -> RecordView {
        (
            self.mark as nat,
            match self.from {
                Some(m) => Some(m as nat),
                None => None,
            },
            self.time,
            self.author_name@,
            self.author_email@,
            self.tree@,
            self.path@,
            self.message@,
            self.name@,
            self.version@,
        )
    }
}

pub open spec fn record_views(v: Seq<ImportRecord>) -> Seq<RecordView> {
    v.map_values(|r: ImportRecord| r@)
}

/// Why a merge stops.
#[derive(Debug, Clone, Copy, PartialEq, Eq, Structural)]
pub enum MergeError {
    /// A commit message lacks the `name`, `version`, `file` or `path` string.
    UnreadableMessage,
    /// A message's path is not of the shape `packages/<package>/<file>`.
    MalformedPath,
}

/// Commits are ordered by time, then by id.
pub open spec fn header_keys(hs: Seq<HeaderView>) -> Seq<(int, Seq<Seq<char>>)> {
    hs.map_values(|h: HeaderView| (h.1 as int, seq![h.0]))
}

pub open spec fn import_order(hs: Seq<HeaderView>) -> Seq<int> {
    stable_order(header_keys(hs), hs.len())
}

/// A path of exactly three segments.
pub open spec fn well_shaped(p: Seq<char>) -> bool {
    split_slash(p).len() == 3
}

/// The two-level path `<package>/<file>` that a commit's tree is attached at.
pub open spec fn short_path(p: Seq<char>) -> Seq<char> {
    split_slash(p)[1] + seq!['/'] + split_slash(p)[2]
}

/// The error a header gives, if any.
pub open spec fn header_error(h: HeaderView) -> Option<MergeError> {
    if decoded(h.5) is None {
        Some(MergeError::UnreadableMessage)
    } else if !well_shaped(decoded_path(h.5)) {
        Some(MergeError::MalformedPath)
    } else {
        None
    }
}

/// The `k`-th import commit.
pub open spec fn planned_record(hs: Seq<HeaderView>, k: int) -> RecordView {
    let h = hs[import_order(hs)[k]];
    (
        (k + 1) as nat,
        if k == 0 {
            None
        } else {
            Some(k as nat)
        },
        h.1,
        h.2,
        h.3,
        h.4,
        short_path(decoded_path(h.5)),
        h.5,
        decoded_name(h.5),
        decoded_version(h.5),
    )
}

/// The first error in import order, if any.
pub open spec fn first_error(hs: Seq<HeaderView>, k: int) -> bool {
    0 <= k < hs.len() && header_error(hs[import_order(hs)[k]]) is Some && forall|j: int|
        0 <= j < k ==> header_error(#[trigger] hs[import_order(hs)[j]]) is None
}

fn record_of(h: &CommitHeader, k: usize) -> (r: Result<ImportRecord, MergeError>)
    requires
        k < u64::MAX,
    ensures
        match r {
            Ok(rec) => header_error(h@) is None && rec@.0 == k + 1 && rec@.1 == (if k == 0 {
                None
            } else {
                Some(k as nat)
            }) && rec@.2 == h@.1 && rec@.3 == h@.2 && rec@.4 == h@.3 && rec@.5 == h@.4 && rec@.6
                == short_path(decoded_path(h@.5)) && rec@.7 == h@.5 && rec@.8 == decoded_name(h@.5)
                && rec@.9 == decoded_version(h@.5),
            Err(e) => header_error(h@) == Some(e),
        },
{
    let message = match CommitMessage::decode(h.message.as_str()) {
        Some(m) => m,
        None => {
            return Err(MergeError::UnreadableMessage);
        },
    };
    let full = message.path;
    let name = message.name;
    let version = message.version;
    let segs = split_segments(full.as_str());
    if segs.len() != 3 {
        return Err(MergeError::MalformedPath);
    }
    proof {
        assert(segs@.map_values(|x: String| x@)[1] == segs@[1]@);
        assert(segs@.map_values(|x: String| x@)[2] == segs@[2]@);
        reveal_strlit("/");
    }
    let mut path = segs[1].clone();
    path.append("/");
    path.append(segs[2].as_str());
    let from = if k == 0 {
        None
    } else {
        Some(k as u64)
    };
    Ok(
        ImportRecord {
            mark: k as u64 + 1,
            from,
            time: h.time,
            author_name: h.author_name.clone(),
            author_email: h.author_email.clone(),
            tree: h.tree.clone(),
            path,
            message: h.message.clone(),
            name,
            version,
        },
    )
}

/// Orders the commits of all partitions by time (ties by id) and numbers
/// them: marks 1, 2, ..., each commit following the one before. Fails on
/// the first commit, in that order, whose message cannot be read.
pub fn plan_import(headers: &Vec<CommitHeader>) -> (r: Result<Vec<ImportRecord>, MergeError>)
    requires
        headers@.len() < u64::MAX,
    ensures
        match r {
            Ok(recs) => recs@.len() == headers@.len() && forall|k: int|
                0 <= k < recs@.len() ==> (#[trigger] recs@[k])@ == planned_record(
                    header_views(headers@),
                    k,
                ) && header_error(header_views(headers@)[import_order(header_views(headers@))[k]]) is None,
            Err(e) => exists|k: int|
                first_error(header_views(headers@), k) && header_error(
                    header_views(headers@)[import_order(header_views(headers@))[k]],
                ) == Some(e),
        },
{
    let ghost s = header_views(headers@);
    let mut keys: Vec<SortKey> = Vec::new();
    let mut k: usize = 0;
    while k < headers.len()
        invariant
            s == header_views(headers@),
            k <= headers.len(),
            keys.len() == k,
            forall|i: int| 0 <= i < k ==> (#[trigger] keys@[i])@ == (s[i].1 as int, seq![s[i].0]),
        decreases headers.len() - k,
    {
        let h = &headers[k];
        let key = SortKey { primary: h.time, rest: vec![h.oid.clone()] };
        assert(key@.1 =~= seq![h.oid@]);
        keys.push(key);
        k = k + 1;
    }
    assert(key_views(keys@) =~= header_keys(s));
    let order = sort_order(&keys);
    proof {
        lemma_stable_order(header_keys(s), s.len());
    }
    let mut out: Vec<ImportRecord> = Vec::new();
    let mut m: usize = 0;
    while m < order.len()
        invariant
            s == header_views(headers@),
            s.len() < u64::MAX,
            order@.map_values(|i: usize| i as int) == import_order(s),
            permutes(import_order(s), s.len()),
            m <= order.len(),
            out@.len() == m,
            forall|j: int|
                0 <= j < m ==> (#[trigger] out@[j])@ == planned_record(s, j) && header_error(
                    s[import_order(s)[j]],
                ) is None,
        decreases order.len() - m,
    {
        let i = order[m];
        assert(import_order(s)[m as int] == i as int);
        assert(s[i as int] == headers@[i as int]@);
        match record_of(&headers[i], m) {
            Ok(rec) => {
                out.push(rec);
            },
            Err(e) => {
                assert forall|j: int| 0 <= j < m implies header_error(
                    #[trigger] s[import_order(s)[j]],
                ) is None by {
                    assert(out@[j]@ == planned_record(s, j));
                }
                assert(first_error(s, m as int));
                return Err(e);
            },
        }
        m = m + 1;
    }
    Ok(out)
}

/// The import branch is linear and chronological: marks count up from 1,
/// each commit after the first names the mark just before its own, and the
/// times never decrease.
pub proof fn lemma_import_monotone(hs: Seq<HeaderView>, k: int)
    requires
        0 < k < hs.len(),
    ensures
        planned_record(hs, 0).0 == 1,
        planned_record(hs, 0).1 is None,
        planned_record(hs, k).0 == planned_record(hs, k - 1).0 + 1,
        planned_record(hs, k).1 == Some(planned_record(hs, k - 1).0),
        planned_record(hs, k).2 >= planned_record(hs, k - 1).2,
        permutes(import_order(hs), hs.len()),
{
    let keys = header_keys(hs);
    lemma_stable_order(keys, hs.len());
    let ord = import_order(hs);
    assert(!key_lt(keys[ord[k]], keys[ord[k - 1]]));
}

/// The text of one import commit.
pub open spec fn record_text(r: RecordView) -> Seq<char> {
    "commit refs/heads/import\nmark :"@ + decimal(r.0) + "\nauthor "@ + r.3 + " <"@ + r.4 + "> "@
        + signed_decimal(r.2 as int) + " +0000\ncommitter "@ + r.3 + " <"@ + r.4 + "> "@
        + signed_decimal(r.2 as int) + " +0000\ndata "@ + decimal(utf8_len(r.7)) + "\n"@ + r.7
        + "\n"@ + match r.1 {
        Some(m) => "from :"@ + decimal(m) + "\n"@,
        None => Seq::<char>::empty(),
    } + "M 040000 "@ + r.5 + " "@ + r.6 + "\n\n"@
}

/// A progress line after every ten thousandth commit.
pub open spec fn progress_text(mark: nat, total: nat) -> Seq<char> {
    if mark % 10000 == 0 {
        "progress "@ + decimal(mark) + "/"@ + decimal(total) + "\n\n"@
    } else {
        Seq::<char>::empty()
    }
}

/// Renders one import commit, followed by a progress line where one is due.
pub fn render_record(rec: &ImportRecord, total: u64) -> (r: String)
    ensures
        r@ == record_text(rec@) + progress_text(rec@.0, total as nat),
{
    let mut out = String::from_str("commit refs/heads/import\nmark :");
    append_decimal(&mut out, rec.mark);
    out.append("\nauthor ");
    out.append(rec.author_name.as_str());
    out.append(" <");
    out.append(rec.author_email.as_str());
    out.append("> ");
    append_signed(&mut out, rec.time);
    out.append(" +0000\ncommitter ");
    out.append(rec.author_name.as_str());
    out.append(" <");
    out.append(rec.author_email.as_str());
    out.append("> ");
    append_signed(&mut out, rec.time);
    out.append(" +0000\ndata ");
    append_decimal(&mut out, rec.message.as_str().as_bytes().len() as u64);
    out.append("\n");
    out.append(rec.message.as_str());
    out.append("\n");
    let ghost r = rec@;
    assert(out@ =~= "commit refs/heads/import\nmark :"@ + decimal(r.0) + "\nauthor "@ + r.3 + " <"@
        + r.4 + "> "@ + signed_decimal(r.2 as int) + " +0000\ncommitter "@ + r.3 + " <"@ + r.4
        + "> "@ + signed_decimal(r.2 as int) + " +0000\ndata "@ + decimal(utf8_len(r.7)) + "\n"@
        + r.7 + "\n"@);
    let ghost head = out@;
    let mut from_part = String::new();
    match rec.from {
        Some(m) => {
            from_part.append("from :");
            append_decimal(&mut from_part, m);
            from_part.append("\n");
        },
        None => {},
    }
    assert(from_part@ =~= match r.1 {
        Some(m) => "from :"@ + decimal(m) + "\n"@,
        None => Seq::<char>::empty(),
    });
    out.append(from_part.as_str());
    let mut tail = String::from_str("M 040000 ");
    tail.append(rec.tree.as_str());
    tail.append(" ");
    tail.append(rec.path.as_str());
    tail.append("\n\n");
    out.append(tail.as_str());
    assert(out@ =~= record_text(r));
    let mut progress = String::new();
    if rec.mark % 10000 == 0 {
        progress.append("progress ");
        append_decimal(&mut progress, rec.mark);
        progress.append("/");
        append_decimal(&mut progress, total);
        progress.append("\n\n");
    }
    assert(progress@ =~= progress_text(r.0, total as nat));
    out.append(progress.as_str());
    out
}

/// The import section of the stream.
pub open spec fn import_text(recs: Seq<RecordView>, total: nat) -> Seq<char>
    decreases recs.len(),
{
    if recs.len() == 0 {
        "reset refs/heads/import\n"@
    } else {
        import_text(recs.drop_last(), total) + record_text(recs.last()) + progress_text(
            recs.last().0,
            total,
        )
    }
}

/// Renders the import branch: a reset, then every commit in order.
pub fn render_import(recs: &Vec<ImportRecord>) -> (r: String)
    ensures
        r@ == import_text(record_views(recs@), recs@.len()),
{
    let ghost s = record_views(recs@);
    let total = recs.len() as u64;
    let mut out = String::from_str("reset refs/heads/import\n");
    let mut k: usize = 0;
    assert(s.take(0) == Seq::<RecordView>::empty());
    while k < recs.len()
        invariant
            s == record_views(recs@),
            total == recs@.len(),
            k <= recs.len(),
            out@ == import_text(s.take(k as int), total as nat),
        decreases recs.len() - k,
    {
        let piece = render_record(&recs[k], total);
        proof {
            assert(s.take(k + 1).drop_last() == s.take(k as int));
            assert(s.take(k + 1).last() == recs@[k as int]@);
        }
        out.append(piece.as_str());
        k = k + 1;
    }
    assert(s.take(k as int) == s);
    out
}

/// The UTC calendar date of a Unix time, written `YYYY-MM-DD`, for a time
/// within the range of calendar dates that can be represented.
pub uninterp spec fn utc_date(ts: i64) -> Option<Seq<char>>;

/// Relies on chrono::DateTime::from_timestamp, which is `None` out of its
/// range, and on the `Display` of chrono::NaiveDate (`YYYY-MM-DD`).
#[verifier::external_body]
pub(crate) fn date_of(ts: i64) -> (r: Option<String>)
    ensures
        match r {
            Some(d) => utc_date(ts) == Some(d@),
            None => utc_date(ts) is None,
        },
{
    Some(chrono::DateTime::from_timestamp(ts, 0)?.date_naive().to_string())
}

/// The calendar date of a release time, as the summary page shows it.
pub fn release_date(ts: i64) -> (r: Option<String>)
    ensures
        match r {
            Some(d) => utc_date(ts) == Some(d@),
            None => utc_date(ts) is None,
        },
{
    date_of(ts)
}

/// The message of the final commit: the date range it covers.
pub open spec fn range_message(first: Seq<char>, last: Seq<char>) -> Seq<char> {
    "Import from "@ + first + " to "@ + last
}

/// The end of the stream: the `main` branch with the summary page and the
/// index as blobs (marks after the last import mark), one commit holding
/// them, and `done`.
pub open spec fn tail_text(
    last_mark: nat,
    readme: Seq<char>,
    index_json: Seq<char>,
    author_name: Seq<char>,
    author_email: Seq<char>,
    latest: i64,
    message: Seq<char>,
) -> Seq<char> {
    "reset refs/heads/main\n"@ + blob_text(last_mark + 1, readme) + blob_text(last_mark + 2, index_json)
        + "commit refs/heads/main\n"@ + person_text("author "@, author_name, author_email, latest)
        + person_text("committer "@, author_name, author_email, latest) + "data "@ + decimal(
        utf8_len(message),
    ) + "\n"@ + message + "\nM 100644 :"@ + decimal(last_mark + 1) + " README.md\nM 100644 :"@
        + decimal(last_mark + 2) + " index.json\n\ndone\n"@
}

/// A blob record of the stream.
pub open spec fn blob_text(mark: nat, content: Seq<char>) -> Seq<char> {
    "blob\nmark :"@ + decimal(mark) + "\ndata "@ + decimal(utf8_len(content)) + "\n"@ + content
        + "\n"@
}

/// An author or committer line of the stream.
pub open spec fn person_text(
    role: Seq<char>,
    name: Seq<char>,
    email: Seq<char>,
    time: i64,
) -> Seq<char> {
    role + name + " <"@ + email + "> "@ + signed_decimal(time as int) + " +0000\n"@
}

fn append_blob(out: &mut String, mark: u64, content: &str)
    ensures
        final(out)@ == old(out)@ + blob_text(mark as nat, content@),
{
    let mut b = String::from_str("blob\nmark :");
    append_decimal(&mut b, mark);
    b.append("\ndata ");
    append_decimal(&mut b, content.as_bytes().len() as u64);
    b.append("\n");
    b.append(content);
    b.append("\n");
    assert(b@ =~= blob_text(mark as nat, content@));
    out.append(b.as_str());
}

fn append_person(out: &mut String, role: &str, name: &str, email: &str, time: i64)
    ensures
        final(out)@ == old(out)@ + person_text(role@, name@, email@, time),
{
    let mut p = String::from_str(role);
    p.append(name);
    p.append(" <");
    p.append(email);
    p.append("> ");
    append_signed(&mut p, time);
    p.append(" +0000\n");
    assert(p@ =~= person_text(role@, name@, email@, time));
    out.append(p.as_str());
}

/// Why the end of the stream cannot be written.
#[derive(Debug, Clone, Copy, PartialEq, Eq, Structural)]
pub enum TailError {
    /// A release time has no calendar date.
    DateOutOfRange,
}

/// Renders the end of the stream after the import commit with mark
/// `last_mark`; the final commit is dated at the latest release.
pub fn render_tail(
    last_mark: u64,
    readme: &str,
    index_json: &str,
    author_name: &str,
    author_email: &str,
    earliest: i64,
    latest: i64,
) -> (r: Result<String, TailError>)
    requires
        last_mark + 2 <= u64::MAX,
    ensures
        match r {
            Ok(t) => utc_date(earliest) is Some && utc_date(latest) is Some && t@ == tail_text(
                last_mark as nat,
                readme@,
                index_json@,
                author_name@,
                author_email@,
                latest,
                range_message(utc_date(earliest)->0, utc_date(latest)->0),
            ),
            Err(_) => utc_date(earliest) is None || utc_date(latest) is None,
        },
{
    let first = match date_of(earliest) {
        Some(d) => d,
        None => {
            return Err(TailError::DateOutOfRange);
        },
    };
    let last = match date_of(latest) {
        Some(d) => d,
        None => {
            return Err(TailError::DateOutOfRange);
        },
    };
    let mut message = String::from_str("Import from ");
    message.append(first.as_str());
    message.append(" to ");
    message.append(last.as_str());
    let mut out = String::from_str("reset refs/heads/main\n");
    append_blob(&mut out, last_mark + 1, readme);
    append_blob(&mut out, last_mark + 2, index_json);
    let mut commit = String::from_str("commit refs/heads/main\n");
    append_person(&mut commit, "author ", author_name, author_email, latest);
    append_person(&mut commit, "committer ", author_name, author_email, latest);
    commit.append("data ");
    append_decimal(&mut commit, message.as_str().as_bytes().len() as u64);
    commit.append("\n");
    commit.append(message.as_str());
    commit.append("\nM 100644 :");
    append_decimal(&mut commit, last_mark + 1);
    commit.append(" README.md\nM 100644 :");
    append_decimal(&mut commit, last_mark + 2);
    commit.append(" index.json\n\ndone\n");
    out.append(commit.as_str());
    assert(out@ =~= tail_text(
        last_mark as nat,
        readme@,
        index_json@,
        author_name@,
        author_email@,
        latest,
        message@,
    ));
    Ok(out)
}

} // verus!
