//! The decisions of a partition run: when to retry a download, in which
//! order artifacts are committed and how the commits chain, and what becomes
//! of the working directory.

use vstd::prelude::*;

use crate::order::{key_lt, key_views, lemma_stable_order, ordered_by, permutes, sort_order, stable_order, SortKey};
use crate::release::{message_of, CommitMessage, DownloadJob};

verus! {

/// How many times one artifact is requested before it is skipped.
pub const MAX_ATTEMPTS: u32 = 5;

/// What one download attempt came to.
#[derive(Debug, Clone, Copy, PartialEq, Eq, Structural)]
pub enum FetchOutcome {
    /// A 2xx answer whose body was read completely.
    Complete,
    /// An answer with a status outside 2xx.
    Status(u16),
    /// The connection failed or the body could not be read.
    Transport,
}

/// What to do after a download attempt.
#[derive(Debug, Clone, Copy, PartialEq, Eq, Structural)]
pub enum FetchDecision {
    Accept,
    Skip,
    Retry,
}

/// The retry policy, after `attempts` attempts (the last one included).
pub open spec fn fetch_policy(attempts: u32, outcome: FetchOutcome) -> FetchDecision {
    match outcome {
        FetchOutcome::Complete => FetchDecision::Accept,
        FetchOutcome::Status(s) if s == 404 || s == 416 => FetchDecision::Skip,
        _ => if attempts < MAX_ATTEMPTS {
            FetchDecision::Retry
        } else {
            FetchDecision::Skip
        },
    }
}

/// Decides what follows a download attempt: a complete body is accepted, a
/// 404 or 416 skips the artifact, anything else is retried without backoff
/// until the attempts run out.
pub fn fetch_decision(attempts: u32, outcome: FetchOutcome) -> (r: FetchDecision)
    ensures
        r == fetch_policy(attempts, outcome),
{
    match outcome {
        FetchOutcome::Complete => FetchDecision::Accept,
        FetchOutcome::Status(s) if s == 404 || s == 416 => FetchDecision::Skip,
        _ => if attempts < MAX_ATTEMPTS {
            FetchDecision::Retry
        } else {
            FetchDecision::Skip
        },
    }
}

/// An artifact that produced a tree.
pub struct Extracted {
    pub job: DownloadJob,
    pub filename: String,
    pub logical_path: String,
}

pub type ExtractedView = ((Seq<char>, Seq<char>, Seq<char>, i64), Seq<char>, Seq<char>);

impl View for Extracted {
    type V = ExtractedView;

    open spec fn view(&self) -> ExtractedView {
        (self.job@, self.filename@, self.logical_path@)
    }
}

impl Clone for Extracted {
    fn clone(&self) -> (r: Extracted)
        ensures
            r@ == self@,
    {
        Extracted {
            job: self.job.clone(),
            filename: self.filename.clone(),
            logical_path: self.logical_path.clone(),
        }
    }
}

/// One commit to create: which extracted artifact, its time, its message,
/// and the commit before it in the partition.
pub struct CommitSpec {
    pub source: usize,
    pub time: i64,
    pub logical_path: String,
    pub message: String,
    pub parent: Option<usize>,
}

pub type CommitView = (int, i64, Seq<char>, Seq<char>, Option<int>);

impl View for CommitSpec {
    type V = CommitView;

    open spec fn view(&self) -> CommitView {
        (
            self.source as int,
            self.time,
            self.logical_path@,
            self.message@,
            match self.parent {
                Some(p) => Some(p as int),
                None => None,
            },
        )
    }
}

pub open spec fn extracted_views(v: Seq<Extracted>) -> Seq<ExtractedView> {
    v.map_values(|e: Extracted| e@)
}

/// Artifacts are committed by upload time alone, in arrival order among
/// equal times.
pub open spec fn time_keys(items: Seq<ExtractedView>) -> Seq<(int, Seq<Seq<char>>)> {
    items.map_values(|e: ExtractedView| (e.0.3 as int, Seq::<Seq<char>>::empty()))
}

/// The commit order: indices into the extracted artifacts.
pub open spec fn commit_order(items: Seq<ExtractedView>) -> Seq<int> {
    stable_order(time_keys(items), items.len())
}

/// The `k`-th commit of the plan.
pub open spec fn planned_commit(items: Seq<ExtractedView>, k: int) -> CommitView {
    let i = commit_order(items)[k];
    let e = items[i];
    (
        i,
        e.0.3,
        e.2,
        message_of(e.0.0, e.0.1, e.1, e.2),
        if k == 0 {
            None
        } else {
            Some(k - 1)
        },
    )
}

/// Plans the commits of a partition: sorted by upload time, each with its
/// message, each the child of the one before.
pub fn plan_commits(items: &Vec<Extracted>) -> (r: Vec<CommitSpec>)
    ensures
        r@.len() == items@.len(),
        forall|k: int| 0 <= k < r@.len() ==> (#[trigger] r@[k])@ == planned_commit(extracted_views(items@), k),
{
    let ghost s = extracted_views(items@);
    let mut keys: Vec<SortKey> = Vec::new();
    let mut k: usize = 0;
    while k < items.len()
        invariant
            s == extracted_views(items@),
            k <= items.len(),
            keys.len() == k,
            forall|i: int| 0 <= i < k ==> (#[trigger] keys@[i])@ == (s[i].0.3 as int, Seq::<Seq<char>>::empty()),
        decreases items.len() - k,
    {
        let key = SortKey { primary: items[k].job.uploaded_on, rest: Vec::new() };
        assert(key@.1 =~= Seq::<Seq<char>>::empty());
        keys.push(key);
        k = k + 1;
    }
    assert(key_views(keys@) =~= time_keys(s));
    let order = sort_order(&keys);
    proof {
        lemma_stable_order(time_keys(s), s.len());
    }
    let mut out: Vec<CommitSpec> = Vec::new();
    let mut m: usize = 0;
    while m < order.len()
        invariant
            s == extracted_views(items@),
            order@.map_values(|i: usize| i as int) == commit_order(s),
            permutes(commit_order(s), s.len()),
            m <= order.len(),
            out@.len() == m,
            forall|j: int| 0 <= j < m ==> (#[trigger] out@[j])@ == planned_commit(s, j),
        decreases order.len() - m,
    {
        let i = order[m];
        assert(commit_order(s)[m as int] == i as int);
        let e = &items[i];
        let record = CommitMessage {
            name: e.job.name.clone(),
            version: e.job.version.clone(),
            file: e.filename.clone(),
            path: e.logical_path.clone(),
        };
        let message = record.encode();
        let parent = if m == 0 {
            None
        } else {
            Some(m - 1)
        };
        let c = CommitSpec {
            source: i,
            time: e.job.uploaded_on,
            logical_path: e.logical_path.clone(),
            message,
            parent,
        };
        assert(s[i as int] == e@);
        out.push(c);
        m = m + 1;
    }
    out
}

/// Within a partition, every commit is at least as late as the one before
/// it, its parent is the commit before it, and every extracted artifact is
/// committed exactly once.
pub proof fn lemma_commit_order(items: Seq<ExtractedView>, k: int)
    requires
        0 < k < items.len(),
    ensures
        planned_commit(items, k).1 >= planned_commit(items, k - 1).1,
        planned_commit(items, k).4 == Some(k - 1),
        planned_commit(items, 0).4 is None,
        permutes(commit_order(items), items.len()),
{
    let keys = time_keys(items);
    lemma_stable_order(keys, items.len());
    let ord = commit_order(items);
    assert(!key_lt(keys[ord[k]], keys[ord[k - 1]]));
}

/// What a partition run came to.
#[derive(Debug, Clone, Copy, PartialEq, Eq, Structural)]
pub enum PackageResult {
    /// At least one commit: the working directory becomes the finished one.
    Complete,
    /// No artifact produced a commit: the working directory is removed.
    Empty,
    /// The package is on the blocklist: nothing was fetched.
    Excluded,
}

/// The outcome of a run that made `commits` commits.
pub open spec fn outcome_of(excluded: bool, commits: nat) -> PackageResult {
    if excluded {
        PackageResult::Excluded
    } else if commits > 0 {
        PackageResult::Complete
    } else {
        PackageResult::Empty
    }
}

impl PackageResult {
    /// Whether the working directory is removed rather than kept.
    pub open spec fn spec_removes_work_dir(self) -> bool {
        !(self is Complete)
    }

    /// Classifies a finished run.
    pub fn from_run(excluded: bool, commits: usize) -> (r: PackageResult)
        ensures
            r == outcome_of(excluded, commits as nat),
    {
        if excluded {
            PackageResult::Excluded
        } else if commits > 0 {
            PackageResult::Complete
        } else {
            PackageResult::Empty
        }
    }

    /// Whether the working directory is removed: only a run with commits
    /// keeps it, renamed to its finished place.
    pub fn removes_work_dir(&self) -> (r: bool)
        ensures
            r == self.spec_removes_work_dir(),
    {
        !matches!(self, PackageResult::Complete)
    }
}

/// Keeps the artifacts that produced a tree, in order.
pub open spec fn produced(results: Seq<Option<ExtractedView>>) -> Seq<ExtractedView>
    decreases results.len(),
{
    if results.len() == 0 {
        Seq::empty()
    } else {
        match results.last() {
            Some(e) => produced(results.drop_last()).push(e),
            None => produced(results.drop_last()),
        }
    }
}

pub open spec fn result_views(v: Seq<Option<Extracted>>) -> Seq<Option<ExtractedView>> {
    v.map_values(
        |o: Option<Extracted>|
            match o {
                Some(e) => Some(e@),
                None => None,
            },
    )
}

/// Collects the artifacts that produced a tree.
pub fn collect_produced(results: &Vec<Option<Extracted>>) -> (r: Vec<Extracted>)
    ensures
        extracted_views(r@) == produced(result_views(results@)),
{
    let ghost s = result_views(results@);
    let mut out: Vec<Extracted> = Vec::new();
    let mut k: usize = 0;
    proof {
        assert(s.take(0) == Seq::<Option<ExtractedView>>::empty());
        assert(extracted_views(out@) == Seq::<ExtractedView>::empty());
    }
    while k < results.len()
        invariant
            s == result_views(results@),
            k <= results.len(),
            extracted_views(out@) == produced(s.take(k as int)),
        decreases results.len() - k,
    {
        proof {
            assert(s.take(k + 1).drop_last() == s.take(k as int));
            assert(s.take(k + 1).last() == s[k as int]);
        }
        match &results[k] {
            Some(e) => {
                let c = e.clone();
                proof {
                    assert(extracted_views(out@.push(c)) == extracted_views(out@).push(c@));
                }
                out.push(c);
            },
            None => {},
        }
        k = k + 1;
    }
    assert(s.take(k as int) == s);
    out
}

/// When no artifact of a partition produces a tree, no commit is planned
/// and the working directory is removed.
pub proof fn lemma_zero_commit_partition(results: Seq<Option<ExtractedView>>)
    requires
        forall|i: int| 0 <= i < results.len() ==> (#[trigger] results[i]) is None,
    ensures
        produced(results).len() == 0,
        commit_order(produced(results)).len() == 0,
        outcome_of(false, produced(results).len()) == PackageResult::Empty,
        outcome_of(false, produced(results).len()).spec_removes_work_dir(),
    decreases results.len(),
{
    if results.len() > 0 {
        let init = results.drop_last();
        assert forall|i: int| 0 <= i < init.len() implies (#[trigger] init[i]) is None by {
            assert(init[i] == results[i]);
        }
        lemma_zero_commit_partition(init);
        assert(results.last() == results[results.len() - 1]);
    }
    lemma_stable_order(time_keys(produced(results)), 0);
}

} // verus!
