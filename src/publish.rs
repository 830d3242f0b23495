//! Publishing a merged repository: the request that creates its remote,
//! the answers of the hosting service, and a tally of its objects.

use vstd::prelude::*;

use crate::merge::{date_of, utc_date};
use crate::release::{last_path_segment, url_file_name};
use crate::text::{append_decimal, decimal};

verus! {

/// The request that creates a public repository.
pub struct NewRepo {
    pub name: String,
    pub description: String,
    pub private: bool,
}

/// What the service answers about a repository.
pub struct CreatedRepo {
    pub ssh_url: String,
}

/// The description of a repository covering the given dates.
pub open spec fn repo_description(first: Seq<char>, last: Seq<char>) -> Seq<char> {
    "PyPi code from "@ + first + " to "@ + last
}

impl NewRepo {
    /// The request for the repository whose index names `url`: named after
    /// the last segment of the URL's path, described by the release dates.
    pub fn for_index(url: &str, earliest: i64, latest: i64) -> (r: Option<NewRepo>)
        ensures
            match r {
                Some(n) => url_file_name(url@) == Some(n.name@) && utc_date(earliest) is Some
                    && utc_date(latest) is Some && n.description@ == repo_description(
                    utc_date(earliest)->0,
                    utc_date(latest)->0,
                ) && !n.private,
                None => url_file_name(url@) is None || utc_date(earliest) is None || utc_date(
                    latest,
                ) is None,
            },
    {
        let name = last_path_segment(url)?;
        let first = date_of(earliest)?;
        let last = date_of(latest)?;
        let mut description = String::from_str("PyPi code from ");
        description.append(first.as_str());
        description.append(" to ");
        description.append(last.as_str());
        Some(NewRepo { name, description, private: false })
    }
}

/// The failures of a call to the hosting service.
#[derive(Debug, PartialEq, Eq)]
pub enum APIError {
    AlreadyExists,
    DoesNotExist,
    DecodeError(String),
    Status(u16, String),
    Other(String),
}

pub open spec fn error_view(e: APIError) -> (int, Seq<char>, int) {
    match e {
        APIError::AlreadyExists => (0, Seq::empty(), 0),
        APIError::DoesNotExist => (1, Seq::empty(), 0),
        APIError::DecodeError(t) => (2, t@, 0),
        APIError::Status(s, t) => (3, t@, s as int),
        APIError::Other(t) => (4, t@, 0),
    }
}

impl APIError {
    /// A repository lookup answered with a status outside 2xx: 404 means
    /// the repository does not exist.
    pub fn from_lookup_status(status: u16) -> (r: APIError)
        ensures
            status == 404 ==> r == APIError::DoesNotExist,
            status != 404 ==> error_view(r) == (4int, "unexpected status "@ + decimal(status as nat), 0int),
    {
        if status == 404 {
            APIError::DoesNotExist
        } else {
            let mut t = String::from_str("unexpected status ");
            append_decimal(&mut t, status as u64);
            APIError::Other(t)
        }
    }

    /// A creation request answered with a status outside 2xx: 422 means the
    /// repository exists already; any other status is kept with the body.
    pub fn from_create_status(status: u16, body: String) -> (r: APIError)
        ensures
            status == 422 ==> r == APIError::AlreadyExists,
            status != 422 ==> error_view(r) == (3int, body@, status as int),
    {
        if status == 422 {
            APIError::AlreadyExists
        } else {
            APIError::Status(status, body)
        }
    }

    /// A readable description of the error.
    pub fn describe(&self) -> (r: String)
        ensures
            self is AlreadyExists ==> r@ == "Repo already exists"@,
            self is DoesNotExist ==> r@ == "Repo does not exist"@,
            self matches APIError::DecodeError(t) ==> r@ == "Decode Error: "@ + t@,
            self matches APIError::Status(s, t) ==> r@ == "Status: "@ + decimal(s as nat) + ": "@ + t@,
            self matches APIError::Other(t) ==> r@ == "Error: "@ + t@,
    {
        match self {
            APIError::AlreadyExists => String::from_str("Repo already exists"),
            APIError::DoesNotExist => String::from_str("Repo does not exist"),
            APIError::DecodeError(t) => {
                let mut r = String::from_str("Decode Error: ");
                r.append(t.as_str());
                r
            },
            APIError::Status(s, t) => {
                let mut r = String::from_str("Status: ");
                append_decimal(&mut r, *s as u64);
                r.append(": ");
                r.append(t.as_str());
                r
            },
            APIError::Other(t) => {
                let mut r = String::from_str("Error: ");
                r.append(t.as_str());
                r
            },
        }
    }
}

/// An object of a repository as the tally sees it.
#[derive(Debug, Clone, Copy, PartialEq, Eq, Structural)]
pub enum ObjectInfo {
    Blob(u64),
    Commit,
    Other,
}

/// Counts of a repository's objects.
pub struct RepoStatistics {
    pub unique_blobs: usize,
    pub total_size: u64,
    pub commits: usize,
    pub path: String,
}

pub open spec fn blob_count(s: Seq<ObjectInfo>) -> nat
    decreases s.len(),
{
    if s.len() == 0 {
        0
    } else {
        blob_count(s.drop_last()) + if s.last() is Blob {
            1nat
        } else {
            0nat
        }
    }
}

pub open spec fn commit_count(s: Seq<ObjectInfo>) -> nat
    decreases s.len(),
{
    if s.len() == 0 {
        0
    } else {
        commit_count(s.drop_last()) + if s.last() is Commit {
            1nat
        } else {
            0nat
        }
    }
}

pub open spec fn blob_bytes(s: Seq<ObjectInfo>) -> nat
    decreases s.len(),
{
    if s.len() == 0 {
        0
    } else {
        blob_bytes(s.drop_last()) + match s.last() {
            ObjectInfo::Blob(n) => n as nat,
            _ => 0nat,
        }
    }
}

proof fn lemma_counts_bounded(s: Seq<ObjectInfo>)
    ensures
        blob_count(s) <= s.len(),
        commit_count(s) <= s.len(),
    decreases s.len(),
{
    if s.len() > 0 {
        lemma_counts_bounded(s.drop_last());
    }
}

impl RepoStatistics {
    /// Tallies the objects of the repository at `path`: how many blobs,
    /// their total size (saturating), and how many commits.
    pub fn tally(objects: &Vec<ObjectInfo>, path: String) -> (r: RepoStatistics)
        ensures
            r.unique_blobs == blob_count(objects@),
            r.commits == commit_count(objects@),
            r.total_size == if blob_bytes(objects@) <= u64::MAX {
                blob_bytes(objects@)
            } else {
                u64::MAX as nat
            },
            r.path@ == path@,
    {
        let mut blobs: usize = 0;
        let mut commits: usize = 0;
        let mut size: u64 = 0;
        let mut k: usize = 0;
        while k < objects.len()
            invariant
                k <= objects.len(),
                blobs == blob_count(objects@.take(k as int)),
                commits == commit_count(objects@.take(k as int)),
                size == if blob_bytes(objects@.take(k as int)) <= u64::MAX {
                    blob_bytes(objects@.take(k as int))
                } else {
                    u64::MAX as nat
                },
            decreases objects.len() - k,
        {
            let ghost t = objects@.take(k + 1);
            proof {
                assert(t.drop_last() == objects@.take(k as int));
                assert(t.last() == objects@[k as int]);
                lemma_counts_bounded(objects@.take(k as int));
            }
            match objects[k] {
                ObjectInfo::Blob(n) => {
                    blobs = blobs + 1;
                    size = size.saturating_add(n);
                },
                ObjectInfo::Commit => {
                    commits = commits + 1;
                },
                ObjectInfo::Other => {},
            }
            k = k + 1;
        }
        assert(objects@.take(k as int) == objects@);
        RepoStatistics { unique_blobs: blobs, total_size: size, commits, path }
    }
}

} // verus!
