use pypi_code::index::summarize;
use pypi_code::merge::{plan_import, release_date, render_import, render_record, render_tail, CommitHeader, MergeError};
use pypi_code::partition::{parse_find_list, partition, select_chunks};
use pypi_code::publish::{APIError, NewRepo};
use pypi_code::release::{commit_message, CommitMessage, DownloadJob};
use pypi_code::runner::{collect_produced, fetch_decision, plan_commits, Extracted, FetchDecision, FetchOutcome};
use pypi_code::{package_name_to_path, PackageResult};

fn job(name: &str, version: &str, t: i64) -> DownloadJob {
    DownloadJob {
        name: name.to_string(),
        version: version.to_string(),
        url: format!("https://files.example.org/p/{name}-{version}.tar.gz"),
        uploaded_on: t,
    }
}

fn header(oid: &str, t: i64, name: &str, file: &str) -> CommitHeader {
    let path = format!("packages/{name}/{file}");
    CommitHeader {
        oid: oid.to_string(),
        time: t,
        author_name: "Importer".to_string(),
        author_email: "import@example.org".to_string(),
        tree: format!("tree{t}"),
        message: commit_message(name, "1.0", file, &path),
    }
}

#[test]
fn partition_sorts_and_chunks() {
    let jobs = vec![job("b", "1", 300), job("z", "1", 100), job("a", "2", 100), job("tf-nightly", "1", 50)];
    let shards = partition(&jobs, 2);
    assert_eq!(shards.len(), 2);
    let names: Vec<Vec<&str>> =
        shards.iter().map(|c| c.iter().map(|j| j.name.as_str()).collect()).collect();
    assert_eq!(names, vec![vec!["a", "z"], vec!["b"]]);
}

#[test]
fn partition_is_deterministic() {
    let jobs = vec![job("b", "1", 5), job("a", "1", 5), job("a", "0", 5), job("c", "1", 1)];
    let first = partition(&jobs, 3);
    let second = partition(&jobs, 3);
    let key = |s: &Vec<Vec<DownloadJob>>| -> Vec<Vec<(String, String, i64)>> {
        s.iter().map(|c| c.iter().map(|j| (j.name.clone(), j.version.clone(), j.uploaded_on)).collect()).collect()
    };
    assert_eq!(key(&first), key(&second));
    assert_eq!(
        key(&first)[0],
        vec![("c".to_string(), "1".to_string(), 1), ("a".to_string(), "0".to_string(), 5), ("a".to_string(), "1".to_string(), 5)]
    );
}

#[test]
fn partition_of_nothing() {
    assert!(partition(&Vec::new(), 5).is_empty());
}

#[test]
fn shard_limit() {
    let jobs = vec![job("a", "1", 1), job("b", "1", 2), job("c", "1", 3)];
    let shards = partition(&jobs, 1);
    assert_eq!(select_chunks(partition(&jobs, 1), None).len(), 3);
    let kept = select_chunks(shards, Some(1));
    assert_eq!(kept.len(), 1);
    assert_eq!(kept[0][0].name, "b");
    assert!(select_chunks(Vec::new(), Some(3)).is_empty());
}

#[test]
fn find_list_words() {
    let args = vec!["numpy requests\n# comment\n\tflask ".to_string(), "#x six".to_string()];
    assert_eq!(parse_find_list(&args), vec!["numpy", "requests", "comment", "flask", "six"]);
}

#[test]
fn fetch_retry_policy() {
    assert_eq!(fetch_decision(1, FetchOutcome::Complete), FetchDecision::Accept);
    assert_eq!(fetch_decision(1, FetchOutcome::Status(404)), FetchDecision::Skip);
    assert_eq!(fetch_decision(1, FetchOutcome::Status(416)), FetchDecision::Skip);
    assert_eq!(fetch_decision(1, FetchOutcome::Status(503)), FetchDecision::Retry);
    assert_eq!(fetch_decision(4, FetchOutcome::Transport), FetchDecision::Retry);
    assert_eq!(fetch_decision(5, FetchOutcome::Status(500)), FetchDecision::Skip);
}

#[test]
fn commits_follow_upload_time() {
    let items = vec![
        Extracted { job: job("b", "1", 300), filename: "b-1.tar.gz".to_string(), logical_path: "packages/b/b-1.tar.gz".to_string() },
        Extracted { job: job("a", "1", 100), filename: "a-1.tar.gz".to_string(), logical_path: "packages/a/a-1.tar.gz".to_string() },
        Extracted { job: job("c", "1", 300), filename: "c-1.tar.gz".to_string(), logical_path: "packages/c/c-1.tar.gz".to_string() },
    ];
    let plan = plan_commits(&items);
    assert_eq!(plan.iter().map(|c| c.source).collect::<Vec<_>>(), vec![1, 0, 2]);
    assert_eq!(plan.iter().map(|c| c.time).collect::<Vec<_>>(), vec![100, 300, 300]);
    assert_eq!(plan.iter().map(|c| c.parent).collect::<Vec<_>>(), vec![None, Some(0), Some(1)]);
    assert_eq!(plan[0].message, commit_message("a", "1", "a-1.tar.gz", "packages/a/a-1.tar.gz"));
}

#[test]
fn zero_commit_partition() {
    let results: Vec<Option<Extracted>> = vec![None, None];
    let produced = collect_produced(&results);
    assert!(produced.is_empty());
    assert!(plan_commits(&produced).is_empty());
    let outcome = PackageResult::from_run(false, 0);
    assert_eq!(outcome, PackageResult::Empty);
    assert!(outcome.removes_work_dir());
    assert!(!PackageResult::from_run(false, 3).removes_work_dir());
    assert_eq!(PackageResult::from_run(true, 0), PackageResult::Excluded);
}

#[test]
fn cross_partition_merge_ordering() {
    let headers = vec![
        header("aa", 100, "alpha", "alpha-1.tar.gz"),
        header("ab", 300, "alpha", "alpha-2.tar.gz"),
        header("ba", 200, "beta", "beta-1.tar.gz"),
        header("bb", 400, "beta", "beta-2.tar.gz"),
    ];
    let records = plan_import(&headers).unwrap();
    assert_eq!(records.iter().map(|r| r.time).collect::<Vec<_>>(), vec![100, 200, 300, 400]);
    assert_eq!(records.iter().map(|r| r.mark).collect::<Vec<_>>(), vec![1, 2, 3, 4]);
    assert_eq!(records.iter().map(|r| r.from).collect::<Vec<_>>(), vec![None, Some(1), Some(2), Some(3)]);
    assert_eq!(records[1].path, "beta/beta-1.tar.gz");
    let summary = summarize(&records).unwrap();
    assert_eq!(summary.earliest_release, 100);
    assert_eq!(summary.latest_release, 400);
    assert_eq!(summary.total_projects, 2);
    assert_eq!(summary.total_releases, 4);
    assert_eq!(summary.packages[0].name, "alpha");
    assert_eq!(summary.packages[0].entries.iter().map(|e| e.uploaded_on).collect::<Vec<_>>(), vec![100, 300]);
    let stream = render_import(&records);
    assert!(stream.starts_with("reset refs/heads/import\ncommit refs/heads/import\nmark :1\n"));
    assert!(stream.contains("mark :4\n"));
    assert!(stream.contains("from :3\nM 040000 tree400 beta/beta-2.tar.gz\n\n"));
}

#[test]
fn merge_ties_break_by_commit_id() {
    let headers = vec![header("b", 5, "x", "x-2.zip"), header("a", 5, "x", "x-1.zip")];
    let records = plan_import(&headers).unwrap();
    assert_eq!(records[0].path, "x/x-1.zip");
}

#[test]
fn merge_rejects_unreadable_messages() {
    let mut bad = header("a", 1, "x", "x-1.zip");
    bad.message = "not json".to_string();
    assert_eq!(plan_import(&vec![bad]).err(), Some(MergeError::UnreadableMessage));
    let mut shallow = header("a", 1, "x", "x-1.zip");
    shallow.message = commit_message("x", "1", "f", "x/f");
    assert_eq!(plan_import(&vec![shallow]).err(), Some(MergeError::MalformedPath));
}

#[test]
fn import_record_text() {
    let headers = vec![header("a", 100, "p", "f.tar.gz"), header("b", 200, "p", "g.tar.gz")];
    let records = plan_import(&headers).unwrap();
    let text = render_record(&records[1], 2);
    let message = &headers[1].message;
    assert_eq!(
        text,
        format!(
            "commit refs/heads/import\nmark :2\nauthor Importer <import@example.org> 200 +0000\ncommitter Importer <import@example.org> 200 +0000\ndata {}\n{}\nfrom :1\nM 040000 tree200 p/g.tar.gz\n\n",
            message.len(),
            message
        )
    );
}

#[test]
fn progress_every_ten_thousand() {
    let mut headers = vec![];
    for i in 0..10_000 {
        headers.push(header(&format!("{i:05}"), i, "p", "f.zip"));
    }
    let records = plan_import(&headers).unwrap();
    let text = render_record(&records[9_999], 10_000);
    assert!(text.ends_with("\n\nprogress 10000/10000\n\n"));
    assert!(!render_record(&records[9_998], 10_000).contains("progress"));
}

#[test]
fn stream_tail() {
    let tail = render_tail(4, "# R", "{}", "Importer", "import@example.org", 100, 86_400 * 365).unwrap();
    assert_eq!(
        tail,
        "reset refs/heads/main\nblob\nmark :5\ndata 3\n# R\nblob\nmark :6\ndata 2\n{}\ncommit refs/heads/main\nauthor Importer <import@example.org> 31536000 +0000\ncommitter Importer <import@example.org> 31536000 +0000\ndata 36\nImport from 1970-01-01 to 1971-01-01\nM 100644 :5 README.md\nM 100644 :6 index.json\n\ndone\n"
    );
}

#[test]
fn release_dates() {
    assert_eq!(release_date(100), Some("1970-01-01".to_string()));
    assert_eq!(release_date(1673443596), Some("2023-01-11".to_string()));
    assert_eq!(release_date(-86_400), Some("1969-12-31".to_string()));
    assert_eq!(release_date(i64::MAX), None);
}

#[test]
fn summary_of_nothing() {
    assert!(summarize(&Vec::new()).is_none());
}

#[test]
fn top_projects_by_release_count() {
    let headers = vec![
        header("1", 1, "a", "a-1.zip"),
        header("2", 2, "b", "b-1.zip"),
        header("3", 3, "b", "b-2.zip"),
        header("4", 4, "c", "c-1.zip"),
    ];
    let records = plan_import(&headers).unwrap();
    let summary = summarize(&records).unwrap();
    assert_eq!(summary.top_projects, vec![("b".to_string(), 2), ("a".to_string(), 1), ("c".to_string(), 1)]);
}

#[test]
fn reduced_file_names() {
    let name = "foo-bar".to_string();
    let (n, v, f) = package_name_to_path(&name, "1.0", "foo_bar-1.0-py3-none-any.whl");
    assert_eq!((n.as_str(), v.as_str(), f.as_str()), ("foo-bar", "1.0", "py3-none-any.whl"));
    let other = "free-valorant".to_string();
    let (_, _, f) = package_name_to_path(&other, "1", "free-valorant-points-redeem-code-v-3693.zip");
    assert_eq!(f, "zip");
}

#[test]
fn repository_requests() {
    let repo = NewRepo::for_index("https://github.com/pypi-data/pypi-code-7", 0, 86_400).unwrap();
    assert_eq!(repo.name, "pypi-code-7");
    assert_eq!(repo.description, "PyPi code from 1970-01-01 to 1970-01-02");
    assert!(!repo.private);
    assert_eq!(APIError::from_lookup_status(404), APIError::DoesNotExist);
    assert_eq!(APIError::from_create_status(422, String::new()), APIError::AlreadyExists);
    let e = APIError::from_create_status(500, "boom".to_string());
    assert_eq!(e.describe(), "Status: 500: boom");
    assert_eq!(APIError::from_lookup_status(500).describe(), "Error: unexpected status 500");
}

#[test]
fn commit_message_round_trip() {
    let m = CommitMessage {
        name: "pkg".to_string(),
        version: "1.0".to_string(),
        file: "pkg-1.0.tar.gz".to_string(),
        path: "packages/pkg/pkg-1.0.tar.gz".to_string(),
    };
    let text = m.encode();
    assert_eq!(text, commit_message("pkg", "1.0", "pkg-1.0.tar.gz", "packages/pkg/pkg-1.0.tar.gz"));
    let back = CommitMessage::decode(&text).unwrap();
    assert_eq!((back.name, back.version, back.file, back.path), (m.name, m.version, m.file, m.path));
    assert!(CommitMessage::decode("{\"name\":\"a\",\"version\":\"1\",\"path\":\"p/a/b\"}").is_none());
    assert!(CommitMessage::decode("[1, 2]").is_none());
}

#[test]
fn stream_tail_needs_calendar_dates() {
    assert!(render_tail(1, "", "", "n", "e", 0, i64::MAX).is_err());
    assert!(render_tail(1, "", "", "n", "e", i64::MIN, 0).is_err());
}

#[test]
fn api_error_descriptions() {
    assert_eq!(APIError::AlreadyExists.describe(), "Repo already exists");
    assert_eq!(APIError::DoesNotExist.describe(), "Repo does not exist");
    assert_eq!(APIError::DecodeError("eof".to_string()).describe(), "Decode Error: eof");
    assert!(NewRepo::for_index("mailto:someone", 0, 0).is_none());
}

#[test]
fn partition_ignores_reading_order() {
    let jobs = vec![job("b", "1", 5), job("a", "1", 5), job("a", "0", 5), job("c", "1", 1), job("a", "0", 5)];
    let mut reversed = jobs.clone();
    reversed.reverse();
    let key = |s: &Vec<Vec<DownloadJob>>| -> Vec<Vec<(String, String, i64)>> {
        s.iter().map(|c| c.iter().map(|j| (j.name.clone(), j.version.clone(), j.uploaded_on)).collect()).collect()
    };
    assert_eq!(key(&partition(&jobs, 2)), key(&partition(&reversed, 2)));
}
