use pypi_code::members::{member_step, MemberRead, MemberStep};
use pypi_code::artifact::{extract_artifact, RawEntry};
use pypi_code::filter::{is_excluded_package, skip_archive_entry, skip_content};
use pypi_code::paths::normalize_path;
use pypi_code::release::{archive_kind, commit_message, logical_path, ArchiveKind, DownloadJob};
use pypi_code::store::ObjectStore;

fn hex(b: &[u8]) -> String {
    b.iter().map(|x| format!("{:02x}", x)).collect()
}

fn entry(name: &str, content: &[u8]) -> RawEntry {
    RawEntry { name: name.to_string(), size: content.len() as u64, content: content.to_vec() }
}

fn leaf_paths(entries: Vec<RawEntry>, filename: &str) -> Option<Vec<String>> {
    let mut store = ObjectStore::new();
    let tree = extract_artifact(&mut store, "pkg", filename, &entries).unwrap()?;
    Some(tree.leaves.iter().map(|l| l.name.clone()).collect())
}

#[test]
fn single_tar_gz_with_wrapper_directory() {
    let mut store = ObjectStore::new();
    let entries = vec![entry("pkg-1.0/a.py", b"print(1)\n"), entry("pkg-1.0/sub/b.py", b"x=2\n")];
    let tree = extract_artifact(&mut store, "pkg", "pkg-1.0.tar.gz", &entries).unwrap().unwrap();
    assert_eq!(tree.logical_path, "packages/pkg/pkg-1.0.tar.gz");
    assert_eq!(tree.leaves.len(), 2);
    assert_eq!(tree.leaves[0].name, "a.py");
    assert_eq!(hex(&tree.leaves[0].oid.bytes), "b917a726c93f902e43291d9009d6488385133b67");
    assert_eq!(tree.leaves[1].name, "sub/b.py");
    assert_eq!(hex(&tree.leaves[1].oid.bytes), "7a566335ee8269b1278f9ec151d05b138e5a7343");
    assert_eq!(store.len(), 2);
}

#[test]
fn wheel_with_duplicate_entry() {
    let mut store = ObjectStore::new();
    let entries = vec![entry("pkg/__init__.py", b"first\n"), entry("pkg/__init__.py", b"second\n")];
    let filename = "pkg-2.0-py3-none-any.whl";
    let tree = extract_artifact(&mut store, "pkg", filename, &entries).unwrap().unwrap();
    assert_eq!(tree.leaves.len(), 1);
    assert_eq!(tree.leaves[0].name, "pkg/__init__.py");
    assert_eq!(hex(&tree.leaves[0].oid.bytes), "9c59e24b8393179a5d712de4f990178df5734d99");
    let message = commit_message("pkg", "2.0", filename, &tree.logical_path);
    assert_eq!(
        message,
        "{\"name\":\"pkg\",\"version\":\"2.0\",\"file\":\"pkg-2.0-py3-none-any.whl\",\"path\":\"packages/pkg/pkg-2.0-py3-none-any.whl\"}"
    );
    let parsed: serde_json::Value = serde_json::from_str(&message).unwrap();
    assert_eq!(parsed["path"], "packages/pkg/pkg-2.0-py3-none-any.whl");
}

#[test]
fn binary_only_archive() {
    let mut content: Vec<u8> = (0u8..16).collect();
    content.resize(2048, b'a');
    assert_eq!(leaf_paths(vec![entry("pkg-3.0/data.py", &content)], "pkg-3.0.tar.gz"), None);
}

#[test]
fn size_cap() {
    let json = vec![b'1'; 2 * 1024 * 1024];
    let lib = vec![b'x'; 1024];
    let paths = leaf_paths(vec![entry("data.json", &json), entry("lib.py", &lib)], "pkg-4.0.tar.gz");
    assert_eq!(paths, Some(vec!["lib.py".to_string()]));
}

#[test]
fn conflicting_top_level_segments() {
    let paths = leaf_paths(vec![entry("A/x.py", b"a\n"), entry("B/y.py", b"b\n")], "p-1.zip");
    assert_eq!(paths, Some(vec!["A/x.py".to_string(), "B/y.py".to_string()]));
}

#[test]
fn shared_prefix_of_two_segments_strips_nothing() {
    let paths = leaf_paths(vec![entry("pkg/x.py", b"a\n"), entry("pkg_extra/y.py", b"b\n")], "p-1.zip");
    assert_eq!(paths, Some(vec!["pkg/x.py".to_string(), "pkg_extra/y.py".to_string()]));
}

#[test]
fn stripped_paths_are_normalised() {
    let paths = leaf_paths(
        vec![entry("p-1/a//b.py", b"a\n"), entry("p-1/./c/../d.py", b"b\n"), entry("p-1/a/b.py", b"c\n")],
        "p-1.tar.bz2",
    );
    assert_eq!(paths, Some(vec!["a/b.py".to_string(), "c/d.py".to_string()]));
}

#[test]
fn later_leaf_at_same_normalised_path_wins() {
    let mut store = ObjectStore::new();
    let entries = vec![entry("x//a.py", b"first\n"), entry("x/a.py", b"print(1)\n"), entry("y.py", b"x=2\n")];
    let tree = extract_artifact(&mut store, "pkg", "p.zip", &entries).unwrap().unwrap();
    assert_eq!(tree.leaves.len(), 2);
    assert_eq!(tree.leaves[0].name, "x/a.py");
    assert_eq!(hex(&tree.leaves[0].oid.bytes), "b917a726c93f902e43291d9009d6488385133b67");
}

#[test]
fn unknown_kind_yields_nothing() {
    assert_eq!(leaf_paths(vec![entry("a.py", b"a\n")], "pkg-1.0.rpm"), None);
}

#[test]
fn filtered_entries_are_absent_from_the_tree() {
    let text = b"hello\n";
    let entries = vec![
        entry("p/.git/hook.py", text),
        entry("p/__pycache__/m.py", text),
        entry("p/pkg-1.0.dist-info/METADATA", text),
        entry("p/m.pyc", text),
        entry("p/app.js", text),
        entry("p/app.js.map", text),
        entry("p/de.po", text),
        entry("p/s.css", text),
        entry("p/s.scss", text),
        entry("p/s.less", text),
        entry("p/m.stl", text),
        entry("p/m.dae", text),
        entry("p/empty.py", b""),
        entry("p/armor.py", b"__pyarmor__(__name__, __file__, b'...')"),
        entry("p/lfs.bin", b"version https://git-lfs.github.com/spec/v1\n"),
        entry("p/page.html", &vec![b'h'; 16 * 1024]),
        entry("p/nb.ipynb", &vec![b'{'; 6 * 1024 * 1024]),
        entry("p/keep.py", text),
        entry("p/other/keep.txt", text),
    ];
    let paths = leaf_paths(entries, "p-1.tar.gz");
    assert_eq!(paths, Some(vec!["keep.py".to_string(), "other/keep.txt".to_string()]));
}

#[test]
fn entry_rules_on_names_and_sizes() {
    assert!(skip_archive_entry("a.py", 0));
    assert!(skip_archive_entry("a.py", 5 * 1024 * 1024 + 1));
    assert!(!skip_archive_entry("a.py", 5 * 1024 * 1024));
    assert!(skip_archive_entry(".git/x.py", 10));
    assert!(skip_archive_entry("a/__pycache__/x.py", 10));
    assert!(skip_archive_entry("pkg.dist-info/RECORD", 10));
    assert!(!skip_archive_entry("a/git/x.py", 10));
    assert!(skip_archive_entry("x.pyc", 10));
    assert!(skip_archive_entry("x.dae", 10));
    assert!(!skip_archive_entry("x.py", 10));
    assert!(skip_archive_entry("d.json", 1024 * 1024 + 1));
    assert!(!skip_archive_entry("d.json", 1024 * 1024));
    assert!(skip_archive_entry("d.csv", 2 * 1024 * 1024));
    assert!(skip_archive_entry("i.html", 15 * 1024 + 1));
    assert!(!skip_archive_entry("i.html", 15 * 1024));
    assert!(skip_archive_entry("i.svg", 5 * 1024 + 1));
    assert!(!skip_archive_entry("i.txt", 2 * 1024 * 1024));
}

#[test]
fn content_rules() {
    assert!(skip_content(b"abc\x00def"));
    assert!(skip_content(b"%PDF-1.4"));
    assert!(skip_content(b"__pyarmor__()"));
    assert!(skip_content(b"version https://git-lfs.github.com/spec/v1"));
    assert!(!skip_content(b"\xEF\xBB\xBFabc\x00"));
    assert!(!skip_content(b"print('hi')\n"));
    assert!(!skip_content(b""));
    let mut late_zero = vec![b'a'; 1024];
    late_zero.push(0);
    assert!(!skip_content(&late_zero));
}

#[test]
fn package_blocklist() {
    assert!(is_excluded_package("tf-nightly"));
    assert!(is_excluded_package("pydwf"));
    assert!(!is_excluded_package("tensorflow"));
    assert!(!is_excluded_package("tf-nightly-x"));
}

#[test]
fn normalisation_examples() {
    assert_eq!(normalize_path("a//b/./c/../.git/d"), "a/b/c/dot-git/d");
    assert_eq!(normalize_path("./x.py"), "x.py");
    assert_eq!(normalize_path("/a/"), "a");
    assert_eq!(normalize_path(""), "");
    assert_eq!(normalize_path("../.."), "");
    assert_eq!(normalize_path("src/backports//x.tar.gz.asc"), "src/backports/x.tar.gz.asc");
}

#[test]
fn normalisation_is_idempotent() {
    for n in ["a//b/./c/../.git/d", "./.git/./x", "//", ".../a", "a/.gitx/b", "dot-git/.git"] {
        let once = normalize_path(n);
        assert_eq!(normalize_path(&once), once);
        assert!(!once.contains("//"));
        assert!(!once.contains("/./"));
        assert!(!once.contains("/../"));
        assert!(once.split('/').all(|s| s != ".git"));
    }
}

#[test]
fn archive_kinds_by_suffix() {
    assert_eq!(archive_kind("a-1.whl"), Some(ArchiveKind::Zip));
    assert_eq!(archive_kind("a-1.egg"), Some(ArchiveKind::Zip));
    assert_eq!(archive_kind("a-1.exe"), Some(ArchiveKind::Zip));
    assert_eq!(archive_kind("a-1.zip"), Some(ArchiveKind::Zip));
    assert_eq!(archive_kind("a-1.tar.gz"), Some(ArchiveKind::TarGz));
    assert_eq!(archive_kind("a-1.tar.bz2"), Some(ArchiveKind::TarBz));
    assert_eq!(archive_kind("a-1.msi"), None);
}

#[test]
fn file_name_and_logical_path() {
    let job = DownloadJob {
        name: "pkg".to_string(),
        version: "1.0".to_string(),
        url: "https://files.pythonhosted.org/packages/ab/cd/pkg-1.0.tar.gz".to_string(),
        uploaded_on: 100,
    };
    assert_eq!(job.package_filename(), Some("pkg-1.0.tar.gz".to_string()));
    assert_eq!(logical_path("pkg", "pkg-1.0.tar.gz"), "packages/pkg/pkg-1.0.tar.gz");
    let bad = DownloadJob { url: "not a url".to_string(), ..job };
    assert_eq!(bad.package_filename(), None);
}

#[test]
fn commit_message_escapes_strings() {
    let m = commit_message("a\"b", "1", "f", "packages/a\"b/f");
    assert_eq!(m, "{\"name\":\"a\\\"b\",\"version\":\"1\",\"file\":\"f\",\"path\":\"packages/a\\\"b/f\"}");
}

#[test]
fn member_steps() {
    assert_eq!(member_step(MemberRead::Regular), MemberStep::Take);
    assert_eq!(member_step(MemberRead::NotRegular), MemberStep::Skip);
    assert_eq!(member_step(MemberRead::EntryError), MemberStep::Skip);
    assert_eq!(member_step(MemberRead::ContainerError), MemberStep::Stop);
    assert_eq!(member_step(MemberRead::End), MemberStep::Stop);
}

#[test]
fn all_entries_dropped_gives_no_tree() {
    let mut store = ObjectStore::new();
    let entries = vec![entry("a.pyc", b"x\n"), entry("b.py", b"")];
    assert!(matches!(extract_artifact(&mut store, "pkg", "p-1.tar.gz", &entries), Ok(None)));
    assert_eq!(store.len(), 0);
}
