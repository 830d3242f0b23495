use pypi_code::publish::{ObjectInfo, RepoStatistics};
use pypi_code::store::ObjectStore;

fn hex(b: &[u8]) -> String {
    b.iter().map(|x| format!("{:02x}", x)).collect()
}

#[test]
fn write_returns_the_blob_id() {
    let mut store = ObjectStore::new();
    let oid = store.write(b"print(1)\n".to_vec()).unwrap();
    assert_eq!(hex(&oid.bytes), "b917a726c93f902e43291d9009d6488385133b67");
    let empty = store.write(Vec::new()).unwrap();
    assert_eq!(hex(&empty.bytes), "e69de29bb2d1d6434b8b29ae775ad8c2e48c5391");
}

#[test]
fn writing_twice_stores_one_copy() {
    let mut store = ObjectStore::new();
    let a = store.write(b"x=2\n".to_vec()).unwrap();
    let b = store.write(b"x=2\n".to_vec()).unwrap();
    assert_eq!(a.bytes, b.bytes);
    assert_eq!(store.len(), 1);
    assert!(store.contains(&a));
    assert_eq!(store.total_size(), 4);
    let flushed = store.flush();
    assert_eq!(flushed.len(), 1);
    assert_eq!(flushed[0].content, b"x=2\n".to_vec());
    assert_eq!(store.len(), 0);
    assert!(!store.contains(&a));
}

#[test]
fn statistics_tally() {
    let objects = vec![ObjectInfo::Blob(10), ObjectInfo::Commit, ObjectInfo::Blob(5), ObjectInfo::Other];
    let stats = RepoStatistics::tally(&objects, "repo/.git".to_string());
    assert_eq!(stats.unique_blobs, 2);
    assert_eq!(stats.total_size, 15);
    assert_eq!(stats.commits, 1);
    assert_eq!(stats.path, "repo/.git");
}
