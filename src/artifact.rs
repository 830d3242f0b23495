//! The extractor: from the entries of one archive to the leaves of the
//! artifact's tree, with the surviving contents written to the store.

use vstd::prelude::*;

use crate::filter::{content_skipped, entry_skipped, skip_archive_entry, skip_content};
use crate::paths::{normalize_path, normalized};
use crate::release::{archive_kind, kind_of, logical_path, logical_path_of};
use crate::store::{after_write, blob_digest, blob_hash_fails, ObjectStore, Oid, StoreError};
use crate::text::{lemma_top_segment, split_segments, split_slash, str_eq};

verus! {

/// A regular file read from an archive: its name, the size its header
/// gives, and its bytes.
pub struct RawEntry {
    pub name: String,
    pub size: u64,
    pub content: Vec<u8>,
}

impl View for RawEntry {
    type V = (Seq<char>, u64, Seq<u8>);

    open spec fn view(&self) -> (Seq<char>, u64, Seq<u8>) {
        (self.name@, self.size, self.content@)
    }
}

/// A name with the id of its blob: a surviving entry, or a leaf of a tree.
pub struct NamedBlob {
    pub name: String,
    pub oid: Oid,
}

impl View for NamedBlob {
    type V = (Seq<char>, Seq<u8>);

    open spec fn view(&self) -> (Seq<char>, Seq<u8>) {
        (self.name@, self.oid@)
    }
}

/// The tree of one artifact: the path it is attached at, and its leaves.
pub struct ArtifactTree {
    pub logical_path: String,
    pub leaves: Vec<NamedBlob>,
}

pub open spec fn views_of(v: Seq<NamedBlob>) -> Seq<(Seq<char>, Seq<u8>)> {
    v.map_values(|e: NamedBlob| e@)
}

pub open spec fn raw_views(v: Seq<RawEntry>) -> Seq<(Seq<char>, u64, Seq<u8>)> {
    v.map_values(|e: RawEntry| e@)
}

/// An entry passes every rule of the filter.
pub open spec fn survives(e: (Seq<char>, u64, Seq<u8>)) -> bool {
    !entry_skipped(e.0, e.1) && !content_skipped(e.2)
}

/// The surviving entries, named, with the ids of their contents.
pub open spec fn surviving(es: Seq<(Seq<char>, u64, Seq<u8>)>) -> Seq<(Seq<char>, Seq<u8>)>
    decreases es.len(),
{
    if es.len() == 0 {
        Seq::empty()
    } else {
        let init = surviving(es.drop_last());
        if survives(es.last()) {
            init.push((es.last().0, blob_digest(es.last().2)))
        } else {
            init
        }
    }
}

/// The store after the surviving contents have been written, in order.
pub open spec fn stored_after(
    s: Seq<(Seq<u8>, Seq<u8>)>,
    es: Seq<(Seq<char>, u64, Seq<u8>)>,
) -> Seq<(Seq<u8>, Seq<u8>)>
    decreases es.len(),
{
    if es.len() == 0 {
        s
    } else {
        let t = stored_after(s, es.drop_last());
        if survives(es.last()) {
            after_write(t, es.last().2)
        } else {
            t
        }
    }
}

/// Some surviving entry's content cannot be hashed.
pub open spec fn survivor_hash_fails(es: Seq<(Seq<char>, u64, Seq<u8>)>) -> bool {
    exists|i: int| 0 <= i < es.len() && survives(#[trigger] es[i]) && blob_hash_fails(es[i].2)
}

/// Filters the entries and writes each survivor to the store.
pub fn write_survivors(store: &mut ObjectStore, entries: &Vec<RawEntry>) -> (r: Result<
    Vec<NamedBlob>,
    StoreError,
>)
    requires
        old(store).wf(),
    ensures
        final(store).wf(),
        r is Err <==> survivor_hash_fails(raw_views(entries@)),
        r matches Ok(v) ==> views_of(v@) == surviving(raw_views(entries@)) && final(store)@
            == stored_after(old(store)@, raw_views(entries@)),
{
    let ghost es = raw_views(entries@);
    let mut out: Vec<NamedBlob> = Vec::new();
    let mut k: usize = 0;
    proof {
        assert(es.take(0) == Seq::<(Seq<char>, u64, Seq<u8>)>::empty());
        assert(views_of(out@) == Seq::<(Seq<char>, Seq<u8>)>::empty());
    }
    while k < entries.len()
        invariant
            es == raw_views(entries@),
            k <= entries.len(),
            store.wf(),
            views_of(out@) == surviving(es.take(k as int)),
            store@ == stored_after(old(store)@, es.take(k as int)),
            forall|j: int| 0 <= j < k ==> !(survives(#[trigger] es[j]) && blob_hash_fails(es[j].2)),
        decreases entries.len() - k,
    {
        let e = &entries[k];
        proof {
            assert(es.take(k + 1).drop_last() == es.take(k as int));
            assert(es.take(k + 1).last() == e@);
        }
        if !skip_archive_entry(e.name.as_str(), e.size) && !skip_content(e.content.as_slice()) {
            let content = e.content.clone();
            assert(content@ == e.content@);
            assert(es[k as int] == e@);
            let oid = match store.write(content) {
                Ok(o) => o,
                Err(err) => {
                    assert(survives(es[k as int]) && blob_hash_fails(es[k as int].2));
                    return Err(err);
                },
            };
            let item = NamedBlob { name: e.name.clone(), oid };
            proof {
                assert(views_of(out@.push(item)) == views_of(out@).push(item@));
            }
            out.push(item);
        }
        k = k + 1;
    }
    assert(es.take(entries.len() as int) == es);
    assert(!survivor_hash_fails(es));
    Ok(out)
}

/// Whether some element of `s` carries the name `n`.
pub open spec fn name_in(s: Seq<(Seq<char>, Seq<u8>)>, n: Seq<char>) -> bool {
    exists|j: int| 0 <= j < s.len() && (#[trigger] s[j]).0 == n
}

/// The elements of `s` whose name has not occurred before: the first record
/// of each name is kept.
pub open spec fn first_by_name(s: Seq<(Seq<char>, Seq<u8>)>) -> Seq<(Seq<char>, Seq<u8>)>
    decreases s.len(),
{
    if s.len() == 0 {
        s
    } else {
        let d = first_by_name(s.drop_last());
        if name_in(s.drop_last(), s.last().0) {
            d
        } else {
            d.push(s.last())
        }
    }
}

proof fn lemma_first_by_name_names(s: Seq<(Seq<char>, Seq<u8>)>, n: Seq<char>)
    ensures
        name_in(first_by_name(s), n) == name_in(s, n),
    decreases s.len(),
{
    if s.len() > 0 {
        let init = s.drop_last();
        lemma_first_by_name_names(init, n);
        let d = first_by_name(init);
        if name_in(s, n) {
            let j = choose|j: int| 0 <= j < s.len() && (#[trigger] s[j]).0 == n;
            if j < s.len() - 1 {
                assert(init[j] == s[j]);
                assert(name_in(init, n));
                if !name_in(init, s.last().0) {
                    let i = choose|i: int| 0 <= i < d.len() && (#[trigger] d[i]).0 == n;
                    assert(d.push(s.last())[i] == d[i]);
                }
            } else if !name_in(init, s.last().0) {
                assert(d.push(s.last())[d.len() as int] == s.last());
            } else {
                assert(name_in(init, n));
            }
        }
        if name_in(first_by_name(s), n) && !name_in(init, s.last().0) {
            let e = d.push(s.last());
            let i = choose|i: int| 0 <= i < e.len() && (#[trigger] e[i]).0 == n;
            if i < d.len() {
                assert(e[i] == d[i]);
            } else {
                assert(s[s.len() - 1] == s.last());
            }
        }
    }
}

/// Keeps the first record of each name, in order.
pub fn dedup_by_name(v: &Vec<NamedBlob>) -> (r: Vec<NamedBlob>)
    ensures
        views_of(r@) == first_by_name(views_of(v@)),
{
    let ghost s = views_of(v@);
    let mut out: Vec<NamedBlob> = Vec::new();
    let mut k: usize = 0;
    proof {
        assert(s.take(0) == Seq::<(Seq<char>, Seq<u8>)>::empty());
        assert(views_of(out@) == Seq::<(Seq<char>, Seq<u8>)>::empty());
    }
    while k < v.len()
        invariant
            s == views_of(v@),
            k <= v.len(),
            views_of(out@) == first_by_name(s.take(k as int)),
        decreases v.len() - k,
    {
        let e = &v[k];
        let ghost prefix = s.take(k as int);
        proof {
            assert(s.take(k + 1).drop_last() == prefix);
            assert(s.take(k + 1).last() == e@);
            lemma_first_by_name_names(prefix, e.name@);
        }
        let mut seen = false;
        let mut j: usize = 0;
        while j < out.len()
            invariant
                j <= out.len(),
                seen == exists|i: int| 0 <= i < j && (#[trigger] views_of(out@)[i]).0 == e.name@,
            decreases out.len() - j,
        {
            if str_eq(out[j].name.as_str(), e.name.as_str()) {
                assert(views_of(out@)[j as int].0 == e.name@);
                seen = true;
            }
            j = j + 1;
        }
        assert(seen == name_in(views_of(out@), e.name@));
        if !seen {
            let item = NamedBlob { name: e.name.clone(), oid: e.oid.clone() };
            proof {
                assert(views_of(out@.push(item)) == views_of(out@).push(item@));
            }
            out.push(item);
        }
        k = k + 1;
    }
    assert(s.take(v.len() as int) == s);
    out
}

/// A name with a directory above it.
pub open spec fn has_dir(n: Seq<char>) -> bool {
    split_slash(n).len() >= 2
}

/// The first segment of a name.
pub open spec fn top_of(n: Seq<char>) -> Seq<char> {
    split_slash(n)[0]
}

/// The one top-level directory that every name lies under, if there are at
/// least two names and exactly one such directory; a name without a
/// directory rules stripping out.
pub open spec fn common_top(s: Seq<(Seq<char>, Seq<u8>)>) -> Option<Seq<char>> {
    if s.len() > 1 && forall|i: int|
        0 <= i < s.len() ==> has_dir(#[trigger] s[i].0) && top_of(s[i].0) == top_of(s[0].0) {
        Some(top_of(s[0].0))
    } else {
        None
    }
}

/// Finds the single top-level directory shared by all names, if any.
pub fn common_top_segment(v: &Vec<NamedBlob>) -> (r: Option<String>)
    ensures
        match r {
            Some(p) => common_top(views_of(v@)) == Some(p@),
            None => common_top(views_of(v@)) is None,
        },
{
    let ghost s = views_of(v@);
    if v.len() < 2 {
        return None;
    }
    let first = split_segments(v[0].name.as_str());
    if first.len() < 2 {
        assert(!has_dir(s[0].0));
        return None;
    }
    let top = first[0].clone();
    assert(top@ == top_of(s[0].0)) by {
        assert(first@.map_values(|x: String| x@)[0] == first@[0]@);
    }
    let mut k: usize = 1;
    while k < v.len()
        invariant
            s == views_of(v@),
            1 <= k <= v.len(),
            top@ == top_of(s[0].0),
            has_dir(s[0].0),
            forall|i: int| 0 <= i < k ==> has_dir(#[trigger] s[i].0) && top_of(s[i].0) == top@,
        decreases v.len() - k,
    {
        let segs = split_segments(v[k].name.as_str());
        proof {
            assert(s[k as int].0 == v@[k as int].name@);
        }
        if segs.len() < 2 {
            assert(!has_dir(s[k as int].0));
            return None;
        }
        assert(segs@.map_values(|x: String| x@)[0] == segs@[0]@);
        if !str_eq(segs[0].as_str(), top.as_str()) {
            assert(top_of(s[k as int].0) != top_of(s[0].0));
            return None;
        }
        k = k + 1;
    }
    Some(top)
}

/// The path of a surviving name in the artifact tree: its top-level
/// directory removed when one is shared, then normalised.
pub open spec fn leaf_path(n: Seq<char>, top: Option<Seq<char>>) -> Seq<char> {
    match top {
        Some(p) => normalized(n.skip(p.len() as int + 1)),
        None => normalized(n),
    }
}

/// The last index of a leaf at path `p`, or -1.
pub open spec fn find_leaf(l: Seq<(Seq<char>, Seq<u8>)>, p: Seq<char>) -> int
    decreases l.len(),
{
    if l.len() == 0 {
        -1
    } else if l.last().0 == p {
        l.len() - 1
    } else {
        find_leaf(l.drop_last(), p)
    }
}

/// Places a leaf: a later leaf at the same path replaces the earlier one.
pub open spec fn upsert_leaf(l: Seq<(Seq<char>, Seq<u8>)>, e: (Seq<char>, Seq<u8>)) -> Seq<
    (Seq<char>, Seq<u8>),
> {
    let i = find_leaf(l, e.0);
    if i >= 0 {
        l.update(i, e)
    } else {
        l.push(e)
    }
}

/// The leaves of the tree built from the named blobs `s`.
pub open spec fn placed(s: Seq<(Seq<char>, Seq<u8>)>, top: Option<Seq<char>>) -> Seq<
    (Seq<char>, Seq<u8>),
>
    decreases s.len(),
{
    if s.len() == 0 {
        s
    } else {
        upsert_leaf(placed(s.drop_last(), top), (leaf_path(s.last().0, top), s.last().1))
    }
}

/// The leaves of an artifact's tree, from its entries in archive order.
pub open spec fn artifact_leaves(es: Seq<(Seq<char>, u64, Seq<u8>)>) -> Seq<
    (Seq<char>, Seq<u8>),
> {
    let d = first_by_name(surviving(es));
    placed(d, common_top(d))
}

proof fn lemma_find_leaf(l: Seq<(Seq<char>, Seq<u8>)>, p: Seq<char>)
    ensures
        -1 <= find_leaf(l, p) < l.len(),
        find_leaf(l, p) >= 0 ==> l[find_leaf(l, p)].0 == p,
    decreases l.len(),
{
    if l.len() > 0 {
        lemma_find_leaf(l.drop_last(), p);
    }
}

fn upsert(leaves: &mut Vec<NamedBlob>, item: NamedBlob)
    ensures
        views_of(final(leaves)@) == upsert_leaf(views_of(old(leaves)@), item@),
{
    let ghost l = views_of(leaves@);
    let mut i: usize = leaves.len();
    proof {
        assert(l.take(i as int) == l);
    }
    while i > 0
        invariant
            l == views_of(leaves@),
            leaves@ == old(leaves)@,
            i <= leaves.len(),
            find_leaf(l, item@.0) == find_leaf(l.take(i as int), item@.0),
        decreases i,
    {
        proof {
            assert(l.take(i as int).drop_last() == l.take(i - 1));
            assert(l.take(i as int).last() == l[i - 1]);
        }
        if str_eq(leaves[i - 1].name.as_str(), item.name.as_str()) {
            proof {
                assert(l[i - 1] == leaves@[i - 1]@);
                assert(l.take(i as int).last().0 == item@.0);
                assert(find_leaf(l, item@.0) == i - 1);
            }
            leaves.set(i - 1, item);
            proof {
                assert(views_of(leaves@) =~= l.update(i - 1, item@));
                assert(views_of(leaves@) == upsert_leaf(l, item@));
            }
            return;
        }
        i = i - 1;
    }
    leaves.push(item);
    proof {
        assert(views_of(leaves@) == l.push(item@));
    }
}

/// Builds the leaves of the tree: each name loses the shared top-level
/// directory, if any, and is normalised; a later leaf at the same path
/// replaces the earlier one.
pub fn place_leaves(v: &Vec<NamedBlob>, top: &Option<String>) -> (r: Vec<NamedBlob>)
    requires
        match top {
            Some(p) => common_top(views_of(v@)) == Some(p@),
            None => common_top(views_of(v@)) is None,
        },
    ensures
        views_of(r@) == placed(views_of(v@), common_top(views_of(v@))),
{
    let ghost s = views_of(v@);
    let ghost t = common_top(s);
    let mut out: Vec<NamedBlob> = Vec::new();
    let mut k: usize = 0;
    proof {
        assert(s.take(0) == Seq::<(Seq<char>, Seq<u8>)>::empty());
        assert(views_of(out@) == Seq::<(Seq<char>, Seq<u8>)>::empty());
    }
    while k < v.len()
        invariant
            s == views_of(v@),
            t == common_top(s),
            match top {
                Some(p) => t == Some(p@),
                None => t is None,
            },
            k <= v.len(),
            views_of(out@) == placed(s.take(k as int), t),
        decreases v.len() - k,
    {
        let e = &v[k];
        proof {
            assert(s.take(k + 1).drop_last() == s.take(k as int));
            assert(s.take(k + 1).last() == e@);
        }
        let path = match top {
            Some(p) => {
                let name = e.name.as_str();
                proof {
                    assert(s[k as int] == e@);
                    assert(has_dir(s[k as int].0) && top_of(s[k as int].0) == p@);
                    lemma_top_segment(e.name@);
                }
                let n = name.unicode_len();
                let rest = name.substring_char(p.unicode_len() + 1, n);
                normalize_path(rest)
            },
            None => normalize_path(e.name.as_str()),
        };
        upsert(&mut out, NamedBlob { name: path, oid: e.oid.clone() });
        k = k + 1;
    }
    assert(s.take(v.len() as int) == s);
    out
}

/// Runs the extractor on the entries of one artifact: filters them, writes
/// the survivors to the store, keeps the first record of each name, strips
/// a shared top-level directory, normalises the paths and builds the leaves.
/// `None` when the file name names no known archive kind or nothing
/// survives.
pub fn extract_artifact(
    store: &mut ObjectStore,
    package: &str,
    filename: &str,
    entries: &Vec<RawEntry>,
) -> (r: Result<Option<ArtifactTree>, StoreError>)
    requires
        old(store).wf(),
    ensures
        final(store).wf(),
        kind_of(filename@) is None ==> r == Ok::<Option<ArtifactTree>, StoreError>(None)
            && final(store)@ == old(store)@,
        kind_of(filename@) is Some ==> match r {
            Ok(Some(t)) => t.logical_path@ == logical_path_of(package@, filename@) && views_of(
                t.leaves@,
            ) == artifact_leaves(raw_views(entries@)) && t.leaves@.len() > 0 && final(store)@
                == stored_after(old(store)@, raw_views(entries@)),
            Ok(None) => artifact_leaves(raw_views(entries@)).len() == 0 && final(store)@
                == stored_after(old(store)@, raw_views(entries@)),
            Err(_) => true,
        },
        kind_of(filename@) is Some ==> (r is Err <==> survivor_hash_fails(raw_views(entries@))),
        kind_of(filename@) is Some && !survivor_hash_fails(raw_views(entries@)) ==> (r
            == Ok::<Option<ArtifactTree>, StoreError>(None) <==> artifact_leaves(
            raw_views(entries@),
        ).len() == 0),
{
    if archive_kind(filename).is_none() {
        return Ok(None);
    }
    let survivors = write_survivors(store, entries)?;
    let unique = dedup_by_name(&survivors);
    let top = common_top_segment(&unique);
    let leaves = place_leaves(&unique, &top);
    if leaves.len() == 0 {
        return Ok(None);
    }
    Ok(Some(ArtifactTree { logical_path: logical_path(package, filename), leaves }))
}

proof fn lemma_surviving_without(es: Seq<(Seq<char>, u64, Seq<u8>)>, i: int)
    requires
        0 <= i < es.len(),
        !survives(es[i]),
    ensures
        surviving(es.remove(i)) == surviving(es),
    decreases es.len(),
{
    if i == es.len() - 1 {
        assert(es.remove(i) == es.drop_last());
    } else {
        lemma_surviving_without(es.drop_last(), i);
        assert(es.remove(i).drop_last() == es.drop_last().remove(i));
        assert(es.remove(i).last() == es.last());
    }
}

/// An entry that the filter drops (by size, path shape, suffix cap or
/// content) leaves no trace: the artifact's leaves are the same with or
/// without it.
pub proof fn lemma_filtered_entry_absent(es: Seq<(Seq<char>, u64, Seq<u8>)>, i: int)
    requires
        0 <= i < es.len(),
        entry_skipped(es[i].0, es[i].1) || content_skipped(es[i].2),
    ensures
        artifact_leaves(es.remove(i)) == artifact_leaves(es),
{
    lemma_surviving_without(es, i);
}

proof fn lemma_none_survive(es: Seq<(Seq<char>, u64, Seq<u8>)>)
    requires
        forall|i: int| 0 <= i < es.len() ==> !survives(#[trigger] es[i]),
    ensures
        surviving(es).len() == 0,
    decreases es.len(),
{
    if es.len() > 0 {
        let init = es.drop_last();
        assert forall|i: int| 0 <= i < init.len() implies !survives(#[trigger] init[i]) by {
            assert(init[i] == es[i]);
        }
        lemma_none_survive(init);
        assert(!survives(es[es.len() - 1]));
    }
}

/// When the filter drops every entry of an archive, nothing is hashed, no
/// leaf is produced, and the extractor of a known archive kind returns no
/// tree rather than an error.
pub proof fn lemma_all_entries_dropped(es: Seq<(Seq<char>, u64, Seq<u8>)>)
    requires
        forall|i: int| 0 <= i < es.len() ==> !survives(#[trigger] es[i]),
    ensures
        !survivor_hash_fails(es),
        artifact_leaves(es).len() == 0,
{
    lemma_none_survive(es);
    let d = first_by_name(surviving(es));
    assert(d.len() == 0);
    assert(placed(d, common_top(d)).len() == 0);
}

/// When every surviving name lies under one top-level directory, each name
/// is that directory, a slash, and the rest, and its leaf is the normalised
/// rest; otherwise each leaf is the normalised name itself.
pub proof fn lemma_prefix_strip(d: Seq<(Seq<char>, Seq<u8>)>, i: int)
    requires
        0 <= i < d.len(),
    ensures
        match common_top(d) {
            Some(p) => d[i].0 == p + seq!['/'] + d[i].0.skip(p.len() as int + 1) && leaf_path(
                d[i].0,
                common_top(d),
            ) == normalized(d[i].0.skip(p.len() as int + 1)),
            None => leaf_path(d[i].0, common_top(d)) == normalized(d[i].0),
        },
{
    if let Some(p) = common_top(d) {
        assert(has_dir(d[i].0) && top_of(d[i].0) == p);
        lemma_top_segment(d[i].0);
        assert(d[i].0 == p + seq!['/'] + d[i].0.skip(p.len() as int + 1));
    }
}

} // verus!
