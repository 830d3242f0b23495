//! The index of a merged history: the releases of every package, the date
//! range covered, and the packages with the most releases.

use vstd::prelude::*;

use crate::merge::{record_views, ImportRecord, RecordView};
use crate::order::{key_views, lemma_stable_order, permutes, sort_order, stable_order, SortKey};
use crate::text::str_eq;

verus! {

/// How many packages the summary table lists.
pub const TOP_PROJECTS: usize = 25;

/// One release as the index lists it.
pub struct IndexEntry {
    pub name: String,
    pub version: String,
    pub path: String,
    pub uploaded_on: i64,
}

pub type EntryView = (Seq<char>, Seq<char>, Seq<char>, i64);

impl View for IndexEntry {
    type V = EntryView;

    open spec fn view(&self) -> EntryView {
        (self.name@, self.version@, self.path@, self.uploaded_on)
    }
}

/// The releases of one package, in commit order.
pub struct PackageEntries {
    pub name: String,
    pub entries: Vec<IndexEntry>,
}

pub type GroupView = (Seq<char>, Seq<EntryView>);

impl View for PackageEntries {
    type V = GroupView;

    open spec fn view(&self) -> GroupView {
        (self.name@, self.entries@.map_values(|e: IndexEntry| e@))
    }
}

pub open spec fn group_views(v: Seq<PackageEntries>) -> Seq<GroupView> {
    v.map_values(|g: PackageEntries| g@)
}

/// The index entry of an import commit.
pub open spec fn entry_of(r: RecordView) -> EntryView {
    (r.8, r.9, r.6, r.2)
}

/// The last group of package `n`, or -1.
pub open spec fn find_group(g: Seq<GroupView>, n: Seq<char>) -> int
    decreases g.len(),
{
    if g.len() == 0 {
        -1
    } else if g.last().0 == n {
        g.len() - 1
    } else {
        find_group(g.drop_last(), n)
    }
}

/// Appends an entry to its package's group, opening the group if needed.
pub open spec fn add_entry(g: Seq<GroupView>, e: EntryView) -> Seq<GroupView> {
    let i = find_group(g, e.0);
    if i >= 0 {
        g.update(i, (g[i].0, g[i].1.push(e)))
    } else {
        g.push((e.0, seq![e]))
    }
}

/// The entries of the commits grouped by package, packages in order of
/// first appearance, entries in commit order.
pub open spec fn grouped(recs: Seq<RecordView>) -> Seq<GroupView>
    decreases recs.len(),
{
    if recs.len() == 0 {
        Seq::empty()
    } else {
        add_entry(grouped(recs.drop_last()), entry_of(recs.last()))
    }
}

proof fn lemma_find_group(g: Seq<GroupView>, n: Seq<char>)
    ensures
        -1 <= find_group(g, n) < g.len(),
        find_group(g, n) >= 0 ==> g[find_group(g, n)].0 == n,
    decreases g.len(),
{
    if g.len() > 0 {
        lemma_find_group(g.drop_last(), n);
    }
}

fn entry_from(r: &ImportRecord) -> (e: IndexEntry)
    ensures
        e@ == entry_of(r@),
{
    IndexEntry {
        name: r.name.clone(),
        version: r.version.clone(),
        path: r.path.clone(),
        uploaded_on: r.time,
    }
}

/// Groups the entries of the import commits by package.
pub fn group_entries(recs: &Vec<ImportRecord>) -> (r: Vec<PackageEntries>)
    ensures
        group_views(r@) == grouped(record_views(recs@)),
{
    let ghost s = record_views(recs@);
    let mut groups: Vec<PackageEntries> = Vec::new();
    let mut k: usize = 0;
    assert(s.take(0) == Seq::<RecordView>::empty());
    assert(group_views(groups@) == Seq::<GroupView>::empty());
    while k < recs.len()
        invariant
            s == record_views(recs@),
            k <= recs.len(),
            group_views(groups@) == grouped(s.take(k as int)),
        decreases recs.len() - k,
    {
        let e = entry_from(&recs[k]);
        let ghost g = group_views(groups@);
        proof {
            assert(s.take(k + 1).drop_last() == s.take(k as int));
            assert(s.take(k + 1).last() == recs@[k as int]@);
            lemma_find_group(g, e@.0);
        }
        let mut i: usize = groups.len();
        assert(g.take(i as int) == g);
        let mut found = false;
        while i > 0
            invariant_except_break
                !found,
            invariant
                g == group_views(groups@),
                i <= groups.len(),
                find_group(g, e@.0) == find_group(g.take(i as int), e@.0),
            ensures
                i <= groups.len(),
                found ==> i > 0 && find_group(g, e@.0) == i - 1,
                !found ==> find_group(g, e@.0) == -1,
            decreases i,
        {
            proof {
                assert(g.take(i as int).drop_last() == g.take(i - 1));
                assert(g.take(i as int).last() == g[i - 1]);
                assert(g[i - 1] == groups@[i - 1]@);
            }
            if str_eq(groups[i - 1].name.as_str(), e.name.as_str()) {
                found = true;
                break;
            }
            i = i - 1;
            if i == 0 {
                assert(g.take(0) == Seq::<GroupView>::empty());
            }
        }
        if found {
            let mut group = groups.remove(i - 1);
            let ghost old_group = group@;
            group.entries.push(e);
            assert(group@.1 =~= old_group.1.push(e@));
            groups.insert(i - 1, group);
            assert(group_views(groups@) =~= g.update(i - 1, (g[i - 1].0, g[i - 1].1.push(e@))));
        } else {
            let name = e.name.clone();
            let group = PackageEntries { name, entries: vec![e] };
            assert(group@.1 =~= seq![e@]);
            groups.push(group);
            assert(group_views(groups@) =~= g.push((e@.0, seq![e@])));
        }
        k = k + 1;
    }
    assert(s.take(k as int) == s);
    groups
}

/// A release count as a sort key, capped at the largest `i64`.
pub open spec fn count_rank(n: nat) -> int {
    if n > i64::MAX {
        -(i64::MAX as int)
    } else {
        -(n as int)
    }
}

/// Packages rank by release count, most first; among equal counts the
/// earlier package comes first.
pub open spec fn count_keys(g: Seq<GroupView>) -> Seq<(int, Seq<Seq<char>>)> {
    g.map_values(|x: GroupView| (count_rank(x.1.len()), Seq::<Seq<char>>::empty()))
}

/// The packages with the most releases, at most `TOP_PROJECTS` of them,
/// with their counts.
pub open spec fn top_projects(g: Seq<GroupView>) -> Seq<(Seq<char>, nat)> {
    let ord = stable_order(count_keys(g), g.len());
    let n = if g.len() < TOP_PROJECTS {
        g.len()
    } else {
        TOP_PROJECTS as nat
    };
    ord.take(n as int).map_values(|i: int| (g[i].0, g[i].1.len()))
}

/// Lists the packages with the most releases.
pub fn rank_projects(groups: &Vec<PackageEntries>) -> (r: Vec<(String, usize)>)
    ensures
        r@.map_values(|p: (String, usize)| (p.0@, p.1 as nat)) == top_projects(group_views(groups@)),
{
    let ghost g = group_views(groups@);
    let mut keys: Vec<SortKey> = Vec::new();
    let mut k: usize = 0;
    while k < groups.len()
        invariant
            g == group_views(groups@),
            k <= groups.len(),
            keys.len() == k,
            forall|i: int|
                0 <= i < k ==> (#[trigger] keys@[i])@ == (
                    count_rank(g[i].1.len()),
                    Seq::<Seq<char>>::empty(),
                ),
        decreases groups.len() - k,
    {
        let count = groups[k].entries.len();
        assert(g[k as int].1.len() == count);
        let primary: i64 = if count as u64 > i64::MAX as u64 {
            -i64::MAX
        } else {
            -(count as i64)
        };
        let key = SortKey { primary, rest: Vec::new() };
        assert(key@.1 =~= Seq::<Seq<char>>::empty());
        keys.push(key);
        k = k + 1;
    }
    assert(key_views(keys@) =~= count_keys(g));
    let order = sort_order(&keys);
    proof {
        lemma_stable_order(count_keys(g), g.len());
    }
    let n = if groups.len() < TOP_PROJECTS {
        groups.len()
    } else {
        TOP_PROJECTS
    };
    let ghost ord = stable_order(count_keys(g), g.len());
    let mut out: Vec<(String, usize)> = Vec::new();
    let mut m: usize = 0;
    while m < n
        invariant
            g == group_views(groups@),
            order@.map_values(|i: usize| i as int) == ord,
            permutes(ord, g.len()),
            n <= g.len(),
            m <= n,
            out@.map_values(|p: (String, usize)| (p.0@, p.1 as nat)) == ord.take(m as int).map_values(
                |i: int| (g[i].0, g[i].1.len()),
            ),
        decreases n - m,
    {
        let i = order[m];
        assert(ord[m as int] == i as int);
        let p = (groups[i].name.clone(), groups[i].entries.len());
        proof {
            assert(g[i as int] == groups@[i as int]@);
            assert(ord.take(m + 1).map_values(|i: int| (g[i].0, g[i].1.len())) =~= ord.take(
                m as int,
            ).map_values(|i: int| (g[i].0, g[i].1.len())).push((p.0@, p.1 as nat)));
            assert(out@.push(p).map_values(|p: (String, usize)| (p.0@, p.1 as nat)) =~= out@.map_values(
                |p: (String, usize)| (p.0@, p.1 as nat),
            ).push((p.0@, p.1 as nat)));
        }
        out.push(p);
        m = m + 1;
    }
    out
}

/// The earliest time among the commits.
pub open spec fn earliest(recs: Seq<RecordView>) -> i64
    recommends
        recs.len() > 0,
    decreases recs.len(),
{
    if recs.len() <= 1 {
        recs[0].2
    } else if recs.last().2 < earliest(recs.drop_last()) {
        recs.last().2
    } else {
        earliest(recs.drop_last())
    }
}

/// The latest time among the commits.
pub open spec fn latest(recs: Seq<RecordView>) -> i64
    recommends
        recs.len() > 0,
    decreases recs.len(),
{
    if recs.len() <= 1 {
        recs[0].2
    } else if recs.last().2 > latest(recs.drop_last()) {
        recs.last().2
    } else {
        latest(recs.drop_last())
    }
}

/// What the index and the summary page are made from.
pub struct IndexSummary {
    pub packages: Vec<PackageEntries>,
    pub earliest_release: i64,
    pub latest_release: i64,
    pub total_projects: usize,
    pub total_releases: usize,
    pub top_projects: Vec<(String, usize)>,
}

/// Summarises the import commits; `None` when there are none.
pub fn summarize(recs: &Vec<ImportRecord>) -> (r: Option<IndexSummary>)
    ensures
        recs@.len() == 0 <==> r is None,
        r matches Some(sm) ==> {
            let s = record_views(recs@);
            &&& group_views(sm.packages@) == grouped(s)
            &&& sm.earliest_release == earliest(s)
            &&& sm.latest_release == latest(s)
            &&& sm.total_projects == grouped(s).len()
            &&& sm.total_releases == s.len()
            &&& sm.top_projects@.map_values(|p: (String, usize)| (p.0@, p.1 as nat))
                == top_projects(grouped(s))
        },
{
    let ghost s = record_views(recs@);
    if recs.len() == 0 {
        return None;
    }
    let mut lo = recs[0].time;
    let mut hi = recs[0].time;
    let mut k: usize = 1;
    assert(s.take(1).len() == 1 && s.take(1)[0] == s[0]);
    while k < recs.len()
        invariant
            s == record_views(recs@),
            1 <= k <= recs.len(),
            lo == earliest(s.take(k as int)),
            hi == latest(s.take(k as int)),
        decreases recs.len() - k,
    {
        proof {
            assert(s.take(k + 1).drop_last() == s.take(k as int));
            assert(s.take(k + 1).last() == recs@[k as int]@);
        }
        let t = recs[k].time;
        if t < lo {
            lo = t;
        }
        if t > hi {
            hi = t;
        }
        k = k + 1;
    }
    assert(s.take(k as int) == s);
    let packages = group_entries(recs);
    let top_projects = rank_projects(&packages);
    let total_projects = packages.len();
    Some(
        IndexSummary {
            packages,
            earliest_release: lo,
            latest_release: hi,
            total_projects,
            total_releases: recs.len(),
            top_projects,
        },
    )
}

} // verus!
