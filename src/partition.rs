//! The partitioner: a catalog of release artifacts becomes time-sorted
//! shards of bounded size.

use vstd::prelude::*;

use crate::filter::{excluded_package, is_excluded_package};
use crate::order::{insert_pos, key_lt, key_views, lemma_key_lt_order, lemma_stable_order, lemma_strings_lt_total, ordered_by, permutes, sort_order, stable_order, SortKey};
use crate::release::DownloadJob;
use crate::text::has_prefix;

verus! {

pub type JobView = (Seq<char>, Seq<char>, Seq<char>, i64);

pub open spec fn job_views(v: Seq<DownloadJob>) -> Seq<JobView> {
    v.map_values(|j: DownloadJob| j@)
}

/// The jobs whose package is not on the blocklist, in order.
pub open spec fn admitted(jobs: Seq<JobView>) -> Seq<JobView>
    decreases jobs.len(),
{
    if jobs.len() == 0 {
        jobs
    } else if excluded_package(jobs.last().0) {
        admitted(jobs.drop_last())
    } else {
        admitted(jobs.drop_last()).push(jobs.last())
    }
}

/// A job's sort key: upload time, then name, version and URL.
pub open spec fn job_key(j: JobView) -> (int, Seq<Seq<char>>) {
    (j.3 as int, seq![j.0, j.1, j.2])
}

pub open spec fn job_keys(jobs: Seq<JobView>) -> Seq<(int, Seq<Seq<char>>)> {
    jobs.map_values(|j: JobView| job_key(j))
}

/// The jobs in stable order of their keys.
pub open spec fn sorted_jobs(jobs: Seq<JobView>) -> Seq<JobView> {
    stable_order(job_keys(jobs), jobs.len()).map_values(|i: int| jobs[i])
}

/// `s` cut into consecutive pieces of `split` elements, the last one
/// possibly shorter.
pub open spec fn chunks_of<T>(s: Seq<T>, split: nat) -> Seq<Seq<T>>
    decreases s.len(),
{
    if s.len() == 0 || split == 0 {
        Seq::empty()
    } else {
        let m = if split < s.len() {
            split
        } else {
            s.len()
        };
        seq![s.take(m as int)] + chunks_of(s.skip(m as int), split)
    }
}

/// The shards of a catalog.
pub open spec fn partitioned(jobs: Seq<JobView>, split: nat) -> Seq<Seq<JobView>> {
    chunks_of(sorted_jobs(admitted(jobs)), split)
}

fn admit_jobs(jobs: &Vec<DownloadJob>) -> (r: Vec<DownloadJob>)
    ensures
        job_views(r@) == admitted(job_views(jobs@)),
{
    let ghost s = job_views(jobs@);
    let mut out: Vec<DownloadJob> = Vec::new();
    let mut k: usize = 0;
    assert(s.take(0) == Seq::<JobView>::empty());
    assert(job_views(out@) == Seq::<JobView>::empty());
    while k < jobs.len()
        invariant
            s == job_views(jobs@),
            k <= jobs.len(),
            job_views(out@) == admitted(s.take(k as int)),
        decreases jobs.len() - k,
    {
        proof {
            assert(s.take(k + 1).drop_last() == s.take(k as int));
            assert(s.take(k + 1).last() == jobs@[k as int]@);
        }
        if !is_excluded_package(jobs[k].name.as_str()) {
            let j = jobs[k].clone();
            assert(job_views(out@.push(j)) == job_views(out@).push(j@));
            out.push(j);
        }
        k = k + 1;
    }
    assert(s.take(jobs.len() as int) == s);
    out
}

fn sort_jobs(jobs: &Vec<DownloadJob>) -> (r: Vec<DownloadJob>)
    ensures
        job_views(r@) == sorted_jobs(job_views(jobs@)),
{
    let ghost s = job_views(jobs@);
    let mut keys: Vec<SortKey> = Vec::new();
    let mut k: usize = 0;
    while k < jobs.len()
        invariant
            s == job_views(jobs@),
            k <= jobs.len(),
            keys.len() == k,
            forall|i: int| 0 <= i < k ==> (#[trigger] keys@[i])@ == job_key(s[i]),
        decreases jobs.len() - k,
    {
        let j = &jobs[k];
        let rest = vec![j.name.clone(), j.version.clone(), j.url.clone()];
        let key = SortKey { primary: j.uploaded_on, rest };
        assert(key@.1 =~= seq![j.name@, j.version@, j.url@]);
        keys.push(key);
        k = k + 1;
    }
    assert(key_views(keys@) =~= job_keys(s));
    let order = sort_order(&keys);
    let ghost ord = order@.map_values(|i: usize| i as int);
    proof {
        lemma_stable_order(job_keys(s), s.len());
    }
    let mut out: Vec<DownloadJob> = Vec::new();
    let mut m: usize = 0;
    while m < order.len()
        invariant
            s == job_views(jobs@),
            ord == order@.map_values(|i: usize| i as int),
            ord == stable_order(job_keys(s), s.len()),
            permutes(ord, s.len()),
            m <= order.len(),
            job_views(out@) == ord.take(m as int).map_values(|i: int| s[i]),
        decreases order.len() - m,
    {
        assert(ord[m as int] == order@[m as int] as int);
        let j = jobs[order[m]].clone();
        proof {
            assert(ord.take(m + 1).map_values(|i: int| s[i]) =~= ord.take(m as int).map_values(
                |i: int| s[i],
            ).push(j@));
            assert(job_views(out@.push(j)) == job_views(out@).push(j@));
        }
        out.push(j);
        m = m + 1;
    }
    assert(ord.take(order.len() as int) == ord);
    out
}

/// Cuts the sorted jobs into shards of `split` jobs.
fn chunk_jobs(jobs: Vec<DownloadJob>, split: usize) -> (r: Vec<Vec<DownloadJob>>)
    requires
        split > 0,
    ensures
        r@.map_values(|c: Vec<DownloadJob>| job_views(c@)) == chunks_of(job_views(jobs@), split as nat),
{
    let ghost s = job_views(jobs@);
    let n = jobs.len();
    let mut out: Vec<Vec<DownloadJob>> = Vec::new();
    let mut start: usize = 0;
    assert(s.skip(0) == s);
    while start < n
        invariant
            s == job_views(jobs@),
            n == jobs.len(),
            split > 0,
            start <= n,
            out@.map_values(|c: Vec<DownloadJob>| job_views(c@)) + chunks_of(s.skip(start as int), split as nat)
                == chunks_of(s, split as nat),
        decreases n - start,
    {
        let end = if n - start > split { start + split } else { n };
        let mut chunk: Vec<DownloadJob> = Vec::new();
        let mut i: usize = start;
        while i < end
            invariant
                s == job_views(jobs@),
                n == jobs.len(),
                start <= i <= end <= n,
                job_views(chunk@) == s.subrange(start as int, i as int),
            decreases end - i,
        {
            let j = jobs[i].clone();
            proof {
                assert(job_views(chunk@.push(j)) == job_views(chunk@).push(j@));
                assert(s.subrange(start as int, i + 1) == s.subrange(start as int, i as int).push(
                    s[i as int],
                ));
            }
            chunk.push(j);
            i = i + 1;
        }
        proof {
            let rest = s.skip(start as int);
            let m = (end - start) as int;
            assert(rest.take(m) == s.subrange(start as int, end as int));
            assert(rest.skip(m) == s.skip(end as int));
            assert(chunks_of(rest, split as nat) == seq![rest.take(m)] + chunks_of(rest.skip(m), split as nat));
            let before = out@.map_values(|c: Vec<DownloadJob>| job_views(c@));
            assert(out@.push(chunk).map_values(|c: Vec<DownloadJob>| job_views(c@)) == before.push(
                job_views(chunk@),
            ));
            assert(before.push(job_views(chunk@)) + chunks_of(s.skip(end as int), split as nat) == before + (
            seq![job_views(chunk@)] + chunks_of(s.skip(end as int), split as nat)));
        }
        out.push(chunk);
        start = end;
    }
    proof {
        assert(s.skip(n as int).len() == 0);
        assert(out@.map_values(|c: Vec<DownloadJob>| job_views(c@)) + Seq::<Seq<JobView>>::empty()
            == out@.map_values(|c: Vec<DownloadJob>| job_views(c@)));
    }
    out
}

/// Partitions a catalog: drops the jobs of blocklisted packages, sorts the
/// rest by upload time (ties by name, version and URL) and cuts them into
/// shards of `split` jobs.
pub fn partition(jobs: &Vec<DownloadJob>, split: usize) -> (r: Vec<Vec<DownloadJob>>)
    requires
        split > 0,
    ensures
        r@.map_values(|c: Vec<DownloadJob>| job_views(c@)) == partitioned(job_views(jobs@), split as nat),
{
    let admitted_jobs = admit_jobs(jobs);
    let sorted = sort_jobs(&admitted_jobs);
    chunk_jobs(sorted, split)
}

proof fn lemma_chunks_flatten<T>(s: Seq<T>, split: nat)
    requires
        split > 0,
    ensures
        chunks_of(s, split).flatten() == s,
    decreases s.len(),
{
    if s.len() > 0 {
        let m = if split < s.len() {
            split
        } else {
            s.len()
        };
        lemma_chunks_flatten(s.skip(m as int), split);
        let c = chunks_of(s, split);
        assert(c.drop_first() == chunks_of(s.skip(m as int), split));
        assert(c.first() == s.take(m as int));
        assert(s.take(m as int) + s.skip(m as int) == s);
    }
}

/// Shards are a function of the catalog: two runs on the same catalog give
/// the same shards. Read in order, the shards hold every admitted job once,
/// and no job comes before one with a smaller key (upload time, then name,
/// version and URL).
pub proof fn lemma_partition_deterministic(a: Seq<JobView>, b: Seq<JobView>, split: nat)
    requires
        a == b,
        split > 0,
    ensures
        partitioned(a, split) == partitioned(b, split),
        partitioned(a, split).flatten() == sorted_jobs(admitted(a)),
        permutes(stable_order(job_keys(admitted(a)), admitted(a).len()), admitted(a).len()),
        forall|i: int, j: int|
            0 <= i < j < partitioned(a, split).flatten().len() ==> !key_lt(
                job_key(#[trigger] partitioned(a, split).flatten()[j]),
                job_key(#[trigger] partitioned(a, split).flatten()[i]),
            ),
{
    let s = admitted(a);
    lemma_chunks_flatten(sorted_jobs(s), split);
    let ks = job_keys(s);
    lemma_stable_order(ks, s.len());
    let ord = stable_order(ks, s.len());
    let f = sorted_jobs(s);
    assert forall|i: int, j: int| 0 <= i < j < f.len() implies !key_lt(
        job_key(#[trigger] f[j]),
        job_key(#[trigger] f[i]),
    ) by {
        assert(f[i] == s[ord[i]] && f[j] == s[ord[j]]);
        assert(ks[ord[i]] == job_key(s[ord[i]]));
        assert(ks[ord[j]] == job_key(s[ord[j]]));
        assert(!key_lt(ks[ord[j]], ks[ord[i]]));
    }
}

proof fn lemma_admitted_count(a: Seq<JobView>, x: JobView)
    ensures
        admitted(a).to_multiset().count(x) == if excluded_package(x.0) {
            0
        } else {
            a.to_multiset().count(x)
        },
    decreases a.len(),
{
    broadcast use vstd::seq_lib::group_to_multiset_ensures, vstd::multiset::group_multiset_axioms;

    if a.len() == 0 {
        assert(admitted(a) == a);
    } else {
        let init = a.drop_last();
        lemma_admitted_count(init, x);
        assert(init.push(a.last()) == a);
    }
}

proof fn lemma_sorted_jobs_multiset(s: Seq<JobView>, n: nat)
    requires
        n <= s.len(),
    ensures
        stable_order(job_keys(s), n).map_values(|i: int| s[i]).to_multiset() == s.take(
            n as int,
        ).to_multiset(),
    decreases n,
{
    broadcast use vstd::seq_lib::group_to_multiset_ensures;

    let ks = job_keys(s);
    if n == 0 {
        assert(stable_order(ks, 0).map_values(|i: int| s[i]) =~= Seq::<JobView>::empty());
        assert(s.take(0) =~= Seq::<JobView>::empty());
    } else {
        let m = (n - 1) as nat;
        lemma_sorted_jobs_multiset(s, m);
        lemma_stable_order(ks, m);
        let t = stable_order(ks, m);
        let p = insert_pos(ks, t, n - 1);
        lemma_insert_pos_bound(ks, t, n - 1);
        let f = t.map_values(|i: int| s[i]);
        assert(stable_order(ks, n).map_values(|i: int| s[i]) =~= f.insert(p, s[n - 1]));
        vstd::seq_lib::to_multiset_insert(f, p, s[n - 1]);
        assert(s.take(n as int) =~= s.take(m as int).push(s[n - 1]));
    }
}

proof fn lemma_insert_pos_bound(keys: Seq<(int, Seq<Seq<char>>)>, s: Seq<int>, x: int)
    ensures
        0 <= insert_pos(keys, s, x) <= s.len(),
    decreases s.len(),
{
    if s.len() > 0 {
        lemma_insert_pos_bound(keys, s.drop_last(), x);
    }
}

/// Jobs in order of their keys.
pub open spec fn jobs_ordered(x: Seq<JobView>) -> bool {
    forall|i: int, j: int|
        0 <= i < j < x.len() ==> !key_lt(job_key(#[trigger] x[j]), job_key(#[trigger] x[i]))
}

proof fn lemma_sorted_jobs_ordered(s: Seq<JobView>)
    ensures
        jobs_ordered(sorted_jobs(s)),
        sorted_jobs(s).to_multiset() == s.to_multiset(),
{
    let ks = job_keys(s);
    lemma_stable_order(ks, s.len());
    lemma_sorted_jobs_multiset(s, s.len());
    assert(s.take(s.len() as int) == s);
    let ord = stable_order(ks, s.len());
    let f = sorted_jobs(s);
    assert forall|i: int, j: int| 0 <= i < j < f.len() implies !key_lt(
        job_key(#[trigger] f[j]),
        job_key(#[trigger] f[i]),
    ) by {
        assert(f[i] == s[ord[i]] && f[j] == s[ord[j]]);
        assert(ks[ord[i]] == job_key(s[ord[i]]));
        assert(ks[ord[j]] == job_key(s[ord[j]]));
    }
}

proof fn lemma_job_key_total(a: JobView, b: JobView)
    requires
        !key_lt(job_key(a), job_key(b)),
        !key_lt(job_key(b), job_key(a)),
    ensures
        a == b,
{
    lemma_key_lt_order(job_key(a), job_key(b), job_key(a));
    lemma_strings_lt_total(job_key(a).1, job_key(b).1);
    assert(job_key(a).1 == job_key(b).1);
    assert(job_key(a).1[0] == a.0 && job_key(b).1[0] == b.0);
    assert(job_key(a).1[1] == a.1 && job_key(b).1[1] == b.1);
    assert(job_key(a).1[2] == a.2 && job_key(b).1[2] == b.2);
}

proof fn lemma_ordered_unique(x: Seq<JobView>, y: Seq<JobView>)
    requires
        jobs_ordered(x),
        jobs_ordered(y),
        x.to_multiset() == y.to_multiset(),
    ensures
        x == y,
    decreases x.len(),
{
    broadcast use vstd::seq_lib::group_to_multiset_ensures, vstd::multiset::group_multiset_axioms;

    if x.len() == 0 {
        assert(y.to_multiset().len() == 0);
        assert(y.len() == 0);
        assert(x =~= y);
    } else {
        assert(x.len() == x.to_multiset().len());
        assert(y.len() == y.to_multiset().len());
        assert(y.len() == x.len());
        assert(x.to_multiset().count(x[0]) > 0);
        assert(y.contains(x[0]));
        let k = choose|k: int| 0 <= k < y.len() && y[k] == x[0];
        assert(y.to_multiset().count(y[0]) > 0);
        assert(x.contains(y[0]));
        let l = choose|l: int| 0 <= l < x.len() && x[l] == y[0];
        if k > 0 {
            assert(!key_lt(job_key(y[k]), job_key(y[0])));
        }
        if l > 0 {
            assert(!key_lt(job_key(x[l]), job_key(x[0])));
        }
        lemma_key_lt_order(job_key(x[0]), job_key(x[0]), job_key(x[0]));
        lemma_job_key_total(x[0], y[0]);
        let xt = x.drop_first();
        let yt = y.drop_first();
        assert(x.remove(0) =~= xt);
        assert(y.remove(0) =~= yt);
        assert(xt.to_multiset() == x.to_multiset().remove(x[0]));
        assert(yt.to_multiset() == y.to_multiset().remove(y[0]));
        assert forall|i: int, j: int| 0 <= i < j < xt.len() implies !key_lt(
            job_key(#[trigger] xt[j]),
            job_key(#[trigger] xt[i]),
        ) by {
            assert(xt[i] == x[i + 1] && xt[j] == x[j + 1]);
        }
        assert forall|i: int, j: int| 0 <= i < j < yt.len() implies !key_lt(
            job_key(#[trigger] yt[j]),
            job_key(#[trigger] yt[i]),
        ) by {
            assert(yt[i] == y[i + 1] && yt[j] == y[j + 1]);
        }
        lemma_ordered_unique(xt, yt);
        assert(x =~= seq![x[0]] + xt);
        assert(y =~= seq![y[0]] + yt);
    }
}

/// Shards do not depend on the order the catalog's jobs are read in: two
/// catalogs holding the same jobs, each as often, give the same shards.
pub proof fn lemma_partition_order_independent(a: Seq<JobView>, b: Seq<JobView>, split: nat)
    requires
        a.to_multiset() == b.to_multiset(),
    ensures
        partitioned(a, split) == partitioned(b, split),
{
    let sa = admitted(a);
    let sb = admitted(b);
    assert(sa.to_multiset() =~= sb.to_multiset()) by {
        assert forall|x: JobView| sa.to_multiset().count(x) == sb.to_multiset().count(x) by {
            lemma_admitted_count(a, x);
            lemma_admitted_count(b, x);
        }
    }
    lemma_sorted_jobs_ordered(sa);
    lemma_sorted_jobs_ordered(sb);
    lemma_ordered_unique(sorted_jobs(sa), sorted_jobs(sb));
}

/// The shards kept under a limit: none given keeps all; a limit of `n`
/// keeps, from the latest shard backwards, `n` shards after the latest one.
pub open spec fn limited<T>(chunks: Seq<T>, limit: Option<nat>) -> Seq<T> {
    match limit {
        None => chunks,
        Some(n) => {
            let rev = chunks.reverse();
            let rest = if rev.len() > 0 {
                rev.drop_first()
            } else {
                rev
            };
            rest.take(if n < rest.len() {
                n as int
            } else {
                rest.len() as int
            })
        },
    }
}

/// Applies the shard limit.
pub fn select_chunks(chunks: Vec<Vec<DownloadJob>>, limit: Option<usize>) -> (r: Vec<
    Vec<DownloadJob>,
>)
    ensures
        r@ == limited(chunks@, match limit {
            Some(n) => Some(n as nat),
            None => None,
        }),
{
    match limit {
        None => chunks,
        Some(n) => {
            let ghost all = chunks@;
            let mut rest = chunks;
            if rest.len() > 0 {
                rest.pop();
            }
            let ghost rest0 = rest@;
            let ghost tail = if all.reverse().len() > 0 {
                all.reverse().drop_first()
            } else {
                all.reverse()
            };
            proof {
                if all.len() > 0 {
                    assert(rest0 == all.drop_last());
                    assert(tail =~= rest0.reverse());
                } else {
                    assert(tail =~= rest0.reverse());
                }
            }
            let mut out: Vec<Vec<DownloadJob>> = Vec::new();
            while out.len() < n && rest.len() > 0
                invariant
                    tail == rest0.reverse(),
                    out@.len() <= rest0.len(),
                    out@.len() <= n,
                    rest@ == rest0.take(rest0.len() - out@.len()),
                    out@ == tail.take(out@.len() as int),
                decreases rest.len(),
            {
                let ghost m = out@.len();
                let c = rest.pop().unwrap();
                proof {
                    assert(c == rest0[rest0.len() - 1 - m]);
                    assert(tail[m as int] == c);
                    assert(tail.take(m as int + 1) == tail.take(m as int).push(c));
                    assert(rest@ == rest0.take(rest0.len() - (m + 1)));
                }
                out.push(c);
            }
            assert(tail.len() == rest0.len());
            assert(out@.len() == (if (n as nat) < tail.len() {
                n as int
            } else {
                tail.len() as int
            }));
            out
        },
    }
}

/// The pieces of `s` between newlines and spaces.
pub open spec fn split_words(s: Seq<char>) -> Seq<Seq<char>>
    decreases s.len(),
{
    if s.len() == 0 {
        seq![Seq::<char>::empty()]
    } else {
        let init = split_words(s.drop_last());
        if s.last() == '\n' || s.last() == ' ' {
            init.push(Seq::<char>::empty())
        } else {
            init.update(init.len() - 1, init.last().push(s.last()))
        }
    }
}

proof fn lemma_split_words_nonempty(s: Seq<char>)
    ensures
        split_words(s).len() >= 1,
    decreases s.len(),
{
    if s.len() > 0 {
        lemma_split_words_nonempty(s.drop_last());
    }
}

fn words(s: &str) -> (r: Vec<String>)
    ensures
        r@.map_values(|x: String| x@) == split_words(s@),
{
    let n = s.unicode_len();
    let mut out: Vec<String> = Vec::new();
    let mut start: usize = 0;
    let mut i: usize = 0;
    assert(s@.subrange(0, 0) == Seq::<char>::empty());
    assert(out@.map_values(|x: String| x@) == Seq::<Seq<char>>::empty());
    while i < n
        invariant
            n == s@.len(),
            start <= i <= n,
            out@.map_values(|x: String| x@).push(s@.subrange(start as int, i as int))
                == split_words(s@.subrange(0, i as int)),
        decreases n - i,
    {
        let c = s.get_char(i);
        proof {
            let t = s@.subrange(0, i + 1);
            assert(t.drop_last() == s@.subrange(0, i as int));
            assert(t.last() == c);
        }
        if c == '\n' || c == ' ' {
            let piece = s.substring_char(start, i).to_string();
            proof {
                assert(out@.push(piece).map_values(|x: String| x@) == out@.map_values(
                    |x: String| x@,
                ).push(piece@));
            }
            out.push(piece);
            start = i + 1;
            assert(s@.subrange(start as int, i + 1) == Seq::<char>::empty());
        } else {
            assert(s@.subrange(start as int, i + 1) == s@.subrange(start as int, i as int).push(
                c,
            ));
        }
        i = i + 1;
    }
    let last = s.substring_char(start, n).to_string();
    proof {
        assert(out@.push(last).map_values(|x: String| x@) == out@.map_values(|x: String| x@).push(
            last@,
        ));
        assert(s@.subrange(0, n as int) == s@);
    }
    out.push(last);
    out
}

/// A string without its leading and trailing white space.
pub uninterp spec fn trimmed(s: Seq<char>) -> Seq<char>;

/// Relies on str::trim, which removes leading and trailing Unicode white
/// space.
#[verifier::external_body]
fn trim_text(s: &str) -> (r: String)
    ensures
        r@ == trimmed(s@),
{
    s.trim().to_string()
}

/// The package names a word list asks for: non-empty words, trimmed, that
/// do not start a `#` comment.
pub open spec fn kept_words(ws: Seq<Seq<char>>) -> Seq<Seq<char>>
    decreases ws.len(),
{
    if ws.len() == 0 {
        Seq::empty()
    } else {
        let init = kept_words(ws.drop_last());
        let w = ws.last();
        if w.len() > 0 && !has_prefix(trimmed(w), "#"@) {
            init.push(trimmed(w))
        } else {
            init
        }
    }
}

/// The package names that `--find` arguments ask for, in order.
pub open spec fn find_names(args: Seq<Seq<char>>) -> Seq<Seq<char>>
    decreases args.len(),
{
    if args.len() == 0 {
        Seq::empty()
    } else {
        find_names(args.drop_last()) + kept_words(split_words(args.last()))
    }
}

/// Reads the package names out of `--find` arguments: each argument is
/// split on newlines and spaces, empty words are dropped, the rest trimmed,
/// and words starting with `#` are comments.
pub fn parse_find_list(args: &Vec<String>) -> (r: Vec<String>)
    ensures
        r@.map_values(|x: String| x@) == find_names(args@.map_values(|x: String| x@)),
{
    let ghost a = args@.map_values(|x: String| x@);
    let mut out: Vec<String> = Vec::new();
    let mut k: usize = 0;
    assert(a.take(0) == Seq::<Seq<char>>::empty());
    assert(out@.map_values(|x: String| x@) == Seq::<Seq<char>>::empty());
    while k < args.len()
        invariant
            a == args@.map_values(|x: String| x@),
            k <= args.len(),
            out@.map_values(|x: String| x@) == find_names(a.take(k as int)),
        decreases args.len() - k,
    {
        let ws = words(args[k].as_str());
        let ghost wv = ws@.map_values(|x: String| x@);
        let ghost before = out@.map_values(|x: String| x@);
        proof {
            assert(a.take(k + 1).drop_last() == a.take(k as int));
            assert(a.take(k + 1).last() == args@[k as int]@);
            assert(wv.take(0) == Seq::<Seq<char>>::empty());
            assert(before + kept_words(wv.take(0)) == before);
        }
        let mut j: usize = 0;
        while j < ws.len()
            invariant
                wv == ws@.map_values(|x: String| x@),
                j <= ws.len(),
                out@.map_values(|x: String| x@) == before + kept_words(wv.take(j as int)),
            decreases ws.len() - j,
        {
            proof {
                assert(wv.take(j + 1).drop_last() == wv.take(j as int));
                assert(wv.take(j + 1).last() == ws@[j as int]@);
            }
            let w = ws[j].as_str();
            if w.unicode_len() > 0 {
                let t = trim_text(w);
                if !crate::filter::starts_with(t.as_str(), "#") {
                    proof {
                        assert(out@.push(t).map_values(|x: String| x@) == out@.map_values(
                            |x: String| x@,
                        ).push(t@));
                        assert((before + kept_words(wv.take(j as int))).push(t@) == before
                            + kept_words(wv.take(j as int)).push(t@));
                    }
                    out.push(t);
                }
            }
            j = j + 1;
        }
        assert(wv.take(j as int) == wv);
        k = k + 1;
    }
    assert(a.take(k as int) == a);
    out
}

} // verus!
