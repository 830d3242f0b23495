//! Entry paths inside an artifact: normalisation and the common top-level
//! directory that many archives wrap their contents in.

use vstd::prelude::*;

use crate::text::{split_segments, split_slash, str_eq, lemma_split_slash_nonempty};

verus! {

pub open spec fn dot() -> Seq<char> {
    seq!['.']
}

pub open spec fn dot_dot() -> Seq<char> {
    seq!['.', '.']
}

pub open spec fn dot_git() -> Seq<char> {
    seq!['.', 'g', 'i', 't']
}

pub open spec fn dot_git_renamed() -> Seq<char> {
    seq!['d', 'o', 't', '-', 'g', 'i', 't']
}

pub open spec fn no_slash(s: Seq<char>) -> bool {
    forall|i: int| 0 <= i < s.len() ==> s[i] != '/'
}

/// A segment that survives normalisation: not empty, not `.` and not `..`.
pub open spec fn kept_segment(seg: Seq<char>) -> bool {
    seg.len() > 0 && seg != dot() && seg != dot_dot()
}

/// A `.git` segment is renamed so that the produced tree stays valid.
pub open spec fn renamed_segment(seg: Seq<char>) -> Seq<char> {
    if seg == dot_git() {
        dot_git_renamed()
    } else {
        seg
    }
}

/// A segment as it may appear in a normalised path.
pub open spec fn clean_segment(seg: Seq<char>) -> bool {
    kept_segment(seg) && seg != dot_git() && no_slash(seg)
}

/// The segments that normalisation keeps, renamed, in order.
pub open spec fn clean_segments(segs: Seq<Seq<char>>) -> Seq<Seq<char>>
    decreases segs.len(),
{
    if segs.len() == 0 {
        segs
    } else {
        let init = clean_segments(segs.drop_last());
        if kept_segment(segs.last()) {
            init.push(renamed_segment(segs.last()))
        } else {
            init
        }
    }
}

/// Segments joined with single slashes.
pub open spec fn join_slash(segs: Seq<Seq<char>>) -> Seq<char>
    decreases segs.len(),
{
    if segs.len() == 0 {
        Seq::<char>::empty()
    } else if segs.len() == 1 {
        segs[0]
    } else {
        join_slash(segs.drop_last()) + seq!['/'] + segs.last()
    }
}

/// The normalised form of an entry name: empty, `.` and `..` segments are
/// dropped (purely textually) and `.git` becomes `dot-git`.
pub open spec fn normalized(name: Seq<char>) -> Seq<char> {
    join_slash(clean_segments(split_slash(name)))
}

/// Normalises an entry name.
pub fn normalize_path(name: &str) -> (r: String)
    ensures
        r@ == normalized(name@),
{
    let segs = split_segments(name);
    let ghost views = segs@.map_values(|x: String| x@);
    let mut out = String::new();
    let mut any = false;
    let mut k: usize = 0;
    proof {
        reveal_strlit(".");
        reveal_strlit("..");
        reveal_strlit(".git");
        reveal_strlit("dot-git");
        reveal_strlit("/");
        assert(views.take(0) == Seq::<Seq<char>>::empty());
    }
    while k < segs.len()
        invariant
            views == segs@.map_values(|x: String| x@),
            k <= segs.len(),
            any == (clean_segments(views.take(k as int)).len() > 0),
            out@ == join_slash(clean_segments(views.take(k as int))),
            ".."@ == dot_dot(),
            "."@ == dot(),
            ".git"@ == dot_git(),
            "dot-git"@ == dot_git_renamed(),
            "/"@ == seq!['/'],
        decreases segs.len() - k,
    {
        let seg = segs[k].as_str();
        let ghost before = clean_segments(views.take(k as int));
        proof {
            assert(views.take(k + 1).drop_last() == views.take(k as int));
            assert(views.take(k + 1).last() == seg@);
        }
        let keep = seg.unicode_len() > 0 && !str_eq(seg, ".") && !str_eq(seg, "..");
        if keep {
            if any {
                out.append("/");
            }
            if str_eq(seg, ".git") {
                out.append("dot-git");
            } else {
                out.append(seg);
            }
            proof {
                let after = before.push(renamed_segment(seg@));
                assert(after.drop_last() == before);
            }
            any = true;
        }
        k = k + 1;
    }
    proof {
        assert(views.take(segs.len() as int) == views);
    }
    out
}

proof fn lemma_split_append(a: Seq<char>, b: Seq<char>)
    requires
        no_slash(b),
    ensures
        split_slash(a + b) == split_slash(a).update(
            split_slash(a).len() - 1,
            split_slash(a).last() + b,
        ),
    decreases b.len(),
{
    lemma_split_slash_nonempty(a);
    if b.len() == 0 {
        assert(a + b == a);
        assert(split_slash(a).last() + b == split_slash(a).last());
        assert(split_slash(a).update(split_slash(a).len() - 1, split_slash(a).last())
            == split_slash(a));
    } else {
        let b0 = b.drop_last();
        lemma_split_append(a, b0);
        assert((a + b).drop_last() == a + b0);
        assert((a + b).last() == b.last());
        assert(split_slash(a).last() + b0 + seq![b.last()] == split_slash(a).last() + b);
        assert((split_slash(a).last() + b0).push(b.last()) == split_slash(a).last() + b);
    }
}

proof fn lemma_split_join(segs: Seq<Seq<char>>)
    requires
        segs.len() >= 1,
        forall|i: int| 0 <= i < segs.len() ==> no_slash(#[trigger] segs[i]),
    ensures
        split_slash(join_slash(segs)) == segs,
    decreases segs.len(),
{
    if segs.len() == 1 {
        lemma_split_append(Seq::<char>::empty(), segs[0]);
        assert(Seq::<char>::empty() + segs[0] == segs[0]);
        assert(split_slash(Seq::<char>::empty()) == seq![Seq::<char>::empty()]);
        assert(Seq::<char>::empty() + segs[0] == segs[0]);
        assert(segs == seq![segs[0]]);
    } else {
        let init = segs.drop_last();
        lemma_split_join(init);
        let a = join_slash(init) + seq!['/'];
        lemma_split_append(a, segs.last());
        assert(a.drop_last() == join_slash(init));
        assert(a.last() == '/');
        assert(split_slash(a) == init.push(Seq::<char>::empty()));
        assert(Seq::<char>::empty() + segs.last() == segs.last());
        assert(init.push(segs.last()) == segs);
    }
}

proof fn lemma_split_no_slash(s: Seq<char>)
    ensures
        forall|i: int| 0 <= i < split_slash(s).len() ==> no_slash(#[trigger] split_slash(s)[i]),
    decreases s.len(),
{
    lemma_split_slash_nonempty(s);
    if s.len() > 0 {
        lemma_split_no_slash(s.drop_last());
        lemma_split_slash_nonempty(s.drop_last());
        let init = split_slash(s.drop_last());
        if s.last() != '/' {
            let l = init.last().push(s.last());
            assert(no_slash(init[init.len() - 1]));
            assert(no_slash(l));
        }
    }
}

proof fn lemma_clean_segments_clean(segs: Seq<Seq<char>>)
    requires
        forall|i: int| 0 <= i < segs.len() ==> no_slash(#[trigger] segs[i]),
    ensures
        forall|i: int|
            0 <= i < clean_segments(segs).len() ==> clean_segment(#[trigger] clean_segments(segs)[i]),
    decreases segs.len(),
{
    if segs.len() > 0 {
        let init = segs.drop_last();
        assert forall|i: int| 0 <= i < init.len() implies no_slash(#[trigger] init[i]) by {
            assert(init[i] == segs[i]);
        }
        lemma_clean_segments_clean(init);
        let l = segs.last();
        assert(no_slash(segs[segs.len() - 1]));
        if kept_segment(l) {
            let r = renamed_segment(l);
            assert(dot_git_renamed() != dot_git()) by {
                assert(dot_git_renamed().len() != dot_git().len());
            }
            assert(dot_git_renamed() != dot()) by {
                assert(dot_git_renamed().len() != dot().len());
            }
            assert(dot_git_renamed() != dot_dot()) by {
                assert(dot_git_renamed().len() != dot_dot().len());
            }
            assert(no_slash(dot_git_renamed()));
            assert(clean_segment(r));
            let c = clean_segments(init).push(r);
            assert forall|i: int| 0 <= i < c.len() implies clean_segment(#[trigger] c[i]) by {
                if i < c.len() - 1 {
                    assert(c[i] == clean_segments(init)[i]);
                }
            }
        }
    }
}

proof fn lemma_clean_segments_fixed(segs: Seq<Seq<char>>)
    requires
        forall|i: int| 0 <= i < segs.len() ==> clean_segment(#[trigger] segs[i]),
    ensures
        clean_segments(segs) == segs,
    decreases segs.len(),
{
    if segs.len() > 0 {
        let init = segs.drop_last();
        assert forall|i: int| 0 <= i < init.len() implies clean_segment(#[trigger] init[i]) by {
            assert(init[i] == segs[i]);
        }
        lemma_clean_segments_fixed(init);
        assert(clean_segment(segs[segs.len() - 1]));
        assert(segs.drop_last().push(segs.last()) == segs);
    }
}

/// Normalising twice changes nothing more than normalising once, and every
/// segment of a normalised path is a clean one: no empty segment (so no `//`),
/// no `.` or `..` segment, and no segment equal to `.git`.
pub proof fn lemma_normalized_idempotent(name: Seq<char>)
    ensures
        normalized(normalized(name)) == normalized(name),
        normalized(name).len() > 0 ==> forall|i: int|
            0 <= i < split_slash(normalized(name)).len() ==> clean_segment(
                #[trigger] split_slash(normalized(name))[i],
            ),
        forall|i: int|
            0 <= i < split_slash(normalized(name)).len() ==> #[trigger] split_slash(
                normalized(name),
            )[i] != dot_git(),
{
    let c = clean_segments(split_slash(name));
    lemma_split_no_slash(name);
    lemma_clean_segments_clean(split_slash(name));
    if c.len() == 0 {
        let e = Seq::<char>::empty();
        assert(normalized(name) == e);
        assert(split_slash(e) == seq![e]);
        let s1 = seq![e];
        assert(s1.drop_last() == Seq::<Seq<char>>::empty());
        assert(s1.last() == e);
        assert(!kept_segment(e));
        assert(clean_segments(s1) == clean_segments(s1.drop_last()));
        assert(clean_segments(s1) == Seq::<Seq<char>>::empty());
        assert(e != dot_git());
    } else {
        assert forall|i: int| 0 <= i < c.len() implies no_slash(#[trigger] c[i]) by {
            assert(clean_segment(c[i]));
        }
        lemma_split_join(c);
        lemma_clean_segments_fixed(c);
    }
}

} // verus!
