//! Entry selection: filters a raw directory listing to eligible post
//! files, ranks them by modification time with a stable insertion sort,
//! and keeps only the most recent ones up to a fixed cap.

use vstd::multiset::Multiset;
use vstd::prelude::*;

use crate::strs::{seq_ends_with, seq_starts_with, str_ends_with, str_starts_with};
use crate::types::{CandView, Candidate, RawEntry, RawView};

verus! {

/// A file name the selector accepts: one of the two recognized post
/// extensions, and not the directory's own index page.
pub open spec fn name_eligible(n: Seq<char>) -> bool {
    (seq_ends_with(n, ".gmi"@) || seq_ends_with(n, ".gemini"@)) && !seq_starts_with(n, "index."@)
}

/// A listing entry the selector retains: a regular file, world-readable,
/// whose name decodes as text and is an eligible post name.
pub open spec fn eligible(e: RawView) -> bool {
    &&& e.is_file
    &&& e.mode & 4 != 0
    &&& e.name matches Some(n) && name_eligible(n)
}

/// The candidate a retained listing entry turns into.
pub open spec fn cand_of(e: RawView) -> CandView {
    CandView {
        name: match e.name {
            Some(n) => n,
            None => Seq::empty(),
        },
        secs: e.secs,
        nanos: e.nanos,
    }
}

/// The candidates of the eligible entries of `l`, in listing order.
pub open spec fn eligible_cands(l: Seq<RawView>) -> Seq<CandView>
    decreases l.len(),
{
    if l.len() == 0 {
        Seq::empty()
    } else if eligible(l.last()) {
        eligible_cands(l.drop_last()).push(cand_of(l.last()))
    } else {
        eligible_cands(l.drop_last())
    }
}

/// Ranking order: by seconds, then by nanoseconds.
pub open spec fn key_le(a: CandView, b: CandView) -> bool {
    a.secs < b.secs || (a.secs == b.secs && a.nanos <= b.nanos)
}

/// `x` placed into `s` after every element it does not strictly precede;
/// on a sorted `s` this keeps equal-time elements in their old order.
pub open spec fn insort(s: Seq<CandView>, x: CandView) -> Seq<CandView>
    decreases s.len(),
{
    if s.len() == 0 {
        seq![x]
    } else if key_le(s.last(), x) {
        s.push(x)
    } else {
        insort(s.drop_last(), x).push(s.last())
    }
}

/// Stable insertion sort by modification time.
pub open spec fn sort_by_time(s: Seq<CandView>) -> Seq<CandView>
    decreases s.len(),
{
    if s.len() == 0 {
        Seq::empty()
    } else {
        insort(sort_by_time(s.drop_last()), s.last())
    }
}

/// Non-decreasing in modification time.
pub open spec fn sorted(s: Seq<CandView>) -> bool {
    forall|i: int, j: int| 0 <= i < j < s.len() ==> key_le(s[i], s[j])
}

/// The last `max` elements of `s`, or all of `s` when it is shorter.
pub open spec fn keep_last(s: Seq<CandView>, max: int) -> Seq<CandView> {
    if s.len() > max {
        s.subrange(s.len() - max, s.len() as int)
    } else {
        s
    }
}

/// What selection returns: the eligible candidates, sorted ascending by
/// modification time, truncated to the `max` most recent.
pub open spec fn select_spec(l: Seq<RawView>, max: int) -> Seq<CandView> {
    keep_last(sort_by_time(eligible_cands(l)), max)
}

/// The mathematical image of a candidate vector.
pub open spec fn views(s: Seq<Candidate>) -> Seq<CandView> {
    s.map_values(|c: Candidate| c@)
}

/// The mathematical image of a listing vector.
pub open spec fn rviews(s: Seq<RawEntry>) -> Seq<RawView> {
    s.map_values(|e: RawEntry| e@)
}

fn cand_le(a: &Candidate, b: &Candidate) -> (r: bool)
    ensures
        r == key_le(a@, b@),
{
    a.secs < b.secs || (a.secs == b.secs && a.nanos <= b.nanos)
}

proof fn lemma_insort_len(s: Seq<CandView>, x: CandView)
    ensures
        insort(s, x).len() == s.len() + 1,
    decreases s.len(),
{
    if s.len() > 0 && !key_le(s.last(), x) {
        lemma_insort_len(s.drop_last(), x);
    }
}

proof fn lemma_sort_len(s: Seq<CandView>)
    ensures
        sort_by_time(s).len() == s.len(),
    decreases s.len(),
{
    if s.len() > 0 {
        lemma_sort_len(s.drop_last());
        lemma_insort_len(sort_by_time(s.drop_last()), s.last());
    }
}

proof fn lemma_insort_multiset(s: Seq<CandView>, x: CandView)
    ensures
        insort(s, x).to_multiset() == s.to_multiset().insert(x),
    decreases s.len(),
{
    broadcast use vstd::seq_lib::group_to_multiset_ensures;

    if s.len() == 0 {
        assert(seq![x] =~= Seq::<CandView>::empty().push(x));
        assert(Seq::<CandView>::empty().push(x).to_multiset() =~= Multiset::<
            CandView,
        >::empty().insert(x));
    } else if key_le(s.last(), x) {
    } else {
        lemma_insort_multiset(s.drop_last(), x);
        assert(s.drop_last().push(s.last()) =~= s);
        assert(insort(s.drop_last(), x).push(s.last()).to_multiset() =~= s.drop_last().to_multiset().insert(
            x,
        ).insert(s.last()));
        assert(s.drop_last().to_multiset().insert(x).insert(s.last()) =~= s.drop_last().to_multiset().insert(
            s.last(),
        ).insert(x));
    }
}

proof fn lemma_sort_multiset(s: Seq<CandView>)
    ensures
        sort_by_time(s).to_multiset() == s.to_multiset(),
    decreases s.len(),
{
    broadcast use vstd::seq_lib::group_to_multiset_ensures;

    if s.len() > 0 {
        lemma_sort_multiset(s.drop_last());
        lemma_insort_multiset(sort_by_time(s.drop_last()), s.last());
        assert(s.drop_last().push(s.last()) =~= s);
    }
}

/// Every element of `insort(s, x)` is `x` or an element of `s`.
proof fn lemma_insort_elems(s: Seq<CandView>, x: CandView)
    ensures
        forall|i: int|
            0 <= i < insort(s, x).len() ==> insort(s, x)[i] == x || s.contains(
                #[trigger] insort(s, x)[i],
            ),
    decreases s.len(),
{
    broadcast use vstd::seq_lib::group_to_multiset_ensures;

    lemma_insort_multiset(s, x);
    lemma_insort_len(s, x);
    assert forall|i: int| 0 <= i < insort(s, x).len() implies insort(s, x)[i] == x || s.contains(
        #[trigger] insort(s, x)[i],
    ) by {
        let y = insort(s, x)[i];
        assert(insort(s, x).contains(y));
        assert(insort(s, x).to_multiset().count(y) > 0);
        if y != x {
            assert(s.to_multiset().count(y) > 0);
        }
    }
}

proof fn lemma_insort_sorted(s: Seq<CandView>, x: CandView)
    requires
        sorted(s),
    ensures
        sorted(insort(s, x)),
    decreases s.len(),
{
    if s.len() == 0 {
    } else if key_le(s.last(), x) {
        assert forall|i: int, j: int| 0 <= i < j < s.push(x).len() implies key_le(
            s.push(x)[i],
            s.push(x)[j],
        ) by {
            if j < s.len() {
            } else {
                assert(s.push(x)[j] == x);
                if i < s.len() - 1 {
                    assert(key_le(s[i], s.last()));
                }
            }
        }
    } else {
        assert(sorted(s.drop_last()));
        lemma_insort_sorted(s.drop_last(), x);
        lemma_insort_elems(s.drop_last(), x);
        lemma_insort_len(s.drop_last(), x);
        let t = insort(s.drop_last(), x).push(s.last());
        assert forall|i: int, j: int| 0 <= i < j < t.len() implies key_le(t[i], t[j]) by {
            if j < t.len() - 1 {
                assert(key_le(insort(s.drop_last(), x)[i], insort(s.drop_last(), x)[j]));
            } else {
                assert(t[j] == s.last());
                let y = insort(s.drop_last(), x)[i];
                assert(y == x || s.drop_last().contains(y));
                if y == x {
                    assert(key_le(x, s.last()));
                } else {
                    let k = choose|k: int|
                        0 <= k < s.drop_last().len() && s.drop_last()[k] == y;
                    assert(key_le(s[k], s.last()));
                }
            }
        }
    }
}

proof fn lemma_sort_sorted(s: Seq<CandView>)
    ensures
        sorted(sort_by_time(s)),
    decreases s.len(),
{
    if s.len() > 0 {
        lemma_sort_sorted(s.drop_last());
        lemma_insort_sorted(sort_by_time(s.drop_last()), s.last());
    }
}

/// Where the scan from the right stopped, `insort` places `x`.
proof fn lemma_insort_position(s: Seq<CandView>, x: CandView, j: int)
    requires
        0 <= j <= s.len(),
        forall|k: int| j <= k < s.len() ==> !key_le(#[trigger] s[k], x),
        j > 0 ==> key_le(s[j - 1], x),
    ensures
        insort(s, x) == s.subrange(0, j).push(x) + s.subrange(j, s.len() as int),
    decreases s.len(),
{
    if s.len() == 0 {
        assert(insort(s, x) =~= s.subrange(0, j).push(x) + s.subrange(j, s.len() as int));
    } else if j == s.len() {
        assert(key_le(s.last(), x));
        assert(s.push(x) =~= s.subrange(0, j).push(x) + s.subrange(j, s.len() as int));
    } else {
        assert(!key_le(s[s.len() - 1], x));
        let d = s.drop_last();
        assert(forall|k: int| j <= k < d.len() ==> !key_le(#[trigger] d[k], x));
        if j > 0 {
            assert(d[j - 1] == s[j - 1]);
        }
        lemma_insort_position(d, x, j);
        assert(insort(d, x).push(s.last()) =~= s.subrange(0, j).push(x) + s.subrange(
            j,
            s.len() as int,
        ));
    }
}

/// Inserts `x` into the sorted vector `out`, after every element whose
/// time does not exceed `x`'s.
fn insert_sorted(out: &mut Vec<Candidate>, x: Candidate)
    ensures
        views(final(out)@) == insort(views(old(out)@), x@),
{
    let mut j: usize = out.len();
    while j > 0 && !cand_le(&out[j - 1], &x)
        invariant
            j <= out@.len(),
            out@ == old(out)@,
            forall|k: int| j <= k < out@.len() ==> !key_le(#[trigger] views(out@)[k], x@),
        decreases j,
    {
        j -= 1;
    }
    proof {
        lemma_insort_position(views(out@), x@, j as int);
    }
    out.insert(j, x);
    proof {
        assert(views(final(out)@) =~= views(old(out)@).subrange(0, j as int).push(x@) + views(
            old(out)@,
        ).subrange(j as int, old(out)@.len() as int));
    }
}

/// Sorts the candidates ascending by modification time; equal times keep
/// their relative order.
fn rank_candidates(v: Vec<Candidate>) -> (r: Vec<Candidate>)
    ensures
        views(r@) == sort_by_time(views(v@)),
{
    let ghost orig = views(v@);
    let mut rest = v;
    let mut out: Vec<Candidate> = Vec::new();
    proof {
        assert(orig.subrange(0, 0) =~= Seq::<CandView>::empty());
        assert(views(rest@) =~= orig.subrange(0, orig.len() as int));
    }
    while rest.len() > 0
        invariant
            rest@.len() <= orig.len(),
            views(out@) == sort_by_time(orig.subrange(0, orig.len() - rest@.len())),
            views(rest@) == orig.subrange(orig.len() - rest@.len(), orig.len() as int),
        decreases rest@.len(),
    {
        let ghost n0 = orig.len() as int;
        let ghost done = n0 - rest@.len();
        let ghost before = views(rest@);
        let x = rest.remove(0);
        proof {
            assert(x@ == before[0]);
            assert(before[0] == orig.subrange(done, n0)[0]);
            assert(views(rest@) =~= before.drop_first());
            assert forall|i: int| 0 <= i < before.len() - 1 implies before.drop_first()[i]
                == orig.subrange(done + 1, n0)[i] by {
                assert(before.drop_first()[i] == before[i + 1]);
                assert(before[i + 1] == orig.subrange(done, n0)[i + 1]);
            }
            assert(views(rest@) =~= orig.subrange(done + 1, n0));
            assert(orig.subrange(0, done + 1).drop_last() =~= orig.subrange(0, done));
            assert(orig.subrange(0, done + 1).last() == orig[done]);
        }
        insert_sorted(&mut out, x);
    }
    proof {
        assert(orig.subrange(0, orig.len() as int) =~= orig);
    }
    out
}

/// Drops the oldest candidates until at most `max` remain.
fn truncate_to_recent(v: &mut Vec<Candidate>, max: usize)
    ensures
        views(final(v)@) == keep_last(views(old(v)@), max as int),
{
    proof {
        assert(views(v@) =~= views(old(v)@).subrange(
            old(v)@.len() - v@.len(),
            old(v)@.len() as int,
        ));
    }
    while v.len() > max
        invariant
            v@.len() <= old(v)@.len(),
            views(v@) == views(old(v)@).subrange(old(v)@.len() - v@.len(), old(v)@.len() as int),
            old(v)@.len() > max ==> v@.len() >= max,
            old(v)@.len() <= max ==> v@ == old(v)@,
        decreases v@.len(),
    {
        let ghost before = views(v@);
        let ghost n0 = old(v)@.len() as int;
        let ghost d = n0 - before.len();
        v.remove(0);
        proof {
            assert(views(v@) =~= before.drop_first());
            assert forall|i: int| 0 <= i < before.len() - 1 implies before.drop_first()[i]
                == views(old(v)@).subrange(d + 1, n0)[i] by {
                assert(before.drop_first()[i] == before[i + 1]);
                assert(before[i + 1] == views(old(v)@).subrange(d, n0)[i + 1]);
            }
            assert(before.drop_first() =~= views(old(v)@).subrange(d + 1, n0));
            assert(d + 1 == n0 - v@.len());
        }
    }
    proof {
        if old(v)@.len() > max {
            assert(v@.len() == max);
        } else {
            assert(views(v@) =~= keep_last(views(old(v)@), max as int));
        }
    }
}

/// Scans the listing once, retaining the candidates of the eligible
/// entries, then ranks them by modification time and keeps the `max`
/// most recent. The result is ordered oldest first, newest last.
pub fn select_candidates(listing: Vec<RawEntry>, max: usize) -> (r: Vec<Candidate>)
    ensures
        views(r@) == select_spec(rviews(listing@), max as int),
{
    let ghost l = rviews(listing@);
    let mut cands: Vec<Candidate> = Vec::new();
    proof {
        assert(l.subrange(0, 0) =~= Seq::<RawView>::empty());
        assert(views(cands@) =~= Seq::<CandView>::empty());
    }
    let n = listing.len();
    let mut i: usize = 0;
    while i < n
        invariant
            i <= n,
            n == listing@.len(),
            l == rviews(listing@),
            views(cands@) == eligible_cands(l.subrange(0, i as int)),
        decreases n - i,
    {
        let e = &listing[i];
        let ok: bool = match &e.name {
            Some(nm) => e.is_file && (e.mode & 4u32) != 0 && (str_ends_with(nm.as_str(), ".gmi")
                || str_ends_with(nm.as_str(), ".gemini")) && !str_starts_with(
                nm.as_str(),
                "index.",
            ),
            None => false,
        };
        proof {
            assert(ok == eligible(l[i as int]));
            assert(l.subrange(0, i as int + 1).drop_last() =~= l.subrange(0, i as int));
            assert(l.subrange(0, i as int + 1).last() == l[i as int]);
        }
        if ok {
            let ghost prev = views(cands@);
            let name = match &e.name {
                Some(nm) => nm.clone(),
                None => String::new(),
            };
            let c = Candidate { name, secs: e.secs, nanos: e.nanos };
            proof {
                assert(c@ == cand_of(l[i as int]));
            }
            cands.push(c);
            proof {
                assert(views(cands@) =~= prev.push(c@));
            }
        }
        i += 1;
    }
    proof {
        assert(l.subrange(0, n as int) =~= l);
    }
    let mut ranked = rank_candidates(cands);
    truncate_to_recent(&mut ranked, max);
    ranked
}

/// How many entries of `l` are eligible.
pub open spec fn num_eligible(l: Seq<RawView>) -> int
    decreases l.len(),
{
    if l.len() == 0 {
        0
    } else if eligible(l.last()) {
        num_eligible(l.drop_last()) + 1
    } else {
        num_eligible(l.drop_last())
    }
}

proof fn lemma_eligible_cands_len(l: Seq<RawView>)
    ensures
        eligible_cands(l).len() == num_eligible(l),
    decreases l.len(),
{
    if l.len() > 0 {
        lemma_eligible_cands_len(l.drop_last());
    }
}

/// A directory with `N` eligible files yields `N` candidates when `N`
/// is at most the cap, and exactly `max` candidates otherwise.
pub proof fn lemma_selection_count(l: Seq<RawView>, max: int)
    requires
        0 <= max,
    ensures
        num_eligible(l) <= max ==> select_spec(l, max).len() == num_eligible(l),
        num_eligible(l) > max ==> select_spec(l, max).len() == max,
{
    lemma_eligible_cands_len(l);
    lemma_sort_len(eligible_cands(l));
}

/// The selection is non-decreasing in modification time, and it is
/// exactly the most recent part of the eligible candidates: it is the
/// tail of a time-sorted permutation of them, and every candidate that
/// was dropped is no newer than any that was kept.
pub proof fn lemma_selection_most_recent(l: Seq<RawView>, max: int)
    requires
        0 <= max,
    ensures
        ({
            let all = sort_by_time(eligible_cands(l));
            let kept = select_spec(l, max);
            &&& sorted(kept)
            &&& all.to_multiset() == eligible_cands(l).to_multiset()
            &&& kept == all.subrange(all.len() - kept.len(), all.len() as int)
            &&& forall|i: int, j: int|
                0 <= i < all.len() - kept.len() && 0 <= j < kept.len() ==> key_le(
                    #[trigger] all[i],
                    #[trigger] kept[j],
                )
        }),
{
    let all = sort_by_time(eligible_cands(l));
    let kept = select_spec(l, max);
    lemma_sort_sorted(eligible_cands(l));
    lemma_sort_multiset(eligible_cands(l));
    if all.len() <= max {
        assert(all.subrange(all.len() - kept.len(), all.len() as int) =~= all);
    }
    let b = all.len() - kept.len();
    assert forall|i: int, j: int| 0 <= i < j < kept.len() implies key_le(
        #[trigger] kept[i],
        #[trigger] kept[j],
    ) by {
        assert(kept[i] == all[b + i] && kept[j] == all[b + j]);
    }
    assert forall|i: int, j: int| 0 <= i < b && 0 <= j < kept.len() implies key_le(
        #[trigger] all[i],
        #[trigger] kept[j],
    ) by {
        assert(kept[j] == all[b + j]);
    }
}

/// `c` is the candidate of some eligible entry of `l`.
pub open spec fn from_eligible(l: Seq<RawView>, c: CandView) -> bool {
    exists|i: int| 0 <= i < l.len() && eligible(#[trigger] l[i]) && cand_of(l[i]) == c
}

proof fn lemma_eligible_cands_from(l: Seq<RawView>)
    ensures
        forall|j: int|
            0 <= j < eligible_cands(l).len() ==> from_eligible(
                l,
                #[trigger] eligible_cands(l)[j],
            ),
    decreases l.len(),
{
    if l.len() > 0 {
        let d = l.drop_last();
        lemma_eligible_cands_from(d);
        assert forall|j: int| 0 <= j < eligible_cands(l).len() implies from_eligible(
            l,
            #[trigger] eligible_cands(l)[j],
        ) by {
            if eligible(l.last()) && j == eligible_cands(l).len() - 1 {
                assert(eligible(l[l.len() - 1]) && cand_of(l[l.len() - 1]) == eligible_cands(
                    l,
                )[j]);
            } else {
                assert(from_eligible(d, eligible_cands(d)[j]));
                let i = choose|i: int|
                    0 <= i < d.len() && eligible(#[trigger] d[i]) && cand_of(d[i])
                        == eligible_cands(d)[j];
                assert(l[i] == d[i]);
            }
        }
    }
}

/// Every selected candidate stems from an eligible entry of the listing:
/// a regular, world-readable file with a recognized post extension whose
/// name is not the reserved index name. In particular, a file lacking
/// the world-readable permission bit never reaches the feed.
pub proof fn lemma_selection_eligible(l: Seq<RawView>, max: int)
    requires
        0 <= max,
    ensures
        forall|j: int|
            0 <= j < select_spec(l, max).len() ==> from_eligible(
                l,
                #[trigger] select_spec(l, max)[j],
            ),
{
    broadcast use vstd::seq_lib::group_to_multiset_ensures;

    let all = sort_by_time(eligible_cands(l));
    let kept = select_spec(l, max);
    lemma_sort_multiset(eligible_cands(l));
    lemma_eligible_cands_from(l);
    if all.len() <= max {
        assert(all.subrange(all.len() - kept.len(), all.len() as int) =~= all);
    }
    let b = all.len() - kept.len();
    assert forall|j: int| 0 <= j < kept.len() implies from_eligible(l, #[trigger] kept[j]) by {
        assert(kept[j] == all[b + j]);
        assert(all.contains(kept[j]));
        assert(all.to_multiset().count(kept[j]) > 0);
        assert(eligible_cands(l).to_multiset().count(kept[j]) > 0);
        assert(eligible_cands(l).contains(kept[j]));
        let k = choose|k: int|
            0 <= k < eligible_cands(l).len() && eligible_cands(l)[k] == kept[j];
        assert(from_eligible(l, eligible_cands(l)[k]));
    }
}

/// A file named with the reserved index prefix is never selected,
/// whatever its recency or its permissions.
pub proof fn lemma_index_never_selected(l: Seq<RawView>, max: int)
    requires
        0 <= max,
    ensures
        forall|j: int|
            0 <= j < select_spec(l, max).len() ==> !seq_starts_with(
                (#[trigger] select_spec(l, max)[j]).name,
                "index."@,
            ),
{
    lemma_selection_eligible(l, max);
    let kept = select_spec(l, max);
    assert forall|j: int| 0 <= j < kept.len() implies !seq_starts_with(
        (#[trigger] kept[j]).name,
        "index."@,
    ) by {
        assert(from_eligible(l, kept[j]));
        let i = choose|i: int|
            0 <= i < l.len() && eligible(#[trigger] l[i]) && cand_of(l[i]) == kept[j];
        assert(name_eligible(kept[j].name));
    }
}

/// Ranking is stable: candidates that all share one modification time
/// come out in the order the listing gave them.
pub proof fn lemma_equal_times_keep_order(s: Seq<CandView>)
    requires
        forall|i: int, j: int|
            0 <= i < s.len() && 0 <= j < s.len() ==> key_le(#[trigger] s[i], #[trigger] s[j]),
    ensures
        sort_by_time(s) == s,
    decreases s.len(),
{
    if s.len() > 0 {
        let d = s.drop_last();
        lemma_equal_times_keep_order(d);
        if d.len() == 0 {
            assert(insort(d, s.last()) =~= s);
        } else {
            assert(key_le(d.last(), s.last()));
            assert(d.push(s.last()) =~= s);
        }
    }
}

/// Selection is a pure function of the listing: two scans of an
/// unchanged directory select identical candidates.
pub proof fn lemma_selection_deterministic(l1: Seq<RawView>, l2: Seq<RawView>, max: int)
    requires
        l1 == l2,
    ensures
        select_spec(l1, max) == select_spec(l2, max),
{
}

} // verus!
