//! History consolidation: a member's raw party-interval list, in arbitrary
//! order, becomes a minimal chronological timeline — stable-sorted ascending
//! by start date, with adjacent same-name intervals merged into one interval
//! that takes the earlier start and the later end.
//!
//! The consolidated timeline is oldest-first.

use vstd::prelude::*;

use crate::domain::{Party, PartyView, party_views};

verus! {

/// Intervals are in ascending start-date order.
pub open spec fn starts_sorted(s: Seq<PartyView>) -> bool {
    forall|i: int, j: int| 0 <= i < j < s.len() ==> s[i].start_date <= s[j].start_date
}

/// No two adjacent intervals carry the same party name.
pub open spec fn no_adjacent_same_name(s: Seq<PartyView>) -> bool {
    forall|i: int| 0 <= i && i + 1 < s.len() ==> (#[trigger] s[i]).name != s[i + 1].name
}

/// Every interval starts no later than `b`.
pub open spec fn starts_bounded(s: Seq<PartyView>, b: i64) -> bool {
    forall|i: int| 0 <= i < s.len() ==> (#[trigger] s[i]).start_date <= b
}

/// Insert `p` into the sorted sequence `s`, after every interval that starts
/// no later than `p` (so insertion is stable for equal start dates).
pub open spec fn insert_by_start(s: Seq<PartyView>, p: PartyView) -> Seq<PartyView>
    decreases s.len(),
{
    if s.len() == 0 {
        seq![p]
    } else if s.last().start_date <= p.start_date {
        s.push(p)
    } else {
        insert_by_start(s.drop_last(), p).push(s.last())
    }
}

/// Stable insertion sort by start date.
pub open spec fn sort_by_start(s: Seq<PartyView>) -> Seq<PartyView>
    decreases s.len(),
{
    if s.len() == 0 {
        s
    } else {
        insert_by_start(sort_by_start(s.drop_last()), s.last())
    }
}

/// Merge adjacent same-name intervals, working from the latest interval
/// backwards: if the last two intervals share a name they become one interval
/// with the earlier start and the later end; otherwise the last interval is
/// final and the rest is merged on its own.
pub open spec fn merge_spec(s: Seq<PartyView>) -> Seq<PartyView>
    decreases s.len(),
{
    if s.len() < 2 {
        s
    } else {
        let a = s.last();
        let b = s[s.len() - 2];
        if a.name == b.name {
            merge_spec(
                s.drop_last().drop_last().push(
                    (PartyView { name: a.name, start_date: b.start_date, end_date: a.end_date }),
                ),
            )
        } else {
            merge_spec(s.drop_last()).push(a)
        }
    }
}

/// The consolidated timeline: sort ascending by start date, then merge
/// adjacent same-name intervals.
pub open spec fn consolidate_spec(s: Seq<PartyView>) -> Seq<PartyView> {
    merge_spec(sort_by_start(s))
}

/// Copy a party list, element by element.
fn clone_parties(parties: &Vec<Party>) -> (r: Vec<Party>)
    ensures
        r@ == parties@,
{
    let r = parties.clone();
    proof {
        assert forall|i: int| 0 <= i < parties@.len() implies r@[i] == parties@[i] by {
            assert(vstd::pervasive::cloned::<Party>(parties[i], r[i]));
        }
        assert(r@ =~= parties@);
    }
    r
}

/// Insert one interval into an already-sorted list, keeping it sorted and
/// placing the new interval after equal start dates.
fn insert_party(sorted: Vec<Party>, p: Party) -> (r: Vec<Party>)
    ensures
        party_views(r@) == insert_by_start(party_views(sorted@), p@),
    decreases sorted@.len(),
{
    let ghost s0 = party_views(sorted@);
    let mut work = sorted;
    if work.len() == 0 {
        work.push(p);
        proof {
            assert(party_views(work@) =~= seq![p@]);
        }
        work
    } else if work[work.len() - 1].start_date <= p.start_date {
        work.push(p);
        proof {
            assert(party_views(work@) =~= s0.push(p@));
        }
        work
    } else {
        let last = work.pop().unwrap();
        proof {
            assert(party_views(work@) =~= s0.drop_last());
            assert(last@ == s0.last());
        }
        let mut r = insert_party(work, p);
        r.push(last);
        proof {
            assert(party_views(r@) =~= insert_by_start(s0.drop_last(), p@).push(s0.last()));
        }
        r
    }
}

/// Stable sort of a party list, ascending by start date.
pub fn sorted_by_start(parties: &Vec<Party>) -> (r: Vec<Party>)
    ensures
        party_views(r@) == sort_by_start(party_views(parties@)),
{
    let ghost s = party_views(parties@);
    let mut out: Vec<Party> = Vec::new();
    proof {
        assert(party_views(out@) =~= s.take(0));
    }
    let mut i: usize = 0;
    while i < parties.len()
        invariant
            0 <= i <= parties@.len(),
            s == party_views(parties@),
            party_views(out@) == sort_by_start(s.take(i as int)),
        decreases parties@.len() - i,
    {
        let p = parties[i].clone();
        proof {
            assert(p@ == s[i as int]);
            assert(s.take(i + 1).drop_last() =~= s.take(i as int));
            assert(s.take(i + 1).last() == s[i as int]);
        }
        out = insert_party(out, p);
        i += 1;
    }
    proof {
        assert(s.take(parties@.len() as int) =~= s);
    }
    out
}

fn merge_rest(work: Vec<Party>) -> (r: Vec<Party>)
    ensures
        party_views(r@) == merge_spec(party_views(work@)),
    decreases work@.len(),
{
    let ghost s0 = party_views(work@);
    let mut work = work;
    if work.len() < 2 {
        return work;
    }
    let a = work.pop().unwrap();
    let b = work.pop().unwrap();
    proof {
        assert(a@ == s0.last());
        assert(b@ == s0[s0.len() - 2]);
    }
    if a.name == b.name {
        work.push(Party { name: a.name, start_date: b.start_date, end_date: a.end_date });
        proof {
            assert(party_views(work@) =~= s0.drop_last().drop_last().push(
                (PartyView {
                    name: s0.last().name,
                    start_date: s0[s0.len() - 2].start_date,
                    end_date: s0.last().end_date,
                }),
            ));
        }
        merge_rest(work)
    } else {
        work.push(b);
        proof {
            assert(party_views(work@) =~= s0.drop_last());
        }
        let mut r = merge_rest(work);
        r.push(a);
        proof {
            assert(party_views(r@) =~= merge_spec(s0.drop_last()).push(s0.last()));
        }
        r
    }
}

/// Merge adjacent same-name intervals of an (already sorted) party list.
/// The result is oldest-first.
pub fn merge_parties(parties: &Vec<Party>) -> (r: Vec<Party>)
    ensures
        party_views(r@) == merge_spec(party_views(parties@)),
{
    merge_rest(clone_parties(parties))
}

/// The full consolidation pass: stable sort ascending by start date, then
/// merge adjacent same-name intervals.
pub fn consolidate_parties(parties: &Vec<Party>) -> (r: Vec<Party>)
    ensures
        party_views(r@) == consolidate_spec(party_views(parties@)),
{
    let sorted = sorted_by_start(parties);
    merge_parties(&sorted)
}

proof fn lemma_insert_sorted(s: Seq<PartyView>, p: PartyView)
    requires
        starts_sorted(s),
    ensures
        starts_sorted(insert_by_start(s, p)),
        insert_by_start(s, p).len() == s.len() + 1,
        forall|b: i64|
            #[trigger] starts_bounded(s, b) && p.start_date <= b ==> starts_bounded(
                insert_by_start(s, p),
                b,
            ),
    decreases s.len(),
{
    if s.len() == 0 {
    } else if s.last().start_date <= p.start_date {
        assert forall|b: i64|
            #[trigger] starts_bounded(s, b) && p.start_date <= b implies starts_bounded(
            s.push(p),
            b,
        ) by {
            assert forall|i: int| 0 <= i < s.push(p).len() implies (#[trigger] s.push(
                p,
            )[i]).start_date <= b by {
                if i < s.len() {
                    assert(s.push(p)[i] == s[i]);
                }
            }
        }
    } else {
        let dl = s.drop_last();
        assert(starts_sorted(dl));
        lemma_insert_sorted(dl, p);
        let t = insert_by_start(dl, p);
        assert(starts_bounded(dl, s.last().start_date));
        assert(starts_bounded(t, s.last().start_date));
        assert forall|i: int, j: int| 0 <= i < j < t.push(s.last()).len() implies t.push(
            s.last(),
        )[i].start_date <= t.push(s.last())[j].start_date by {
            if j < t.len() {
                assert(t.push(s.last())[i] == t[i]);
                assert(t.push(s.last())[j] == t[j]);
            } else {
                assert(t.push(s.last())[i] == t[i]);
            }
        }
        assert forall|b: i64|
            #[trigger] starts_bounded(s, b) && p.start_date <= b implies starts_bounded(
            t.push(s.last()),
            b,
        ) by {
            assert(starts_bounded(dl, b)) by {
                assert forall|i: int| 0 <= i < dl.len() implies (#[trigger] dl[i]).start_date
                    <= b by {
                    assert(dl[i] == s[i]);
                }
            }
            assert(starts_bounded(t, b));
            assert forall|i: int| 0 <= i < t.push(s.last()).len() implies (#[trigger] t.push(
                s.last(),
            )[i]).start_date <= b by {
                if i < t.len() {
                    assert(t.push(s.last())[i] == t[i]);
                }
            }
        }
    }
}

/// Sorting yields an ascending sequence of the same length.
pub proof fn lemma_sort_sorted(s: Seq<PartyView>)
    ensures
        starts_sorted(sort_by_start(s)),
        sort_by_start(s).len() == s.len(),
    decreases s.len(),
{
    if s.len() > 0 {
        lemma_sort_sorted(s.drop_last());
        lemma_insert_sorted(sort_by_start(s.drop_last()), s.last());
    }
}

/// A sequence that is already ascending is its own sort.
pub proof fn lemma_sort_of_sorted(s: Seq<PartyView>)
    requires
        starts_sorted(s),
    ensures
        sort_by_start(s) == s,
    decreases s.len(),
{
    if s.len() > 0 {
        let dl = s.drop_last();
        assert(starts_sorted(dl));
        lemma_sort_of_sorted(dl);
        if dl.len() == 0 {
            assert(insert_by_start(dl, s.last()) =~= s);
        } else {
            assert(dl.last() == s[s.len() - 2]);
            assert(dl.last().start_date <= s.last().start_date);
            assert(dl.push(s.last()) =~= s);
        }
    }
}

/// Merging keeps any upper bound on the start dates.
proof fn lemma_merge_bounded(s: Seq<PartyView>, b: i64)
    requires
        starts_bounded(s, b),
    ensures
        starts_bounded(merge_spec(s), b),
    decreases s.len(),
{
    if s.len() >= 2 {
        let a = s.last();
        let bb = s[s.len() - 2];
        if a.name == bb.name {
            let m = PartyView { name: a.name, start_date: bb.start_date, end_date: a.end_date };
            let t = s.drop_last().drop_last().push(m);
            assert(starts_bounded(t, b)) by {
                assert forall|i: int| 0 <= i < t.len() implies (#[trigger] t[i]).start_date
                    <= b by {
                    if i < t.len() - 1 {
                        assert(t[i] == s[i]);
                    } else {
                        assert(t[i] == m);
                        assert(bb.start_date <= b);
                    }
                }
            }
            lemma_merge_bounded(t, b);
        } else {
            let dl = s.drop_last();
            assert(starts_bounded(dl, b)) by {
                assert forall|i: int| 0 <= i < dl.len() implies (#[trigger] dl[i]).start_date
                    <= b by {
                    assert(dl[i] == s[i]);
                }
            }
            lemma_merge_bounded(dl, b);
            let t = merge_spec(dl).push(a);
            assert forall|i: int| 0 <= i < t.len() implies (#[trigger] t[i]).start_date <= b by {
                if i < t.len() - 1 {
                    assert(t[i] == merge_spec(dl)[i]);
                }
            }
        }
    }
}

/// Merging a non-empty list yields a non-empty list whose final interval
/// keeps the final input interval's party name.
pub proof fn lemma_merge_last(s: Seq<PartyView>)
    requires
        s.len() > 0,
    ensures
        merge_spec(s).len() > 0,
        merge_spec(s).last().name == s.last().name,
    decreases s.len(),
{
    if s.len() >= 2 {
        let a = s.last();
        let bb = s[s.len() - 2];
        if a.name == bb.name {
            let m = PartyView { name: a.name, start_date: bb.start_date, end_date: a.end_date };
            let t = s.drop_last().drop_last().push(m);
            lemma_merge_last(t);
            assert(t.last() == m);
        } else {
            lemma_merge_last(s.drop_last());
        }
    }
}

/// Merging an ascending list yields an ascending list.
pub proof fn lemma_merge_sorted(s: Seq<PartyView>)
    requires
        starts_sorted(s),
    ensures
        starts_sorted(merge_spec(s)),
    decreases s.len(),
{
    if s.len() >= 2 {
        let a = s.last();
        let bb = s[s.len() - 2];
        if a.name == bb.name {
            let m = PartyView { name: a.name, start_date: bb.start_date, end_date: a.end_date };
            let t = s.drop_last().drop_last().push(m);
            assert(starts_sorted(t)) by {
                assert forall|i: int, j: int| 0 <= i < j < t.len() implies t[i].start_date
                    <= t[j].start_date by {
                    if j < t.len() - 1 {
                        assert(t[i] == s[i]);
                        assert(t[j] == s[j]);
                    } else {
                        assert(t[i] == s[i]);
                        assert(t[j] == m);
                    }
                }
            }
            lemma_merge_sorted(t);
        } else {
            let dl = s.drop_last();
            assert(starts_sorted(dl));
            lemma_merge_sorted(dl);
            assert(starts_bounded(dl, a.start_date)) by {
                assert forall|i: int| 0 <= i < dl.len() implies (#[trigger] dl[i]).start_date
                    <= a.start_date by {
                    assert(dl[i] == s[i]);
                }
            }
            lemma_merge_bounded(dl, a.start_date);
            let t = merge_spec(dl).push(a);
            assert forall|i: int, j: int| 0 <= i < j < t.len() implies t[i].start_date
                <= t[j].start_date by {
                if j < t.len() - 1 {
                    assert(t[i] == merge_spec(dl)[i]);
                    assert(t[j] == merge_spec(dl)[j]);
                } else {
                    assert(t[i] == merge_spec(dl)[i]);
                }
            }
        }
    }
}

/// After a merge, no two adjacent intervals share a party name.
pub proof fn lemma_merge_no_adjacent(s: Seq<PartyView>)
    ensures
        no_adjacent_same_name(merge_spec(s)),
    decreases s.len(),
{
    if s.len() >= 2 {
        let a = s.last();
        let bb = s[s.len() - 2];
        if a.name == bb.name {
            let m = PartyView { name: a.name, start_date: bb.start_date, end_date: a.end_date };
            lemma_merge_no_adjacent(s.drop_last().drop_last().push(m));
        } else {
            let dl = s.drop_last();
            lemma_merge_no_adjacent(dl);
            lemma_merge_last(dl);
            assert(dl.last() == bb);
            let t = merge_spec(dl).push(a);
            assert forall|i: int| 0 <= i && i + 1 < t.len() implies (#[trigger] t[i]).name != t[i
                + 1].name by {
                if i + 1 < t.len() - 1 {
                    assert(t[i] == merge_spec(dl)[i]);
                    assert(t[i + 1] == merge_spec(dl)[i + 1]);
                } else {
                    assert(t[i] == merge_spec(dl)[i]);
                    assert(t[i] == merge_spec(dl).last());
                }
            }
        }
    }
}

/// A list with no adjacent same-name intervals is its own merge.
pub proof fn lemma_merge_of_no_adjacent(s: Seq<PartyView>)
    requires
        no_adjacent_same_name(s),
    ensures
        merge_spec(s) == s,
    decreases s.len(),
{
    if s.len() >= 2 {
        let a = s.last();
        let bb = s[s.len() - 2];
        assert(s[s.len() - 2].name != s[s.len() - 1].name);
        assert(a.name != bb.name);
        let dl = s.drop_last();
        assert(no_adjacent_same_name(dl)) by {
            assert forall|i: int| 0 <= i && i + 1 < dl.len() implies (#[trigger] dl[i]).name != dl[
                i + 1].name by {
                assert(dl[i] == s[i]);
                assert(dl[i + 1] == s[i + 1]);
            }
        }
        lemma_merge_of_no_adjacent(dl);
        assert(dl.push(a) =~= s);
    }
}

/// A list of zero or one interval passes through consolidation unchanged.
pub proof fn lemma_consolidate_short(s: Seq<PartyView>)
    requires
        s.len() < 2,
    ensures
        consolidate_spec(s) == s,
{
    if s.len() == 0 {
    } else {
        assert(s.drop_last().len() == 0);
        assert(insert_by_start(sort_by_start(s.drop_last()), s.last()) =~= s);
    }
}

/// Two intervals of one party consolidate, whatever order they arrive in,
/// to a single interval taking the earlier start and the later end (for the
/// reversed arrival order the starts must differ strictly, or the stable
/// sort keeps the arrival order and the later end is the other one).
pub proof fn lemma_consolidate_two_same_name(x: PartyView, y: PartyView)
    requires
        x.name == y.name,
        x.start_date <= y.start_date,
    ensures
        consolidate_spec(seq![x, y]) == seq![
            (PartyView { name: x.name, start_date: x.start_date, end_date: y.end_date }),
        ],
        x.start_date < y.start_date ==> consolidate_spec(seq![y, x]) == seq![
            (PartyView { name: x.name, start_date: x.start_date, end_date: y.end_date }),
        ],
{
    let m = PartyView { name: x.name, start_date: x.start_date, end_date: y.end_date };
    let s = seq![x, y];
    assert(seq![x].drop_last() =~= Seq::<PartyView>::empty());
    assert(s.drop_last() =~= seq![x]);
    assert(seq![x].last() == x);
    assert(sort_by_start(Seq::<PartyView>::empty()) == Seq::<PartyView>::empty());
    assert(insert_by_start(Seq::<PartyView>::empty(), x) =~= seq![x]);
    assert(sort_by_start(seq![x]) == seq![x]);
    assert(sort_by_start(s) == seq![x].push(y));
    assert(seq![x].push(y) =~= s);
    assert(s.drop_last().drop_last().push(m) =~= seq![m]);
    assert(merge_spec(seq![m]) == seq![m]);
    assert(consolidate_spec(s) == seq![m]);
    if x.start_date < y.start_date {
        let t = seq![y, x];
        assert(seq![y].drop_last() =~= Seq::<PartyView>::empty());
        assert(t.drop_last() =~= seq![y]);
        assert(sort_by_start(seq![y]) == seq![y]);
        assert(insert_by_start(Seq::<PartyView>::empty(), x).push(y) =~= s);
        assert(sort_by_start(t) == s);
        assert(consolidate_spec(t) == seq![m]);
    }
}

/// Consolidation is idempotent: consolidating a consolidated timeline
/// changes nothing, because it is already sorted and has no adjacent
/// same-name intervals left to merge.
pub proof fn lemma_consolidate_idempotent(s: Seq<PartyView>)
    ensures
        consolidate_spec(consolidate_spec(s)) == consolidate_spec(s),
{
    let c = consolidate_spec(s);
    lemma_sort_sorted(s);
    lemma_merge_sorted(sort_by_start(s));
    lemma_sort_of_sorted(c);
    lemma_merge_no_adjacent(sort_by_start(s));
    lemma_merge_of_no_adjacent(c);
}

} // verus!
