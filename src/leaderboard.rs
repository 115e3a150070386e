//! The ranked list of leading candidates, as a sequence of (candidate id, votes)
//! pairs, and the rule by which one vote changes it.
use vstd::prelude::*;

verus! {

/// One place on the leaderboard: a candidate id and its vote count.
pub type Entry = (u64, u64);

/// Vote counts never rise from one place to a later one.
pub open spec fn ranked(s: Seq<Entry>) -> bool {
    forall|i: int, j: int| 0 <= i < j < s.len() ==> s[i].1 >= s[j].1
}

/// No candidate holds two places.
pub open spec fn unique_ids(s: Seq<Entry>) -> bool {
    forall|i: int, j: int| 0 <= i < s.len() && 0 <= j < s.len() && i != j ==> s[i].0 != s[j].0
}

/// Some place belongs to candidate `id`.
pub open spec fn has_id(s: Seq<Entry>, id: u64) -> bool {
    exists|k: int| 0 <= k < s.len() && s[k].0 == id
}

/// A leaderboard as it stands between votes: at least one place, ranked,
/// without repeated candidates, and within its capacity.
pub open spec fn board_ok(s: Seq<Entry>, capacity: nat) -> bool {
    &&& capacity > 0
    &&& s.len() <= capacity
    &&& ranked(s)
    &&& unique_ids(s)
}

/// Where an entry with `votes` votes lands when it moves up from the end of
/// `s` past every entry with strictly fewer votes.
pub open spec fn settle_point(s: Seq<Entry>, votes: u64) -> int
    decreases s.len(),
{
    if s.len() > 0 && s.last().1 < votes {
        settle_point(s.drop_last(), votes)
    } else {
        s.len() as int
    }
}

/// Every place held by `id` can take one more vote without overflow.
pub open spec fn has_room(s: Seq<Entry>, id: u64) -> bool {
    forall|k: int| 0 <= k < s.len() && s[k].0 == id ==> s[k].1 < u64::MAX
}

/// `s` with `e` moved up from the end past every entry with strictly fewer
/// votes: `e` lands after all entries with as many votes or more.
pub open spec fn settle(s: Seq<Entry>, e: Entry) -> Seq<Entry> {
    let p = settle_point(s, e.1);
    s.take(p).push(e) + s.skip(p)
}

/// The leaderboard after a vote that brought candidate `id` to `votes` votes.
/// A candidate already listed gains one vote on its own place and moves up.
/// Another one joins while there is room; on a full board it takes the last
/// place only with strictly more votes than that place holds.
pub open spec fn recorded(s: Seq<Entry>, capacity: nat, id: u64, votes: u64) -> Seq<Entry> {
    if has_id(s, id) {
        let k = choose|k: int| 0 <= k < s.len() && s[k].0 == id;
        settle(s.take(k), (id, (s[k].1 + 1) as u64)) + s.skip(k + 1)
    } else if s.len() < capacity {
        settle(s, (id, votes))
    } else if votes > s.last().1 {
        settle(s.drop_last(), (id, votes))
    } else {
        s
    }
}

/// The entries of `s` that belong to candidates other than `id`, in order.
pub open spec fn without(s: Seq<Entry>, id: u64) -> Seq<Entry>
    decreases s.len(),
{
    if s.len() == 0 {
        s
    } else if s.last().0 == id {
        without(s.drop_last(), id)
    } else {
        without(s.drop_last(), id).push(s.last())
    }
}

pub proof fn lemma_settle_point(s: Seq<Entry>, votes: u64)
    ensures
        0 <= settle_point(s, votes) <= s.len(),
        forall|i: int| settle_point(s, votes) <= i < s.len() ==> s[i].1 < votes,
        settle_point(s, votes) == 0 || s[settle_point(s, votes) - 1].1 >= votes,
    decreases s.len(),
{
    if s.len() > 0 && s.last().1 < votes {
        let p = s.drop_last();
        lemma_settle_point(p, votes);
        assert forall|i: int| settle_point(s, votes) <= i < s.len() implies s[i].1 < votes by {
            if i < p.len() {
                assert(p[i] == s[i]);
            }
        }
    }
}

/// Entries at the end with fewer votes than `votes` do not change where it lands.
pub proof fn lemma_settle_point_take(s: Seq<Entry>, votes: u64, j: int)
    requires
        0 <= j <= s.len(),
        forall|i: int| j <= i < s.len() ==> s[i].1 < votes,
    ensures
        settle_point(s, votes) == settle_point(s.take(j), votes),
    decreases s.len() - j,
{
    if j < s.len() {
        assert(s.drop_last().take(j) == s.take(j));
        lemma_settle_point_take(s.drop_last(), votes, j);
    } else {
        assert(s.take(j) == s);
    }
}

/// Where the entry just before the landing place has as many votes or more,
/// the entry stays where it is.
pub proof fn lemma_settle_point_stop(s: Seq<Entry>, votes: u64)
    requires
        s.len() == 0 || s.last().1 >= votes,
    ensures
        settle_point(s, votes) == s.len(),
{
}

pub proof fn lemma_without_append(a: Seq<Entry>, b: Seq<Entry>, id: u64)
    ensures
        without(a + b, id) == without(a, id) + without(b, id),
    decreases b.len(),
{
    if b.len() == 0 {
        assert(a + b == a);
        assert(without(a, id) + without(b, id) == without(a, id));
    } else {
        assert((a + b).drop_last() == a + b.drop_last());
        lemma_without_append(a, b.drop_last(), id);
        if b.last().0 != id {
            assert(without(a, id) + without(b.drop_last(), id).push(b.last()) == (without(a, id)
                + without(b.drop_last(), id)).push(b.last()));
        }
    }
}

pub proof fn lemma_settle(s: Seq<Entry>, e: Entry)
    ensures
        settle(s, e).len() == s.len() + 1,
        forall|x: Entry| #[trigger] settle(s, e).contains(x) <==> (x == e || s.contains(x)),
        ranked(s) ==> ranked(settle(s, e)),
        unique_ids(s) && !has_id(s, e.0) ==> unique_ids(settle(s, e)),
        without(settle(s, e), e.0) == without(s, e.0),
{
    let p = settle_point(s, e.1);
    lemma_settle_point(s, e.1);
    let r = settle(s, e);
    assert(r.len() == s.len() + 1);
    assert forall|i: int| 0 <= i < r.len() implies r[i] == (if i < p {
        s[i]
    } else if i == p {
        e
    } else {
        s[i - 1]
    }) by {}
    assert forall|x: Entry| r.contains(x) <==> (x == e || s.contains(x)) by {
        if r.contains(x) {
            let i = choose|i: int| 0 <= i < r.len() && r[i] == x;
            if i < p {
                assert(s[i] == x);
            } else if i > p {
                assert(s[i - 1] == x);
            }
        }
        if x == e {
            assert(r[p] == x);
        } else if s.contains(x) {
            let j = choose|j: int| 0 <= j < s.len() && s[j] == x;
            if j < p {
                assert(r[j] == x);
            } else {
                assert(r[j + 1] == x);
            }
        }
    }
    if ranked(s) {
        assert forall|i: int, j: int| 0 <= i < j < r.len() implies r[i].1 >= r[j].1 by {
            if j == p {
                assert(s[i].1 >= s[p - 1].1);
            } else if i == p {
                assert(s[j - 1].1 < e.1);
            }
        }
    }
    if unique_ids(s) && !has_id(s, e.0) {
        assert forall|i: int, j: int|
            0 <= i < r.len() && 0 <= j < r.len() && i != j implies r[i].0 != r[j].0 by {
            if i == p {
                let m = if j < p { j } else { j - 1 };
                assert(s[m].0 != e.0);
            } else if j == p {
                let m = if i < p { i } else { i - 1 };
                assert(s[m].0 != e.0);
            }
        }
    }
    let a = s.take(p);
    let b = s.skip(p);
    assert(s == a + b);
    assert(r == a + seq![e] + b);
    lemma_without_append(a, b, e.0);
    lemma_without_append(a + seq![e], b, e.0);
    lemma_without_append(a, seq![e], e.0);
    assert(seq![e].drop_last() =~= Seq::<Entry>::empty());
    assert(seq![e].last() == e);
    assert(without(Seq::<Entry>::empty(), e.0) == Seq::<Entry>::empty());
    assert(without(seq![e], e.0) == Seq::<Entry>::empty());
    assert(without(a, e.0) + Seq::<Entry>::empty() == without(a, e.0));
}

pub proof fn lemma_without_single(x: Entry, id: u64)
    ensures
        without(seq![x], id) == (if x.0 == id {
            Seq::<Entry>::empty()
        } else {
            seq![x]
        }),
{
    assert(seq![x].drop_last() =~= Seq::<Entry>::empty());
    assert(seq![x].last() == x);
    assert(without(Seq::<Entry>::empty(), id) == Seq::<Entry>::empty());
    assert(Seq::<Entry>::empty().push(x) =~= seq![x]);
}

/// A vote keeps the leaderboard ranked by votes, free of repeated candidates
/// and within its capacity.
pub proof fn lemma_vote_keeps_board(s: Seq<Entry>, capacity: nat, id: u64, votes: u64)
    requires
        board_ok(s, capacity),
        has_room(s, id),
    ensures
        board_ok(recorded(s, capacity, id, votes), capacity),
{
    lemma_vote_cases(s, capacity, id, votes);
}

/// A vote moves no candidate but the one voted for past another: the places
/// of all other candidates keep their order, ties included, and at most the
/// last of them leaves the board.
pub proof fn lemma_vote_keeps_others_in_order(s: Seq<Entry>, capacity: nat, id: u64, votes: u64)
    requires
        board_ok(s, capacity),
    ensures
        ({
            let before = without(s, id);
            let after = without(recorded(s, capacity, id, votes), id);
            &&& after == before.take(after.len() as int)
            &&& after.len() + 1 >= before.len()
        }),
{
    lemma_vote_cases(s, capacity, id, votes);
}

/// On a full board a candidate that holds no place enters it exactly when its
/// votes strictly exceed those of the last place, which holds the fewest;
/// otherwise the board stays as it is.
pub proof fn lemma_full_board_admission(s: Seq<Entry>, capacity: nat, id: u64, votes: u64)
    requires
        board_ok(s, capacity),
        s.len() == capacity,
        !has_id(s, id),
    ensures
        forall|i: int| 0 <= i < s.len() ==> s.last().1 <= #[trigger] s[i].1,
        has_id(recorded(s, capacity, id, votes), id) <==> votes > s.last().1,
        votes <= s.last().1 ==> recorded(s, capacity, id, votes) == s,
{
    let r = recorded(s, capacity, id, votes);
    if votes > s.last().1 {
        let e = (id, votes);
        lemma_settle(s.drop_last(), e);
        assert(r.contains(e));
        let i = choose|i: int| 0 <= i < r.len() && r[i] == e;
        assert(r[i].0 == id);
    }
}

proof fn lemma_vote_cases(s: Seq<Entry>, capacity: nat, id: u64, votes: u64)
    requires
        board_ok(s, capacity),
    ensures
        has_room(s, id) ==> board_ok(recorded(s, capacity, id, votes), capacity),
        ({
            let before = without(s, id);
            let after = without(recorded(s, capacity, id, votes), id);
            &&& after == before.take(after.len() as int)
            &&& after.len() + 1 >= before.len()
        }),
{
    let r = recorded(s, capacity, id, votes);
    let before = without(s, id);
    if has_id(s, id) {
        let k = choose|k: int| 0 <= k < s.len() && s[k].0 == id;
        let p = s.take(k);
        let e = (id, (s[k].1 + 1) as u64);
        let rest = s.skip(k + 1);
        let q = settle(p, e);
        lemma_settle(p, e);
        assert(!has_id(p, id)) by {
            if has_id(p, id) {
                let m = choose|m: int| 0 <= m < p.len() && p[m].0 == id;
                assert(s[m].0 == id);
            }
        }
        assert(s == p + seq![s[k]] + rest);
        lemma_without_append(p, seq![s[k]], id);
        lemma_without_append(p + seq![s[k]], rest, id);
        lemma_without_append(q, rest, id);
        lemma_without_single(s[k], id);
        assert(without(p, id) + Seq::<Entry>::empty() == without(p, id));
        assert(without(r, id) == before);
        assert(before.take(before.len() as int) == before);
        if has_room(s, id) {
            assert(ranked(p)) by {
                assert forall|i: int, j: int| 0 <= i < j < p.len() implies p[i].1 >= p[j].1 by {
                    assert(p[i] == s[i] && p[j] == s[j]);
                }
            }
            assert(unique_ids(p)) by {
                assert forall|i: int, j: int|
                    0 <= i < p.len() && 0 <= j < p.len() && i != j implies p[i].0 != p[j].0 by {
                    assert(p[i] == s[i] && p[j] == s[j]);
                }
            }
            assert forall|i: int| 0 <= i < q.len() implies (q[i] == e || exists|m: int|
                0 <= m < k && s[m] == #[trigger] q[i]) by {
                assert(q.contains(q[i]));
                if q[i] != e {
                    let m = choose|m: int| 0 <= m < p.len() && p[m] == q[i];
                    assert(s[m] == q[i]);
                }
            }
            assert forall|i: int, j: int| 0 <= i < j < r.len() implies r[i].1 >= r[j].1 by {
                if j >= q.len() {
                    assert(r[j] == s[j]);
                    if i >= q.len() {
                        assert(r[i] == s[i]);
                    } else {
                        assert(r[i] == q[i]);
                        if q[i] != e {
                            let m = choose|m: int| 0 <= m < k && s[m] == q[i];
                        }
                    }
                } else {
                    assert(r[i] == q[i] && r[j] == q[j]);
                }
            }
            assert forall|i: int, j: int|
                0 <= i < r.len() && 0 <= j < r.len() && i != j implies r[i].0 != r[j].0 by {
                if i >= q.len() && j >= q.len() {
                    assert(r[i] == s[i] && r[j] == s[j]);
                } else if i < q.len() && j < q.len() {
                    assert(r[i] == q[i] && r[j] == q[j]);
                } else {
                    let (a, b) = if i < q.len() { (i, j) } else { (j, i) };
                    assert(r[a] == q[a] && r[b] == s[b]);
                    if q[a] == e {
                        assert(s[k].0 == id);
                    } else {
                        let m = choose|m: int| 0 <= m < k && s[m] == q[a];
                    }
                }
            }
        }
    } else if s.len() < capacity {
        lemma_settle(s, (id, votes));
        assert(before.take(before.len() as int) == before);
    } else if votes > s.last().1 {
        let p = s.drop_last();
        lemma_settle(p, (id, votes));
        assert(!has_id(p, id)) by {
            if has_id(p, id) {
                let m = choose|m: int| 0 <= m < p.len() && p[m].0 == id;
                assert(s[m].0 == id);
            }
        }
        assert(ranked(p)) by {
            assert forall|i: int, j: int| 0 <= i < j < p.len() implies p[i].1 >= p[j].1 by {
                assert(p[i] == s[i] && p[j] == s[j]);
            }
        }
        assert(unique_ids(p)) by {
            assert forall|i: int, j: int|
                0 <= i < p.len() && 0 <= j < p.len() && i != j implies p[i].0 != p[j].0 by {
                assert(p[i] == s[i] && p[j] == s[j]);
            }
        }
        assert(s.last().0 != id) by {
            assert(s[s.len() - 1].0 != id);
        }
        assert(before == without(p, id).push(s.last()));
        assert(without(p, id) == before.take(without(p, id).len() as int));
    } else {
        assert(before.take(before.len() as int) == before);
    }
}

} // verus!
