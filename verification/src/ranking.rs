use vstd::prelude::*;
use crate::seqs::{lemma_filter_insert, lemma_filter_none};

verus! {

/// A member of a server with the number of messages they have sent there.
pub struct MemberStat {
    pub user_id: String,
    pub message_count: i64,
}

/// The members ordered by each leaderboard: by total score, by voice time and by messages.
pub struct UserPositions {
    pub total: Vec<String>,
    pub voice: Vec<String>,
    pub message: Vec<String>,
}

/// Holds of the members whose message count is `k`.
pub open spec fn count_is(k: i64) -> spec_fn(MemberStat) -> bool {
    |m: MemberStat| m.message_count == k
}

/// The members of `s` whose message count is `k`, in their order in `s`.
pub open spec fn with_count(s: Seq<MemberStat>, k: i64) -> Seq<MemberStat> {
    s.filter(count_is(k))
}

/// Whether `s` is in descending order of message count.
pub open spec fn sorted_by_messages(s: Seq<MemberStat>) -> bool {
    forall|i: int, j: int| 0 <= i < j < s.len() ==> s[i].message_count >= s[j].message_count
}

/// Whether `t` is `s` sorted by descending message count, members with equal counts keeping
/// their order in `s` (a stable sort).
pub open spec fn is_message_order(t: Seq<MemberStat>, s: Seq<MemberStat>) -> bool {
    &&& sorted_by_messages(t)
    &&& t.len() == s.len()
    &&& forall|k: i64| #[trigger] with_count(t, k) == with_count(s, k)
}

/// The user ids of a list of members.
pub open spec fn ids_of(s: Seq<MemberStat>) -> Seq<String> {
    s.map_values(|m: MemberStat| m.user_id)
}

proof fn lemma_insert_keeps_classes(
    before: Seq<MemberStat>,
    p: int,
    x: MemberStat,
    prefix: Seq<MemberStat>,
)
    requires
        forall|k: i64| #[trigger] with_count(before, k) == with_count(prefix, k),
        sorted_by_messages(before),
        0 <= p <= before.len(),
        forall|j: int| 0 <= j < p ==> before[j].message_count >= x.message_count,
        p < before.len() ==> before[p].message_count < x.message_count,
    ensures
        forall|k: i64| #[trigger]
            with_count(before.insert(p, x), k) == with_count(prefix.push(x), k),
{
    assert forall|k: i64| #[trigger]
        with_count(before.insert(p, x), k) == with_count(prefix.push(x), k) by {
        let pred = count_is(k);
        lemma_filter_insert(before, p, x, pred);
        prefix.lemma_filter_push(x, pred);
        assert(with_count(before, k) == with_count(prefix, k));
        let low = before.take(p).filter(pred);
        let high = before.skip(p).filter(pred);
        if k == x.message_count {
            assert forall|j: int| 0 <= j < before.skip(p).len() implies !pred(
                #[trigger] before.skip(p)[j],
            ) by {
                assert(before.skip(p)[j] == before[p + j]);
                if j > 0 {
                    assert(before[p].message_count >= before[p + j].message_count);
                }
            }
            lemma_filter_none(before.skip(p), pred);
            assert(low + seq![x] + high =~= (low + high).push(x));
        } else {
            assert(low + Seq::<MemberStat>::empty() + high =~= low + high);
        }
    }
}

proof fn lemma_same_classes_equal(t1: Seq<MemberStat>, t2: Seq<MemberStat>)
    requires
        sorted_by_messages(t1),
        sorted_by_messages(t2),
        t1.len() == t2.len(),
        forall|k: i64| #[trigger] with_count(t1, k) == with_count(t2, k),
    ensures
        t1 =~= t2,
    decreases t1.len(),
{
    if t1.len() > 0 {
        let n = t1.len() - 1;
        let a = t1[n];
        let b = t2[n];
        t1.lemma_filter_contains(count_is(a.message_count), n);
        assert(with_count(t1, a.message_count) == with_count(t2, a.message_count));
        t2.lemma_filter_contains_rev(count_is(a.message_count), a);
        let ja = choose|j: int| 0 <= j < t2.len() && t2[j] == a;
        assert(b.message_count <= a.message_count) by {
            if ja < n {
                assert(t2[ja].message_count >= t2[n].message_count);
            }
        }
        t2.lemma_filter_contains(count_is(b.message_count), n);
        assert(with_count(t1, b.message_count) == with_count(t2, b.message_count));
        t1.lemma_filter_contains_rev(count_is(b.message_count), b);
        let jb = choose|j: int| 0 <= j < t1.len() && t1[j] == b;
        assert(a.message_count <= b.message_count) by {
            if jb < n {
                assert(t1[jb].message_count >= t1[n].message_count);
            }
        }
        let m = a.message_count;
        let d1 = t1.drop_last();
        let d2 = t2.drop_last();
        assert(t1 =~= d1.push(a));
        assert(t2 =~= d2.push(b));
        d1.lemma_filter_push(a, count_is(m));
        d2.lemma_filter_push(b, count_is(m));
        assert(with_count(t1, m) == with_count(t2, m));
        assert(with_count(t1, m).last() == a);
        assert(with_count(t2, m).last() == b);
        assert(with_count(d1, m) =~= with_count(t1, m).drop_last());
        assert(with_count(d2, m) =~= with_count(t2, m).drop_last());
        assert forall|k: i64| #[trigger] with_count(d1, k) == with_count(d2, k) by {
            if k != m {
                d1.lemma_filter_push(a, count_is(k));
                d2.lemma_filter_push(b, count_is(k));
                assert(with_count(t1, k) == with_count(t2, k));
            }
        }
        lemma_same_classes_equal(d1, d2);
    }
}

/// Law: on the message leaderboard nobody is placed above a member with more messages, the
/// board is as long as the list it sorts, and members with the same count keep the order
/// they had in that list.
pub proof fn lemma_message_order_descending(t: Seq<MemberStat>, s: Seq<MemberStat>, i: int, j: int, k: i64)
    requires
        is_message_order(t, s),
        0 <= i < j < t.len(),
    ensures
        t[i].message_count >= t[j].message_count,
        t.len() == s.len(),
        t.filter(|m: MemberStat| m.message_count == k) == s.filter(|m: MemberStat| m.message_count == k),
{
    assert(with_count(t, k) == with_count(s, k));
}

/// Law: the message leaderboard is determined by the voice leaderboard: any two lists that
/// sort it stably by descending message count are the same list.
pub proof fn lemma_message_order_unique(t1: Seq<MemberStat>, t2: Seq<MemberStat>, s: Seq<MemberStat>)
    requires
        is_message_order(t1, s),
        is_message_order(t2, s),
    ensures
        t1 == t2,
{
    assert forall|k: i64| #[trigger] with_count(t1, k) == with_count(t2, k) by {
        assert(with_count(t1, k) == with_count(s, k));
        assert(with_count(t2, k) == with_count(s, k));
    }
    lemma_same_classes_equal(t1, t2);
}

/// Law: the message leaderboard holds exactly the members of the list it sorts, so a member
/// found on the voice leaderboard is also found on the message leaderboard.
pub proof fn lemma_message_order_same_members(t: Seq<MemberStat>, s: Seq<MemberStat>, m: MemberStat)
    requires
        is_message_order(t, s),
    ensures
        t.contains(m) <==> s.contains(m),
{
    let pred = count_is(m.message_count);
    if t.contains(m) {
        let i = choose|i: int| 0 <= i < t.len() && t[i] == m;
        t.lemma_filter_contains(pred, i);
        assert(with_count(t, m.message_count) == with_count(s, m.message_count));
        s.lemma_filter_contains_rev(pred, m);
    }
    if s.contains(m) {
        let i = choose|i: int| 0 <= i < s.len() && s[i] == m;
        s.lemma_filter_contains(pred, i);
        assert(with_count(t, m.message_count) == with_count(s, m.message_count));
        t.lemma_filter_contains_rev(pred, m);
    }
}

fn copy_stat(m: &MemberStat) -> (r: MemberStat)
    ensures
        r == *m,
{
    MemberStat { user_id: m.user_id.clone(), message_count: m.message_count }
}

/// The members sorted by descending message count; members with equal counts keep their
/// order (the sort is stable, as `sort_by` is).
pub fn sort_by_messages(stats: &Vec<MemberStat>) -> (r: Vec<MemberStat>)
    ensures
        is_message_order(r@, stats@),
{
    let mut out: Vec<MemberStat> = Vec::new();
    let n = stats.len();
    let mut i: usize = 0;
    while i < n
        invariant
            n == stats@.len(),
            i <= n,
            out@.len() == i,
            sorted_by_messages(out@),
            forall|k: i64| #[trigger] with_count(out@, k) == with_count(stats@.take(i as int), k),
        decreases n - i,
    {
        let x = copy_stat(&stats[i]);
        let key = x.message_count;
        let mut p: usize = 0;
        while p < out.len() && out[p].message_count >= key
            invariant
                p <= out@.len(),
                forall|j: int| 0 <= j < p ==> out@[j].message_count >= key,
            decreases out@.len() - p,
        {
            p = p + 1;
        }
        let ghost before = out@;
        proof {
            assert(stats@.take(i as int + 1) =~= stats@.take(i as int).push(x));
            lemma_insert_keeps_classes(before, p as int, x, stats@.take(i as int));
        }
        out.insert(p, x);
        proof {
            assert forall|a: int, b: int| 0 <= a < b < out@.len() implies out@[a].message_count
                >= out@[b].message_count by {
                if b < p {
                } else if b == p {
                } else if a < p {
                    assert(out@[b] == before[b - 1]);
                    assert(before[b - 1].message_count <= key) by {
                        if (b - 1) > p {
                            assert(before[p as int].message_count < key);
                        }
                    }
                } else if a == p {
                    assert(out@[b] == before[b - 1]);
                    assert(before[b - 1].message_count <= key) by {
                        if (b - 1) > p {
                            assert(before[p as int].message_count < key);
                        }
                    }
                } else {
                    assert(out@[a] == before[a - 1]);
                    assert(out@[b] == before[b - 1]);
                }
            }
        }
        i = i + 1;
    }
    assert(stats@.take(n as int) =~= stats@);
    out
}

/// The ids of a list of members, in order.
pub fn member_ids(stats: &Vec<MemberStat>) -> (r: Vec<String>)
    ensures
        r@ == ids_of(stats@),
{
    let mut out: Vec<String> = Vec::new();
    let mut i: usize = 0;
    while i < stats.len()
        invariant
            i <= stats@.len(),
            out@ =~= ids_of(stats@.take(i as int)),
        decreases stats@.len() - i,
    {
        out.push(stats[i].user_id.clone());
        i = i + 1;
        assert(ids_of(stats@.take(i as int)) =~= ids_of(stats@.take(i - 1)).push(
            stats@[i - 1].user_id,
        ));
    }
    assert(stats@.take(stats@.len() as int) =~= stats@);
    out
}

/// The three leaderboards of a server. `by_total` are the member ids by descending total
/// score; `by_voice` are the members by descending voice time. The message leaderboard is
/// `by_voice` sorted (stably) by descending message count, so members with equal counts keep
/// their voice order.
pub fn user_positions(by_total: Vec<String>, by_voice: &Vec<MemberStat>) -> (r: UserPositions)
    ensures
        r.total@ == by_total@,
        r.voice@ == ids_of(by_voice@),
        exists|t: Seq<MemberStat>| is_message_order(t, by_voice@) && r.message@ == ids_of(t),
{
    let sorted = sort_by_messages(by_voice);
    UserPositions { total: by_total, voice: member_ids(by_voice), message: member_ids(&sorted) }
}

/// The 1-based place of `user_id` on a leaderboard: one more than the index of its first
/// occurrence. The id must be on the leaderboard.
pub fn rank_in(board: &Vec<String>, user_id: &String) -> (r: usize)
    requires
        exists|i: int| 0 <= i < board@.len() && board@[i]@ == user_id@,
    ensures
        1 <= r <= board@.len(),
        board@[r - 1]@ == user_id@,
        forall|j: int| 0 <= j < r - 1 ==> board@[j]@ != user_id@,
{
    let mut i: usize = 0;
    while i < board.len()
        invariant
            i <= board@.len(),
            forall|j: int| 0 <= j < i ==> board@[j]@ != user_id@,
            exists|w: int| i <= w < board@.len() && board@[w]@ == user_id@,
        decreases board@.len() - i,
    {
        if board[i] == *user_id {
            return i + 1;
        }
        i = i + 1;
    }
    i + 1
}

/// The sum of a list of counts.
pub open spec fn count_sum(s: Seq<i64>) -> int
    decreases s.len(),
{
    if s.len() == 0 {
        0
    } else {
        count_sum(s.drop_last()) + s.last()
    }
}

/// Law: the sum counts every element once: adding an element to the end of a list adds it
/// to the sum, whatever the elements before it are.
pub proof fn lemma_count_sum_push(s: Seq<i64>, x: i64)
    ensures
        count_sum(s.push(x)) == count_sum(s) + x,
        count_sum(Seq::<i64>::empty()) == 0,
        count_sum(seq![x]) == x,
{
    assert(s.push(x).drop_last() =~= s);
    assert(seq![x].drop_last() =~= Seq::<i64>::empty());
}

/// Law: the sum of two lists put together is the sum of the first plus the sum of the
/// second, so the sum does not depend on how the counts are grouped.
pub proof fn lemma_count_sum_append(a: Seq<i64>, b: Seq<i64>)
    ensures
        count_sum(a + b) == count_sum(a) + count_sum(b),
    decreases b.len(),
{
    if b.len() == 0 {
        assert(a + b =~= a);
    } else {
        lemma_count_sum_append(a, b.drop_last());
        assert((a + b).drop_last() =~= a + b.drop_last());
        assert((a + b).last() == b.last());
    }
}

/// Whether every running total of `s` fits in an `i64`: the condition under which `sum`
/// adds the counts without overflow.
pub open spec fn sums_fit(s: Seq<i64>) -> bool {
    forall|i: int|
        0 <= i <= s.len() ==> i64::MIN <= #[trigger] count_sum(s.take(i)) <= i64::MAX
}

/// The sum of a list of counts, added from the first to the last as `Iterator::sum` adds
/// them.
pub fn sum_counts(counts: &Vec<i64>) -> (r: i64)
    requires
        sums_fit(counts@),
    ensures
        r == count_sum(counts@),
{
    let mut total: i64 = 0;
    let mut i: usize = 0;
    assert(counts@.take(0) =~= Seq::<i64>::empty());
    while i < counts.len()
        invariant
            i <= counts@.len(),
            sums_fit(counts@),
            total == count_sum(counts@.take(i as int)),
        decreases counts@.len() - i,
    {
        assert(counts@.take(i + 1).drop_last() =~= counts@.take(i as int));
        assert(count_sum(counts@.take(i + 1)) <= i64::MAX);
        assert(count_sum(counts@.take(i + 1)) >= i64::MIN);
        total = total + counts[i];
        i = i + 1;
    }
    assert(counts@.take(counts@.len() as int) =~= counts@);
    total
}

} // verus!
