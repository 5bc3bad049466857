use vstd::prelude::*;

use priority_queue::PriorityQueue;
use vstd::multiset::Multiset;
use vstd::string::StringExecFns;

use crate::dates::Date;
use crate::decimal::dec_digits;
use crate::decimal::push_dec;
use crate::errors::FriendError;
use crate::models::due_status_of;
use crate::models::Friend;
use crate::pqueue::pq_new;
use crate::pqueue::pq_pop;
use crate::pqueue::pq_push;
use crate::pqueue::queue_entries;

verus! {

/// The due status of a friend: never seen, overdue by a number of days, or
/// due in a number of days.
#[derive(Eq, PartialEq, Clone, Copy, Debug, Hash, Structural)]
pub enum DueDays {
    NotSeen,
    OverDue(u16),
    DueIn(u16),
}

/// The urgency tier of a status: friends never seen come first, then the
/// overdue, then the merely due.
pub open spec fn bucket(d: DueDays) -> int {
    match d {
        DueDays::NotSeen => 2,
        DueDays::OverDue(_) => 1,
        DueDays::DueIn(_) => 0,
    }
}

/// Strict urgency order over due statuses: a higher tier outranks a lower
/// one; among the overdue, more days overdue outranks fewer; among the due,
/// fewer days until due outranks more.
pub open spec fn more_urgent(a: DueDays, b: DueDays) -> bool {
    if bucket(a) != bucket(b) {
        bucket(a) > bucket(b)
    } else {
        match (a, b) {
            (DueDays::OverDue(x), DueDays::OverDue(y)) => x > y,
            (DueDays::DueIn(x), DueDays::DueIn(y)) => x < y,
            _ => false,
        }
    }
}

/// The urgency order flattened into a single integer: a status outranks
/// another exactly when its rank is greater.
pub open spec fn rank_of(d: DueDays) -> int {
    match d {
        DueDays::NotSeen => 131072,
        DueDays::OverDue(n) => 65536 + n,
        DueDays::DueIn(n) => 65535 - n,
    }
}

impl DueDays {
    /// The status's rank, as `rank_of` gives it.
    pub fn rank_key(&self) -> (r: u64)
        ensures
            r == rank_of(*self),
    {
        match self {
            DueDays::NotSeen => 131072,
            DueDays::OverDue(n) => 65536 + *n as u64,
            DueDays::DueIn(n) => 65535 - *n as u64,
        }
    }

    /// The text a status is shown as: nothing for a friend never seen,
    /// `"N days ago"` for one overdue, `"in N days"` for one due.
    pub fn display_some(&self) -> (r: Option<String>)
        ensures
            r.deep_view() == display_chars(*self),
    {
        match self {
            DueDays::NotSeen => None,
            DueDays::OverDue(d) => {
                let mut out = String::new();
                push_dec(&mut out, *d);
                out.append(" days ago");
                proof {
                    assert(out@ =~= dec_digits(*d as int) + " days ago"@);
                }
                Some(out)
            },
            DueDays::DueIn(d) => {
                let mut out = String::from_str("in ");
                push_dec(&mut out, *d);
                out.append(" days");
                proof {
                    assert(out@ =~= "in "@ + dec_digits(*d as int) + " days"@);
                }
                Some(out)
            },
        }
    }
}

/// What `display_some` returns for each status.
pub open spec fn display_chars(d: DueDays) -> Option<Seq<char>> {
    match d {
        DueDays::NotSeen => None,
        DueDays::OverDue(n) => Some(dec_digits(n as int) + " days ago"@),
        DueDays::DueIn(n) => Some("in "@ + dec_digits(n as int) + " days"@),
    }
}

/// The rank mirrors the urgency order: strictly more urgent is strictly
/// greater rank, and equal rank is equality of statuses.
pub proof fn lemma_rank_orders_urgency(a: DueDays, b: DueDays)
    ensures
        more_urgent(a, b) <==> rank_of(a) > rank_of(b),
        rank_of(a) == rank_of(b) <==> a == b,
{
}

/// The urgency order is total: of two statuses, exactly one of "more
/// urgent", "less urgent" and "equal" holds.
pub proof fn lemma_urgency_total(a: DueDays, b: DueDays)
    ensures
        more_urgent(a, b) || more_urgent(b, a) || a == b,
        more_urgent(a, b) ==> !more_urgent(b, a) && a != b,
        more_urgent(b, a) ==> !more_urgent(a, b) && a != b,
        a == b ==> !more_urgent(a, b) && !more_urgent(b, a),
{
}

/// The urgency order is transitive.
pub proof fn lemma_urgency_transitive(a: DueDays, b: DueDays, c: DueDays)
    requires
        more_urgent(a, b),
        more_urgent(b, c),
    ensures
        more_urgent(a, c),
{
}

/// How many days ahead a friend may fall due and still be listed.
pub const UP_SOON_CUTOFF_DAYS: u16 = 10;

/// Whether a status is worth tracking under a look-ahead cutoff: a friend
/// due further ahead than the cutoff is not; the overdue and the never seen
/// always are.
pub open spec fn retains(cutoff: u16, st: DueDays) -> bool {
    match st {
        DueDays::DueIn(d) => d <= cutoff,
        _ => true,
    }
}

/// The pairs the backing queue of an `UpcomingFriends` holds: each retained
/// entry under its position, prioritised by its rank.
pub open spec fn index_ranks(s: Seq<(Friend, DueDays)>) -> Seq<(u64, u64)> {
    Seq::new(s.len(), |i: int| (i as u64, rank_of(s[i].1) as u64))
}

/// The friends retained for one listing, each with its due status, ready to
/// come back out in urgency order.
pub struct UpcomingFriends {
    cutoff: u16,
    entries: Vec<(Friend, DueDays)>,
    queue: PriorityQueue<u64, u64>,
}

impl View for UpcomingFriends {
    type V = Seq<(Friend, DueDays)>;

    /// The retained entries, in the order they were pushed.
    closed spec fn view(&self) -> Seq<(Friend, DueDays)> {
        self.entries@
    }
}

impl UpcomingFriends {
    /// The queue's look-ahead cutoff, in days.
    pub closed spec fn spec_cutoff(&self) -> u16 {
        self.cutoff
    }

    /// Internal consistency: the backing queue holds exactly one pair per
    /// retained entry, keyed by position and prioritised by rank.
    pub closed spec fn wf(&self) -> bool {
        queue_entries(self.queue) == index_ranks(self.entries@).to_multiset()
    }

    /// An empty queue with the given look-ahead cutoff.
    pub fn with_cutoff(cutoff: u16) -> (r: Self)
        ensures
            r.wf(),
            r@ == Seq::<(Friend, DueDays)>::empty(),
            r.spec_cutoff() == cutoff,
    {
        let r = UpcomingFriends { cutoff, entries: Vec::new(), queue: pq_new() };
        proof {
            broadcast use vstd::seq_lib::group_to_multiset_ensures;
            broadcast use vstd::multiset::group_multiset_axioms;

            assert(index_ranks(r.entries@) =~= Seq::<(u64, u64)>::empty());
            lemma_empty_to_multiset::<(u64, u64)>();
        }
        r
    }

    /// An empty queue with the default look-ahead cutoff.
    pub fn new() -> (r: Self)
        ensures
            r.wf(),
            r@ == Seq::<(Friend, DueDays)>::empty(),
            r.spec_cutoff() == UP_SOON_CUTOFF_DAYS,
    {
        Self::with_cutoff(UP_SOON_CUTOFF_DAYS)
    }

    /// Computes the friend's due status and retains the pair unless the
    /// status falls past the cutoff; a calculator failure is handed back and
    /// nothing is retained. The queue holds at most one entry per friend
    /// identity: pushing a name already retained is a caller error, ruled
    /// out here rather than recovered from.
    pub fn push(&mut self, friend: Friend, today: Date) -> (r: Result<(), FriendError>)
        requires
            old(self).wf(),
            friend.freq_weeks >= 1,
            today.valid(),
            forall|k: int|
                0 <= k < old(self)@.len() ==> (#[trigger] old(self)@[k]).0.name@ != friend.name@,
        ensures
            final (self).wf(),
            final (self).spec_cutoff() == old(self).spec_cutoff(),
            match due_status_of(friend, today) {
                Err(e) => r == Err::<(), FriendError>(e) && final (self)@ == old(self)@,
                Ok(st) => r == Ok::<(), FriendError>(()) && final (self)@ == (if retains(
                    old(self).spec_cutoff(),
                    st,
                ) {
                    old(self)@.push((friend, st))
                } else {
                    old(self)@
                }),
            },
    {
        let st = match friend.days_until_due(today) {
            Ok(st) => st,
            Err(e) => {
                return Err(e);
            },
        };
        if let DueDays::DueIn(d) = st {
            if d > self.cutoff {
                return Ok(());
            }
        }
        self.push_status(friend, st);
        Ok(())
    }

    /// Retains a friend under an already-computed status, whatever the
    /// status is: the pair joins the entries and the backing queue. As in
    /// `push`, the friend's identity must not be retained yet.
    pub fn push_status(&mut self, friend: Friend, status: DueDays)
        requires
            old(self).wf(),
            forall|k: int|
                0 <= k < old(self)@.len() ==> (#[trigger] old(self)@[k]).0.name@ != friend.name@,
        ensures
            final (self).wf(),
            final (self).spec_cutoff() == old(self).spec_cutoff(),
            final (self)@ == old(self)@.push((friend, status)),
    {
        let idx = self.entries.len();
        let rank = status.rank_key();
        proof {
            broadcast use vstd::seq_lib::group_to_multiset_ensures;
            broadcast use vstd::multiset::group_multiset_axioms;

            let ir = index_ranks(self.entries@);
            assert forall|p: u64| #![trigger queue_entries(self.queue).contains((idx as u64, p))] !queue_entries(
                self.queue,
            ).contains((idx as u64, p)) by {
                if queue_entries(self.queue).contains((idx as u64, p)) {
                    assert(ir.to_multiset().count((idx as u64, p)) > 0);
                    assert(ir.contains((idx as u64, p)));
                    let i = choose|i: int| 0 <= i < ir.len() && ir[i] == (idx as u64, p);
                    assert(ir[i].0 == i as u64);
                    assert(false);
                }
            }
        }
        self.entries.push((friend, status));
        pq_push(&mut self.queue, idx as u64, rank);
        proof {
            broadcast use vstd::seq_lib::group_to_multiset_ensures;
            broadcast use vstd::multiset::group_multiset_axioms;

            let irold = index_ranks(old(self).entries@);
            let e = (idx as u64, rank);
            assert(index_ranks(self.entries@) =~= irold.push(e));
            assert(irold.push(e).to_multiset() == irold.to_multiset().insert(e));
        }
    }

    /// Hands every retained entry back, most urgent first: the result holds
    /// exactly the retained pairs, and no entry outranks one before it.
    pub fn drain_sorted(self) -> (r: Vec<(Friend, DueDays)>)
        requires
            self.wf(),
        ensures
            r@.to_multiset() == self@.to_multiset(),
            r@.len() == self@.len(),
            forall|i: int, j: int|
                0 <= i < j < r@.len() ==> rank_of(#[trigger] r@[i].1) >= rank_of(
                    #[trigger] r@[j].1,
                ),
            forall|i: int, j: int|
                0 <= i < j < r@.len() ==> !more_urgent(#[trigger] r@[j].1, #[trigger] r@[i].1),
    {
        let ghost orig = self@;
        let UpcomingFriends { cutoff: _, entries, queue } = self;
        let mut queue = queue;
        let mut out: Vec<(Friend, DueDays)> = Vec::new();
        let n = entries.len();
        let ghost total = index_ranks(entries@).to_multiset();
        let ghost mut drained: Seq<(u64, u64)> = Seq::empty();
        proof {
            broadcast use vstd::seq_lib::group_to_multiset_ensures;
            broadcast use vstd::multiset::group_multiset_axioms;

            assert(entries@ == orig);
            lemma_empty_to_multiset::<(u64, u64)>();
            assert(queue_entries(queue).add(drained.to_multiset()) =~= total);
        }
        loop
            invariant_except_break
                queue_entries(queue).add(drained.to_multiset()) == total,
            invariant
                total == index_ranks(entries@).to_multiset(),
                entries@.len() == n,
                out@.len() == drained.len(),
                forall|k: int|
                    0 <= k < drained.len() ==> 0 <= #[trigger] drained[k].0 < entries@.len()
                        && out@[k] == entries@[drained[k].0 as int] && drained[k].1 == rank_of(
                        out@[k].1,
                    ),
                forall|k1: int, k2: int|
                    0 <= k1 < k2 < drained.len() ==> #[trigger] drained[k2].1
                        <= #[trigger] drained[k1].1,
                drained.len() > 0 ==> forall|x: (u64, u64)|
                    #[trigger] queue_entries(queue).contains(x) ==> x.1 <= drained[drained.len()
                        - 1].1,
            ensures
                drained.to_multiset() == total,
            decreases queue_entries(queue).len(),
        {
            let ghost pre = queue_entries(queue);
            let popped = pq_pop(&mut queue);
            let e = match popped {
                None => {
                    proof {
                        broadcast use vstd::multiset::group_multiset_axioms;

                        assert(drained.to_multiset() =~= total) by {
                            assert forall|y: (u64, u64)|
                                drained.to_multiset().count(y) == total.count(y) by {
                                assert(pre.add(drained.to_multiset()).count(y) == total.count(y));
                                assert(pre.count(y) <= pre.len());
                            }
                        }
                    }
                    break ;
                },
                Some(e) => e,
            };
            proof {
                broadcast use vstd::seq_lib::group_to_multiset_ensures;
                broadcast use vstd::multiset::group_multiset_axioms;

                let ir = index_ranks(entries@);
                assert(pre.add(drained.to_multiset()).count(e) == total.count(e));
                assert(total.count(e) > 0);
                assert(ir.to_multiset().count(e) > 0);
                assert(ir.contains(e));
                let i = choose|i: int| 0 <= i < ir.len() && ir[i] == e;
                assert(ir[i] == (i as u64, rank_of(entries@[i].1) as u64));
                assert(e.0 == i as u64);
                assert(e.0 as int == i);
            }
            let idx = e.0 as usize;
            let pair = &entries[idx];
            let f = pair.0.clone();
            let st = pair.1;
            out.push((f, st));
            proof {
                broadcast use vstd::seq_lib::group_to_multiset_ensures;
                broadcast use vstd::multiset::group_multiset_axioms;

                let old_drained = drained;
                drained = drained.push(e);
                assert(drained.to_multiset() == old_drained.to_multiset().insert(e));
                assert forall|y: (u64, u64)|
                    queue_entries(queue).add(drained.to_multiset()).count(y) == total.count(y) by {
                    assert(pre.add(old_drained.to_multiset()).count(y) == total.count(y));
                    assert(queue_entries(queue).count(y) == pre.count(y) - (if y == e {
                        1int
                    } else {
                        0int
                    }));
                    assert(old_drained.to_multiset().insert(e).count(y)
                        == old_drained.to_multiset().count(y) + (if y == e {
                        1int
                    } else {
                        0int
                    }));
                }
                assert(queue_entries(queue).add(drained.to_multiset()) =~= total);
                assert(out@[old_drained.len() as int] == (f, st));
                assert forall|k1: int, k2: int|
                    0 <= k1 < k2 < drained.len() implies #[trigger] drained[k2].1
                    <= #[trigger] drained[k1].1 by {
                    if k2 == drained.len() - 1 {
                        assert(drained[k2] == e);
                        assert(pre.contains(e));
                        assert(e.1 <= old_drained[old_drained.len() - 1].1);
                        if k1 < old_drained.len() - 1 {
                            assert(old_drained[old_drained.len() - 1].1 <= old_drained[k1].1);
                        }
                    }
                }
                assert forall|x: (u64, u64)| #[trigger] queue_entries(queue).contains(x) implies x.1
                    <= drained[drained.len() - 1].1 by {
                    assert(queue_entries(queue).count(x) == pre.count(x) - (if x == e {
                        1int
                    } else {
                        0int
                    }));
                    assert(pre.contains(x));
                }
            }
        }
        proof {
            broadcast use vstd::seq_lib::group_to_multiset_ensures;
            broadcast use vstd::multiset::group_multiset_axioms;

            let ir = index_ranks(entries@);
            assert(drained.to_multiset() == ir.to_multiset());
            let fmap = |e: (u64, u64)| entries@[e.0 as int];
            lemma_map_values_permutation(drained, ir, fmap);
            assert(out@ =~= drained.map_values(fmap));
            assert(ir.map_values(fmap) =~= entries@);
            assert(out@.to_multiset() == entries@.to_multiset());
            assert(out@.to_multiset().len() == out@.len());
            assert(entries@.to_multiset().len() == entries@.len());
            assert forall|i: int, j: int| 0 <= i < j < out@.len() implies rank_of(
                #[trigger] out@[i].1,
            ) >= rank_of(#[trigger] out@[j].1) by {
                assert(drained[j].1 <= drained[i].1);
                assert(drained[i].1 == rank_of(out@[i].1) && drained[j].1 == rank_of(out@[j].1));
            }
            assert forall|i: int, j: int| 0 <= i < j < out@.len() implies !more_urgent(
                #[trigger] out@[j].1,
                #[trigger] out@[i].1,
            ) by {
                lemma_rank_orders_urgency(out@[j].1, out@[i].1);
            }
        }
        out
    }
}

/// The empty sequence holds the empty multiset.
proof fn lemma_empty_to_multiset<A>()
    ensures
        Seq::<A>::empty().to_multiset() == Multiset::<A>::empty(),
{
    broadcast use vstd::seq_lib::group_to_multiset_ensures;
    broadcast use vstd::multiset::group_multiset_axioms;

    let s = Seq::<A>::empty();
    assert(s.to_multiset() =~= Multiset::<A>::empty()) by {
        assert forall|y: A| s.to_multiset().count(y) == 0 by {
            assert(s.to_multiset().count(y) <= s.to_multiset().len());
        }
    }
}

/// Mapping a function over two sequences that hold the same elements, in
/// whatever order, yields sequences that hold the same elements.
proof fn lemma_map_values_permutation<A, B>(a: Seq<A>, b: Seq<A>, f: spec_fn(A) -> B)
    requires
        a.to_multiset() == b.to_multiset(),
    ensures
        a.map_values(f).to_multiset() == b.map_values(f).to_multiset(),
    decreases a.len(),
{
    broadcast use vstd::seq_lib::group_to_multiset_ensures;
    broadcast use vstd::multiset::group_multiset_axioms;

    if a.len() == 0 {
        assert(a.to_multiset().len() == a.len());
        assert(b.to_multiset().len() == b.len());
        assert(b.len() == 0);
        assert(a.map_values(f) =~= Seq::<B>::empty());
        assert(b.map_values(f) =~= Seq::<B>::empty());
    } else {
        let x = a.last();
        assert(a.to_multiset().count(x) > 0) by {
            assert(a.contains(x));
        }
        assert(b.contains(x));
        let j = choose|j: int| 0 <= j < b.len() && b[j] == x;
        let a2 = a.drop_last();
        let b2 = b.remove(j);
        assert(a2.to_multiset() =~= a.to_multiset().remove(x)) by {
            assert(a2 =~= a.remove(a.len() - 1));
            assert(a.remove(a.len() - 1).to_multiset() == a.to_multiset().remove(a[a.len() - 1]));
        }
        assert(b2.to_multiset() == b.to_multiset().remove(x));
        lemma_map_values_permutation(a2, b2, f);
        let fa = a.map_values(f);
        let fb = b.map_values(f);
        assert(a2.map_values(f) =~= fa.drop_last());
        assert(b2.map_values(f) =~= fb.remove(j));
        assert(fa =~= fa.drop_last().push(f(x)));
        assert(fa.to_multiset() == fa.drop_last().to_multiset().insert(f(x)));
        assert(fb.remove(j).to_multiset() == fb.to_multiset().remove(fb[j]));
        assert(fb[j] == f(x));
        assert(fb.to_multiset().count(f(x)) > 0) by {
            assert(fb.contains(f(x)));
        }
        assert(fa.to_multiset() =~= fb.to_multiset()) by {
            assert forall|y: B| fa.to_multiset().count(y) == fb.to_multiset().count(y) by {
                assert(fa.drop_last().to_multiset().count(y) == fb.remove(j).to_multiset().count(
                    y,
                ));
            }
        }
    }
}

} // verus!
