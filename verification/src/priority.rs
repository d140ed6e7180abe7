//! A bounded queue that hands out the item of the highest priority first, and
//! among items of one priority the one that came first.

use vstd::multiset::Multiset;
use vstd::prelude::*;

verus! {

/// A bounded priority queue with a number of senders.
pub struct PriorityQueue<T> {
    items: Vec<(i32, T)>,
    cap: usize,
    senders: usize,
}

/// The model of a [`PriorityQueue`]: its items with their priorities in the
/// order in which they came.
#[verifier::ext_equal]
pub struct Backlog<T> {
    pub items: Seq<(i32, T)>,
    pub cap: nat,
    pub senders: nat,
}

impl<T> View for PriorityQueue<T> {
    type V = Backlog<T>;

    closed spec fn view(&self) -> Backlog<T> {
        Backlog { items: self.items@, cap: self.cap as nat, senders: self.senders as nat }
    }
}

/// What a receiver gets.
pub enum Received<T> {
    Item(T),
    /// The queue is empty and every sender is gone.
    Closed,
    /// The queue is empty for now.
    Nothing,
}

/// The position of the item that leaves first.
pub open spec fn head<T>(items: Seq<(i32, T)>) -> int
    decreases items.len(),
{
    if items.len() <= 1 {
        0
    } else {
        let h = head(items.drop_last());
        if items.last().0 > items[h].0 {
            items.len() - 1
        } else {
            h
        }
    }
}

/// The items without their priorities.
pub open spec fn values<T>(items: Seq<(i32, T)>) -> Seq<T> {
    Seq::new(items.len(), |i: int| items[i].1)
}

impl<T> Backlog<T> {
    pub open spec fn is_full(self) -> bool {
        self.items.len() >= self.cap
    }

    pub open spec fn with(self, priority: i32, item: T) -> Backlog<T> {
        Backlog { items: self.items.push((priority, item)), ..self }
    }

    pub open spec fn without_head(self) -> Backlog<T> {
        Backlog { items: self.items.remove(head(self.items)), ..self }
    }
}

impl<T> PriorityQueue<T> {
    /// An empty queue with one sender that holds up to `cap` items, and one
    /// item at least.
    pub fn new(cap: usize) -> (q: Self)
        ensures
            q@.items.len() == 0,
            q@.cap == if cap >= 1 {
                cap
            } else {
                1
            },
            q@.senders == 1,
    {
        PriorityQueue {
            items: Vec::new(),
            cap: if cap >= 1 {
                cap
            } else {
                1
            },
            senders: 1,
        }
    }

    /// Adds an item, unless the queue is full. Tells whether it did.
    pub fn try_send(&mut self, item: T, priority: i32) -> (sent: bool)
        ensures
            sent == !old(self)@.is_full(),
            sent ==> final(self)@ == old(self)@.with(priority, item),
            !sent ==> final(self)@ == old(self)@,
    {
        if self.items.len() >= self.cap {
            return false;
        }
        self.items.push((priority, item));
        true
    }

    /// Takes the item out that leaves first, and tells an empty queue that
    /// waits for more from one that is closed.
    pub fn receive(&mut self) -> (r: Received<T>)
        ensures
            match r {
                Received::Item(item) => {
                    &&& old(self)@.items.len() > 0
                    &&& item == old(self)@.items[head(old(self)@.items)].1
                    &&& final(self)@ == old(self)@.without_head()
                },
                Received::Closed => {
                    &&& old(self)@.items.len() == 0
                    &&& old(self)@.senders == 0
                    &&& final(self)@ == old(self)@
                },
                Received::Nothing => {
                    &&& old(self)@.items.len() == 0
                    &&& old(self)@.senders > 0
                    &&& final(self)@ == old(self)@
                },
            },
    {
        if self.items.len() == 0 {
            return if self.senders == 0 {
                Received::Closed
            } else {
                Received::Nothing
            };
        }
        let mut best: usize = 0;
        let mut i: usize = 1;
        assert(self.items@.take(1).len() == 1);
        while i < self.items.len()
            invariant
                0 < i <= self.items@.len(),
                best < i,
                best == head(self.items@.take(i as int)),
            decreases self.items.len() - i,
        {
            let ghost t = self.items@.take(i + 1);
            assert(t.drop_last() =~= self.items@.take(i as int));
            if self.items[i].0 > self.items[best].0 {
                best = i;
            }
            i = i + 1;
        }
        assert(self.items@.take(i as int) =~= self.items@);
        let (_, item) = self.items.remove(best);
        Received::Item(item)
    }

    /// Takes all items out, in the order in which they came.
    pub fn take_all(&mut self) -> (r: Vec<T>)
        ensures
            r@ == values(old(self)@.items),
            final(self)@ == (Backlog { items: seq![], ..old(self)@ }),
    {
        let ghost all = self.items@;
        let mut out: Vec<T> = Vec::new();
        assert(all.skip(0) =~= all);
        while self.items.len() > 0
            invariant
                out@.len() <= all.len(),
                self.items@ == all.skip(out@.len() as int),
                out@ == values(all).take(out@.len() as int),
                self.cap == old(self).cap,
                self.senders == old(self).senders,
            decreases self.items.len(),
        {
            let ghost k = out@.len() as int;
            let (_, item) = self.items.remove(0);
            assert(self.items@ =~= all.skip(k + 1));
            out.push(item);
            assert(out@ =~= values(all).take(k + 1));
        }
        assert(out@ =~= values(all));
        assert(self@.items =~= seq![]);
        out
    }

    /// Whether every sender is gone.
    pub fn is_closed(&self) -> (r: bool)
        ensures
            r == (self@.senders == 0),
    {
        self.senders == 0
    }

    /// How many items wait.
    pub fn len(&self) -> (n: usize)
        ensures
            n == self@.items.len(),
    {
        self.items.len()
    }

    /// Adds a sender.
    pub fn add_sender(&mut self)
        requires
            old(self)@.senders < usize::MAX,
        ensures
            final(self)@ == (Backlog { senders: old(self)@.senders + 1, ..old(self)@ }),
    {
        self.senders = self.senders + 1;
    }

    /// Takes a sender away, where there is one.
    pub fn drop_sender(&mut self)
        ensures
            final(self)@.items == old(self)@.items,
            final(self)@.cap == old(self)@.cap,
            final(self)@.senders == if old(self)@.senders > 0 {
                (old(self)@.senders - 1) as nat
            } else {
                0
            },
    {
        if self.senders > 0 {
            self.senders = self.senders - 1;
        }
    }
}

/// The item that leaves first has the highest priority, and came before all
/// others of that priority.
pub proof fn head_is_the_first_of_the_highest<T>(items: Seq<(i32, T)>)
    requires
        items.len() > 0,
    ensures
        0 <= head(items) < items.len(),
        forall|j: int|
            0 <= j < items.len() ==> (#[trigger] items[j]).0 <= items[head(items)].0,
        forall|j: int|
            0 <= j < head(items) ==> (#[trigger] items[j]).0 < items[head(items)].0,
    decreases items.len(),
{
    if items.len() > 1 {
        let front = items.drop_last();
        head_is_the_first_of_the_highest(front);
        assert forall|j: int| 0 <= j < items.len() - 1 implies items[j] == front[j] by {}
    }
}

/// The items in the order in which they leave when no more come.
pub open spec fn departures<T>(items: Seq<(i32, T)>) -> Seq<(i32, T)>
    decreases items.len(),
{
    if items.len() == 0 || !(0 <= head(items) < items.len()) {
        items
    } else {
        seq![items[head(items)]] + departures(items.remove(head(items)))
    }
}

/// Items leave by falling priority, and every item leaves.
pub proof fn departures_fall_in_priority<T>(items: Seq<(i32, T)>)
    ensures
        departures(items).to_multiset() == items.to_multiset(),
        forall|i: int, j: int|
            0 <= i <= j < departures(items).len() ==> (#[trigger] departures(items)[i]).0 >= (
            #[trigger] departures(items)[j]).0,
    decreases items.len(),
{
    broadcast use vstd::seq_lib::group_to_multiset_ensures;

    if items.len() > 0 {
        head_is_the_first_of_the_highest(items);
        let h = head(items);
        let rest = items.remove(h);
        let out = departures(rest);
        departures_fall_in_priority(rest);
        assert(departures(items) =~= seq![items[h]] + out);
        vstd::seq_lib::lemma_multiset_commutative(seq![items[h]], out);
        assert(seq![items[h]].to_multiset() =~= Multiset::singleton(items[h])) by {
            assert(seq![items[h]] =~= Seq::<(i32, T)>::empty().push(items[h]));
        }
        assert(rest.to_multiset() =~= items.to_multiset().remove(items[h]));
        assert(departures(items).to_multiset() =~= items.to_multiset());
        assert forall|j: int| 0 <= j < out.len() implies (#[trigger] out[j]).0 <= items[h].0 by {
            assert(out.contains(out[j]));
            assert(rest.to_multiset().count(out[j]) > 0);
            assert(rest.contains(out[j]));
            let k = choose|k: int| 0 <= k < rest.len() && rest[k] == out[j];
            let m = if k < h {
                k
            } else {
                k + 1
            };
            assert(items[m] == rest[k]);
        }
    }
}

/// Among items of one priority the one that came first leaves first: while an
/// item waits, none that came later with the same or a lower priority leaves.
pub proof fn equal_priorities_leave_in_order<T>(items: Seq<(i32, T)>, earlier: int, later: int)
    requires
        0 <= earlier < later < items.len(),
        items[later].0 <= items[earlier].0,
    ensures
        head(items) != later,
{
    head_is_the_first_of_the_highest(items);
}

/// The items of priority `p`, in their order.
pub open spec fn of_priority<T>(items: Seq<(i32, T)>, p: i32) -> Seq<(i32, T)> {
    items.filter(|x: (i32, T)| x.0 == p)
}

proof fn priority_of_parts<T>(a: Seq<(i32, T)>, b: Seq<(i32, T)>, p: i32)
    ensures
        of_priority(a + b, p) == of_priority(a, p) + of_priority(b, p),
{
    Seq::filter_distributes_over_add(a, b, |x: (i32, T)| x.0 == p);
}

proof fn priority_of_others<T>(items: Seq<(i32, T)>, p: i32)
    requires
        forall|j: int| 0 <= j < items.len() ==> (#[trigger] items[j]).0 != p,
    ensures
        of_priority(items, p) == Seq::<(i32, T)>::empty(),
    decreases items.len(),
{
    reveal(Seq::filter);
    if items.len() > 0 {
        assert forall|j: int| 0 <= j < items.len() - 1 implies (
        #[trigger] items.drop_last()[j]).0 != p by {
            assert(items.drop_last()[j] == items[j]);
        }
        priority_of_others(items.drop_last(), p);
    }
}

/// The items of each priority leave in the order in which they came.
pub proof fn departures_keep_the_order_of_equals<T>(items: Seq<(i32, T)>, p: i32)
    ensures
        of_priority(departures(items), p) == of_priority(items, p),
    decreases items.len(),
{
    if items.len() > 0 {
        head_is_the_first_of_the_highest(items);
        let h = head(items);
        let front = items.take(h);
        let back = items.skip(h + 1);
        let one = seq![items[h]];
        departures_keep_the_order_of_equals(items.remove(h), p);
        assert(items.remove(h) =~= front + back);
        assert(items =~= front + (one + back));
        priority_of_parts(front, back, p);
        priority_of_parts(front, one + back, p);
        priority_of_parts(one, back, p);
        priority_of_parts(one, departures(items.remove(h)), p);
        if items[h].0 == p {
            assert forall|j: int| 0 <= j < front.len() implies (#[trigger] front[j]).0 != p by {
                assert(front[j] == items[j]);
            }
            priority_of_others(front, p);
        } else {
            priority_of_others(one, p);
        }
        assert(of_priority(departures(items), p) =~= of_priority(items, p));
    }
}

/// A new item leaves next exactly where it is more urgent than all that wait, and
/// changes nothing in their order otherwise. A queue is full exactly where it
/// holds as many items as it may.
pub proof fn urgent_items_overtake<T>(b: Backlog<T>, priority: i32, item: T)
    ensures
        ({
            let more = b.with(priority, item);
            &&& more.items.len() == b.items.len() + 1
            &&& more.items.last() == (priority, item)
            &&& forall|j: int| 0 <= j < b.items.len() ==> #[trigger] more.items[j] == b.items[j]
            &&& more.cap == b.cap && more.senders == b.senders
            &&& head(more.items) == b.items.len() <==> forall|j: int|
                0 <= j < b.items.len() ==> (#[trigger] b.items[j]).0 < priority
            &&& head(more.items) != b.items.len() ==> head(more.items) == head(b.items)
            &&& b.items.len() < b.cap ==> !b.is_full()
            &&& b.items.len() == b.cap ==> b.is_full()
        }),
{
    let more = b.with(priority, item);
    let n = b.items.len() as int;
    assert(more.items.drop_last() =~= b.items);
    head_is_the_first_of_the_highest(more.items);
    if n > 0 {
        head_is_the_first_of_the_highest(b.items);
        if head(more.items) == n {
            assert forall|j: int| 0 <= j < n implies (#[trigger] b.items[j]).0 < priority by {
                assert(more.items[j] == b.items[j]);
            }
        } else if forall|j: int| 0 <= j < n ==> (#[trigger] b.items[j]).0 < priority {
            assert(b.items[head(b.items)].0 < priority);
        }
    }
}

/// Taking out the item that leaves first takes that one alone: the others stay,
/// in their order.
pub proof fn only_the_head_leaves<T>(b: Backlog<T>, i: int)
    requires
        0 <= i < b.items.len() - 1,
    ensures
        b.without_head().items.len() == b.items.len() - 1,
        b.without_head().cap == b.cap,
        b.without_head().senders == b.senders,
        b.without_head().items[i] == if i < head(b.items) {
            b.items[i]
        } else {
            b.items[i + 1]
        },
        values(b.items).len() == b.items.len(),
        values(b.items)[i] == b.items[i].1,
{
    head_is_the_first_of_the_highest(b.items);
}

} // verus!
