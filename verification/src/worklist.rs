//! A queue that takes each item once.

use vstd::prelude::*;
use std::collections::{HashSet, VecDeque};

verus! {

broadcast use vstd::std_specs::hash::group_hash_axioms;

/// What a [`Worklist`] can hold: a value that an integer stands for, so that
/// different values have different integers.
pub trait WorkItem: Copy {
    /// The integer that stands for the item.
    spec fn key(&self) -> u128;

    /// Computes the integer that stands for the item.
    fn key_of(&self) -> (k: u128)
        ensures
            k == self.key(),
    ;

    /// Two items with the same integer are the same item.
    proof fn key_injective(a: &Self, b: &Self)
        requires
            a.key() == b.key(),
        ensures
            a == b,
    ;
}

impl WorkItem for u32 {
    open spec fn key(&self) -> u128 {
        *self as u128
    }

    fn key_of(&self) -> (k: u128) {
        *self as u128
    }

    proof fn key_injective(a: &Self, b: &Self) {
    }
}

impl WorkItem for u64 {
    open spec fn key(&self) -> u128 {
        *self as u128
    }

    fn key_of(&self) -> (k: u128) {
        *self as u128
    }

    proof fn key_injective(a: &Self, b: &Self) {
    }
}

impl WorkItem for usize {
    open spec fn key(&self) -> u128 {
        *self as u128
    }

    fn key_of(&self) -> (k: u128) {
        *self as u128
    }

    proof fn key_injective(a: &Self, b: &Self) {
    }
}

/// A first-in first-out queue that remembers every item it was ever given and
/// takes none of them a second time.
pub struct Worklist<T: WorkItem> {
    queue: VecDeque<T>,
    seen: HashSet<u128>,
}

impl<T: WorkItem> Worklist<T> {
    /// The items that wait, the next one to leave first.
    pub closed spec fn queue(&self) -> Seq<T> {
        self.queue@
    }

    /// The integers of all items that were ever added.
    pub closed spec fn seen_keys(&self) -> Set<u128> {
        self.seen@
    }

    /// Whether `item` was ever added.
    pub open spec fn has_seen(&self, item: T) -> bool {
        self.seen_keys().contains(item.key())
    }

    /// Every item that waits has been seen, and none waits twice.
    pub open spec fn settled(&self) -> bool {
        &&& self.seen_keys().finite()
        &&& forall|i: int| 0 <= i < self.queue().len() ==> self.has_seen(#[trigger] self.queue()[i])
        &&& forall|i: int, j: int|
            0 <= i < j < self.queue().len() ==> self.queue()[i].key() != self.queue()[j].key()
    }

    /// An empty worklist that has seen nothing.
    pub fn new() -> (list: Self)
        ensures
            list.queue() == Seq::<T>::empty(),
            list.seen_keys() == Set::<u128>::empty(),
            list.settled(),
    {
        Worklist { queue: VecDeque::new(), seen: HashSet::new() }
    }

    /// Adds `item` at the end of the queue unless it was added before; says
    /// whether it was added.
    pub fn add(&mut self, item: T) -> (added: bool)
        ensures
            added == !old(self).has_seen(item),
            final(self).seen_keys() == old(self).seen_keys().insert(item.key()),
            final(self).queue() == if added {
                old(self).queue().push(item)
            } else {
                old(self).queue()
            },
            old(self).settled() ==> final(self).settled(),
    {
        let k: u128 = item.key_of();
        if self.seen.insert(k) {
            self.queue.push_back(item);
            true
        } else {
            false
        }
    }

    /// Adds every item of `items` in order, each unless it was added before.
    pub fn add_all(&mut self, items: &Vec<T>)
        ensures
            final(self).queue() == added_queue(old(self).queue(), old(self).seen_keys(), items@),
            final(self).seen_keys() == old(self).seen_keys().union(item_keys(items@)),
            old(self).settled() ==> final(self).settled(),
    {
        let mut i: usize = 0;
        proof {
            assert(items@.subrange(0, items@.len() as int) =~= items@);
            assert(item_keys(items@.subrange(0, 0)) =~= Set::<u128>::empty());
            assert(self.seen_keys() =~= self.seen_keys().union(Set::<u128>::empty()));
        }
        while i < items.len()
            invariant
                i <= items.len(),
                added_queue(self.queue(), self.seen_keys(), items@.subrange(i as int, items@.len() as int))
                    == added_queue(old(self).queue(), old(self).seen_keys(), items@),
                self.seen_keys() == old(self).seen_keys().union(
                    item_keys(items@.subrange(0, i as int)),
                ),
                old(self).settled() ==> self.settled(),
            decreases items.len() - i,
        {
            let ghost rest = items@.subrange(i as int, items@.len() as int);
            let ghost before = *self;
            self.add(items[i]);
            proof {
                assert(rest.subrange(1, rest.len() as int) =~= items@.subrange(
                    i + 1,
                    items@.len() as int,
                ));
                assert(rest[0] == items@[i as int]);
                assert(added_queue(before.queue(), before.seen_keys(), rest) == added_queue(
                    self.queue(),
                    self.seen_keys(),
                    rest.subrange(1, rest.len() as int),
                )) by {
                    if before.seen_keys().contains(rest[0].key()) {
                        assert(self.seen_keys() =~= before.seen_keys());
                    }
                }
                let done = items@.subrange(0, i as int);
                let more = items@.subrange(0, i + 1);
                assert(more =~= done.push(items@[i as int]));
                lemma_item_keys_push(done, items@[i as int]);
                assert(self.seen_keys() =~= old(self).seen_keys().union(item_keys(more)));
            }
            i += 1;
        }
        proof {
            assert(items@.subrange(0, items@.len() as int) =~= items@);
        }
    }

    /// Whether no item waits.
    pub fn is_empty(&self) -> (empty: bool)
        ensures
            empty == (self.queue().len() == 0),
    {
        self.queue.len() == 0
    }

    /// Takes the item that has waited longest, if any waits.
    pub fn pop(&mut self) -> (item: Option<T>)
        ensures
            final(self).seen_keys() == old(self).seen_keys(),
            old(self).settled() ==> final(self).settled(),
            old(self).settled() && item is Some ==> old(self).has_seen(item->0),
            match item {
                Some(first) => old(self).queue().len() > 0 && first == old(self).queue()[0]
                    && final(self).queue() == old(self).queue().subrange(
                    1,
                    old(self).queue().len() as int,
                ),
                None => old(self).queue().len() == 0 && final(self).queue() == old(self).queue(),
            },
    {
        self.queue.pop_front()
    }
}

/// The integers that stand for the items of a sequence.
pub open spec fn item_keys<T: WorkItem>(items: Seq<T>) -> Set<u128> {
    Set::new(|k: u128| exists|i: int| 0 <= i < items.len() && #[trigger] items[i].key() == k)
}

/// The queue after the items of `items` were added in order to a worklist
/// with the given queue, that has seen the given integers.
pub open spec fn added_queue<T: WorkItem>(queue: Seq<T>, seen: Set<u128>, items: Seq<T>) -> Seq<T>
    decreases items.len(),
{
    if items.len() == 0 {
        queue
    } else if seen.contains(items[0].key()) {
        added_queue(queue, seen, items.subrange(1, items.len() as int))
    } else {
        added_queue(
            queue.push(items[0]),
            seen.insert(items[0].key()),
            items.subrange(1, items.len() as int),
        )
    }
}

/// The integers of a sequence with one more item are those of the sequence
/// and that of the item.
pub proof fn lemma_item_keys_push<T: WorkItem>(items: Seq<T>, item: T)
    ensures
        item_keys(items.push(item)) == item_keys(items).insert(item.key()),
{
    let longer = items.push(item);
    assert forall|k: u128| item_keys(longer).contains(k) <==> item_keys(items).insert(
        item.key(),
    ).contains(k) by {
        if item_keys(longer).contains(k) {
            let i = choose|i: int| 0 <= i < longer.len() && #[trigger] longer[i].key() == k;
            if i < items.len() {
                assert(items[i].key() == k);
            }
        }
        if item_keys(items).contains(k) {
            let i = choose|i: int| 0 <= i < items.len() && #[trigger] items[i].key() == k;
            assert(longer[i].key() == k);
        }
        if k == item.key() {
            assert(longer[items.len() as int].key() == k);
        }
    }
    assert(item_keys(longer) =~= item_keys(items).insert(item.key()));
}

/// The integers of the items of a sequence are finitely many.
pub proof fn lemma_item_keys_finite<T: WorkItem>(items: Seq<T>)
    ensures
        item_keys(items).finite(),
    decreases items.len(),
{
    if items.len() == 0 {
        assert(item_keys(items) =~= Set::<u128>::empty());
    } else {
        lemma_item_keys_finite(items.drop_last());
        lemma_item_keys_push(items.drop_last(), items.last());
        assert(items.drop_last().push(items.last()) =~= items);
    }
}

/// What waits after items were added: what waited before, and every added
/// item that had not been seen.
pub proof fn lemma_added_queue_contains<T: WorkItem>(
    queue: Seq<T>,
    seen: Set<u128>,
    items: Seq<T>,
    item: T,
)
    ensures
        added_queue(queue, seen, items).contains(item) <==> queue.contains(item) || (
        items.contains(item) && !seen.contains(item.key())),
    decreases items.len(),
{
    if items.len() > 0 {
        let rest = items.subrange(1, items.len() as int);
        let first = items[0];
        assert forall|x: T| items.contains(x) <==> x == first || rest.contains(x) by {
            if items.contains(x) {
                let i = choose|i: int| 0 <= i < items.len() && items[i] == x;
                if i > 0 {
                    assert(rest[i - 1] == x);
                }
            }
            if rest.contains(x) {
                let i = choose|i: int| 0 <= i < rest.len() && rest[i] == x;
                assert(items[i + 1] == x);
            }
        }
        if seen.contains(first.key()) {
            lemma_added_queue_contains(queue, seen, rest, item);
        } else {
            lemma_added_queue_contains(queue.push(first), seen.insert(first.key()), rest, item);
            assert forall|x: T| queue.push(first).contains(x) <==> queue.contains(x) || x
                == first by {
                if queue.contains(x) {
                    let i = choose|i: int| 0 <= i < queue.len() && queue[i] == x;
                    assert(queue.push(first)[i] == x);
                }
                assert(queue.push(first)[queue.len() as int] == first);
            }
            if item.key() == first.key() {
                T::key_injective(&item, &first);
            }
        }
    }
}

/// Adding items makes the queue longer by as many items as it makes the set
/// of seen integers larger.
pub proof fn lemma_added_queue_len<T: WorkItem>(queue: Seq<T>, seen: Set<u128>, items: Seq<T>)
    requires
        seen.finite(),
    ensures
        seen.union(item_keys(items)).finite(),
        added_queue(queue, seen, items).len() - queue.len() == seen.union(item_keys(items)).len()
            - seen.len(),
    decreases items.len(),
{
    if items.len() == 0 {
        assert(item_keys(items) =~= Set::<u128>::empty());
        assert(seen.union(item_keys(items)) =~= seen);
    } else {
        let rest = items.subrange(1, items.len() as int);
        let first = items[0];
        assert(item_keys(items) =~= item_keys(rest).insert(first.key())) by {
            assert forall|k: u128| item_keys(items).contains(k) <==> item_keys(rest).insert(
                first.key(),
            ).contains(k) by {
                if item_keys(items).contains(k) {
                    let i = choose|i: int| 0 <= i < items.len() && #[trigger] items[i].key() == k;
                    if i > 0 {
                        assert(rest[i - 1].key() == k);
                    }
                }
                if item_keys(rest).contains(k) {
                    let i = choose|i: int| 0 <= i < rest.len() && #[trigger] rest[i].key() == k;
                    assert(items[i + 1].key() == k);
                }
                if k == first.key() {
                    assert(items[0].key() == k);
                }
            }
        }
        if seen.contains(first.key()) {
            lemma_added_queue_len(queue, seen, rest);
            assert(seen.union(item_keys(items)) =~= seen.union(item_keys(rest)));
        } else {
            let more = seen.insert(first.key());
            lemma_added_queue_len(queue.push(first), more, rest);
            assert(seen.union(item_keys(items)) =~= more.union(item_keys(rest)));
        }
    }
}

} // verus!
