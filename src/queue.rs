use vstd::prelude::*;
use vstd::laws_cmp::{
    obeys_cmp, obeys_cmp_ord, obeys_cmp_partial_ord, obeys_partial_cmp_spec_properties,
};
use vstd::laws_eq::obeys_eq_spec_properties;
use vstd::std_specs::cmp::{OrdSpec, PartialOrdSpec};
use core::cmp::Ordering;
use std::collections::VecDeque;
use crate::command::PayloadCommand;

verus! {

/// `a` is no greater than `b` in the key order.
pub open spec fn key_le<K: Ord>(a: K, b: K) -> bool {
    a.cmp_spec(&b) != Ordering::Greater
}

/// The entry `a` (a key and an insertion number) comes out before `b`:
/// its key is smaller, or the keys are equal and `a` was inserted first.
pub open spec fn precedes<K: Ord>(a: (K, u64), b: (K, u64)) -> bool {
    &&& key_le(a.0, b.0)
    &&& key_le(b.0, a.0) ==> a.1 < b.1
}

/// Every entry of `s` comes out before every later entry of `s`.
pub open spec fn in_extraction_order<K: Ord, C>(s: Seq<(K, u64, C)>) -> bool {
    forall|i: int, j: int|
        0 <= i < j < s.len() ==> precedes((#[trigger] s[i].0, s[i].1), (#[trigger] s[j].0, s[j].1))
}

/// A lawful `Ord` orders keys totally: `key_le` is total and transitive.
pub proof fn lemma_key_order<K: Ord>()
    requires
        obeys_cmp::<K>(),
    ensures
        K::obeys_cmp_spec(),
        forall|a: K, b: K| !key_le(a, b) ==> #[trigger] key_le(b, a),
        forall|a: K, b: K, c: K| #[trigger]
            key_le(a, b) && #[trigger] key_le(b, c) ==> key_le(a, c),
        forall|a: K, b: K|
            #[trigger] a.cmp_spec(&b) == Ordering::Equal ==> b.cmp_spec(&a) == Ordering::Equal,
{
    reveal(obeys_cmp_partial_ord);
    reveal(obeys_cmp_ord);
    reveal(obeys_partial_cmp_spec_properties);
    reveal(obeys_eq_spec_properties);
    assert forall|a: K, b: K| !key_le(a, b) implies #[trigger] key_le(b, a) by {
        assert(a.partial_cmp_spec(&b) == Some(a.cmp_spec(&b)));
        assert(b.partial_cmp_spec(&a) == Some(b.cmp_spec(&a)));
    }
    assert forall|a: K, b: K, c: K| #[trigger]
        key_le(a, b) && #[trigger] key_le(b, c) implies key_le(a, c) by {
        assert(a.partial_cmp_spec(&b) == Some(a.cmp_spec(&b)));
        assert(b.partial_cmp_spec(&a) == Some(b.cmp_spec(&a)));
        assert(b.partial_cmp_spec(&c) == Some(b.cmp_spec(&c)));
        assert(c.partial_cmp_spec(&b) == Some(c.cmp_spec(&b)));
        assert(a.partial_cmp_spec(&c) == Some(a.cmp_spec(&c)));
        assert(c.partial_cmp_spec(&a) == Some(c.cmp_spec(&a)));
    }
    assert forall|a: K, b: K| #[trigger] a.cmp_spec(&b) == Ordering::Equal implies b.cmp_spec(&a)
        == Ordering::Equal by {
        assert(a.partial_cmp_spec(&b) == Some(a.cmp_spec(&b)));
        assert(b.partial_cmp_spec(&a) == Some(b.cmp_spec(&a)));
    }
}

/// Commands come out of a queue in order of their keys, each key being what
/// the queue's function gives for the command's payload.
pub proof fn lemma_keys_non_decreasing<Ctx, K: Ord, P, F: Fn(&P) -> K, C: PayloadCommand<Ctx, P>>(
    q: &CommandQueue<Ctx, K, P, F, C>,
    i: int,
    j: int,
)
    requires
        q.wf(),
        0 <= i <= j < q@.len(),
    ensures
        key_le(q@[i].0, q@[j].0),
        call_ensures(q.key_fn(), (&q@[i].2.payload(),), q@[i].0),
{
    if i < j {
        assert(precedes((q@[i].0, q@[i].1), (q@[j].0, q@[j].1)));
    } else {
        lemma_key_order::<K>();
    }
    q.lemma_wf_facts(i);
}

/// Among commands with equal keys, the one added first comes out first.
pub proof fn lemma_equal_keys_in_insertion_order<
    Ctx,
    K: Ord,
    P,
    F: Fn(&P) -> K,
    C: PayloadCommand<Ctx, P>,
>(q: &CommandQueue<Ctx, K, P, F, C>, i: int, j: int)
    requires
        q.wf(),
        0 <= i < j < q@.len(),
        q@[i].0.cmp_spec(&q@[j].0) == Ordering::Equal,
    ensures
        q@[i].1 < q@[j].1,
{
    q.lemma_wf_facts(i);
    assert(precedes((q@[i].0, q@[i].1), (q@[j].0, q@[j].1)));
    lemma_key_order::<K>();
}

/// What `peek_min` and `extract_min` report on a queue that holds nothing.
#[derive(Debug, Clone, Copy, PartialEq, Eq, Structural)]
pub enum QueueError {
    EmptyQueue,
}

/// Commands ordered by a key computed from their payloads, smallest key
/// first; commands with equal keys come out in the order they were added.
#[verifier::reject_recursive_types(Ctx)]
#[verifier::reject_recursive_types(K)]
#[verifier::reject_recursive_types(P)]
#[verifier::reject_recursive_types(C)]
pub struct CommandQueue<Ctx, K, P, F, C> where
    K: Ord,
    F: Fn(&P) -> K,
    C: PayloadCommand<Ctx, P>,
 {
    order_f: F,
    items: VecDeque<(K, u64, C)>,
    next_seq: u64,
    context: core::marker::PhantomData<(Ctx, P)>,
}

impl<Ctx, K: Ord, P, F: Fn(&P) -> K, C: PayloadCommand<Ctx, P>> CommandQueue<Ctx, K, P, F, C> {
    /// The waiting commands, in the order they will come out.
    pub closed spec fn view(&self) -> Seq<(K, u64, C)> {
        self.items@
    }

    /// The function that turns a payload into a key.
    pub closed spec fn key_fn(&self) -> F {
        self.order_f
    }

    /// The insertion number that the next added command gets: the number of
    /// commands added so far.
    pub closed spec fn next_seq(&self) -> u64 {
        self.next_seq
    }

    /// The queue's invariant: keys are lawfully ordered, the key function
    /// accepts every payload, the entries stand in extraction order, each
    /// insertion number was handed out already, and each key is what the key
    /// function gave for the entry's payload.
    pub closed spec fn wf(&self) -> bool {
        &&& obeys_cmp::<K>()
        &&& forall|p: &P| call_requires(self.order_f, (p,))
        &&& in_extraction_order(self.items@)
        &&& forall|i: int| 0 <= i < self.items@.len() ==> #[trigger] self.items@[i].1 < self.next_seq
        &&& forall|i: int|
            0 <= i < self.items@.len() ==> call_ensures(
                self.order_f,
                (&(#[trigger] self.items@[i]).2.payload(),),
                self.items@[i].0,
            )
    }

    proof fn lemma_wf_facts(&self, i: int)
        requires
            self.wf(),
            0 <= i < self@.len(),
        ensures
            in_extraction_order(self@),
            self@[i].1 < self.next_seq(),
            call_ensures(self.key_fn(), (&self@[i].2.payload(),), self@[i].0),
    {
    }

    /// The number of waiting commands.
    pub fn len(&self) -> (r: usize)
        ensures
            r == self@.len(),
    {
        self.items.len()
    }

    /// An empty queue that orders by `f`, smallest key first. For largest
    /// first, let `f` return its key wrapped in `std::cmp::Reverse`.
    pub fn new(f: F) -> (r: Self)
        requires
            obeys_cmp::<K>(),
            forall|p: &P| call_requires(f, (p,)),
        ensures
            r.wf(),
            r@ == Seq::<(K, u64, C)>::empty(),
            r.key_fn() == f,
            r.next_seq() == 0,
            in_extraction_order(r@),
    {
        CommandQueue { order_f: f, items: VecDeque::new(), next_seq: 0, context: core::marker::PhantomData }
    }

    /// Adds `cmd` with the key that the queue's function gives for its
    /// payload, behind every waiting command whose key is not greater.
    pub fn add(&mut self, cmd: C)
        requires
            old(self).wf(),
            old(self).next_seq() < u64::MAX,
        ensures
            final(self).wf(),
            in_extraction_order(final(self)@),
            forall|j: int|
                0 <= j < final(self)@.len() ==> #[trigger] final(self)@[j].1 < final(self).next_seq(),
            final(self).key_fn() == old(self).key_fn(),
            final(self).next_seq() == old(self).next_seq() + 1,
            exists|i: int, k: K|
                {
                    &&& 0 <= i <= old(self)@.len()
                    &&& call_ensures(old(self).key_fn(), (&cmd.payload(),), k)
                    &&& final(self)@ == #[trigger] old(self)@.insert(i, (k, old(self).next_seq(), cmd))
                },
    {
        let ghost before = *self;
        proof {
            lemma_key_order::<K>();
        }
        let k = (self.order_f)(cmd.get_payload());
        let seq = self.next_seq;
        let ghost old_items = self.items@;
        let mut lo: usize = 0;
        let mut hi: usize = self.items.len();
        while lo < hi
            invariant
                lo <= hi <= self.items@.len(),
                self.items@ == old_items,
                K::obeys_cmp_spec(),
                forall|a: K, b: K| !key_le(a, b) ==> #[trigger] key_le(b, a),
                forall|a: K, b: K, c: K| #[trigger]
                    key_le(a, b) && #[trigger] key_le(b, c) ==> key_le(a, c),
                in_extraction_order(old_items),
                forall|j: int| 0 <= j < lo ==> key_le(#[trigger] old_items[j].0, k),
                forall|j: int| hi <= j < old_items.len() ==> !key_le(#[trigger] old_items[j].0, k),
            decreases hi - lo,
        {
            let mid = lo + (hi - lo) / 2;
            let c = self.items[mid].0.cmp(&k);
            if matches!(c, Ordering::Greater) {
                proof {
                    assert forall|j: int| mid <= j < old_items.len() implies !key_le(
                        #[trigger] old_items[j].0,
                        k,
                    ) by {
                        if j > mid {
                            assert(precedes(
                                (old_items[mid as int].0, old_items[mid as int].1),
                                (old_items[j].0, old_items[j].1),
                            ));
                        }
                    }
                }
                hi = mid;
            } else {
                proof {
                    assert(key_le(old_items[mid as int].0, k));
                    assert forall|j: int| 0 <= j <= mid implies key_le(#[trigger] old_items[j].0, k) by {
                        if j < mid {
                            assert(precedes(
                                (old_items[j].0, old_items[j].1),
                                (old_items[mid as int].0, old_items[mid as int].1),
                            ));
                        }
                    }
                }
                lo = mid + 1;
            }
        }
        self.items.insert(lo, (k, seq, cmd));
        self.next_seq = seq + 1;
        proof {
            let s = self.items@;
            assert forall|i: int, j: int| 0 <= i < j < s.len() implies precedes(
                (#[trigger] s[i].0, s[i].1),
                (#[trigger] s[j].0, s[j].1),
            ) by {
                if j < lo {
                    assert(precedes((old_items[i].0, old_items[i].1), (old_items[j].0, old_items[j].1)));
                } else if j == lo {
                } else if i < lo {
                    assert(precedes((old_items[i].0, old_items[i].1), (old_items[j - 1].0, old_items[j - 1].1)));
                } else if i == lo {
                } else {
                    assert(precedes((old_items[i - 1].0, old_items[i - 1].1), (old_items[j - 1].0, old_items[j - 1].1)));
                }
            }
            assert(self@ == before@.insert(lo as int, (k, before.next_seq(), cmd)));
        }
    }

    /// The command that `extract_min` would hand out next, left in place.
    pub fn peek_min(&self) -> (r: Result<&C, QueueError>)
        requires
            self.wf(),
        ensures
            self@.len() == 0 ==> r == Err::<&C, QueueError>(QueueError::EmptyQueue),
            self@.len() > 0 ==> r == Ok::<&C, QueueError>(&self@[0].2),
    {
        if self.items.len() == 0 {
            Err(QueueError::EmptyQueue)
        } else {
            Ok(&self.items[0].2)
        }
    }

    /// Removes and hands out the command with the smallest key, the earliest
    /// added among those with that key.
    pub fn extract_min(&mut self) -> (r: Result<C, QueueError>)
        requires
            old(self).wf(),
        ensures
            final(self).wf(),
            in_extraction_order(final(self)@),
            forall|j: int|
                0 <= j < final(self)@.len() ==> #[trigger] final(self)@[j].1 < final(self).next_seq(),
            final(self).key_fn() == old(self).key_fn(),
            final(self).next_seq() == old(self).next_seq(),
            old(self)@.len() == 0 ==> {
                &&& r == Err::<C, QueueError>(QueueError::EmptyQueue)
                &&& final(self)@ == old(self)@
            },
            old(self)@.len() > 0 ==> {
                &&& r == Ok::<C, QueueError>(old(self)@[0].2)
                &&& final(self)@ == old(self)@.drop_first()
            },
    {
        let ghost before = self@;
        match self.items.pop_front() {
            Some(entry) => {
                proof {
                    let s = self.items@;
                    assert forall|i: int, j: int| 0 <= i < j < s.len() implies precedes(
                        (#[trigger] s[i].0, s[i].1),
                        (#[trigger] s[j].0, s[j].1),
                    ) by {
                        assert(s[i] == before[i + 1]);
                        assert(s[j] == before[j + 1]);
                    }
                    assert forall|i: int| 0 <= i < s.len() implies #[trigger] s[i].1
                        < self.next_seq by {
                        assert(s[i] == before[i + 1]);
                    }
                    assert forall|i: int| 0 <= i < s.len() implies call_ensures(
                        self.order_f,
                        (&(#[trigger] s[i]).2.payload(),),
                        s[i].0,
                    ) by {
                        assert(s[i] == before[i + 1]);
                    }
                }
                Ok(entry.2)
            },
            None => Err(QueueError::EmptyQueue),
        }
    }

    /// Empties the queue, handing out its commands in the order that
    /// `extract_min` would, one call after another.
    pub fn drain(self) -> (r: Vec<C>)
        requires
            self.wf(),
        ensures
            r@ == self@.map_values(|e: (K, u64, C)| e.2),
    {
        let mut q = self;
        let mut out: Vec<C> = Vec::new();
        while q.items.len() > 0
            invariant
                q.wf(),
                out@ + q@.map_values(|e: (K, u64, C)| e.2) == self@.map_values(
                    |e: (K, u64, C)| e.2,
                ),
            decreases q@.len(),
        {
            let ghost before = q@;
            let c = q.extract_min();
            match c {
                Ok(c) => {
                    proof {
                        assert(before.map_values(|e: (K, u64, C)| e.2) =~= seq![c]
                            + q@.map_values(|e: (K, u64, C)| e.2));
                    }
                    out.push(c);
                },
                Err(_) => {},
            }
        }
        proof {
            assert(q@.map_values(|e: (K, u64, C)| e.2) =~= Seq::<C>::empty());
            assert(out@ + Seq::<C>::empty() =~= out@);
        }
        out
    }
}

} // verus!
