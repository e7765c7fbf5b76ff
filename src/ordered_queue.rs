//! Reassembly of results that arrive out of order: each payload carries a
//! sequence number, and payloads leave strictly in sequence order, starting
//! at 0 and without gaps.
use vstd::prelude::*;

verus! {

/// Payloads keyed by sequence number, handed out in sequence order.
pub struct OrderedQueue<T> {
    pending: Vec<(u64, T)>,
    next_sequence_number: u64,
    contents: Ghost<Map<u64, T>>,
}

impl<T> OrderedQueue<T> {
    /// The pending payloads by sequence number.
    pub closed spec fn view(&self) -> Map<u64, T> {
        self.contents@
    }

    /// The sequence number of the next payload to hand out.
    pub closed spec fn next(&self) -> u64 {
        self.next_sequence_number
    }

    /// How many payloads are pending.
    pub closed spec fn count(&self) -> nat {
        self.pending@.len()
    }

    /// The pending list holds each key of the view once, with its payload;
    /// no pending key has already been handed out.
    pub closed spec fn wf(&self) -> bool {
        &&& forall|i: int|
            0 <= i < self.pending@.len() ==> {
                &&& self.contents@.contains_key(#[trigger] self.pending@[i].0)
                &&& self.contents@[self.pending@[i].0] == self.pending@[i].1
            }
        &&& forall|k: u64|
            #[trigger] self.contents@.contains_key(k) ==> exists|i: int|
                0 <= i < self.pending@.len() && #[trigger] self.pending@[i].0 == k
        &&& forall|i: int, j: int|
            0 <= i < self.pending@.len() && 0 <= j < self.pending@.len() && i != j
                ==> #[trigger] self.pending@[i].0 != #[trigger] self.pending@[j].0
        &&& forall|k: u64| #[trigger]
            self.contents@.contains_key(k) ==> self.next_sequence_number <= k < u64::MAX
    }

    /// An empty queue expecting sequence number 0.
    pub fn new() -> (r: Self)
        ensures
            r.wf(),
            r@ == Map::<u64, T>::empty(),
            r.next() == 0,
    {
        OrderedQueue {
            pending: Vec::new(),
            next_sequence_number: 0,
            contents: Ghost(Map::empty()),
        }
    }

    /// Adds `payload` under `sequence_number`, which is not pending and has
    /// not been handed out yet.
    pub fn send(&mut self, sequence_number: u64, payload: T)
        requires
            old(self).wf(),
            !old(self)@.contains_key(sequence_number),
            old(self).next() <= sequence_number < u64::MAX,
        ensures
            final(self).wf(),
            final(self)@ == old(self)@.insert(sequence_number, payload),
            final(self).next() == old(self).next(),
    {
        let ghost old_pending = self.pending@;
        self.pending.push((sequence_number, payload));
        proof {
            self.contents@ = self.contents@.insert(sequence_number, payload);
            let n = old_pending.len() as int;
            assert(self.pending@[n].0 == sequence_number);
            assert forall|k: u64| #[trigger] self.contents@.contains_key(k) implies exists|i: int|
                0 <= i < self.pending@.len() && #[trigger] self.pending@[i].0 == k by {
                if k == sequence_number {
                    assert(self.pending@[n].0 == k);
                } else {
                    assert(old(self).contents@.contains_key(k));
                    let i = choose|i: int| 0 <= i < old_pending.len() && #[trigger] old_pending[i].0 == k;
                    assert(self.pending@[i] == old_pending[i]);
                }
            }
            assert forall|i: int|
                0 <= i < self.pending@.len() implies {
                &&& self.contents@.contains_key(#[trigger] self.pending@[i].0)
                &&& self.contents@[self.pending@[i].0] == self.pending@[i].1
            } by {
                if i < n {
                    assert(self.pending@[i] == old_pending[i]);
                    assert(old(self).contents@.contains_key(old_pending[i].0));
                }
            }
        }
    }

    /// Hands out the payload whose sequence number is the next one expected,
    /// if it has arrived; otherwise returns `None` and changes nothing.
    pub fn recv(&mut self) -> (r: Option<T>)
        requires
            old(self).wf(),
        ensures
            final(self).wf(),
            old(self)@.contains_key(old(self).next()) ==> {
                &&& r == Some(old(self)@[old(self).next()])
                &&& final(self)@ == old(self)@.remove(old(self).next())
                &&& final(self).next() == old(self).next() + 1
                &&& final(self).count() + 1 == old(self).count()
            },
            !old(self)@.contains_key(old(self).next()) ==> {
                &&& r is None
                &&& final(self)@ == old(self)@
                &&& final(self).next() == old(self).next()
                &&& final(self).count() == old(self).count()
            },
    {
        let next = self.next_sequence_number;
        let mut i: usize = 0;
        while i < self.pending.len()
            invariant
                *self == *old(self),
                self.wf(),
                next == self.next_sequence_number,
                i <= self.pending@.len(),
                forall|j: int| 0 <= j < i ==> #[trigger] self.pending@[j].0 != next,
            decreases self.pending@.len() - i,
        {
            if self.pending[i].0 == next {
                let ghost old_pending = self.pending@;
                let (_, payload) = self.pending.remove(i);
                self.next_sequence_number = next + 1;
                proof {
                    self.contents@ = self.contents@.remove(next);
                    assert forall|j: int|
                        0 <= j < self.pending@.len() implies {
                        &&& self.contents@.contains_key(#[trigger] self.pending@[j].0)
                        &&& self.contents@[self.pending@[j].0] == self.pending@[j].1
                    } by {
                        let o = if j < i {
                            j
                        } else {
                            j + 1
                        };
                        assert(self.pending@[j] == old_pending[o]);
                        assert(old_pending[o].0 != old_pending[i as int].0);
                    }
                    assert forall|k: u64| #[trigger]
                        self.contents@.contains_key(k) implies exists|j: int|
                        0 <= j < self.pending@.len() && #[trigger] self.pending@[j].0 == k by {
                        let o = choose|o: int|
                            0 <= o < old_pending.len() && #[trigger] old_pending[o].0 == k;
                        if o < i {
                            assert(self.pending@[o] == old_pending[o]);
                        } else {
                            assert(o != i);
                            assert(self.pending@[o - 1] == old_pending[o]);
                        }
                    }
                    assert forall|a: int, b: int|
                        0 <= a < self.pending@.len() && 0 <= b < self.pending@.len() && a
                            != b implies #[trigger] self.pending@[a].0
                        != #[trigger] self.pending@[b].0 by {
                        let oa = if a < i {
                            a
                        } else {
                            a + 1
                        };
                        let ob = if b < i {
                            b
                        } else {
                            b + 1
                        };
                        assert(self.pending@[a] == old_pending[oa]);
                        assert(self.pending@[b] == old_pending[ob]);
                    }
                }
                return Some(payload);
            }
            i += 1;
        }
        proof {
            if self.contents@.contains_key(next) {
                let j = choose|j: int|
                    0 <= j < self.pending@.len() && #[trigger] self.pending@[j].0 == next;
                assert(self.pending@[j].0 != next);
            }
        }
        None
    }

    /// The sequence number of the next payload to hand out.
    pub fn next_sequence_number(&self) -> (r: u64)
        ensures
            r == self.next(),
    {
        self.next_sequence_number
    }

    /// Whether a payload is pending under `sequence_number`.
    pub fn is_pending(&self, sequence_number: u64) -> (r: bool)
        requires
            self.wf(),
        ensures
            r == self@.contains_key(sequence_number),
    {
        let mut i: usize = 0;
        while i < self.pending.len()
            invariant
                self.wf(),
                i <= self.pending@.len(),
                forall|j: int| 0 <= j < i ==> #[trigger] self.pending@[j].0 != sequence_number,
            decreases self.pending@.len() - i,
        {
            if self.pending[i].0 == sequence_number {
                return true;
            }
            i += 1;
        }
        proof {
            if self@.contains_key(sequence_number) {
                let j = choose|j: int|
                    0 <= j < self.pending@.len() && #[trigger] self.pending@[j].0
                        == sequence_number;
                assert(self.pending@[j].0 != sequence_number);
            }
        }
        false
    }

    /// Whether no payload is pending.
    pub fn is_empty(&self) -> (r: bool)
        requires
            self.wf(),
        ensures
            r == (self@ == Map::<u64, T>::empty()),
    {
        proof {
            if self.pending@.len() > 0 {
                assert(self@.contains_key(self.pending@[0].0));
                assert(!Map::<u64, T>::empty().contains_key(self.pending@[0].0));
            } else {
                assert(self@ =~= Map::<u64, T>::empty());
            }
        }
        self.pending.len() == 0
    }
}


/// Decoded data of one region with its sequence number. Values compare by
/// sequence number alone, and in reverse, so that a max-first priority
/// queue yields the lowest sequence number first.
pub struct ParsedData {
    pub sequence_number: u64,
    pub data: Vec<u64>,
}

/// The order of `a` and `b` as integers.
pub open spec fn order_of(a: u64, b: u64) -> std::cmp::Ordering {
    if a < b {
        std::cmp::Ordering::Less
    } else if a == b {
        std::cmp::Ordering::Equal
    } else {
        std::cmp::Ordering::Greater
    }
}

impl PartialEq for ParsedData {
    fn eq(&self, other: &ParsedData) -> (r: bool) {
        self.sequence_number == other.sequence_number
    }
}

impl vstd::std_specs::cmp::PartialEqSpecImpl for ParsedData {
    open spec fn obeys_eq_spec() -> bool {
        true
    }

    open spec fn eq_spec(&self, other: &ParsedData) -> bool {
        self.sequence_number == other.sequence_number
    }
}

impl Eq for ParsedData {

}

impl PartialOrd for ParsedData {
    fn partial_cmp(&self, other: &ParsedData) -> (r: Option<std::cmp::Ordering>) {
        if other.sequence_number < self.sequence_number {
            Some(std::cmp::Ordering::Less)
        } else if other.sequence_number == self.sequence_number {
            Some(std::cmp::Ordering::Equal)
        } else {
            Some(std::cmp::Ordering::Greater)
        }
    }
}

impl vstd::std_specs::cmp::PartialOrdSpecImpl for ParsedData {
    open spec fn obeys_partial_cmp_spec() -> bool {
        true
    }

    open spec fn partial_cmp_spec(&self, other: &ParsedData) -> Option<std::cmp::Ordering> {
        Some(order_of(other.sequence_number, self.sequence_number))
    }
}

} // verus!
