//! Reading the AUX area that the kernel fills with trace data: a ring
//! whose head and tail are free-running byte counters.
use crate::reader::{taken_range, Dispatch, TaskManager};
use crate::sync::ParseError;
use vstd::arithmetic::div_mod::{lemma_add_mod_noop, lemma_mod_add_multiples_vanish, lemma_small_mod};
use vstd::prelude::*;
use vstd::slice::slice_to_vec;

verus! {

/// Bytes that are either one slice or two disjoint slices read one after
/// the other.
#[derive(Clone, Copy)]
pub enum ByteBuffer<'a> {
    Single(&'a [u8]),
    Split([&'a [u8]; 2]),
}

impl<'a> ByteBuffer<'a> {
    /// The bytes, in order.
    pub open spec fn view(&self) -> Seq<u8> {
        match self {
            ByteBuffer::Single(buf) => buf@,
            ByteBuffer::Split(parts) => parts[0]@ + parts[1]@,
        }
    }

    /// The number of bytes.
    pub fn len(&self) -> (r: usize)
        requires
            self@.len() <= usize::MAX,
        ensures
            r == self@.len(),
    {
        match self {
            ByteBuffer::Single(buf) => buf.len(),
            ByteBuffer::Split(parts) => parts[0].len() + parts[1].len(),
        }
    }

    /// Copies the bytes into `dst`, which has room for exactly them.
    pub fn copy_to_slice(&self, dst: &mut [u8])
        requires
            old(dst)@.len() == self@.len(),
        ensures
            final(dst)@ == self@,
    {
        match self {
            ByteBuffer::Single(buf) => {
                copy_into(dst, 0, buf);
            },
            ByteBuffer::Split(parts) => {
                let a = parts[0];
                let b = parts[1];
                copy_into(dst, 0, a);
                copy_into(dst, a.len(), b);
            },
        }
        assert(dst@ =~= self@);
    }

    /// The bytes, copied into a vector.
    pub fn to_vec(&self) -> (r: Vec<u8>)
        ensures
            r@ == self@,
    {
        match self {
            ByteBuffer::Single(buf) => slice_to_vec(buf),
            ByteBuffer::Split(parts) => {
                let mut v = slice_to_vec(parts[0]);
                let mut rest = slice_to_vec(parts[1]);
                v.append(&mut rest);
                v
            },
        }
    }
}

/// Copies `src` into `dst` from offset `at` on, leaving the rest of `dst`.
fn copy_into(dst: &mut [u8], at: usize, src: &[u8])
    requires
        at + src@.len() <= old(dst)@.len(),
    ensures
        final(dst)@.len() == old(dst)@.len(),
        forall|i: int| 0 <= i < at ==> final(dst)@[i] == old(dst)@[i],
        forall|i: int| 0 <= i < src@.len() ==> final(dst)@[at + i] == src@[i],
        forall|i: int| at + src@.len() <= i < old(dst)@.len() ==> final(dst)@[i] == old(dst)@[i],
{
    let mut i: usize = 0;
    while i < src.len()
        invariant
            at + src@.len() <= dst.len(),
            dst@.len() == old(dst)@.len(),
            i <= src@.len(),
            forall|j: int| 0 <= j < at ==> dst@[j] == old(dst)@[j],
            forall|j: int| 0 <= j < i ==> dst@[at + j] == src@[j],
            forall|j: int| at + i <= j < old(dst)@.len() ==> dst@[j] == old(dst)@[j],
        decreases src@.len() - i,
    {
        dst[at + i] = src[i];
        i += 1;
    }
}

/// The bytes from counter `tail` up to counter `head` of a ring buffer
/// whose storage is `aux`.
pub open spec fn ring_bytes(aux: Seq<u8>, head: u64, tail: u64) -> Seq<u8> {
    Seq::new((head - tail) as nat, |k: int| aux[(tail + k) % (aux.len() as int)])
}

/// More than 90% of the ring is filled: the reader has fallen too far
/// behind the kernel.
pub open spec fn overfull(used: int, size: int) -> bool {
    used * 10 > size * 9
}

/// Why the AUX area cannot be read.
#[derive(Debug, Clone, Copy, PartialEq, Eq, Structural)]
pub enum RingError {
    /// The tail counter is ahead of the head counter.
    TailAheadOfHead,
    /// More than 90% of the ring is filled.
    Overflow,
}

/// Offsets into the ring of the bytes from `tail`: they run on from
/// `tail % size` and wrap to 0 past the end.
proof fn lemma_ring_index(tail: int, k: int, size: int)
    requires
        0 <= tail,
        0 <= k < size,
    ensures
        (tail + k) % size == if tail % size + k < size {
            tail % size + k
        } else {
            tail % size + k - size
        },
{
    lemma_add_mod_noop(tail, k, size);
    lemma_small_mod(k as nat, size as nat);
    let w = tail % size;
    if w + k < size {
        lemma_small_mod((w + k) as nat, size as nat);
    } else {
        lemma_mod_add_multiples_vanish(w + k - size, size);
        lemma_small_mod((w + k - size) as nat, size as nat);
    }
}

/// The bytes from counter `tail` up to counter `head` of the ring stored in
/// `aux`, as one slice when they do not wrap and as two slices when they do.
pub fn aux_view<'a>(aux: &'a [u8], head: u64, tail: u64) -> (r: Result<ByteBuffer<'a>, RingError>)
    requires
        aux@.len() > 0,
    ensures
        head < tail ==> r == Err::<ByteBuffer<'a>, RingError>(RingError::TailAheadOfHead),
        tail <= head && overfull(head - tail, aux@.len() as int) ==> r == Err::<
            ByteBuffer<'a>,
            RingError,
        >(RingError::Overflow),
        tail <= head && !overfull(head - tail, aux@.len() as int) ==> (r matches Ok(b) && b@
            == ring_bytes(aux@, head, tail)),
{
    if head < tail {
        return Err(RingError::TailAheadOfHead);
    }
    let size = aux.len();
    let used = head - tail;
    if (used as u128) * 10 > (size as u128) * 9 {
        return Err(RingError::Overflow);
    }
    let wrapped_head = (head % (size as u64)) as usize;
    let wrapped_tail = (tail % (size as u64)) as usize;
    let ghost d = used as int;
    let ghost sz = size as int;
    proof {
        assert(d < sz) by (nonlinear_arith)
            requires
                d * 10 <= sz * 9,
                sz > 0,
        ;
        lemma_ring_index(tail as int, d, sz);
        assert(head as int == tail + d);
    }
    if used == 0 {
        let r = ByteBuffer::Single(&aux[0..0]);
        assert(r@ =~= ring_bytes(aux@, head, tail));
        return Ok(r);
    }
    if wrapped_head > wrapped_tail {
        let r = ByteBuffer::Single(&aux[wrapped_tail..wrapped_head]);
        proof {
            assert(wrapped_tail + d < sz);
            assert forall|k: int| 0 <= k < d implies #[trigger] ring_bytes(aux@, head, tail)[k]
                == r@[k] by {
                lemma_ring_index(tail as int, k, sz);
            }
            assert(r@ =~= ring_bytes(aux@, head, tail));
        }
        Ok(r)
    } else {
        let r = ByteBuffer::Split([&aux[wrapped_tail..size], &aux[0..wrapped_head]]);
        proof {
            assert(wrapped_tail + d >= sz);
            assert(wrapped_head == wrapped_tail + d - sz);
            assert forall|k: int| 0 <= k < d implies #[trigger] ring_bytes(aux@, head, tail)[k]
                == r@[k] by {
                lemma_ring_index(tail as int, k, sz);
            }
            assert(r@ =~= ring_bytes(aux@, head, tail));
        }
        Ok(r)
    }
}

/// Why reading one record from the AUX area failed.
#[derive(Debug, Clone, Copy, PartialEq, Eq, Structural)]
pub enum ReadError {
    /// The ring's counters are inconsistent or it is overfull.
    Ring(RingError),
    /// The bytes offered hold no PSB.
    Parse(ParseError),
}

/// Offers the bytes between `tail` and `head` of the AUX ring to `tm` as
/// one contiguous slice, and returns the tail to store back: the old tail
/// advanced by the number of bytes consumed, with what was dispatched.
/// When the ring is empty nothing is offered.
pub fn next_record(tm: &mut TaskManager, aux: &[u8], head: u64, tail: u64, terminating: bool) -> (r:
    Result<(u64, Dispatch), ReadError>)
    requires
        aux@.len() > 0,
        old(tm).next() < u64::MAX,
    ensures
        head < tail ==> r == Err::<(u64, Dispatch), ReadError>(
            ReadError::Ring(RingError::TailAheadOfHead),
        ),
        tail <= head && overfull(head - tail, aux@.len() as int) ==> r == Err::<
            (u64, Dispatch),
            ReadError,
        >(ReadError::Ring(RingError::Overflow)),
        head == tail ==> (r matches Ok((t, d)) && t == tail && d.consumed == 0 && d.work is None),
        head == tail ==> final(tm).next() == old(tm).next(),
        tail < head && !overfull(head - tail, aux@.len() as int) ==> ({
            let bytes = ring_bytes(aux@, head, tail);
            match taken_range(bytes, terminating) {
                Err(e) => r == Err::<(u64, Dispatch), ReadError>(ReadError::Parse(e)),
                Ok(None) => {
                    &&& (r matches Ok((t, d)) && t == tail && d.consumed == 0 && d.work is None)
                    &&& final(tm).next() == old(tm).next()
                },
                Ok(Some((a, b))) => {
                    &&& (r matches Ok((t, d)) && t == tail + b && d.consumed == b && (d.work matches Some(w)
                        && w.sequence_number == old(tm).next() && w.data@ == bytes.subrange(a, b)))
                    &&& final(tm).next() == old(tm).next() + 1
                },
            }
        }),
        r matches Ok((t, d)) ==> (tail <= t <= head && t == tail + d.consumed),
{
    let size = aux.len();
    let view = match aux_view(aux, head, tail) {
        Ok(view) => view,
        Err(e) => {
            return Err(ReadError::Ring(e));
        },
    };
    if head == tail {
        return Ok((tail, Dispatch { consumed: 0, work: None }));
    }
    let result = match view {
        ByteBuffer::Single(buf) => tm.callback(terminating, buf),
        ByteBuffer::Split(_) => {
            let buf = view.to_vec();
            tm.callback(terminating, buf.as_slice())
        },
    };
    match result {
        Ok(d) => {
            proof {
                assert(view@.len() <= size);
                crate::sync::lemma_sync_range_law(view@);
            }
            let t = tail + d.consumed as u64;
            Ok((t, d))
        },
        Err(e) => Err(ReadError::Parse(e)),
    }
}

} // verus!
