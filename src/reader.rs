//! Cutting raw trace data into sync-aligned regions and numbering them for
//! parallel decoding.
use crate::sync::{
    find_sync_range, is_psb_at, lemma_next_psb, lemma_sync_range_law, next_psb, psb_byte,
    sync_points, sync_range, ParseError, PSB_SIZE, PT_EXT_PSB, PT_OPC_PSB,
};
use vstd::prelude::*;
use vstd::slice::slice_to_vec;

verus! {

/// One sync-aligned region of trace data, owned, with the sequence number
/// under which its decoded packets are reassembled.
pub struct WorkItem {
    pub sequence_number: u64,
    pub data: Vec<u8>,
}

/// The outcome of offering trace data to the task manager: how many bytes
/// it consumed, and the region to decode, if it took one.
pub struct Dispatch {
    pub consumed: usize,
    pub work: Option<WorkItem>,
}

/// The range of `s` that the task manager takes: the sync-aligned range, or,
/// when only one PSB is present, nothing unless terminating, in which case
/// everything from that PSB on.
pub open spec fn taken_range(s: Seq<u8>, terminating: bool) -> Result<Option<(int, int)>, ParseError> {
    match sync_range(s) {
        Ok((a, b)) => Ok(Some((a, b))),
        Err(ParseError::NoSync) => Err(ParseError::NoSync),
        Err(ParseError::OneSync(p)) => if terminating {
            Ok(Some((p as int, s.len() as int)))
        } else {
            Ok(None)
        },
    }
}

/// Assigns sequence numbers to the regions it takes, densely, from 0.
pub struct TaskManager {
    sequence_number: u64,
}

impl TaskManager {
    /// The sequence number the next region taken receives; also the number
    /// of regions taken so far.
    pub closed spec fn next(&self) -> u64 {
        self.sequence_number
    }

    /// The sequence number the next region taken receives.
    pub fn next_sequence_number(&self) -> (r: u64)
        ensures
            r == self.next(),
    {
        self.sequence_number
    }

    /// A task manager that has taken no region yet.
    pub fn new() -> (r: Self)
        ensures
            r.next() == 0,
    {
        TaskManager { sequence_number: 0 }
    }

    /// Offers `buf` to the task manager. It takes the range given by
    /// `taken_range` as an owned work item under the next sequence number
    /// and reports the end of that range as consumed; when it takes nothing
    /// it consumes nothing. A slice without any PSB is an error.
    pub fn callback(&mut self, terminating: bool, buf: &[u8]) -> (r: Result<Dispatch, ParseError>)
        requires
            old(self).next() < u64::MAX,
        ensures
            match taken_range(buf@, terminating) {
                Err(e) => {
                    &&& r == Err::<Dispatch, ParseError>(e)
                    &&& final(self).next() == old(self).next()
                },
                Ok(None) => {
                    &&& (r matches Ok(d) && d.consumed == 0 && d.work is None)
                    &&& final(self).next() == old(self).next()
                },
                Ok(Some((a, b))) => {
                    &&& (r matches Ok(d) && d.consumed == b && (d.work matches Some(w)
                        && w.sequence_number == old(self).next() && w.data@ == buf@.subrange(a, b)))
                    &&& final(self).next() == old(self).next() + 1
                },
            },
    {
        let len = buf.len();
        proof {
            lemma_sync_range_law(buf@);
        }
        let (start, end) = match find_sync_range(buf) {
            Ok(range) => (range.start, range.end),
            Err(ParseError::NoSync) => {
                return Err(ParseError::NoSync);
            },
            Err(ParseError::OneSync(start)) => {
                if terminating {
                    (start, len)
                } else {
                    return Ok(Dispatch { consumed: 0, work: None });
                }
            },
        };
        let data = slice_to_vec(&buf[start..end]);
        let sequence_number = self.sequence_number;
        self.sequence_number = sequence_number + 1;
        Ok(Dispatch { consumed: end, work: Some(WorkItem { sequence_number, data }) })
    }
}

/// The data of `items`, concatenated in order.
pub open spec fn concat_data(items: Seq<WorkItem>) -> Seq<u8>
    decreases items.len(),
{
    if items.len() == 0 {
        Seq::empty()
    } else {
        concat_data(items.drop_last()) + items.last().data@
    }
}

/// The regions a whole dump is cut into: each sync-aligned range in turn,
/// then everything from the last PSB on.
pub open spec fn dispatch_regions(s: Seq<u8>) -> Seq<Seq<u8>>
    decreases s.len(),
{
    match sync_range(s) {
        Ok((a, b)) => if 0 <= a <= b && 0 < b <= s.len() {
            seq![s.subrange(a, b)] + dispatch_regions(s.subrange(b, s.len() as int))
        } else {
            Seq::empty()
        },
        Err(ParseError::OneSync(p)) => if p <= s.len() {
            seq![s.subrange(p as int, s.len() as int)]
        } else {
            Seq::empty()
        },
        Err(ParseError::NoSync) => Seq::empty(),
    }
}

/// The data of each item, in order.
pub open spec fn region_data(items: Seq<WorkItem>) -> Seq<Seq<u8>> {
    items.map_values(|w: WorkItem| w.data@)
}

/// A PSB at offset `c` of `s` is a PSB at offset `i - c` of the suffix of
/// `s` from `c`, and conversely.
proof fn lemma_psb_shift(s: Seq<u8>, c: int, i: int)
    requires
        0 <= c <= i,
        c <= s.len(),
    ensures
        is_psb_at(s, i) == is_psb_at(s.subrange(c, s.len() as int), i - c),
{
    let t = s.subrange(c, s.len() as int);
    if is_psb_at(s, i) {
        assert forall|k: int| 0 <= k < 16 implies #[trigger] t[i - c + k] == crate::sync::psb_byte(
            k,
        ) by {
            assert(t[i - c + k] == s[i + k]);
        }
    }
    if is_psb_at(t, i - c) {
        assert forall|k: int| 0 <= k < 16 implies #[trigger] s[i + k] == crate::sync::psb_byte(
            k,
        ) by {
            assert(t[i - c + k] == s[i + k]);
        }
    }
}

/// Feeds a whole raw trace dump through `tm`: regions are taken while whole
/// sync-aligned ranges remain, then the rest is taken as the final region.
/// The regions' data, concatenated, is the dump from its first PSB on; their
/// sequence numbers follow each other from the task manager's next one. A
/// dump without any PSB is an error.
pub fn dispatch_all(tm: &mut TaskManager, raw: &[u8]) -> (r: Result<Vec<WorkItem>, ParseError>)
    requires
        old(tm).next() + raw@.len() < u64::MAX,
    ensures
        next_psb(raw@, 0) is None ==> r == Err::<Vec<WorkItem>, ParseError>(ParseError::NoSync),
        next_psb(raw@, 0) matches Some(f) ==> (r matches Ok(items) && {
            &&& region_data(items@) == dispatch_regions(raw@)
            &&& concat_data(items@) == raw@.subrange(f, raw@.len() as int)
            &&& final(tm).next() == old(tm).next() + items@.len()
            &&& forall|i: int|
                0 <= i < items@.len() ==> #[trigger] items@[i].sequence_number == old(tm).next()
                    + i
        }),
{
    let ghost first = next_psb(raw@, 0);
    let ghost n0 = tm.next();
    let len = raw.len();
    proof {
        lemma_next_psb(raw@, 0);
        lemma_sync_range_law(raw@);
    }
    let mut items: Vec<WorkItem> = Vec::new();
    let mut current: usize = 0;
    proof {
        assert(raw@.subrange(0, len as int) =~= raw@);
        assert(region_data(items@) =~= Seq::<Seq<u8>>::empty());
        assert(region_data(items@) + dispatch_regions(raw@) =~= dispatch_regions(raw@));
    }
    loop
        invariant
            current <= raw@.len(),
            tm.next() == n0 + items@.len(),
            items@.len() <= current,
            n0 + raw@.len() < u64::MAX,
            len == raw@.len(),
            first == next_psb(raw@, 0),
            items@.len() > 0 ==> first is Some && 0 <= first->0 <= current,
            items@.len() == 0 ==> current == 0,
            items@.len() > 0 ==> is_psb_at(raw@, current as int),
            items@.len() > 0 ==> concat_data(items@) == raw@.subrange(
                first->0,
                current as int,
            ),
            forall|i: int|
                0 <= i < items@.len() ==> #[trigger] items@[i].sequence_number == n0 + i,
            dispatch_regions(raw@) == region_data(items@) + dispatch_regions(
                raw@.subrange(current as int, len as int),
            ),
        ensures
            sync_range(raw@.subrange(current as int, len as int)) is Err,
            sync_range(raw@.subrange(current as int, len as int)) != Err::<(int, int), ParseError>(
                ParseError::NoSync,
            ),
        decreases raw@.len() - current,
    {
        let rest = &raw[current..len];
        let ghost s = rest@;
        proof {
            lemma_sync_range_law(s);
            if items@.len() > 0 {
                lemma_psb_shift(raw@, current as int, current as int);
                assert(is_psb_at(s, 0));
                assert(next_psb(s, 0) == Some(0int));
            } else {
                assert(s =~= raw@);
            }
            assert(sync_points(s).len() > 0 ==> sync_points(s)[0] == next_psb(s, 0)->0);
        }
        let d = match tm.callback(false, rest) {
            Ok(d) => d,
            Err(e) => {
                return Err(e);
            },
        };
        match d.work {
            Some(w) => {
                let ghost old_items = items@;
                let ghost wd = w.data@;
                let ghost old_current = current as int;
                current = current + d.consumed;
                items.push(w);
                proof {
                    assert(items@.drop_last() =~= old_items);
                    assert(items@.last().data@ == wd);
                    assert(concat_data(items@) == concat_data(old_items) + wd);
                    let (a, b) = sync_range(s)->Ok_0;
                    assert(wd == s.subrange(a, b));
                    assert(current == old_current + b);
                    assert(is_psb_at(s, b));
                    assert(s.len() == len - old_current);
                    lemma_psb_shift(raw@, old_current, old_current + b);
                    assert(sync_points(s)[0] == a);
                    assert(s.subrange(b, s.len() as int) =~= raw@.subrange(
                        current as int,
                        len as int,
                    ));
                    assert(dispatch_regions(s) == seq![s.subrange(a, b)] + dispatch_regions(
                        s.subrange(b, s.len() as int),
                    ));
                    assert(region_data(items@) =~= region_data(old_items) + seq![wd]);
                    assert(region_data(items@) + dispatch_regions(
                        raw@.subrange(current as int, len as int),
                    ) =~= region_data(old_items) + dispatch_regions(s));
                    if old_items.len() > 0 {
                        assert(a == 0);
                        assert(wd =~= raw@.subrange(old_current, old_current + b));
                        assert(raw@.subrange(first->0, old_current + b) =~= raw@.subrange(
                            first->0,
                            old_current,
                        ) + raw@.subrange(old_current, old_current + b));
                    } else {
                        assert(old_current == 0);
                        assert(first == Some(a));
                        assert(wd =~= raw@.subrange(a, b));
                        assert(concat_data(old_items) =~= Seq::<u8>::empty());
                        assert(concat_data(items@) =~= wd);
                    }
                }
            },
            None => {
                break ;
            },
        }
    }
    let rest = &raw[current..len];
    let ghost s = rest@;
    proof {
        lemma_sync_range_law(s);
        if items@.len() > 0 {
            lemma_psb_shift(raw@, current as int, current as int);
            assert(next_psb(s, 0) == Some(0int));
        } else {
            assert(s =~= raw@);
        }
        assert(sync_points(s).len() > 0 ==> sync_points(s)[0] == next_psb(s, 0)->0);
    }
    match tm.callback(true, rest) {
        Ok(d) => {
            if let Some(w) = d.work {
                let ghost old_items = items@;
                let ghost wd = w.data@;
                items.push(w);
                proof {
                    assert(items@.drop_last() =~= old_items);
                    assert(items@.last().data@ == wd);
                    assert(concat_data(items@) == concat_data(old_items) + wd);
                    let p = sync_range(s)->Err_0->OneSync_0;
                    assert(sync_points(s)[0] == p);
                    assert(wd == s.subrange(p as int, s.len() as int));
                    assert(dispatch_regions(s) == seq![s.subrange(p as int, s.len() as int)]);
                    assert(region_data(items@) =~= region_data(old_items) + seq![wd]);
                    if old_items.len() > 0 {
                        assert(p == 0);
                        assert(wd =~= raw@.subrange(current as int, len as int));
                        assert(raw@.subrange(first->0, len as int) =~= raw@.subrange(
                            first->0,
                            current as int,
                        ) + raw@.subrange(current as int, len as int));
                    } else {
                        assert(first == Some(p as int));
                        assert(concat_data(old_items) =~= Seq::<u8>::empty());
                        assert(concat_data(items@) =~= wd);
                    }
                }
            }
            Ok(items)
        },
        Err(e) => Err(e),
    }
}

/// Buffers trace data that arrives in pieces and offers it to a task
/// manager, keeping what was not yet taken. The buffer always starts with a
/// PSB once data has arrived.
pub struct ChunkFeeder {
    tm: TaskManager,
    buffer: Vec<u8>,
}

impl ChunkFeeder {
    /// The bytes received but not yet taken.
    pub closed spec fn pending(&self) -> Seq<u8> {
        self.buffer@
    }

    /// The sequence number of the next region taken.
    pub closed spec fn next(&self) -> u64 {
        self.tm.next()
    }

    /// The sequence number of the next region taken.
    pub fn next_sequence_number(&self) -> (r: u64)
        ensures
            r == self.next(),
    {
        self.tm.next_sequence_number()
    }

    /// The number of bytes received but not yet taken.
    pub fn pending_len(&self) -> (r: usize)
        ensures
            r == self.pending().len(),
    {
        self.buffer.len()
    }

    /// Whether the buffered bytes followed by `chunk` start with a PSB, as
    /// `feed` requires.
    pub fn accepts(&self, chunk: &[u8]) -> (r: bool)
        ensures
            r == is_psb_at(self.pending() + chunk@, 0),
    {
        let ghost joined = self.buffer@ + chunk@;
        let blen = self.buffer.len();
        if chunk.len() < PSB_SIZE && PSB_SIZE - chunk.len() > blen {
            return false;
        }
        let mut k: usize = 0;
        while k < PSB_SIZE
            invariant
                joined == self.buffer@ + chunk@,
                blen == self.buffer@.len(),
                PSB_SIZE <= joined.len(),
                k <= PSB_SIZE,
                forall|m: int| 0 <= m < k ==> #[trigger] joined[0 + m] == psb_byte(m),
            decreases PSB_SIZE - k,
        {
            let byte = if k < blen {
                self.buffer[k]
            } else {
                chunk[k - blen]
            };
            let expected = if k % 2 == 0 {
                PT_OPC_PSB
            } else {
                PT_EXT_PSB
            };
            if byte != expected {
                assert(joined[0 + k as int] != psb_byte(k as int));
                return false;
            }
            k += 1;
        }
        true
    }

    /// A feeder that has received nothing.
    pub fn new() -> (r: Self)
        ensures
            r.pending() == Seq::<u8>::empty(),
            r.next() == 0,
    {
        ChunkFeeder { tm: TaskManager::new(), buffer: Vec::new() }
    }

    /// Appends `chunk` to the buffered bytes and offers them once, without
    /// terminating, as `callback` does; what is taken leaves the front of
    /// the buffer. When the buffered bytes start with a PSB, the items
    /// returned and the bytes still buffered make up exactly the bytes
    /// buffered before and the chunk, and the buffer still starts with a PSB.
    pub fn feed(&mut self, chunk: &[u8]) -> (r: Result<Vec<WorkItem>, ParseError>)
        requires
            old(self).next() < u64::MAX,
        ensures
            ({
                let input = old(self).pending() + chunk@;
                match taken_range(input, false) {
                    Err(e) => {
                        &&& r == Err::<Vec<WorkItem>, ParseError>(e)
                        &&& final(self).pending() == input
                        &&& final(self).next() == old(self).next()
                    },
                    Ok(None) => {
                        &&& (r matches Ok(items) && items@.len() == 0)
                        &&& final(self).pending() == input
                        &&& final(self).next() == old(self).next()
                    },
                    Ok(Some((a, b))) => {
                        &&& (r matches Ok(items) && items@.len() == 1 && items@[0].data@
                            == input.subrange(a, b) && items@[0].sequence_number == old(
                            self,
                        ).next())
                        &&& final(self).pending() == input.subrange(b, input.len() as int)
                        &&& final(self).next() == old(self).next() + 1
                    },
                }
            }),
            is_psb_at(old(self).pending() + chunk@, 0) ==> (r matches Ok(items) && concat_data(
                items@,
            ) + final(self).pending() == old(self).pending() + chunk@ && is_psb_at(
                final(self).pending(),
                0,
            )),
    {
        let ghost input = self.buffer@ + chunk@;
        let mut more = slice_to_vec(chunk);
        self.buffer.append(&mut more);
        let len = self.buffer.len();
        proof {
            assert(self.buffer@ == input);
            lemma_sync_range_law(input);
            if is_psb_at(input, 0) {
                assert(next_psb(input, 0) == Some(0int));
                assert(sync_points(input)[0] == 0);
            }
        }
        let d = match self.tm.callback(false, self.buffer.as_slice()) {
            Ok(d) => d,
            Err(e) => {
                return Err(e);
            },
        };
        let mut items: Vec<WorkItem> = Vec::new();
        if let Some(w) = d.work {
            let ghost wd = w.data@;
            let ghost b = d.consumed as int;
            let rest = slice_to_vec(&self.buffer.as_slice()[d.consumed..len]);
            self.buffer = rest;
            items.push(w);
            proof {
                assert(items@.drop_last() =~= Seq::<WorkItem>::empty());
                assert(concat_data(items@) == concat_data(Seq::<WorkItem>::empty()) + wd);
                assert(concat_data(items@) =~= wd);
                if is_psb_at(input, 0) {
                    assert(wd == input.subrange(0, b));
                    lemma_psb_shift(input, b, b);
                    assert(concat_data(items@) + self.buffer@ =~= input);
                }
            }
        } else {
            proof {
                assert(concat_data(items@) + self.buffer@ =~= input);
            }
        }
        Ok(items)
    }

    /// Offers the buffered bytes for the last time, terminating, until none
    /// is left: the items returned hold exactly the bytes buffered.
    pub fn finish(self) -> (r: Vec<WorkItem>)
        requires
            self.pending().len() == 0 || is_psb_at(self.pending(), 0),
            self.next() + self.pending().len() < u64::MAX,
        ensures
            concat_data(r@) == self.pending(),
            forall|i: int|
                0 <= i < r@.len() ==> #[trigger] r@[i].sequence_number == self.next() + i,
    {
        let ChunkFeeder { mut tm, mut buffer } = self;
        let ghost n0 = tm.next();
        let ghost all = buffer@;
        let mut items: Vec<WorkItem> = Vec::new();
        proof {
            assert(concat_data(items@) + buffer@ =~= all);
        }
        while buffer.len() > 0
            invariant
                concat_data(items@) + buffer@ == all,
                buffer@.len() == 0 || is_psb_at(buffer@, 0),
                tm.next() == n0 + items@.len(),
                items@.len() + buffer@.len() <= all.len(),
                n0 + all.len() < u64::MAX,
                forall|i: int|
                    0 <= i < items@.len() ==> #[trigger] items@[i].sequence_number == n0 + i,
            decreases buffer@.len(),
        {
            let len = buffer.len();
            let ghost input = buffer@;
            proof {
                lemma_sync_range_law(input);
                assert(next_psb(input, 0) == Some(0int));
                assert(sync_points(input)[0] == 0);
            }
            match tm.callback(true, buffer.as_slice()) {
                Ok(d) => {
                    if let Some(w) = d.work {
                        let ghost wd = w.data@;
                        let ghost b = d.consumed as int;
                        let ghost old_items = items@;
                        let rest = slice_to_vec(&buffer.as_slice()[d.consumed..len]);
                        buffer = rest;
                        items.push(w);
                        proof {
                            assert(items@.drop_last() =~= old_items);
                            assert(concat_data(items@) == concat_data(old_items) + wd);
                            assert(wd == input.subrange(0, b));
                            if b < len {
                                lemma_psb_shift(input, b, b);
                            }
                            assert(input =~= wd + buffer@);
                            assert(concat_data(items@) + buffer@ =~= concat_data(old_items)
                                + input);
                        }
                    } else {
                        proof {
                            assert(false);
                        }
                    }
                },
                Err(_) => {
                    proof {
                        assert(false);
                    }
                },
            }
        }
        proof {
            assert(concat_data(items@) + buffer@ =~= concat_data(items@));
        }
        items
    }
}

/// The sequence numbers of the regions dispatched in a session that starts
/// from a fresh task manager, numbered as `callback`, `dispatch_all`,
/// `ChunkFeeder::feed` and `ChunkFeeder::finish` number them, are exactly
/// `0, 1, ..., N - 1`: no duplicate and no gap.
pub proof fn lemma_dense_sequence_numbers(items: Seq<WorkItem>)
    requires
        forall|i: int| 0 <= i < items.len() ==> #[trigger] items[i].sequence_number == i,
    ensures
        Set::new(
            |k: u64| exists|i: int| 0 <= i < items.len() && #[trigger] items[i].sequence_number == k,
        ) == Set::new(|k: u64| k < items.len()),
        forall|i: int, j: int|
            0 <= i < j < items.len() ==> #[trigger] items[i].sequence_number
                != #[trigger] items[j].sequence_number,
{
    let issued = Set::new(
        |k: u64| exists|i: int| 0 <= i < items.len() && #[trigger] items[i].sequence_number == k,
    );
    assert forall|k: u64| issued.contains(k) <==> k < items.len() by {
        if k < items.len() {
            assert(items[k as int].sequence_number == k);
        }
    }
    assert(issued =~= Set::new(|k: u64| k < items.len()));
}

/// What the reader does after offering the trace data to the task manager.
#[derive(Debug, Clone, Copy, PartialEq, Eq, Structural)]
pub enum ReaderAction {
    /// The final, terminating offer has been made: stop.
    Stop,
    /// Nothing was consumed and exit was requested: make the final offer,
    /// with `terminating` set.
    Drain,
    /// Offer the data again.
    Continue,
}

/// Decides the reader's next step from whether it was terminating, how many
/// bytes the last offer consumed and whether exit was requested.
pub fn reader_action(terminating: bool, consumed: usize, received_exit: bool) -> (r: ReaderAction)
    ensures
        r == (if terminating {
            ReaderAction::Stop
        } else if consumed == 0 && received_exit {
            ReaderAction::Drain
        } else {
            ReaderAction::Continue
        }),
{
    if terminating {
        ReaderAction::Stop
    } else if consumed == 0 && received_exit {
        ReaderAction::Drain
    } else {
        ReaderAction::Continue
    }
}

} // verus!
