//! Turning processed packets into program counters and serialising them:
//! identity for PTWRITE payloads, IP reconstruction and host-to-guest
//! lookup for TIP/FUP packets.
use crate::ordered_queue::OrderedQueue;
use crate::packet::Kind;
use std::collections::HashMap;
use vstd::prelude::*;

verus! {

broadcast use vstd::std_specs::hash::group_hash_axioms;

/// Length of the indirect jump that the JIT emits to provoke a TIP: the TIP
/// carries the address just past the jump.
pub const JMP_INSN_LEN: u64 = 9;

/// Number of decoder threads.
pub const NUM_THREADS: u32 = 6;

/// Pending work queue depth per thread.
pub const THREAD_WORK_QUEUE_DEPTH: u32 = 4096;

/// Maximum number of decode tasks in flight before the reader holds back.
pub const MAX_TASKS: u32 = NUM_THREADS * THREAD_WORK_QUEUE_DEPTH;

/// Mapping from host code addresses to guest program counters.
pub struct PcMap {
    map: HashMap<u64, u64>,
}

impl PcMap {
    pub closed spec fn view(&self) -> Map<u64, u64> {
        self.map@
    }

    /// An empty mapping.
    pub fn new() -> (r: Self)
        ensures
            r@ == Map::<u64, u64>::empty(),
    {
        PcMap { map: HashMap::new() }
    }

    /// Records that host address `host_pc` runs guest program counter
    /// `guest_pc`, replacing any earlier mapping of `host_pc`.
    pub fn insert_mapping(&mut self, host_pc: u64, guest_pc: u64)
        ensures
            final(self)@ == old(self)@.insert(host_pc, guest_pc),
    {
        self.map.insert(host_pc, guest_pc);
    }

    /// The guest program counter mapped to `host_pc`, if any.
    pub fn get(&self, host_pc: u64) -> (r: Option<u64>)
        ensures
            r == (if self@.contains_key(host_pc) {
                Some(self@[host_pc])
            } else {
                None
            }),
    {
        match self.map.get(&host_pc) {
            Some(guest_pc) => Some(*guest_pc),
            None => None,
        }
    }
}

/// The little-endian bytes of `x`.
pub open spec fn le_bytes(x: u64) -> Seq<u8> {
    seq![
        x as u8,
        (x >> 8u64) as u8,
        (x >> 16u64) as u8,
        (x >> 24u64) as u8,
        (x >> 32u64) as u8,
        (x >> 40u64) as u8,
        (x >> 48u64) as u8,
        (x >> 56u64) as u8,
    ]
}

/// Appends the little-endian bytes of `x` to `out`.
pub fn push_le_bytes(out: &mut Vec<u8>, x: u64)
    ensures
        final(out)@ == old(out)@ + le_bytes(x),
{
    out.push(x as u8);
    out.push((x >> 8u64) as u8);
    out.push((x >> 16u64) as u8);
    out.push((x >> 24u64) as u8);
    out.push((x >> 32u64) as u8);
    out.push((x >> 40u64) as u8);
    out.push((x >> 48u64) as u8);
    out.push((x >> 56u64) as u8);
    assert(out@ =~= old(out)@ + le_bytes(x));
}

/// Transforms processed packets into program counter values.
pub trait PacketWriter: Sized {
    type ProcessedPacket;

    /// What the writer reads besides its own state.
    type Ctx;

    /// The program counter emitted for `data`, if any.
    spec fn pc_of(&self, ctx: &Self::Ctx, data: Self::ProcessedPacket) -> Option<u64>;

    /// The writer's state after handling `data`.
    spec fn after(&self, data: Self::ProcessedPacket) -> Self;

    fn calculate_pc(&mut self, ctx: &Self::Ctx, data: &Self::ProcessedPacket) -> (r: Option<u64>)
        ensures
            r == old(self).pc_of(ctx, *data),
            *final(self) == old(self).after(*data),
    ;
}

/// The bytes written for one optional program counter.
pub open spec fn pc_bytes(pc: Option<u64>) -> Seq<u8> {
    match pc {
        Some(x) => le_bytes(x),
        None => Seq::empty(),
    }
}

/// The bytes written for `batch`, starting from writer `w`.
pub open spec fn written<W: PacketWriter>(w: W, ctx: &W::Ctx, batch: Seq<W::ProcessedPacket>) -> Seq<
    u8,
>
    decreases batch.len(),
{
    if batch.len() == 0 {
        Seq::empty()
    } else {
        pc_bytes(w.pc_of(ctx, batch[0])) + written(w.after(batch[0]), ctx, batch.drop_first())
    }
}

/// Writer `w`'s state after handling `batch`.
pub open spec fn run<W: PacketWriter>(w: W, batch: Seq<W::ProcessedPacket>) -> W
    decreases batch.len(),
{
    if batch.len() == 0 {
        w
    } else {
        run(w.after(batch[0]), batch.drop_first())
    }
}

/// Writer `w`'s state after handling `batches`, one after the other.
pub open spec fn run_batches<W: PacketWriter>(w: W, batches: Seq<Seq<W::ProcessedPacket>>) -> W
    decreases batches.len(),
{
    if batches.len() == 0 {
        w
    } else {
        run(run_batches(w, batches.drop_last()), batches.last())
    }
}

/// The bytes written for `batches`, one after the other: the bytes of each
/// batch, concatenated in order.
pub open spec fn written_batches<W: PacketWriter>(
    w: W,
    ctx: &W::Ctx,
    batches: Seq<Seq<W::ProcessedPacket>>,
) -> Seq<u8>
    decreases batches.len(),
{
    if batches.len() == 0 {
        Seq::empty()
    } else {
        written_batches(w, ctx, batches.drop_last()) + written(
            run_batches(w, batches.drop_last()),
            ctx,
            batches.last(),
        )
    }
}

/// Handles every packet of `batch` in order and returns the little-endian
/// bytes of the program counters emitted.
pub fn write_batch<W: PacketWriter>(writer: &mut W, ctx: &W::Ctx, batch: &Vec<W::ProcessedPacket>) -> (r:
    Vec<u8>)
    ensures
        r@ == written(*old(writer), ctx, batch@),
        *final(writer) == run(*old(writer), batch@),
{
    let mut out: Vec<u8> = Vec::new();
    let mut i: usize = 0;
    proof {
        assert(batch@.subrange(0, batch@.len() as int) =~= batch@);
        assert(out@ + written(*writer, ctx, batch@) =~= written(*writer, ctx, batch@));
    }
    while i < batch.len()
        invariant
            i <= batch@.len(),
            written(*old(writer), ctx, batch@) == out@ + written(
                *writer,
                ctx,
                batch@.subrange(i as int, batch@.len() as int),
            ),
            run(*old(writer), batch@) == run(*writer, batch@.subrange(i as int, batch@.len() as int)),
        decreases batch@.len() - i,
    {
        let ghost remaining = batch@.subrange(i as int, batch@.len() as int);
        let ghost before = *writer;
        let ghost out_before = out@;
        let data = &batch[i];
        proof {
            assert(*data == remaining[0]);
            assert(remaining.drop_first() =~= batch@.subrange(i + 1, batch@.len() as int));
        }
        let pc = writer.calculate_pc(ctx, data);
        if let Some(pc) = pc {
            push_le_bytes(&mut out, pc);
        }
        proof {
            assert(out@ == out_before + pc_bytes(before.pc_of(ctx, *data)));
            assert(out@ + written(*writer, ctx, batch@.subrange(i + 1, batch@.len() as int))
                =~= out_before + (pc_bytes(before.pc_of(ctx, *data)) + written(
                before.after(*data),
                ctx,
                remaining.drop_first(),
            )));
        }
        i += 1;
    }
    proof {
        assert(batch@.subrange(batch@.len() as int, batch@.len() as int) =~= Seq::<
            W::ProcessedPacket,
        >::empty());
        assert(out@ + Seq::<u8>::empty() =~= out@);
    }
    out
}


/// Passes PTWRITE payloads through unchanged.
pub struct PtwWriter;

impl PtwWriter {
    pub fn new() -> (r: Self) {
        PtwWriter
    }
}

impl PacketWriter for PtwWriter {
    type ProcessedPacket = u64;

    type Ctx = ();

    open spec fn pc_of(&self, ctx: &(), data: u64) -> Option<u64> {
        Some(data)
    }

    open spec fn after(&self, data: u64) -> Self {
        *self
    }

    fn calculate_pc(&mut self, ctx: &(), data: &u64) -> (r: Option<u64>) {
        Some(*data)
    }
}

/// `payload` sign-extended from bit 47.
pub open spec fn sign_extend_48(payload: u64) -> u64 {
    if payload & 0x0000_8000_0000_0000u64 != 0 {
        payload | 0xFFFF_0000_0000_0000u64
    } else {
        payload & 0x0000_FFFF_FFFF_FFFFu64
    }
}

/// The IP that a TIP or FUP payload of `kind` yields, given the last IP.
pub open spec fn reconstruct_ip(last_ip: u64, kind: Kind, payload: u64) -> u64 {
    match kind {
        Kind::Update16 => (last_ip & 0xFFFF_FFFF_FFFF_0000u64) | payload,
        Kind::Update32 => (last_ip & 0xFFFF_FFFF_0000_0000u64) | payload,
        Kind::Update48 => (last_ip & 0xFFFF_0000_0000_0000u64) | payload,
        Kind::SignExtend48 => sign_extend_48(payload),
        Kind::Update64 | Kind::Update64NoEmit => payload,
    }
}

/// The host address whose mapping an IP is looked up under: the start of
/// the jump that produced it. IPs below the jump length come from no jump.
pub open spec fn host_key(ip: u64) -> Option<u64> {
    if ip >= JMP_INSN_LEN {
        Some((ip - JMP_INSN_LEN) as u64)
    } else {
        None
    }
}

/// The guest program counter emitted for a packet of `kind` that yields
/// `ip`: none for a FUP, else the mapping of its host key, if there is one.
pub open spec fn tip_pc(map: Map<u64, u64>, kind: Kind, ip: u64) -> Option<u64> {
    if kind == Kind::Update64NoEmit {
        None
    } else {
        match host_key(ip) {
            Some(k) => if map.contains_key(k) {
                Some(map[k])
            } else {
                None
            },
            None => None,
        }
    }
}

/// Reconstructs full IPs from compressed TIP/FUP payloads and maps them to
/// guest program counters.
pub struct TipWriter {
    last_ip: u64,
}

impl TipWriter {
    /// The last IP reconstructed.
    pub closed spec fn ip(&self) -> u64 {
        self.last_ip
    }

    /// A writer whose last IP is 0.
    pub fn new() -> (r: Self)
        ensures
            r.ip() == 0,
    {
        TipWriter { last_ip: 0 }
    }

    /// The last IP reconstructed.
    pub fn last_ip(&self) -> (r: u64)
        ensures
            r == self.ip(),
    {
        self.last_ip
    }
}

impl PacketWriter for TipWriter {
    type ProcessedPacket = (Kind, u64);

    type Ctx = PcMap;

    open spec fn pc_of(&self, ctx: &PcMap, data: (Kind, u64)) -> Option<u64> {
        tip_pc(ctx@, data.0, reconstruct_ip(self.ip(), data.0, data.1))
    }

    closed spec fn after(&self, data: (Kind, u64)) -> Self {
        TipWriter { last_ip: reconstruct_ip(self.last_ip, data.0, data.1) }
    }

    fn calculate_pc(&mut self, ctx: &PcMap, data: &(Kind, u64)) -> (r: Option<u64>) {
        let kind = data.0;
        let payload = data.1;
        let ip = match kind {
            Kind::Update16 => (self.last_ip & 0xFFFF_FFFF_FFFF_0000u64) | payload,
            Kind::Update32 => (self.last_ip & 0xFFFF_FFFF_0000_0000u64) | payload,
            Kind::Update48 => (self.last_ip & 0xFFFF_0000_0000_0000u64) | payload,
            Kind::SignExtend48 => {
                if payload & 0x0000_8000_0000_0000u64 != 0 {
                    payload | 0xFFFF_0000_0000_0000u64
                } else {
                    payload & 0x0000_FFFF_FFFF_FFFFu64
                }
            },
            Kind::Update64 | Kind::Update64NoEmit => payload,
        };
        self.last_ip = ip;
        if kind == Kind::Update64NoEmit || ip < JMP_INSN_LEN {
            None
        } else {
            ctx.get(ip - JMP_INSN_LEN)
        }
    }
}

/// Handling a TIP or FUP payload sets the last IP to the reconstructed IP.
pub proof fn lemma_tip_after(w: TipWriter, data: (Kind, u64))
    ensures
        w.after(data).ip() == reconstruct_ip(w.ip(), data.0, data.1),
{
}

/// Two TIP writers that start from the same last IP emit the same bytes for
/// the same packets and end with the same last IP: reprocessing a region
/// from `last_ip = 0` reproduces its output.
pub proof fn lemma_tip_replay(w1: TipWriter, w2: TipWriter, map: PcMap, batch: Seq<(Kind, u64)>)
    requires
        w1.ip() == w2.ip(),
    ensures
        written(w1, &map, batch) == written(w2, &map, batch),
        run(w1, batch) == run(w2, batch),
{
    assert(w1 == w2);
}

/// The batches with sequence numbers `start`, `start + 1`, ... (`n` of
/// them), as sequences.
pub open spec fn ready_batches<T>(m: Map<u64, Vec<T>>, start: u64, n: nat) -> Seq<Seq<T>> {
    Seq::new(n, |i: int| m[(start + i) as u64]@)
}

/// Hands every batch that is next in sequence order to `writer`, in that
/// order, and returns the bytes written for them, concatenated.
pub fn write_ready<W: PacketWriter>(
    queue: &mut OrderedQueue<Vec<W::ProcessedPacket>>,
    writer: &mut W,
    ctx: &W::Ctx,
) -> (r: Vec<u8>)
    requires
        old(queue).wf(),
    ensures
        final(queue).wf(),
        old(queue).next() <= final(queue).next(),
        forall|k: u64|
            old(queue).next() <= k < final(queue).next() ==> old(queue)@.contains_key(k),
        !final(queue)@.contains_key(final(queue).next()),
        final(queue)@ == old(queue)@.remove_keys(
            Set::new(|k: u64| old(queue).next() <= k < final(queue).next()),
        ),
        r@ == written_batches(
            *old(writer),
            ctx,
            ready_batches(
                old(queue)@,
                old(queue).next(),
                (final(queue).next() - old(queue).next()) as nat,
            ),
        ),
        *final(writer) == run_batches(
            *old(writer),
            ready_batches(
                old(queue)@,
                old(queue).next(),
                (final(queue).next() - old(queue).next()) as nat,
            ),
        ),
{
    let ghost q0 = *queue;
    let ghost w0 = *writer;
    let mut out: Vec<u8> = Vec::new();
    let mut done = false;
    proof {
        assert(queue@ =~= q0@.remove_keys(Set::new(|k: u64| q0.next() <= k < queue.next())));
        assert(ready_batches(q0@, q0.next(), 0) =~= Seq::<Seq<W::ProcessedPacket>>::empty());
    }
    while !done
        invariant
            queue.wf(),
            q0.next() <= queue.next(),
            forall|k: u64| q0.next() <= k < queue.next() ==> q0@.contains_key(k),
            done ==> !queue@.contains_key(queue.next()),
            queue@ == q0@.remove_keys(Set::new(|k: u64| q0.next() <= k < queue.next())),
            out@ == written_batches(
                w0,
                ctx,
                ready_batches(q0@, q0.next(), (queue.next() - q0.next()) as nat),
            ),
            *writer == run_batches(
                w0,
                ready_batches(q0@, q0.next(), (queue.next() - q0.next()) as nat),
            ),
        decreases queue.count() + (if done { 0int } else { 1int }),
    {
        let ghost before = *queue;
        match queue.recv() {
            Some(batch) => {
                let ghost n = (before.next() - q0.next()) as nat;
                let ghost prev = ready_batches(q0@, q0.next(), n);
                let ghost next = ready_batches(q0@, q0.next(), n + 1);
                proof {
                    assert(q0@.contains_key(before.next()));
                    assert(batch == q0@[before.next()]);
                    assert(next.drop_last() =~= prev);
                    assert(next.last() == batch@);
                }
                let mut bytes = write_batch(writer, ctx, &batch);
                out.append(&mut bytes);
                proof {
                    assert(queue@ =~= q0@.remove_keys(
                        Set::new(|k: u64| q0.next() <= k < queue.next()),
                    ));
                }
            },
            None => {
                done = true;
            },
        }
    }
    out
}

/// What the writer does when no batch is ready.
#[derive(Debug, Clone, Copy, PartialEq, Eq, Structural)]
pub enum WriterAction {
    /// Exit was requested, no task is in flight and nothing is queued:
    /// flush the output and stop.
    Finish,
    /// Fewer than `MAX_TASKS` tasks are in flight: raise the readiness
    /// notifier so the reader may dispatch more, then poll again.
    Notify,
    /// Poll the queue again.
    Poll,
}

/// Decides what the writer does when no batch is ready.
pub fn idle_action(received_exit: bool, task_count: u32, queue_empty: bool) -> (r: WriterAction)
    ensures
        r == (if received_exit && task_count == 0 && queue_empty {
            WriterAction::Finish
        } else if task_count < MAX_TASKS {
            WriterAction::Notify
        } else {
            WriterAction::Poll
        }),
{
    if received_exit && task_count == 0 && queue_empty {
        WriterAction::Finish
    } else if task_count < MAX_TASKS {
        WriterAction::Notify
    } else {
        WriterAction::Poll
    }
}

} // verus!
