//! Intel PT packets as the pipeline sees them, and the parsers that keep
//! the packets of interest for one tracing mode.
use vstd::prelude::*;

verus! {

/// IP compression of a TIP packet, as encoded in its header.
#[derive(Debug, Clone, Copy, PartialEq, Eq, Structural)]
pub enum Compression {
    /// No IP is carried.
    Suppressed,
    /// The low 16 bits of the IP are carried.
    Update16,
    /// The low 32 bits of the IP are carried.
    Update32,
    /// 48 bits are carried and sign-extended to the full IP.
    Sext48,
    /// The low 48 bits of the IP are carried.
    Update48,
    /// The full 64-bit IP is carried.
    Full,
}

/// A decoded Intel PT packet, reduced to what the parsers look at.
#[derive(Debug, Clone, Copy, PartialEq, Eq, Structural)]
pub enum PtPacket {
    /// A PTWRITE packet with its payload.
    Ptw(u64),
    /// A TIP packet with its compression and the IP bits it carries.
    Tip(Compression, u64),
    /// A FUP packet with the IP it carries.
    Fup(u64),
    /// Any other packet.
    Other,
}

/// How a retained TIP or FUP payload updates the last IP.
#[derive(Debug, Clone, Copy, PartialEq, Eq, Structural)]
pub enum Kind {
    /// Payload: 16 bits. Update last IP
    Update16,
    /// Payload: 32 bits. Update last IP
    Update32,
    /// Payload: 48 bits. Update last IP
    Update48,
    /// Payload: 64 bits. Full address
    Update64,
    /// Payload: 48 bits. Sign extend to full address
    SignExtend48,
    /// Full address, but do not emit a PC
    Update64NoEmit,
}

/// The sequence holding `o`'s value, if it has one.
pub open spec fn option_seq<T>(o: Option<T>) -> Seq<T> {
    match o {
        Some(x) => seq![x],
        None => Seq::empty(),
    }
}

/// Processes packets, keeping only those that matter to one tracing mode.
pub trait PacketParser: Sized {
    type ProcessedPacket;

    /// What the parser keeps of `packet`, if anything.
    spec fn retained(packet: PtPacket) -> Option<Self::ProcessedPacket>;

    /// The processed packets gathered so far, in packet order.
    spec fn gathered(&self) -> Seq<Self::ProcessedPacket>;

    fn new() -> (r: Self)
        ensures
            r.gathered() == Seq::<Self::ProcessedPacket>::empty(),
    ;

    fn process(&mut self, packet: PtPacket)
        ensures
            final(self).gathered() == old(self).gathered() + option_seq(Self::retained(packet)),
    ;

    fn finish(self) -> (r: Vec<Self::ProcessedPacket>)
        ensures
            r@ == self.gathered(),
    ;
}

/// What parser `P` keeps of a run of packets, in order.
pub open spec fn retained_all<P: PacketParser>(packets: Seq<PtPacket>) -> Seq<P::ProcessedPacket>
    decreases packets.len(),
{
    if packets.len() == 0 {
        Seq::empty()
    } else {
        retained_all::<P>(packets.drop_last()) + option_seq(P::retained(packets.last()))
    }
}

/// Keeps the payload of every PTWRITE packet.
pub struct PtwParser {
    buf: Vec<u64>,
}

/// The payload a PTWRITE parser keeps of a packet.
pub open spec fn ptw_retained(packet: PtPacket) -> Option<u64> {
    match packet {
        PtPacket::Ptw(payload) => Some(payload),
        _ => None,
    }
}

impl PacketParser for PtwParser {
    type ProcessedPacket = u64;

    open spec fn retained(packet: PtPacket) -> Option<u64> {
        ptw_retained(packet)
    }

    closed spec fn gathered(&self) -> Seq<u64> {
        self.buf@
    }

    fn new() -> (r: Self) {
        PtwParser { buf: Vec::new() }
    }

    fn process(&mut self, packet: PtPacket) {
        if let PtPacket::Ptw(payload) = packet {
            self.buf.push(payload);
        }
        assert(self.buf@ =~= old(self).buf@ + option_seq(ptw_retained(packet)));
    }

    fn finish(self) -> (r: Vec<u64>) {
        self.buf
    }
}

/// The kind a TIP packet's compression maps to; suppressed IPs are dropped.
pub open spec fn tip_kind(c: Compression) -> Option<Kind> {
    match c {
        Compression::Suppressed => None,
        Compression::Update16 => Some(Kind::Update16),
        Compression::Update32 => Some(Kind::Update32),
        Compression::Sext48 => Some(Kind::SignExtend48),
        Compression::Update48 => Some(Kind::Update48),
        Compression::Full => Some(Kind::Update64),
    }
}

/// The (kind, payload) pair a TIP parser keeps of a packet: TIPs with an IP,
/// and FUPs, which update the IP without emitting a PC.
pub open spec fn tip_retained(packet: PtPacket) -> Option<(Kind, u64)> {
    match packet {
        PtPacket::Tip(c, tip) => match tip_kind(c) {
            Some(k) => Some((k, tip)),
            None => None,
        },
        PtPacket::Fup(fup) => Some((Kind::Update64NoEmit, fup)),
        _ => None,
    }
}

/// Keeps the target IPs of TIP packets and the IPs of FUP packets.
pub struct TipParser {
    buf: Vec<(Kind, u64)>,
}

impl PacketParser for TipParser {
    type ProcessedPacket = (Kind, u64);

    open spec fn retained(packet: PtPacket) -> Option<(Kind, u64)> {
        tip_retained(packet)
    }

    closed spec fn gathered(&self) -> Seq<(Kind, u64)> {
        self.buf@
    }

    fn new() -> (r: Self) {
        TipParser { buf: Vec::new() }
    }

    fn process(&mut self, packet: PtPacket) {
        match packet {
            PtPacket::Tip(compression, tip) => {
                let kind = match compression {
                    Compression::Suppressed => {
                        return ;
                    },
                    Compression::Update16 => Kind::Update16,
                    Compression::Update32 => Kind::Update32,
                    Compression::Sext48 => Kind::SignExtend48,
                    Compression::Update48 => Kind::Update48,
                    Compression::Full => Kind::Update64,
                };
                self.buf.push((kind, tip));
            },
            PtPacket::Fup(fup) => {
                self.buf.push((Kind::Update64NoEmit, fup));
            },
            _ => {},
        }
        assert(self.buf@ =~= old(self).buf@ + option_seq(tip_retained(packet)));
    }

    fn finish(self) -> (r: Vec<(Kind, u64)>) {
        self.buf
    }
}

/// Runs parser `P` over the packets of one sync-aligned region, in order,
/// and returns what it kept.
pub fn parse_packets<P: PacketParser>(packets: &Vec<PtPacket>) -> (r: Vec<P::ProcessedPacket>)
    ensures
        r@ == retained_all::<P>(packets@),
{
    let mut parser = P::new();
    let mut i: usize = 0;
    while i < packets.len()
        invariant
            i <= packets@.len(),
            parser.gathered() == retained_all::<P>(packets@.subrange(0, i as int)),
        decreases packets@.len() - i,
    {
        let packet = packets[i];
        parser.process(packet);
        proof {
            let next = packets@.subrange(0, i + 1);
            assert(next.drop_last() =~= packets@.subrange(0, i as int));
            assert(next.last() == packet);
        }
        i += 1;
    }
    assert(packets@.subrange(0, packets@.len() as int) =~= packets@);
    parser.finish()
}

} // verus!
