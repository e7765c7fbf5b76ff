//! Host-side Intel Processor Trace pipeline: sync-aligned chunking of raw
//! trace data, packet filtering, ordered reassembly of decoded regions and
//! reconstruction of guest program counters.
use vstd::prelude::*;

pub mod mode;
pub mod ordered_queue;
pub mod packet;
pub mod reader;
pub mod ring_buffer;
pub mod sync;
pub mod writer;

verus! {

/// Tracing mode
#[derive(Debug, Clone, Copy, PartialEq, Eq, Structural)]
pub enum Mode {
    Uninitialized,
    Simple,
    Tip,
    Fup,
    PtWrite,
}

/// The byte that encodes `mode`.
pub open spec fn mode_byte(mode: Mode) -> u8 {
    match mode {
        Mode::Uninitialized => 0,
        Mode::Simple => 1,
        Mode::Tip => 2,
        Mode::Fup => 3,
        Mode::PtWrite => 4,
    }
}

/// The mode a byte encodes; unknown bytes mean no mode was set.
pub open spec fn mode_of_byte(value: u8) -> Mode {
    match value {
        1 => Mode::Simple,
        2 => Mode::Tip,
        3 => Mode::Fup,
        4 => Mode::PtWrite,
        _ => Mode::Uninitialized,
    }
}

impl From<u8> for Mode {
    fn from(value: u8) -> (r: Mode) {
        match value {
            1 => Mode::Simple,
            2 => Mode::Tip,
            3 => Mode::Fup,
            4 => Mode::PtWrite,
            _ => Mode::Uninitialized,
        }
    }
}

impl vstd::std_specs::convert::FromSpecImpl<u8> for Mode {
    open spec fn obeys_from_spec() -> bool {
        true
    }

    open spec fn from_spec(value: u8) -> Mode {
        mode_of_byte(value)
    }
}

impl Mode {
    /// The byte that encodes this mode.
    pub fn to_byte(self) -> (r: u8)
        ensures
            r == mode_byte(self),
    {
        match self {
            Mode::Uninitialized => 0,
            Mode::Simple => 1,
            Mode::Tip => 2,
            Mode::Fup => 3,
            Mode::PtWrite => 4,
        }
    }

    /// Whether the JIT reports each guest program counter itself, with no
    /// hardware tracing.
    pub fn enable_simple_tracing(self) -> (r: bool)
        ensures
            r == (self == Mode::Simple),
    {
        self == Mode::Simple
    }

    /// Whether an indirect jump is emitted at the start of each block, so
    /// that the hardware records a TIP packet there.
    pub fn insert_jmx_at_block_start(self) -> (r: bool)
        ensures
            r == (self == Mode::Tip || self == Mode::Fup),
    {
        self == Mode::Tip || self == Mode::Fup
    }

    /// Whether PTWRITE instructions are emitted.
    pub fn insert_pt_write(self) -> (r: bool)
        ensures
            r == (self == Mode::PtWrite),
    {
        self == Mode::PtWrite
    }

    /// Whether the chain count check is emitted: in every hardware mode.
    pub fn insert_chain_count_check(self) -> (r: bool)
        ensures
            r == (self == Mode::Tip || self == Mode::Fup || self == Mode::PtWrite),
    {
        self == Mode::Tip || self == Mode::Fup || self == Mode::PtWrite
    }
}

} // verus!
