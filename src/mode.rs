//! The coarse recording mode published to code-emission hooks, and its
//! one-byte encoding.
use vstd::prelude::*;

verus! {

/// Intel PT recording modes
#[derive(Debug, Clone, Copy, PartialEq, Eq, Structural)]
pub enum Mode {
    Invalid,
    Simple,
    IntelPt,
    PtWrite,
}

/// The byte that encodes `mode`.
pub open spec fn mode_code(mode: Mode) -> u8 {
    match mode {
        Mode::Invalid => 0,
        Mode::Simple => 1,
        Mode::IntelPt => 2,
        Mode::PtWrite => 3,
    }
}

/// Decodes the current mode from its stored byte.
pub fn get_mode(code: u8) -> (r: Mode)
    requires
        code <= 3,
    ensures
        mode_code(r) == code,
{
    match code {
        0 => Mode::Invalid,
        1 => Mode::Simple,
        2 => Mode::IntelPt,
        _ => Mode::PtWrite,
    }
}

/// The byte under which `mode` is stored as the current mode.
pub fn set_mode(mode: Mode) -> (r: u8)
    ensures
        r == mode_code(mode),
        r <= 3,
{
    match mode {
        Mode::Invalid => 0,
        Mode::Simple => 1,
        Mode::IntelPt => 2,
        Mode::PtWrite => 3,
    }
}

} // verus!
