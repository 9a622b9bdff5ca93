//! System block registers.

use vstd::prelude::*;

verus! {

pub const DEMOD_CTL: u16 = 0x3000;

pub const GPO: u16 = 0x3001;

pub const GPD: u16 = 0x3002;

pub const GPOE: u16 = 0x3003;

pub const DEMOD_CTL_1: u16 = 0x300B;

} // verus!
