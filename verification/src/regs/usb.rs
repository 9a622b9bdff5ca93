//! USB block registers.

use vstd::prelude::*;

verus! {

pub const SYSCTL: u16 = 0x2000;

pub const EPA_CTL: u16 = 0x2148;

pub const EPA_MAXPKT: u16 = 0x2158;

} // verus!
