//! Receiver control and signal bookkeeping for an RTL-SDR Blog V4.
//!
//! The drivers ([`rtl2832`], [`r82xx`]) turn requests into register transfers over any
//! [`transport::Transport`]; their contracts say which transfers, in which order. The signal
//! modules decide which samples meet which coefficients and leave the arithmetic to functions
//! that the caller supplies.

pub mod agc;
pub mod binary64;
pub mod command;
pub mod conversation;
pub mod convolution;
pub mod decimal;
pub mod demod;
pub mod device;
pub mod dft;
pub mod fft;
pub mod fir;
pub mod frequency;
pub mod iq;
pub mod nco;
pub mod r82xx;
pub mod receiver;
pub mod registers;
pub mod regs;
pub mod replay;
pub mod resample;
pub mod rtl2832;
pub mod scan;
pub mod spectrum;
pub mod stage;
pub mod survey;
pub mod text;
pub mod transport;
pub mod wav;
pub mod window;
