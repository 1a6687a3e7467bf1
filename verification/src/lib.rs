//! Fixed-point OFDM physical layer: a QAM-16 constellation codec, the
//! subcarrier allocation table, and the frame layout of one OFDM symbol
//! (frequency-domain assembly, cyclic prefix, data-bin extraction).
//!
//! The transform between the frequency and the time domain is not part of
//! this crate: the modulator hands out the frequency-domain symbol and takes
//! back the time-domain block, and the demodulator does the reverse.

pub mod error;
pub mod qam;
pub mod ofdm;
