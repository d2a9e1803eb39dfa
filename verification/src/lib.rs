//! A wavetable sampling engine in fixed-point arithmetic.
//!
//! A table stores a bank of waveforms along one or more mix dimensions. A
//! sample is produced by interpolating inside a waveform, between the two
//! neighbouring waveforms of a dimension, and across dimensions. A voice
//! handle keeps the playback phase and the block buffers, and an engine owns
//! tables and handles behind integer identifiers.
//!
//! Every quantity that varies continuously (samples, mix factors, positions,
//! frequencies) is a fixed-point number with sixteen fractional bits; see
//! [`fixed`].

pub mod fixed;
pub mod settings;
pub mod table;
pub mod handle;
pub mod engine;
