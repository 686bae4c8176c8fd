//! Verified core of a daily-bar stock scanner.
//!
//! Prices and volumes are fixed-point integers (the caller picks the tick
//! size); positions lacking enough history are `None`, the integer analogue
//! of the floating-point NaN sentinel used by chart software. The crate
//! provides the series transforms (moving averages, oscillators, bands,
//! crossing detectors), the catalog of named patterns built from them, a
//! monthly resampler, and the scan executor that applies one pattern to a
//! whole universe of tickers.

pub mod clock;
pub mod data;
pub mod indicators;
pub mod laws;
pub mod monthly;
pub mod num;
pub mod params;
pub mod patterns;
pub mod scanner;
pub mod signals;
pub mod text;
