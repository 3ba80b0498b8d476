//! A modular signal-processing runtime: stream blocks (filters, LTI models,
//! observers, spectral transforms) behind a uniform lifecycle and typed-slot
//! contract, with exact rational arithmetic in the numeric kernels.

// Exact arithmetic.
pub mod cplx;
pub mod matrix;
pub mod rat;

// The block runtime: lifecycle, typed slots, ports, descriptors.
pub mod connectors;
pub mod memory_manager;
pub mod modules;
pub mod stream_processor;
pub mod streaming_data;
pub mod tags;
pub mod value;

// The blocks.
pub mod alpha_beta_gamma;
pub mod fft;
pub mod fir;
pub mod iir;
pub mod kalman_filter;
pub mod median_filter;
pub mod moving_average;
pub mod ss;
pub mod state_space;
pub mod tf;
pub mod zpk;

// Closed forms of the first-order engine responses.
pub mod lti_response;
