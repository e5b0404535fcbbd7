//! Bytecode instrumentation: execution-cost metering, trace printing and a
//! diagnostic endpoint that reports the cost counter.
pub mod instrumentation;
pub mod ir;
pub mod metering;
pub mod profiling;
pub mod synth;
pub mod walk;
