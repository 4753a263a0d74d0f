//! Build-time helper that turns a set of assembly sources into a static or
//! shared library.
//!
//! The interesting logic is pure: interpreting a target-triple string as an
//! assembler output-format flag, and laying out the exact tool invocations
//! (assembler per source file, then archiver or linker) as a build plan.
//! Both parts are verified here. A thin unverified driver is expected to
//! read the build environment, hand the configuration in as plain values,
//! and spawn the planned commands in order, stopping at the first failure.

pub mod pipeline;
pub mod triple;
