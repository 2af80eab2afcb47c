//! Support for the program around the library.
pub mod tracing;
