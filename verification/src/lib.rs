//! Native reference layer of a small RV32 zkVM: instruction encoders and
//! decoders, reference interpreters, trace post-processing for the memory
//! arguments, lookup-claim extraction and a little-endian ELF32 loader.

pub mod alu;
pub mod encode;
pub mod bits;
pub mod vm32;
pub mod slices;
