//! The 32-register word VM: ISA layer, ELF loader, reference interpreter,
//! circuit inout layout and the lookup-table builders of the proof pipeline.

pub mod isa;
pub mod elf;
pub mod alu32;
pub mod interp;
pub mod circuit;
pub mod pipeline;
pub mod laws;
pub mod isa_laws;
pub mod bench;
