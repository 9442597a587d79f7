//! Native parts of the individual validation slices.

pub mod word_vm32;
pub mod ram_sort;
pub mod vm_ram_sort;
pub mod stream_laws;
pub mod lookup_claims;
pub mod word_vm;
pub mod word_vm_ram;
pub mod zkvm;
pub mod full_vm_multi;
pub mod time_ordered;
pub mod reg_rw;
pub mod mem_arg_spice;
pub mod pc_glue;
pub mod combined;
pub mod factorial;
pub mod inst_lookup;
pub mod mem_arg;
pub mod full_vm;
pub mod full_vm_store;
pub mod word_vm_laws;
pub mod word_vm_ram_laws;
pub mod word_vm_ram_isa;
pub mod big_isa;
pub mod instr_step;
pub mod multi_inst;
pub mod multi_combined;
pub mod full_vm_jolt;
pub mod jolt_bridge;
