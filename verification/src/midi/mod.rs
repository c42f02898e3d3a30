pub mod model;
pub mod rw_smf;
pub mod rw_asm;
pub mod asm_roundtrip;
