//! A CHIP-8 virtual machine: machine state, instruction decoding and the
//! fetch-decode-execute step, with their behaviour stated as contracts.

pub mod decode;
pub mod machine;
pub mod cpu;
pub mod lemmas;
