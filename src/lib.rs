//! An assembler and a virtual machine for a small 16-bit load/store computer.
//!
//! The assembler reads line-oriented sources in two passes: [`Job::tokenize`]
//! turns code lines into tokens and lays them out, [`gen_executable`] resolves
//! labels and lowers every token into little-endian instruction words. The
//! machine ([`VirtualMachine`]) fetches, decodes and executes those words.
use vstd::prelude::*;

pub mod error;
pub mod isa;
pub mod token;
pub mod executable;
pub mod label;
pub mod lexer;
pub mod tokenizer;
pub mod emitter;
pub mod passes;
pub mod vm;

pub use error::AsmError;
pub use isa::{check_register_range, decode_opcode, Instruction, RegisterId};
pub use token::{Token, TRAMPOLINE_SIZE};
pub use executable::Executable;
pub use label::calculate_label_id;
pub use lexer::{parse_int_from_string, reg_name_to_num};
pub use tokenizer::Job;
pub use emitter::{collect_labels, emit_token, gen_executable};
pub use vm::{pace, Configuration, Exception, Firmware, Memory, Pace, Registers, VirtualMachine};

verus! {

} // verus!
