pub mod dwarf;
pub mod error;
pub mod event;
pub mod instruction;
pub mod maps;
pub mod text;
pub mod trace_collector;
pub mod elf;
pub mod config;
pub mod symbol_analyzer;
pub mod ptrace;
pub mod instrument;
pub mod event_buffer;
pub mod pipe;
pub mod monitor;
