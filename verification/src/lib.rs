//! Decoder for the LLVM stackmap section: a packed binary table that records,
//! for designated call sites, which machine locations hold live values.
//!
//! The core is a bounds-checked structural parser that turns a raw byte
//! stream into typed [`stackmap::StackMap`] values, together with the
//! ELF-specific logic that locates the section in an object file and undoes
//! load-time relocations.

pub mod cursor;
pub mod elf;
pub mod encode;
pub mod extension;
pub mod instruction;
pub mod layout;
pub mod proofs;
pub mod render;
pub mod stackmap;
pub mod truncation;

pub use instruction::LLVMInstruction;
pub use stackmap::LiveOut;
pub use stackmap::Location;
pub use stackmap::LocationType;
pub use stackmap::MalformedReason;
pub use stackmap::ParsingError;
pub use stackmap::StackMap;
pub use stackmap::StkMapRecord;
pub use stackmap::StkSizeRecord;
