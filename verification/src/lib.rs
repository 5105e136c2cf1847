//! A small stack-based bytecode virtual machine.
//!
//! A [`chunk::Chunk`] holds a compiled program: instruction bytes, a constant
//! pool, and a per-byte source-line table.  The [`vm::VirtualMachine`] walks a
//! chunk byte by byte, decoding each byte through [`chunk::Opcode`] and
//! executing it on a fixed-capacity value stack.  The disassembler in
//! [`debug`] renders the same bytes back into instruction records, advancing
//! by exactly the widths the interpreter uses.  The [`scanner`] turns source
//! text into tokens for a compiler that is yet to come.
//!
//! Numeric values are carried as [`chunk::Value`], the 64-bit IEEE-754
//! encoding of the double a program computes with.  The machine itself never
//! performs the four binary arithmetic operations: when it meets one, it pops
//! the operands and hands them to its caller, who computes the result and
//! pushes it back.  Everything else — decoding, the constant pool, the stack
//! discipline, negation, returning — is executed and verified here.

pub mod chunk;
pub mod compile;
pub mod debug;
pub mod scanner;
pub mod vm;
