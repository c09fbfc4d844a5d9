//! A gas-metered bytecode virtual machine for smart contracts, with its
//! buffer store, call stack, layered state manager and merkle container.
pub mod blockutil;
pub mod buffer;
pub mod bytemap;
pub mod codec;
pub mod handlers;
pub mod host;
pub mod math;
pub mod merkle;
pub mod merkle_state;
pub mod opcode;
pub mod sanitization;
pub mod semantics;
pub mod stack;
pub mod state;
pub mod syntax_tree;
pub mod text;
pub mod vm;
pub mod zk;
