//! Bit to Byte: the rules of a small terminal messenger and its relay.
pub mod discovery;
pub mod fizzbuzz;
pub mod input;
pub mod network;
pub mod presence;
pub mod relay;
pub mod screen;
pub mod search;
pub mod state;
pub mod tabs;
pub mod text;
