//! Rendering of binary buffers as grouped hexadecimal literal lists, and the
//! command-line vocabulary of the tools built on it.

pub mod encode;
pub mod decode;
pub mod layout;
pub mod cli;
