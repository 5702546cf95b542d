//! Signature-driven endpoint generation: scanning annotated declarations,
//! analysing their signatures and planning the wire artifacts of each.

pub mod route_table;
pub mod scan_laws;
pub mod scanner;
pub mod secret;
pub mod signature;
pub mod synth;
mod text;
pub mod token;
pub mod wire;
