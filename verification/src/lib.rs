//! Vanity Ed25519 key generation for MeshCore.

pub mod bench;
pub mod chain;
pub mod curve;
pub mod device;
pub mod display;
pub mod entropy;
pub mod gpu;
pub mod hex_text;
pub mod keygen;
pub mod metal_gpu;
pub mod packing;
pub mod prefix;
pub mod scalar;
pub mod search;
pub mod text;
pub mod types;
