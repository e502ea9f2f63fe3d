//! Typed containers for key material, digests and signatures.
pub mod brainpool_p384;
pub mod container;
pub mod digest;
pub mod secret;
pub mod symmetric;
