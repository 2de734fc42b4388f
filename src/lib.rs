//! Addressing and decoding primitives for RPKI relying-party software.

pub mod ber;
pub mod rsync;
pub mod x509;
pub mod xml;
