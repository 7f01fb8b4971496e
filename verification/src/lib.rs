//! Creation and checking of Unreal Engine 4.26/4.27 `.sig` files.
//!
//! A `.sig` file holds the CRC32 of every 64 KiB chunk of a `.pak` file and
//! an RSA signature (PKCS#1 v1.5 type 1 padding, no DigestInfo prefix) over a
//! plaintext built from those checksums (and, for 4.27, the pak's index hash).
use vstd::prelude::*;

pub mod crypto;
pub mod error;
pub mod ini;
pub mod key;
pub mod pak;
pub mod rsa_keys;
pub mod sig;

pub use crypto::CHUNK_SIZE;
pub use error::Error;
pub use ini::CryptoConfig;
pub use key::SigningKey;
pub use sig::{SigFile, UeVersion};

verus! {

/// Convenience type alias for results returned by this library.
pub type Result<T> = core::result::Result<T, Error>;

} // verus!
