//! Format-preserving encryption with the FF1 mode of NIST SP 800-38G:
//! a Feistel network over numeral strings, keyed by AES.

pub mod binary;
pub mod cipher;
pub mod digits;
pub mod domain;
pub mod error;
pub mod expand;
pub mod ff1;
pub mod flexible;
pub mod laws;
pub mod numeral;
pub mod prf;
pub mod radix;

pub use binary::BinaryNumeralString;
pub use cipher::Cipher;
pub use error::{InvalidRadix, NumeralStringError};
pub use ff1::FF1;
pub use flexible::FlexibleNumeralString;
pub use numeral::{NumeralString, Operations};
pub use radix::Radix;
