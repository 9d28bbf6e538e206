//! Verified decryption of password-protected Office Open XML documents, with agile and with
//! standard encryption.

pub mod agile;
pub mod agile_laws;
pub mod bytes;
pub mod cipher;
pub mod descriptor_laws;
pub mod encoding;
pub mod error;
pub mod hash;
pub mod laws;
pub mod ole;
pub mod package;
pub mod standard;
pub mod standard_laws;
pub mod utf16;
pub mod xml;
