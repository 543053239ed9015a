//! Credential and username hardening for account registration.
//!
//! Two paths lead through this library and never meet. A password goes to
//! [`hashify::create_hash`], which salts it, derives a digest under a
//! [`policy::HashingPolicy`] and writes both into a self-describing
//! [`record::HashRecord`]; [`hashify::verify`] reads such a record back and
//! checks a password against it. A candidate username goes to
//! [`normalize::normalize`] and from there to [`filter::Classifier::classify`],
//! which accepts it or names the table that rejects it.
//!
//! The key-derivation function, the random generator, Unicode normalization
//! and pattern matching are the work of other crates. What the library takes
//! on trust from them, and from one function of the standard library, stands
//! in `kdf`, `salt`, `normalize`, `filter` and `text`, each statement beside
//! the call it is about; everything else is proved.

pub mod base64;
pub mod decimal;
pub mod errors;
pub mod fields;
pub mod filter;
pub mod hashify;
pub mod kdf;
pub mod normalize;
pub mod policy;
pub mod record;
pub mod salt;
pub mod text;
