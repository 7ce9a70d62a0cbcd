//! Core of a DDS Security cryptographic plugin for the builtin
//! AES-GCM-GMAC profile (OMG DDS Security v1.1, section 9.5).
//!
//! The crate provides three tightly coupled pieces:
//! - the builtin wire types (key material, crypto header, crypto footer,
//!   crypto token) together with their big-endian CDR codecs,
//! - the key-factory registry that allocates crypto handles, generates
//!   per-endpoint key material and tracks the associations between local
//!   and remote participants, writers and readers, and
//! - the length-and-flag-driven codec for the RTPS DATA submessage body.

pub mod attributes;
pub mod codec;
pub mod data;
pub mod error;
pub mod footer;
pub mod header;
pub mod key_factory;
pub mod keymat;
pub mod properties;
pub mod registry;
pub mod token;
pub mod transformation;
pub mod wire;

use vstd::prelude::*;

verus! {

/// A crypto handle: a non-zero 32-bit identifier for a participant,
/// data writer or data reader. Handle 0 is reserved as "unspecified".
pub type CryptoHandle = u32;

/// A key identifier carried inside key material and transform
/// identifiers; 0 means "no receiver-specific key".
pub type CryptoTransformKeyId = u32;

/// A crypto handle standing for a participant.
pub type ParticipantCryptoHandle = u32;

/// A crypto handle standing for a data writer.
pub type DatawriterCryptoHandle = u32;

/// A crypto handle standing for a data reader.
pub type DatareaderCryptoHandle = u32;

/// A crypto handle standing for an endpoint of either kind.
pub type EndpointCryptoHandle = u32;

/// An identity handle issued by the authentication plugin.
pub type IdentityHandle = u32;

/// A permissions handle issued by the access-control plugin.
pub type PermissionsHandle = u32;

/// A shared-secret handle issued by the authentication plugin. It is
/// accepted by the matched-remote registrations but not yet consumed:
/// deriving keys from the shared secret is an open extension point.
pub type SharedSecretHandle = u32;

} // verus!
