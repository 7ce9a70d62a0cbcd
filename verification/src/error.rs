//! The error taxonomy shared by the key factory and the wire codecs.

use vstd::prelude::*;

verus! {

/// The reason a crypto token failed the closed-world validation.
#[derive(Clone, Copy, Debug, PartialEq, Eq, Structural)]
pub enum BadTokenReason {
    /// The token's `class_id` is not `DDS:Crypto:AES_GCM_GMAC`.
    WrongClassId,
    /// The token's string-property list is not empty.
    NonEmptyProperties,
    /// The token does not hold exactly one binary property.
    WrongBinaryPropertyCount,
    /// The single binary property is not named `dds.cryp.keymat`.
    WrongBinaryPropertyName,
}

/// An error returned by the key factory or one of the codecs.
///
/// Each variant carries the observed value that made the operation fail,
/// so a caller can report the offending field together with the expected
/// form given by `description`.
#[derive(Clone, Debug, PartialEq, Eq)]
pub enum SecurityError {
    /// A crypto token failed validation, for the carried reason.
    BadToken(BadTokenReason),
    /// A four-octet transformation-kind tag was none of the five
    /// builtin values; carries the observed tag.
    InvalidTransformationKind([u8; 4]),
    /// A handle was not found in the registry table the operation
    /// needed; carries the handle.
    UnknownHandle(u32),
    /// Registration was attempted for a builtin volatile endpoint,
    /// which must use its dedicated secure channel.
    VolatileEndpointRejected,
    /// The security attributes recorded for the carried handle are
    /// missing or their packed plugin mask has undefined bits set.
    MissingAttributes(u32),
    /// A value could not be serialized or deserialized; carries the
    /// offending length or position.
    SerializationFailure(usize),
    /// A DATA submessage body was malformed; carries the byte offset
    /// at which decoding failed.
    MalformedSubmessage(usize),
}

impl SecurityError {
    /// A short diagnostic naming the expected form for each error kind.
    pub fn description(&self) -> &'static str {
        match self {
            SecurityError::BadToken(reason) => match reason {
                BadTokenReason::WrongClassId => "crypto token class_id: expected DDS:Crypto:AES_GCM_GMAC",
                BadTokenReason::NonEmptyProperties => "crypto token properties: expected an empty list",
                BadTokenReason::WrongBinaryPropertyCount => "crypto token binary properties: expected exactly one",
                BadTokenReason::WrongBinaryPropertyName => "crypto token binary property name: expected dds.cryp.keymat",
            },
            SecurityError::InvalidTransformationKind(_) => "transformation kind tag: expected 0, 1, 2, 3 or 4 in the last octet",
            SecurityError::UnknownHandle(_) => "handle not registered",
            SecurityError::VolatileEndpointRejected => "builtin volatile endpoints must not be registered with the key factory",
            SecurityError::MissingAttributes(_) => "security attributes missing or their plugin mask has undefined bits",
            SecurityError::SerializationFailure(_) => "value has no valid CDR form of the expected length",
            SecurityError::MalformedSubmessage(_) => "DATA submessage body too short for its flags",
        }
    }
}

} // verus!
