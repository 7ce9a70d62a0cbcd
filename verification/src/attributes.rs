//! Security attributes handed to the key factory, and the packed plugin
//! attribute masks they carry.
//!
//! The packed masks lay their flags out from bit 0 upward: bit 0 is
//! `is_valid`, bits 1 to 3 are the encryption flags and bits 4 to 6 the
//! origin-authentication flags, in the field order of the structs below.
//! A mask with any bit above bit 6 set is malformed and rejected.

use vstd::prelude::*;

use crate::error::SecurityError;

verus! {

/// Participant security attributes as seen by this plugin layer: three
/// protection booleans plus the packed plugin attribute mask.
#[derive(Clone, Copy, Debug, PartialEq, Eq, Structural)]
pub struct ParticipantSecurityAttributes {
    pub is_rtps_protected: bool,
    pub is_discovery_protected: bool,
    pub is_liveliness_protected: bool,
    pub plugin_participant_attributes: u32,
}

/// Endpoint security attributes as seen by this plugin layer.
#[derive(Clone, Copy, Debug, PartialEq, Eq, Structural)]
pub struct EndpointSecurityAttributes {
    pub is_submessage_protected: bool,
    pub is_payload_protected: bool,
    pub is_key_protected: bool,
    pub plugin_endpoint_attributes: u32,
}

/// The unpacked form of `plugin_participant_attributes`.
#[derive(Clone, Copy, Debug, PartialEq, Eq, Structural)]
pub struct BuiltinPluginParticipantSecurityAttributes {
    pub is_valid: bool,
    pub is_rtps_encrypted: bool,
    pub is_discovery_encrypted: bool,
    pub is_liveliness_encrypted: bool,
    pub is_rtps_origin_authenticated: bool,
    pub is_discovery_origin_authenticated: bool,
    pub is_liveliness_origin_authenticated: bool,
}

/// The unpacked form of `plugin_endpoint_attributes`.
#[derive(Clone, Copy, Debug, PartialEq, Eq, Structural)]
pub struct BuiltinPluginEndpointSecurityAttributes {
    pub is_valid: bool,
    pub is_submessage_encrypted: bool,
    pub is_payload_encrypted: bool,
    pub is_key_encrypted: bool,
    pub is_submessage_origin_authenticated: bool,
    pub is_payload_origin_authenticated: bool,
    pub is_key_origin_authenticated: bool,
}

/// Whether a packed plugin mask uses only the seven defined bits.
pub open spec fn spec_plugin_mask_wf(mask: u32) -> bool {
    mask & 0xFFFF_FF80 == 0
}

/// The participant flags packed in `mask`, read bit by bit.
pub open spec fn spec_plugin_participant_attributes(mask: u32) -> BuiltinPluginParticipantSecurityAttributes {
    BuiltinPluginParticipantSecurityAttributes {
        is_valid: mask & 0x01 != 0,
        is_rtps_encrypted: mask & 0x02 != 0,
        is_discovery_encrypted: mask & 0x04 != 0,
        is_liveliness_encrypted: mask & 0x08 != 0,
        is_rtps_origin_authenticated: mask & 0x10 != 0,
        is_discovery_origin_authenticated: mask & 0x20 != 0,
        is_liveliness_origin_authenticated: mask & 0x40 != 0,
    }
}

/// The endpoint flags packed in `mask`, read bit by bit.
pub open spec fn spec_plugin_endpoint_attributes(mask: u32) -> BuiltinPluginEndpointSecurityAttributes {
    BuiltinPluginEndpointSecurityAttributes {
        is_valid: mask & 0x01 != 0,
        is_submessage_encrypted: mask & 0x02 != 0,
        is_payload_encrypted: mask & 0x04 != 0,
        is_key_encrypted: mask & 0x08 != 0,
        is_submessage_origin_authenticated: mask & 0x10 != 0,
        is_payload_origin_authenticated: mask & 0x20 != 0,
        is_key_origin_authenticated: mask & 0x40 != 0,
    }
}

impl BuiltinPluginParticipantSecurityAttributes {
    /// Unpack a participant plugin mask; a mask with undefined bits set
    /// is rejected with `MissingAttributes` carrying the mask.
    pub fn try_from_mask(mask: u32) -> (r: Result<Self, SecurityError>)
        ensures
            r is Ok <==> spec_plugin_mask_wf(mask),
            r matches Ok(a) ==> a == spec_plugin_participant_attributes(mask),
            r is Err ==> r == Err::<Self, _>(SecurityError::MissingAttributes(mask)),
    {
        if mask & 0xFFFF_FF80 == 0 {
            Ok(
                BuiltinPluginParticipantSecurityAttributes {
                    is_valid: mask & 0x01 != 0,
                    is_rtps_encrypted: mask & 0x02 != 0,
                    is_discovery_encrypted: mask & 0x04 != 0,
                    is_liveliness_encrypted: mask & 0x08 != 0,
                    is_rtps_origin_authenticated: mask & 0x10 != 0,
                    is_discovery_origin_authenticated: mask & 0x20 != 0,
                    is_liveliness_origin_authenticated: mask & 0x40 != 0,
                },
            )
        } else {
            Err(SecurityError::MissingAttributes(mask))
        }
    }
}

impl BuiltinPluginEndpointSecurityAttributes {
    /// Unpack an endpoint plugin mask; a mask with undefined bits set is
    /// rejected with `MissingAttributes` carrying the mask.
    pub fn try_from_mask(mask: u32) -> (r: Result<Self, SecurityError>)
        ensures
            r is Ok <==> spec_plugin_mask_wf(mask),
            r matches Ok(a) ==> a == spec_plugin_endpoint_attributes(mask),
            r is Err ==> r == Err::<Self, _>(SecurityError::MissingAttributes(mask)),
    {
        if mask & 0xFFFF_FF80 == 0 {
            Ok(
                BuiltinPluginEndpointSecurityAttributes {
                    is_valid: mask & 0x01 != 0,
                    is_submessage_encrypted: mask & 0x02 != 0,
                    is_payload_encrypted: mask & 0x04 != 0,
                    is_key_encrypted: mask & 0x08 != 0,
                    is_submessage_origin_authenticated: mask & 0x10 != 0,
                    is_payload_origin_authenticated: mask & 0x20 != 0,
                    is_key_origin_authenticated: mask & 0x40 != 0,
                },
            )
        } else {
            Err(SecurityError::MissingAttributes(mask))
        }
    }
}

} // verus!
