//! The crypto transform identifier and crypto header carried by
//! encoded submessages (sections 9.5.2.2 and 9.5.2.3), and their
//! conversions from and to the generic wire carriers.

use vstd::prelude::*;

use crate::error::SecurityError;
use crate::transformation::{BuiltinCryptoTransformationKind, CryptoTransformKind};
use crate::CryptoTransformKeyId;

verus! {

/// The generic transform identifier: the raw four-octet kind tag and
/// the key id.
#[derive(Debug, PartialEq, Eq, Clone, Copy)]
pub struct CryptoTransformIdentifier {
    pub transformation_kind: CryptoTransformKind,
    pub transformation_key_id: CryptoTransformKeyId,
}

/// The generic crypto header: a transform identifier plus the
/// plugin-specific extra octets.
#[derive(Debug, PartialEq, Eq, Clone)]
pub struct CryptoHeader {
    pub transformation_id: CryptoTransformIdentifier,
    pub plugin_crypto_header_extra: Vec<u8>,
}

/// CryptoTransformIdentifier type from section 9.5.2.2 of the Security
/// specification (v. 1.1), with the kind resolved to a builtin value.
#[derive(Debug, PartialEq, Eq, Clone, Copy, Structural)]
pub struct BuiltinCryptoTransformIdentifier {
    pub transformation_kind: BuiltinCryptoTransformationKind,
    pub transformation_key_id: CryptoTransformKeyId,
}

/// CryptoHeader type from section 9.5.2.3 of the Security
/// specification (v. 1.1): the identifier plus a 4-octet session id
/// and an 8-octet initialization vector suffix — the 12 octets of
/// plugin-specific extra.
#[derive(Debug, PartialEq, Eq, Clone, Copy)]
pub struct BuiltinCryptoHeader {
    pub transform_identifier: BuiltinCryptoTransformIdentifier,
    pub session_id: [u8; 4],
    pub initialization_vector_suffix: [u8; 8],
}

/// Whether a raw four-octet tag names a builtin transformation kind.
pub open spec fn spec_tag_wf(t: Seq<u8>) -> bool {
    t.len() == 4 && t[0] == 0 && t[1] == 0 && t[2] == 0 && t[3] <= 4
}

impl BuiltinCryptoTransformIdentifier {
    /// Resolve a raw transform identifier; an unknown kind tag is
    /// rejected with `InvalidTransformationKind`.
    pub fn try_from_raw(value: CryptoTransformIdentifier) -> (r: Result<
        BuiltinCryptoTransformIdentifier,
        SecurityError,
    >)
        ensures
            r is Ok <==> spec_tag_wf(value.transformation_kind@),
            r matches Ok(b) ==> b.transformation_kind.spec_tag() == value.transformation_kind@
                && b.transformation_key_id == value.transformation_key_id,
            r is Err ==> r == Err::<BuiltinCryptoTransformIdentifier, _>(
                SecurityError::InvalidTransformationKind(value.transformation_kind),
            ),
    {
        match BuiltinCryptoTransformationKind::try_from_tag(value.transformation_kind) {
            Ok(transformation_kind) => Ok(
                BuiltinCryptoTransformIdentifier {
                    transformation_kind,
                    transformation_key_id: value.transformation_key_id,
                },
            ),
            Err(e) => Err(e),
        }
    }

    /// The raw wire form of this identifier.
    pub fn to_raw(self) -> (r: CryptoTransformIdentifier)
        ensures
            r.transformation_kind@ == self.transformation_kind.spec_tag(),
            r.transformation_key_id == self.transformation_key_id,
    {
        CryptoTransformIdentifier {
            transformation_kind: self.transformation_kind.tag(),
            transformation_key_id: self.transformation_key_id,
        }
    }
}

impl BuiltinCryptoHeader {
    /// Split a generic crypto header into the builtin form. The kind
    /// tag must be builtin and the plugin extra exactly 12 octets:
    /// 4 of session id, 8 of initialization vector suffix. A wrong
    /// extra length is rejected with `SerializationFailure` quoting
    /// the observed length.
    pub fn try_from_raw(value: CryptoHeader) -> (r: Result<BuiltinCryptoHeader, SecurityError>)
        ensures
            r is Ok <==> (spec_tag_wf(value.transformation_id.transformation_kind@)
                && value.plugin_crypto_header_extra@.len() == 12),
            r matches Ok(b) ==> ({
                &&& b.transform_identifier.transformation_kind.spec_tag()
                    == value.transformation_id.transformation_kind@
                &&& b.transform_identifier.transformation_key_id
                    == value.transformation_id.transformation_key_id
                &&& b.session_id@ == value.plugin_crypto_header_extra@.subrange(0, 4)
                &&& b.initialization_vector_suffix@ == value.plugin_crypto_header_extra@.subrange(
                    4,
                    12,
                )
            }),
            !spec_tag_wf(value.transformation_id.transformation_kind@) ==> r == Err::<
                BuiltinCryptoHeader,
                _,
            >(
                SecurityError::InvalidTransformationKind(
                    value.transformation_id.transformation_kind,
                ),
            ),
            spec_tag_wf(value.transformation_id.transformation_kind@)
                && value.plugin_crypto_header_extra@.len() != 12 ==> r == Err::<
                BuiltinCryptoHeader,
                _,
            >(SecurityError::SerializationFailure(value.plugin_crypto_header_extra@.len() as usize)),
    {
        let transform_identifier = match BuiltinCryptoTransformIdentifier::try_from_raw(
            value.transformation_id,
        ) {
            Ok(ti) => ti,
            Err(e) => {
                return Err(e);
            },
        };
        let extra = &value.plugin_crypto_header_extra;
        if extra.len() != 12 {
            return Err(SecurityError::SerializationFailure(extra.len()));
        }
        let session_id: [u8; 4] = [extra[0], extra[1], extra[2], extra[3]];
        let initialization_vector_suffix: [u8; 8] = [
            extra[4],
            extra[5],
            extra[6],
            extra[7],
            extra[8],
            extra[9],
            extra[10],
            extra[11],
        ];
        proof {
            assert(session_id@ =~= extra@.subrange(0, 4));
            assert(initialization_vector_suffix@ =~= extra@.subrange(4, 12));
        }
        Ok(BuiltinCryptoHeader { transform_identifier, session_id, initialization_vector_suffix })
    }

    /// The generic wire form: the raw identifier plus the 12 extra
    /// octets, session id first.
    pub fn to_raw(self) -> (r: CryptoHeader)
        ensures
            r.transformation_id.transformation_kind@
                == self.transform_identifier.transformation_kind.spec_tag(),
            r.transformation_id.transformation_key_id
                == self.transform_identifier.transformation_key_id,
            r.plugin_crypto_header_extra@ == self.session_id@
                + self.initialization_vector_suffix@,
            r.plugin_crypto_header_extra@.len() == 12,
    {
        let mut extra: Vec<u8> = Vec::new();
        let mut i: usize = 0;
        while i < 4
            invariant
                0 <= i <= 4,
                extra@ == self.session_id@.subrange(0, i as int),
            decreases 4 - i,
        {
            extra.push(self.session_id[i]);
            assert(extra@ =~= self.session_id@.subrange(0, i + 1));
            i += 1;
        }
        assert(self.session_id@.subrange(0, 4) =~= self.session_id@);
        let mut j: usize = 0;
        while j < 8
            invariant
                0 <= j <= 8,
                extra@ == self.session_id@ + self.initialization_vector_suffix@.subrange(
                    0,
                    j as int,
                ),
            decreases 8 - j,
        {
            extra.push(self.initialization_vector_suffix[j]);
            assert(extra@ =~= self.session_id@
                + self.initialization_vector_suffix@.subrange(0, j + 1));
            j += 1;
        }
        assert(self.initialization_vector_suffix@.subrange(0, 8)
            =~= self.initialization_vector_suffix@);
        CryptoHeader {
            transformation_id: self.transform_identifier.to_raw(),
            plugin_crypto_header_extra: extra,
        }
    }
}

/// R2: a builtin header written by `to_raw` is accepted by
/// `try_from_raw` and comes back with the same fields. The builtin
/// kind's tag is always well formed, the 12 extra octets split back
/// into the session id and the suffix, and no other kind shares the
/// tag.
pub proof fn lemma_header_roundtrip(
    kind: BuiltinCryptoTransformationKind,
    sid: Seq<u8>,
    iv: Seq<u8>,
)
    requires
        sid.len() == 4,
        iv.len() == 8,
    ensures
        spec_tag_wf(kind.spec_tag()),
        (sid + iv).len() == 12,
        (sid + iv).subrange(0, 4) == sid,
        (sid + iv).subrange(4, 12) == iv,
        forall|k2: BuiltinCryptoTransformationKind| #[trigger] k2.spec_tag() == kind.spec_tag()
            ==> k2 == kind,
{
    assert((sid + iv).subrange(0, 4) =~= sid);
    assert((sid + iv).subrange(4, 12) =~= iv);
    assert forall|k2: BuiltinCryptoTransformationKind| #[trigger] k2.spec_tag()
        == kind.spec_tag() implies k2 == kind by {
        crate::transformation::lemma_tag_injective(k2, kind);
    }
}

} // verus!
