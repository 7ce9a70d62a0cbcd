//! The builtin transformation-kind table: the five symbolic kinds, their
//! four-octet wire tags, their key lengths, and the policy matrix that
//! selects a kind from the protection flags.

use vstd::prelude::*;

use crate::error::SecurityError;

verus! {

/// The four-octet wire form of a transformation kind.
pub type CryptoTransformKind = [u8; 4];

/// Valid values for CryptoTransformKind from section 9.5.2.1.1 of the
/// Security specification (v. 1.1).
#[allow(non_camel_case_types)]
#[derive(Clone, Copy, Debug, PartialEq, Eq, Structural)]
pub enum BuiltinCryptoTransformationKind {
    CRYPTO_TRANSFORMATION_KIND_NONE,
    CRYPTO_TRANSFORMATION_KIND_AES128_GMAC,
    CRYPTO_TRANSFORMATION_KIND_AES128_GCM,
    CRYPTO_TRANSFORMATION_KIND_AES256_GMAC,
    CRYPTO_TRANSFORMATION_KIND_AES256_GCM,
}

impl BuiltinCryptoTransformationKind {
    /// The last octet of the wire tag: values 0 through 4 in table order.
    pub open spec fn spec_tag_value(self) -> u8 {
        match self {
            BuiltinCryptoTransformationKind::CRYPTO_TRANSFORMATION_KIND_NONE => 0,
            BuiltinCryptoTransformationKind::CRYPTO_TRANSFORMATION_KIND_AES128_GMAC => 1,
            BuiltinCryptoTransformationKind::CRYPTO_TRANSFORMATION_KIND_AES128_GCM => 2,
            BuiltinCryptoTransformationKind::CRYPTO_TRANSFORMATION_KIND_AES256_GMAC => 3,
            BuiltinCryptoTransformationKind::CRYPTO_TRANSFORMATION_KIND_AES256_GCM => 4,
        }
    }

    /// The four-octet wire tag as a byte sequence.
    pub open spec fn spec_tag(self) -> Seq<u8> {
        seq![0u8, 0u8, 0u8, self.spec_tag_value()]
    }

    /// The master-sender-key length demanded by this kind: empty for
    /// NONE, 16 octets for AES128, 32 octets for AES256.
    pub open spec fn spec_key_len(self) -> nat {
        match self {
            BuiltinCryptoTransformationKind::CRYPTO_TRANSFORMATION_KIND_NONE => 0,
            BuiltinCryptoTransformationKind::CRYPTO_TRANSFORMATION_KIND_AES128_GMAC => 16,
            BuiltinCryptoTransformationKind::CRYPTO_TRANSFORMATION_KIND_AES128_GCM => 16,
            BuiltinCryptoTransformationKind::CRYPTO_TRANSFORMATION_KIND_AES256_GMAC => 32,
            BuiltinCryptoTransformationKind::CRYPTO_TRANSFORMATION_KIND_AES256_GCM => 32,
        }
    }

    /// The wire tag of this kind.
    pub fn tag(self) -> (r: CryptoTransformKind)
        ensures
            r@ == self.spec_tag(),
    {
        let v: u8 = match self {
            BuiltinCryptoTransformationKind::CRYPTO_TRANSFORMATION_KIND_NONE => 0,
            BuiltinCryptoTransformationKind::CRYPTO_TRANSFORMATION_KIND_AES128_GMAC => 1,
            BuiltinCryptoTransformationKind::CRYPTO_TRANSFORMATION_KIND_AES128_GCM => 2,
            BuiltinCryptoTransformationKind::CRYPTO_TRANSFORMATION_KIND_AES256_GMAC => 3,
            BuiltinCryptoTransformationKind::CRYPTO_TRANSFORMATION_KIND_AES256_GCM => 4,
        };
        let r: [u8; 4] = [0, 0, 0, v];
        assert(r@ =~= self.spec_tag());
        r
    }

    /// The kind named by a wire tag, if the tag is one of the five
    /// builtin values; `InvalidTransformationKind` otherwise.
    pub fn try_from_tag(tag: CryptoTransformKind) -> (r: Result<Self, SecurityError>)
        ensures
            r matches Ok(k) ==> tag@ == k.spec_tag(),
            r is Ok <==> (tag@[0] == 0 && tag@[1] == 0 && tag@[2] == 0 && tag@[3] <= 4),
            r is Err ==> r == Err::<Self, _>(SecurityError::InvalidTransformationKind(tag)),
    {
        if tag[0] == 0 && tag[1] == 0 && tag[2] == 0 && tag[3] <= 4 {
            let k = match tag[3] {
                0 => BuiltinCryptoTransformationKind::CRYPTO_TRANSFORMATION_KIND_NONE,
                1 => BuiltinCryptoTransformationKind::CRYPTO_TRANSFORMATION_KIND_AES128_GMAC,
                2 => BuiltinCryptoTransformationKind::CRYPTO_TRANSFORMATION_KIND_AES128_GCM,
                3 => BuiltinCryptoTransformationKind::CRYPTO_TRANSFORMATION_KIND_AES256_GMAC,
                _ => BuiltinCryptoTransformationKind::CRYPTO_TRANSFORMATION_KIND_AES256_GCM,
            };
            assert(tag@ =~= k.spec_tag());
            Ok(k)
        } else {
            assert(forall|k: BuiltinCryptoTransformationKind|
                tag@ == k.spec_tag() ==> (tag@[0] == 0 && tag@[1] == 0 && tag@[2] == 0 && tag@[3]
                    <= 4));
            Err(SecurityError::InvalidTransformationKind(tag))
        }
    }

    /// The length of the key that `generate_key_material_` will attach
    /// for this kind.
    pub fn key_len(self) -> (r: usize)
        ensures
            r == self.spec_key_len(),
    {
        match self {
            BuiltinCryptoTransformationKind::CRYPTO_TRANSFORMATION_KIND_NONE => 0,
            BuiltinCryptoTransformationKind::CRYPTO_TRANSFORMATION_KIND_AES128_GMAC => 16,
            BuiltinCryptoTransformationKind::CRYPTO_TRANSFORMATION_KIND_AES128_GCM => 16,
            BuiltinCryptoTransformationKind::CRYPTO_TRANSFORMATION_KIND_AES256_GMAC => 32,
            BuiltinCryptoTransformationKind::CRYPTO_TRANSFORMATION_KIND_AES256_GCM => 32,
        }
    }
}

/// The policy matrix of section 9.5.3.1: an unprotected entity uses NONE;
/// a protected one selects GCM when encrypted and GMAC when only
/// authenticated, at the 128- or 256-bit strength asked for.
pub open spec fn spec_transformation_kind(
    is_protected: bool,
    is_encrypted: bool,
    use_256_bit_key: bool,
) -> BuiltinCryptoTransformationKind {
    if !is_protected {
        BuiltinCryptoTransformationKind::CRYPTO_TRANSFORMATION_KIND_NONE
    } else if is_encrypted {
        if use_256_bit_key {
            BuiltinCryptoTransformationKind::CRYPTO_TRANSFORMATION_KIND_AES256_GCM
        } else {
            BuiltinCryptoTransformationKind::CRYPTO_TRANSFORMATION_KIND_AES128_GCM
        }
    } else {
        if use_256_bit_key {
            BuiltinCryptoTransformationKind::CRYPTO_TRANSFORMATION_KIND_AES256_GMAC
        } else {
            BuiltinCryptoTransformationKind::CRYPTO_TRANSFORMATION_KIND_AES128_GMAC
        }
    }
}

/// Distinct kinds never share a wire tag, so the tag codec round-trips.
pub proof fn lemma_tag_injective(a: BuiltinCryptoTransformationKind, b: BuiltinCryptoTransformationKind)
    ensures
        a.spec_tag() == b.spec_tag() ==> a == b,
{
    if a.spec_tag() == b.spec_tag() {
        assert(a.spec_tag()[3] == b.spec_tag()[3]);
    }
}

} // verus!
