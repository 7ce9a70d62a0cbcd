//! The crypto token adapter: converting between the generic DataHolder
//! token carried in key exchange and the typed builtin key material,
//! with the closed-world validation of section 9.5.2.1.

use vstd::prelude::*;

use crate::codec::{keymat_bytes, keymat_fits, lemma_keymat_roundtrip, parse_keymat};
use crate::error::{BadTokenReason, SecurityError};
use crate::keymat::{KeyMatView, KeyMaterial_AES_GCM_GMAC, KeyMaterial_AES_GCM_GMAC_seq};
use crate::properties::{props_view, str_eq, Property, PropertyView};

verus! {

broadcast use vstd::string::group_string_axioms;

/// A named octet-sequence property of a token.
pub struct BinaryProperty {
    pub name: String,
    pub value: Vec<u8>,
    pub propagate: bool,
}

/// The mathematical value of a binary property.
pub struct BinaryPropertyView {
    pub name: Seq<char>,
    pub value: Seq<u8>,
    pub propagate: bool,
}

impl View for BinaryProperty {
    type V = BinaryPropertyView;

    open spec fn view(&self) -> BinaryPropertyView {
        BinaryPropertyView { name: self.name@, value: self.value@, propagate: self.propagate }
    }
}

/// The views of a sequence of binary properties.
pub open spec fn bprops_view(ps: Seq<BinaryProperty>) -> Seq<BinaryPropertyView> {
    ps.map_values(|p: BinaryProperty| p@)
}

/// The generic tagged property bag used in security handshakes.
pub struct DataHolder {
    pub class_id: String,
    pub properties: Vec<Property>,
    pub binary_properties: Vec<BinaryProperty>,
}

/// The mathematical value of a data holder.
pub struct DataHolderView {
    pub class_id: Seq<char>,
    pub properties: Seq<PropertyView>,
    pub binary_properties: Seq<BinaryPropertyView>,
}

impl View for DataHolder {
    type V = DataHolderView;

    open spec fn view(&self) -> DataHolderView {
        DataHolderView {
            class_id: self.class_id@,
            properties: props_view(self.properties@),
            binary_properties: bprops_view(self.binary_properties@),
        }
    }
}

/// A crypto token: a data holder constrained by the builtin profile.
pub struct CryptoToken {
    pub data_holder: DataHolder,
}

impl View for CryptoToken {
    type V = DataHolderView;

    open spec fn view(&self) -> DataHolderView {
        self.data_holder@
    }
}

/// DDS:Crypto:AES-GCM-GMAC CryptoToken type from section 9.5.2.1 of the
/// Security specification (v. 1.1).
pub struct BuiltinCryptoToken {
    pub key_material: KeyMaterial_AES_GCM_GMAC,
}

/// The shape `into_token` produces for key material `km`: the builtin
/// class id, no string properties, and a single binary property named
/// `dds.cryp.keymat` holding the CDR form of `km`.
pub open spec fn builtin_token_form(dh: DataHolderView, km: KeyMatView) -> bool {
    &&& dh.class_id == "DDS:Crypto:AES_GCM_GMAC"@
    &&& dh.properties.len() == 0
    &&& dh.binary_properties.len() == 1
    &&& dh.binary_properties[0].name == "dds.cryp.keymat"@
    &&& dh.binary_properties[0].value == keymat_bytes(km)
}

/// The tokens `from_token` accepts: the closed-world validation plus a
/// parseable key material payload.
pub open spec fn token_accepted(dh: DataHolderView) -> bool {
    &&& dh.class_id == "DDS:Crypto:AES_GCM_GMAC"@
    &&& dh.properties.len() == 0
    &&& dh.binary_properties.len() == 1
    &&& dh.binary_properties[0].name == "dds.cryp.keymat"@
    &&& parse_keymat(dh.binary_properties[0].value) is Some
}

impl BuiltinCryptoToken {
    /// Wrap key material as a builtin token.
    pub fn from_key_material(key_material: KeyMaterial_AES_GCM_GMAC) -> (r: BuiltinCryptoToken)
        ensures
            r.key_material@ == key_material@,
    {
        BuiltinCryptoToken { key_material }
    }

    /// Unwrap the key material.
    pub fn into_key_material(self) -> (r: KeyMaterial_AES_GCM_GMAC)
        ensures
            r@ == self.key_material@,
    {
        self.key_material
    }

    /// Validate a generic crypto token and extract its key material.
    /// Each of the four shape checks fails with its own `BadToken`
    /// reason, in the order class id, string properties, binary
    /// property count, binary property name; a payload that does not
    /// parse fails with the codec's error.
    pub fn from_token(token: CryptoToken) -> (r: Result<BuiltinCryptoToken, SecurityError>)
        ensures
            r is Ok <==> token_accepted(token@),
            r matches Ok(b) ==> parse_keymat(token@.binary_properties[0].value) == Some(
                b.key_material@,
            ),
            token@.class_id != "DDS:Crypto:AES_GCM_GMAC"@ ==> r == Err::<BuiltinCryptoToken, _>(
                SecurityError::BadToken(BadTokenReason::WrongClassId),
            ),
            token@.class_id == "DDS:Crypto:AES_GCM_GMAC"@ && token@.properties.len() != 0 ==> r
                == Err::<BuiltinCryptoToken, _>(
                SecurityError::BadToken(BadTokenReason::NonEmptyProperties),
            ),
            token@.class_id == "DDS:Crypto:AES_GCM_GMAC"@ && token@.properties.len() == 0
                && token@.binary_properties.len() != 1 ==> r == Err::<BuiltinCryptoToken, _>(
                SecurityError::BadToken(BadTokenReason::WrongBinaryPropertyCount),
            ),
            token@.class_id == "DDS:Crypto:AES_GCM_GMAC"@ && token@.properties.len() == 0
                && token@.binary_properties.len() == 1 && token@.binary_properties[0].name
                != "dds.cryp.keymat"@ ==> r == Err::<BuiltinCryptoToken, _>(
                SecurityError::BadToken(BadTokenReason::WrongBinaryPropertyName),
            ),
    {
        let dh = token.data_holder;
        if !str_eq(dh.class_id.as_str(), "DDS:Crypto:AES_GCM_GMAC") {
            return Err(SecurityError::BadToken(BadTokenReason::WrongClassId));
        }
        if dh.properties.len() != 0 {
            return Err(SecurityError::BadToken(BadTokenReason::NonEmptyProperties));
        }
        if dh.binary_properties.len() != 1 {
            return Err(SecurityError::BadToken(BadTokenReason::WrongBinaryPropertyCount));
        }
        let bp = &dh.binary_properties[0];
        if !str_eq(bp.name.as_str(), "dds.cryp.keymat") {
            return Err(SecurityError::BadToken(BadTokenReason::WrongBinaryPropertyName));
        }
        match KeyMaterial_AES_GCM_GMAC::try_from_bytes(bp.value.as_slice()) {
            Ok(key_material) => Ok(BuiltinCryptoToken { key_material }),
            Err(e) => Err(e),
        }
    }

    /// Serialize the key material into a generic crypto token. Fails
    /// exactly when an octet field of the key material is too long for
    /// its CDR length prefix.
    pub fn into_token(self) -> (r: Result<CryptoToken, SecurityError>)
        ensures
            r is Ok <==> keymat_fits(self.key_material@),
            r matches Ok(t) ==> builtin_token_form(t@, self.key_material@)
                && t@.binary_properties[0].propagate,
            r is Err ==> r matches Err(SecurityError::SerializationFailure(_)),
    {
        let bytes = match self.key_material.to_bytes() {
            Ok(v) => v,
            Err(e) => {
                return Err(e);
            },
        };
        let token = CryptoToken {
            data_holder: DataHolder {
                class_id: "DDS:Crypto:AES_GCM_GMAC".to_string(),
                properties: Vec::new(),
                binary_properties: vec![
                    BinaryProperty {
                        name: "dds.cryp.keymat".to_string(),
                        value: bytes,
                        propagate: true,
                    },
                ],
            },
        };
        proof {
            assert(token@.properties =~= Seq::<PropertyView>::empty());
            assert(token@.binary_properties.len() == 1);
        }
        Ok(token)
    }
}

impl KeyMaterial_AES_GCM_GMAC_seq {
    /// Turn a key material sequence into one crypto token per record.
    #[verifier::rlimit(100)]
    #[verifier::spinoff_prover]
    pub fn into_tokens(self) -> (r: Result<Vec<CryptoToken>, SecurityError>)
        ensures
            r is Ok <==> (forall|i: int| 0 <= i < self@.len() ==> keymat_fits(#[trigger] self@[i])),
            r matches Ok(v) ==> ({
                &&& v@.len() == self@.len()
                &&& forall|i: int|
                    0 <= i < self@.len() ==> builtin_token_form(
                        (#[trigger] v@[i])@,
                        self@[i],
                    )
            }),
    {
        let ghost s = self@;
        match self {
            KeyMaterial_AES_GCM_GMAC_seq::One(k) => {
                let t = match BuiltinCryptoToken::from_key_material(k).into_token() {
                    Ok(t) => t,
                    Err(e) => {
                        assert(!keymat_fits(s[0]));
                        return Err(e);
                    },
                };
                let tokens = vec![t];
                assert(tokens@.len() == 1);
                Ok(tokens)
            },
            KeyMaterial_AES_GCM_GMAC_seq::Two(k1, k2) => {
                let t1 = match BuiltinCryptoToken::from_key_material(k1).into_token() {
                    Ok(t) => t,
                    Err(e) => {
                        assert(!keymat_fits(s[0]));
                        return Err(e);
                    },
                };
                let t2 = match BuiltinCryptoToken::from_key_material(k2).into_token() {
                    Ok(t) => t,
                    Err(e) => {
                        assert(!keymat_fits(s[1]));
                        return Err(e);
                    },
                };
                let tokens = vec![t1, t2];
                assert(tokens@.len() == 2);
                Ok(tokens)
            },
        }
    }

    /// Build a key material sequence from one or two crypto tokens,
    /// validating each. A token count other than one or two is
    /// rejected with `SerializationFailure` carrying the count.
    pub fn from_tokens(tokens: Vec<CryptoToken>) -> (r: Result<
        KeyMaterial_AES_GCM_GMAC_seq,
        SecurityError,
    >)
        ensures
            r is Ok <==> (1 <= tokens@.len() <= 2 && (forall|i: int|
                0 <= i < tokens@.len() ==> token_accepted((#[trigger] tokens@[i])@))),
            !(1 <= tokens@.len() <= 2) ==> r == Err::<KeyMaterial_AES_GCM_GMAC_seq, _>(
                SecurityError::SerializationFailure(tokens@.len() as usize),
            ),
            r matches Ok(s) ==> ({
                &&& s@.len() == tokens@.len()
                &&& forall|i: int|
                    0 <= i < tokens@.len() ==> token_accepted((#[trigger] tokens@[i])@)
                        && parse_keymat(tokens@[i]@.binary_properties[0].value) == Some(s@[i])
            }),
    {
        let mut tokens = tokens;
        let ghost ts = tokens@;
        if tokens.len() == 1 {
            let t0 = tokens.remove(0);
            assert(t0 == ts[0]);
            let b0 = match BuiltinCryptoToken::from_token(t0) {
                Ok(b) => b,
                Err(e) => {
                    assert(!token_accepted(ts[0]@));
                    return Err(e);
                },
            };
            let r = KeyMaterial_AES_GCM_GMAC_seq::One(b0.into_key_material());
            assert(r@ =~= seq![r@[0]]);
            Ok(r)
        } else if tokens.len() == 2 {
            let t0 = tokens.remove(0);
            let t1 = tokens.remove(0);
            assert(t0 == ts[0] && t1 == ts[1]);
            let b0 = match BuiltinCryptoToken::from_token(t0) {
                Ok(b) => b,
                Err(e) => {
                    assert(!token_accepted(ts[0]@));
                    return Err(e);
                },
            };
            let b1 = match BuiltinCryptoToken::from_token(t1) {
                Ok(b) => b,
                Err(e) => {
                    assert(!token_accepted(ts[1]@));
                    return Err(e);
                },
            };
            let r = KeyMaterial_AES_GCM_GMAC_seq::Two(
                b0.into_key_material(),
                b1.into_key_material(),
            );
            Ok(r)
        } else {
            Err(SecurityError::SerializationFailure(tokens.len()))
        }
    }
}

/// R4: a token built from well-formed key material passes validation
/// and yields the same key material back.
pub proof fn lemma_token_roundtrip(dh: DataHolderView, k: KeyMatView)
    requires
        keymat_fits(k),
        builtin_token_form(dh, k),
    ensures
        token_accepted(dh),
        parse_keymat(dh.binary_properties[0].value) == Some(k),
{
    lemma_keymat_roundtrip(k);
}

} // verus!
