//! The key material record and the one-or-two-record key material
//! sequence of the builtin AES-GCM-GMAC profile.

use vstd::prelude::*;

use crate::transformation::BuiltinCryptoTransformationKind;
use crate::CryptoTransformKeyId;

verus! {

/// KeyMaterial_AES_GCM_GMAC type from section 9.5.2.1.1 of the Security
/// specification (v. 1.1).
#[allow(non_camel_case_types)]
#[derive(Debug, PartialEq, Eq)]
pub struct KeyMaterial_AES_GCM_GMAC {
    pub transformation_kind: BuiltinCryptoTransformationKind,
    pub master_salt: Vec<u8>,
    pub sender_key_id: CryptoTransformKeyId,
    pub master_sender_key: Vec<u8>,
    pub receiver_specific_key_id: CryptoTransformKeyId,
    pub master_receiver_specific_key: Vec<u8>,
}

/// The mathematical value of a key material record.
pub struct KeyMatView {
    pub transformation_kind: BuiltinCryptoTransformationKind,
    pub master_salt: Seq<u8>,
    pub sender_key_id: u32,
    pub master_sender_key: Seq<u8>,
    pub receiver_specific_key_id: u32,
    pub master_receiver_specific_key: Seq<u8>,
}

impl View for KeyMaterial_AES_GCM_GMAC {
    type V = KeyMatView;

    open spec fn view(&self) -> KeyMatView {
        KeyMatView {
            transformation_kind: self.transformation_kind,
            master_salt: self.master_salt@,
            sender_key_id: self.sender_key_id,
            master_sender_key: self.master_sender_key@,
            receiver_specific_key_id: self.receiver_specific_key_id,
            master_receiver_specific_key: self.master_receiver_specific_key@,
        }
    }
}

impl KeyMatView {
    /// Well-formedness of a record produced by registration: the sender
    /// key has the length its transformation kind demands, and a
    /// receiver-specific key is present exactly when its id is set.
    pub open spec fn wf(self) -> bool {
        &&& self.master_sender_key.len() == self.transformation_kind.spec_key_len()
        &&& (self.receiver_specific_key_id == 0 <==> self.master_receiver_specific_key.len() == 0)
    }

    /// The same record with the receiver-specific fields replaced.
    pub open spec fn with_receiver_key(self, id: u32, key: Seq<u8>) -> KeyMatView {
        KeyMatView {
            receiver_specific_key_id: id,
            master_receiver_specific_key: key,
            ..self
        }
    }
}

/// Copy a byte vector; the copy has the same contents.
pub fn clone_bytes(v: &Vec<u8>) -> (r: Vec<u8>)
    ensures
        r@ == v@,
{
    let r = v.clone();
    assert(r@ =~= v@);
    r
}

impl Clone for KeyMaterial_AES_GCM_GMAC {
    fn clone(&self) -> (r: Self)
        ensures
            r@ == self@,
    {
        KeyMaterial_AES_GCM_GMAC {
            transformation_kind: self.transformation_kind,
            master_salt: clone_bytes(&self.master_salt),
            sender_key_id: self.sender_key_id,
            master_sender_key: clone_bytes(&self.master_sender_key),
            receiver_specific_key_id: self.receiver_specific_key_id,
            master_receiver_specific_key: clone_bytes(&self.master_receiver_specific_key),
        }
    }
}

impl KeyMaterial_AES_GCM_GMAC {
    /// The record with the receiver-specific fields replaced.
    pub fn with_receiver_key(self, id: CryptoTransformKeyId, key: Vec<u8>) -> (r: Self)
        ensures
            r@ == self@.with_receiver_key(id, key@),
    {
        KeyMaterial_AES_GCM_GMAC {
            receiver_specific_key_id: id,
            master_receiver_specific_key: key,
            ..self
        }
    }
}

/// A sequence of one or two key material records: one when the same key
/// protects both the submessage and the payload, two (submessage record
/// first, payload record second) when the two use different keys.
#[allow(non_camel_case_types)]
#[derive(Debug, PartialEq, Eq)]
pub enum KeyMaterial_AES_GCM_GMAC_seq {
    One(KeyMaterial_AES_GCM_GMAC),
    Two(KeyMaterial_AES_GCM_GMAC, KeyMaterial_AES_GCM_GMAC),
}

impl View for KeyMaterial_AES_GCM_GMAC_seq {
    type V = Seq<KeyMatView>;

    open spec fn view(&self) -> Seq<KeyMatView> {
        match *self {
            KeyMaterial_AES_GCM_GMAC_seq::One(ref k) => seq![k@],
            KeyMaterial_AES_GCM_GMAC_seq::Two(ref k1, ref k2) => seq![k1@, k2@],
        }
    }
}

/// Well-formedness of a key material sequence: one or two records, each
/// well-formed.
pub open spec fn keymat_seq_wf(s: Seq<KeyMatView>) -> bool {
    &&& 1 <= s.len() <= 2
    &&& forall|i: int| 0 <= i < s.len() ==> (#[trigger] s[i]).wf()
}

impl Clone for KeyMaterial_AES_GCM_GMAC_seq {
    fn clone(&self) -> (r: Self)
        ensures
            r@ == self@,
    {
        match self {
            KeyMaterial_AES_GCM_GMAC_seq::One(k) => KeyMaterial_AES_GCM_GMAC_seq::One(k.clone()),
            KeyMaterial_AES_GCM_GMAC_seq::Two(k1, k2) => KeyMaterial_AES_GCM_GMAC_seq::Two(
                k1.clone(),
                k2.clone(),
            ),
        }
    }
}

impl KeyMaterial_AES_GCM_GMAC_seq {
    /// The submessage key material: the first record of the sequence.
    pub fn key_material(&self) -> (r: &KeyMaterial_AES_GCM_GMAC)
        ensures
            r@ == self@[0],
    {
        match self {
            KeyMaterial_AES_GCM_GMAC_seq::One(k) => k,
            KeyMaterial_AES_GCM_GMAC_seq::Two(k, _) => k,
        }
    }

    /// Attach a receiver-specific key to the submessage record; the
    /// payload record, if any, keeps its own receiver fields.
    pub fn add_master_receiver_specific_key(
        self,
        id: CryptoTransformKeyId,
        key: Vec<u8>,
    ) -> (r: Self)
        ensures
            r@.len() == self@.len(),
            r@[0] == self@[0].with_receiver_key(id, key@),
            forall|i: int| 1 <= i < self@.len() ==> r@[i] == self@[i],
    {
        match self {
            KeyMaterial_AES_GCM_GMAC_seq::One(k) => KeyMaterial_AES_GCM_GMAC_seq::One(
                k.with_receiver_key(id, key),
            ),
            KeyMaterial_AES_GCM_GMAC_seq::Two(k1, k2) => KeyMaterial_AES_GCM_GMAC_seq::Two(
                k1.with_receiver_key(id, key),
                k2,
            ),
        }
    }
}

} // verus!
