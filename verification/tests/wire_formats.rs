use dds_crypto_core::data::{Data, DataFlags, EntityId, ParameterList, SequenceNumber, SerializedPayload};
use dds_crypto_core::error::{BadTokenReason, SecurityError};
use dds_crypto_core::footer::{BuiltinCryptoFooter, ReceiverSpecificMAC};
use dds_crypto_core::header::{
    BuiltinCryptoHeader, BuiltinCryptoTransformIdentifier, CryptoHeader, CryptoTransformIdentifier,
};
use dds_crypto_core::keymat::{KeyMaterial_AES_GCM_GMAC, KeyMaterial_AES_GCM_GMAC_seq};
use dds_crypto_core::properties::Property;
use dds_crypto_core::token::{BinaryProperty, BuiltinCryptoToken, CryptoToken, DataHolder};
use dds_crypto_core::transformation::BuiltinCryptoTransformationKind;
use dds_crypto_core::attributes::{BuiltinPluginEndpointSecurityAttributes, BuiltinPluginParticipantSecurityAttributes};

fn sample_keymat() -> KeyMaterial_AES_GCM_GMAC {
    KeyMaterial_AES_GCM_GMAC {
        transformation_kind: BuiltinCryptoTransformationKind::CRYPTO_TRANSFORMATION_KIND_AES256_GCM,
        master_salt: (0..32u8).collect(),
        sender_key_id: 7,
        master_sender_key: (100..132u8).collect(),
        receiver_specific_key_id: 9,
        master_receiver_specific_key: (200..232u8).collect(),
    }
}

#[test]
fn data_submessage_decode() {
    // extraFlags 0, octetsToInlineQos 16, reader 4, writer 3,
    // sequence number high 0 low 1, then the payload.
    let mut bytes: Vec<u8> = vec![
        0x00, 0x00, 0x00, 0x10, 0x00, 0x00, 0x00, 0x04, 0x00, 0x00, 0x00, 0x03, 0x00, 0x00, 0x00,
        0x00, 0x00, 0x00, 0x00, 0x01,
    ];
    let payload: Vec<u8> = vec![0xde, 0xad, 0xbe, 0xef];
    bytes.extend_from_slice(&payload);
    let flags = DataFlags { inline_qos: false, data: true, key: false };
    let d = Data::deserialize_data(&bytes, flags).unwrap();
    assert_eq!(d.reader_id, EntityId { value: 0x0000_0004 });
    assert_eq!(d.writer_id, EntityId { value: 0x0000_0003 });
    assert_eq!(d.writer_sn, SequenceNumber { high: 0, low: 1 });
    assert_eq!(d.writer_sn.as_i64(), 1);
    assert!(d.inline_qos.is_none());
    assert_eq!(d.serialized_payload.value, payload);
}

#[test]
fn data_submessage_roundtrip_with_inline_qos() {
    let d = Data {
        reader_id: EntityId { value: 0x1234_5678 },
        writer_id: EntityId { value: 0x9abc_def0u32 as u32 },
        writer_sn: SequenceNumber { high: 1, low: -2 },
        inline_qos: Some(ParameterList { parameters: vec![1, 2, 3, 4, 5] }),
        serialized_payload: SerializedPayload { value: vec![9, 8, 7] },
    };
    let bytes = d.write_to();
    let flags = DataFlags { inline_qos: true, data: true, key: false };
    let back = Data::deserialize_data(&bytes, flags).unwrap();
    assert_eq!(back, d);
}

#[test]
fn data_submessage_write_exact_bytes() {
    let d = Data {
        reader_id: EntityId { value: 4 },
        writer_id: EntityId { value: 3 },
        writer_sn: SequenceNumber { high: 0, low: 1 },
        inline_qos: None,
        serialized_payload: SerializedPayload { value: vec![0xaa, 0xbb] },
    };
    assert_eq!(
        d.write_to(),
        vec![
            0x00, 0x00, 0x00, 0x10, 0x00, 0x00, 0x00, 0x04, 0x00, 0x00, 0x00, 0x03, 0x00, 0x00,
            0x00, 0x00, 0x00, 0x00, 0x00, 0x01, 0xaa, 0xbb,
        ]
    );
}

#[test]
fn data_submessage_malformed() {
    let flags = DataFlags { inline_qos: false, data: true, key: false };
    let r = Data::deserialize_data(&[0u8; 19], flags);
    assert!(matches!(r, Err(SecurityError::MalformedSubmessage(_))));
    // octetsToInlineQos pointing past the end.
    let mut bytes = vec![0u8; 20];
    bytes[2] = 0xff;
    bytes[3] = 0xff;
    let r = Data::deserialize_data(&bytes, flags);
    assert!(matches!(r, Err(SecurityError::MalformedSubmessage(_))));
    // An inline QoS length shorter than its own prefix.
    let qflags = DataFlags { inline_qos: true, data: true, key: false };
    let mut bytes = vec![0u8; 24];
    bytes[3] = 0x10;
    bytes[23] = 0x03;
    let r = Data::deserialize_data(&bytes, qflags);
    assert!(matches!(r, Err(SecurityError::MalformedSubmessage(_))));
}

#[test]
fn keymat_record_roundtrip() {
    let k = sample_keymat();
    let bytes = k.to_bytes().unwrap();
    let back = KeyMaterial_AES_GCM_GMAC::try_from_bytes(&bytes).unwrap();
    assert_eq!(back, k);
}

#[test]
fn keymat_record_exact_bytes() {
    let k = KeyMaterial_AES_GCM_GMAC {
        transformation_kind: BuiltinCryptoTransformationKind::CRYPTO_TRANSFORMATION_KIND_NONE,
        master_salt: Vec::new(),
        sender_key_id: 7,
        master_sender_key: Vec::new(),
        receiver_specific_key_id: 0,
        master_receiver_specific_key: Vec::new(),
    };
    assert_eq!(
        k.to_bytes().unwrap(),
        vec![
            0, 0, 0, 0, // kind tag NONE
            0, 0, 0, 0, // empty salt
            0, 0, 0, 7, // sender key id
            0, 0, 0, 0, // empty sender key
            0, 0, 0, 0, // no receiver-specific key id
            0, 0, 0, 0, // empty receiver-specific key
        ]
    );
}

#[test]
fn keymat_seq_roundtrip() {
    let one = KeyMaterial_AES_GCM_GMAC_seq::One(sample_keymat());
    let bytes = one.to_bytes().unwrap();
    assert_eq!(KeyMaterial_AES_GCM_GMAC_seq::try_from_bytes(&bytes).unwrap(), one);

    let mut second = sample_keymat();
    second.sender_key_id = 8;
    second.transformation_kind =
        BuiltinCryptoTransformationKind::CRYPTO_TRANSFORMATION_KIND_AES128_GMAC;
    second.master_sender_key = (0..16u8).collect();
    let two = KeyMaterial_AES_GCM_GMAC_seq::Two(sample_keymat(), second);
    let bytes = two.to_bytes().unwrap();
    assert_eq!(KeyMaterial_AES_GCM_GMAC_seq::try_from_bytes(&bytes).unwrap(), two);
}

#[test]
fn keymat_decode_errors() {
    // An unknown transformation kind tag.
    let mut bytes = sample_keymat().to_bytes().unwrap();
    bytes[3] = 5;
    let r = KeyMaterial_AES_GCM_GMAC::try_from_bytes(&bytes);
    assert_eq!(r, Err(SecurityError::InvalidTransformationKind([0, 0, 0, 5])));
    // Trailing garbage is rejected.
    let mut bytes = sample_keymat().to_bytes().unwrap();
    bytes.push(0);
    assert!(matches!(
        KeyMaterial_AES_GCM_GMAC::try_from_bytes(&bytes),
        Err(SecurityError::SerializationFailure(_))
    ));
    // A truncated record is rejected.
    let bytes = sample_keymat().to_bytes().unwrap();
    assert!(matches!(
        KeyMaterial_AES_GCM_GMAC::try_from_bytes(&bytes[..bytes.len() - 1]),
        Err(SecurityError::SerializationFailure(_))
    ));
    // A sequence whose count is neither 1 nor 2 is rejected.
    let record = sample_keymat().to_bytes().unwrap();
    let mut bytes = vec![0, 0, 0, 3];
    bytes.extend_from_slice(&record);
    assert!(matches!(
        KeyMaterial_AES_GCM_GMAC_seq::try_from_bytes(&bytes),
        Err(SecurityError::SerializationFailure(_))
    ));
}

#[test]
fn transformation_kind_tags() {
    let kinds = [
        (BuiltinCryptoTransformationKind::CRYPTO_TRANSFORMATION_KIND_NONE, 0u8, 0usize),
        (BuiltinCryptoTransformationKind::CRYPTO_TRANSFORMATION_KIND_AES128_GMAC, 1, 16),
        (BuiltinCryptoTransformationKind::CRYPTO_TRANSFORMATION_KIND_AES128_GCM, 2, 16),
        (BuiltinCryptoTransformationKind::CRYPTO_TRANSFORMATION_KIND_AES256_GMAC, 3, 32),
        (BuiltinCryptoTransformationKind::CRYPTO_TRANSFORMATION_KIND_AES256_GCM, 4, 32),
    ];
    for (kind, value, key_len) in kinds {
        assert_eq!(kind.tag(), [0, 0, 0, value]);
        assert_eq!(kind.key_len(), key_len);
        assert_eq!(BuiltinCryptoTransformationKind::try_from_tag([0, 0, 0, value]), Ok(kind));
    }
    assert_eq!(
        BuiltinCryptoTransformationKind::try_from_tag([0, 0, 0, 5]),
        Err(SecurityError::InvalidTransformationKind([0, 0, 0, 5]))
    );
    assert_eq!(
        BuiltinCryptoTransformationKind::try_from_tag([1, 0, 0, 0]),
        Err(SecurityError::InvalidTransformationKind([1, 0, 0, 0]))
    );
}

#[test]
fn header_roundtrip() {
    let h = BuiltinCryptoHeader {
        transform_identifier: BuiltinCryptoTransformIdentifier {
            transformation_kind:
                BuiltinCryptoTransformationKind::CRYPTO_TRANSFORMATION_KIND_AES128_GCM,
            transformation_key_id: 42,
        },
        session_id: [1, 2, 3, 4],
        initialization_vector_suffix: [5, 6, 7, 8, 9, 10, 11, 12],
    };
    let raw = h.to_raw();
    assert_eq!(raw.plugin_crypto_header_extra, vec![1, 2, 3, 4, 5, 6, 7, 8, 9, 10, 11, 12]);
    let back = BuiltinCryptoHeader::try_from_raw(raw).unwrap();
    assert_eq!(back, h);
}

#[test]
fn header_errors() {
    let raw = CryptoHeader {
        transformation_id: CryptoTransformIdentifier {
            transformation_kind: [0, 0, 0, 9],
            transformation_key_id: 1,
        },
        plugin_crypto_header_extra: vec![0; 12],
    };
    assert_eq!(
        BuiltinCryptoHeader::try_from_raw(raw),
        Err(SecurityError::InvalidTransformationKind([0, 0, 0, 9]))
    );
    let raw = CryptoHeader {
        transformation_id: CryptoTransformIdentifier {
            transformation_kind: [0, 0, 0, 1],
            transformation_key_id: 1,
        },
        plugin_crypto_header_extra: vec![0; 11],
    };
    assert_eq!(
        BuiltinCryptoHeader::try_from_raw(raw),
        Err(SecurityError::SerializationFailure(11))
    );
}

#[test]
fn transform_identifier_roundtrip() {
    let id = BuiltinCryptoTransformIdentifier {
        transformation_kind: BuiltinCryptoTransformationKind::CRYPTO_TRANSFORMATION_KIND_AES256_GMAC,
        transformation_key_id: 77,
    };
    let raw = id.to_raw();
    assert_eq!(raw.transformation_kind, [0, 0, 0, 3]);
    assert_eq!(BuiltinCryptoTransformIdentifier::try_from_raw(raw), Ok(id));
}

#[test]
fn footer_roundtrip() {
    let f = BuiltinCryptoFooter {
        common_mac: [7; 16],
        receiver_specific_macs: vec![
            ReceiverSpecificMAC { receiver_mac_key_id: 1, receiver_mac: [1; 16] },
            ReceiverSpecificMAC { receiver_mac_key_id: 2, receiver_mac: [2; 16] },
        ],
    };
    let bytes = f.to_bytes().unwrap();
    assert_eq!(bytes.len(), 16 + 4 + 2 * 20);
    assert_eq!(BuiltinCryptoFooter::try_from_bytes(&bytes).unwrap(), f);

    let empty = BuiltinCryptoFooter { common_mac: [0; 16], receiver_specific_macs: Vec::new() };
    let bytes = empty.to_bytes().unwrap();
    assert_eq!(bytes.len(), 20);
    assert_eq!(BuiltinCryptoFooter::try_from_bytes(&bytes).unwrap(), empty);
}

#[test]
fn footer_decode_errors() {
    assert!(matches!(
        BuiltinCryptoFooter::try_from_bytes(&[0u8; 19]),
        Err(SecurityError::SerializationFailure(_))
    ));
    // A count that does not match the remaining length.
    let mut bytes = vec![0u8; 20];
    bytes[19] = 2;
    assert!(matches!(
        BuiltinCryptoFooter::try_from_bytes(&bytes),
        Err(SecurityError::SerializationFailure(_))
    ));
}

#[test]
fn token_roundtrip() {
    let k = sample_keymat();
    let token = BuiltinCryptoToken::from_key_material(k).into_token().unwrap();
    assert_eq!(token.data_holder.class_id, "DDS:Crypto:AES_GCM_GMAC");
    assert!(token.data_holder.properties.is_empty());
    assert_eq!(token.data_holder.binary_properties.len(), 1);
    assert_eq!(token.data_holder.binary_properties[0].name, "dds.cryp.keymat");
    assert!(token.data_holder.binary_properties[0].propagate);
    let back = BuiltinCryptoToken::from_token(token).unwrap().into_key_material();
    assert_eq!(back, sample_keymat());
}

#[test]
fn token_validation_errors() {
    let good = BuiltinCryptoToken::from_key_material(sample_keymat()).into_token().unwrap();

    let mut t = clone_token(&good);
    t.data_holder.class_id = "DDS:Crypto:Other".to_string();
    assert_eq!(
        BuiltinCryptoToken::from_token(t).map(|b| b.key_material),
        Err(SecurityError::BadToken(BadTokenReason::WrongClassId))
    );

    let mut t = clone_token(&good);
    t.data_holder.properties.push(Property {
        name: "x".to_string(),
        value: "y".to_string(),
        propagate: false,
    });
    assert_eq!(
        BuiltinCryptoToken::from_token(t).map(|b| b.key_material),
        Err(SecurityError::BadToken(BadTokenReason::NonEmptyProperties))
    );

    let mut t = clone_token(&good);
    let extra = BinaryProperty { name: "x".to_string(), value: vec![], propagate: false };
    t.data_holder.binary_properties.push(extra);
    assert_eq!(
        BuiltinCryptoToken::from_token(t).map(|b| b.key_material),
        Err(SecurityError::BadToken(BadTokenReason::WrongBinaryPropertyCount))
    );

    let mut t = clone_token(&good);
    t.data_holder.binary_properties[0].name = "dds.cryp.other".to_string();
    assert_eq!(
        BuiltinCryptoToken::from_token(t).map(|b| b.key_material),
        Err(SecurityError::BadToken(BadTokenReason::WrongBinaryPropertyName))
    );

    let mut t = clone_token(&good);
    t.data_holder.binary_properties[0].value[3] = 9;
    assert_eq!(
        BuiltinCryptoToken::from_token(t).map(|b| b.key_material),
        Err(SecurityError::InvalidTransformationKind([0, 0, 0, 9]))
    );
}

fn clone_token(t: &CryptoToken) -> CryptoToken {
    CryptoToken {
        data_holder: DataHolder {
            class_id: t.data_holder.class_id.clone(),
            properties: t
                .data_holder
                .properties
                .iter()
                .map(|p| Property {
                    name: p.name.clone(),
                    value: p.value.clone(),
                    propagate: p.propagate,
                })
                .collect(),
            binary_properties: t
                .data_holder
                .binary_properties
                .iter()
                .map(|p| BinaryProperty {
                    name: p.name.clone(),
                    value: p.value.clone(),
                    propagate: p.propagate,
                })
                .collect(),
        },
    }
}

#[test]
fn sequence_number_value() {
    assert_eq!(SequenceNumber { high: 0, low: 1 }.as_i64(), 1);
    assert_eq!(SequenceNumber { high: 1, low: 0 }.as_i64(), 0x1_0000_0000);
    assert_eq!(SequenceNumber { high: 0, low: -1 }.as_i64(), 0xffff_ffff);
    assert_eq!(SequenceNumber { high: -1, low: -1 }.as_i64(), -1);
}

#[test]
fn plugin_attribute_masks() {
    let p = BuiltinPluginParticipantSecurityAttributes::try_from_mask(0x7f).unwrap();
    assert!(p.is_valid && p.is_rtps_encrypted && p.is_discovery_encrypted
        && p.is_liveliness_encrypted && p.is_rtps_origin_authenticated
        && p.is_discovery_origin_authenticated && p.is_liveliness_origin_authenticated);
    let p = BuiltinPluginParticipantSecurityAttributes::try_from_mask(0x12).unwrap();
    assert!(!p.is_valid && p.is_rtps_encrypted && p.is_rtps_origin_authenticated);
    assert_eq!(
        BuiltinPluginParticipantSecurityAttributes::try_from_mask(0x100),
        Err(SecurityError::MissingAttributes(0x100))
    );
    let e = BuiltinPluginEndpointSecurityAttributes::try_from_mask(0x15).unwrap();
    assert!(e.is_valid && e.is_payload_encrypted && e.is_submessage_origin_authenticated);
    assert!(!e.is_submessage_encrypted && !e.is_key_encrypted);
    assert_eq!(
        BuiltinPluginEndpointSecurityAttributes::try_from_mask(u32::MAX),
        Err(SecurityError::MissingAttributes(u32::MAX))
    );
}

#[test]
fn error_descriptions_name_the_expected_form() {
    assert!(SecurityError::VolatileEndpointRejected.description().contains("volatile"));
    assert!(SecurityError::BadToken(BadTokenReason::WrongClassId)
        .description()
        .contains("DDS:Crypto:AES_GCM_GMAC"));
    assert!(SecurityError::InvalidTransformationKind([0, 0, 0, 5]).description().contains("0"));
    assert!(SecurityError::MalformedSubmessage(3).description().contains("DATA"));
}

#[test]
fn keymat_seq_token_roundtrip() {
    let mut second = sample_keymat();
    second.sender_key_id = 8;
    let two = KeyMaterial_AES_GCM_GMAC_seq::Two(sample_keymat(), second);
    let tokens = two.into_tokens().unwrap();
    assert_eq!(tokens.len(), 2);
    let back = KeyMaterial_AES_GCM_GMAC_seq::from_tokens(tokens).unwrap();
    let mut second = sample_keymat();
    second.sender_key_id = 8;
    assert_eq!(back, KeyMaterial_AES_GCM_GMAC_seq::Two(sample_keymat(), second));

    let one = KeyMaterial_AES_GCM_GMAC_seq::One(sample_keymat());
    let tokens = one.into_tokens().unwrap();
    assert_eq!(tokens.len(), 1);
    let back = KeyMaterial_AES_GCM_GMAC_seq::from_tokens(tokens).unwrap();
    assert_eq!(back, KeyMaterial_AES_GCM_GMAC_seq::One(sample_keymat()));

    // No tokens at all is not a valid sequence.
    assert_eq!(
        KeyMaterial_AES_GCM_GMAC_seq::from_tokens(Vec::new()),
        Err(SecurityError::SerializationFailure(0))
    );
}
