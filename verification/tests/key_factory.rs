use dds_crypto_core::attributes::{EndpointSecurityAttributes, ParticipantSecurityAttributes};
use dds_crypto_core::error::SecurityError;
use dds_crypto_core::properties::Property;
use dds_crypto_core::registry::{CryptographicBuiltin, EndpointInfo, EndpointKind};
use dds_crypto_core::keymat::KeyMaterial_AES_GCM_GMAC_seq;
use dds_crypto_core::transformation::BuiltinCryptoTransformationKind;

fn participant_attrs(is_rtps_protected: bool, mask: u32) -> ParticipantSecurityAttributes {
    ParticipantSecurityAttributes {
        is_rtps_protected,
        is_discovery_protected: false,
        is_liveliness_protected: false,
        plugin_participant_attributes: mask,
    }
}

fn endpoint_attrs(sub: bool, payload: bool, mask: u32) -> EndpointSecurityAttributes {
    EndpointSecurityAttributes {
        is_submessage_protected: sub,
        is_payload_protected: payload,
        is_key_protected: false,
        plugin_endpoint_attributes: mask,
    }
}

fn prop(name: &str, value: &str) -> Property {
    Property { name: name.to_string(), value: value.to_string(), propagate: false }
}

#[test]
fn plain_participant_roundtrip() {
    let mut factory = CryptographicBuiltin::new();
    let h = factory
        .register_local_participant(10, 11, &[], participant_attrs(false, 0x0000_0001))
        .unwrap();
    assert_eq!(h, 1);
    match factory.get_encode_key_materials_(&1).unwrap() {
        KeyMaterial_AES_GCM_GMAC_seq::One(k) => {
            assert!(matches!(
                k.transformation_kind,
                BuiltinCryptoTransformationKind::CRYPTO_TRANSFORMATION_KIND_NONE
            ));
            assert_eq!(k.sender_key_id, 1);
            assert!(k.master_sender_key.is_empty());
            assert!(k.master_salt.is_empty());
            assert_eq!(k.receiver_specific_key_id, 0);
            assert!(k.master_receiver_specific_key.is_empty());
        },
        KeyMaterial_AES_GCM_GMAC_seq::Two(_, _) => panic!("expected a single record"),
    }
}

#[test]
fn writer_128_gcm_payload_reuse() {
    let mut factory = CryptographicBuiltin::new();
    let p = factory
        .register_local_participant(10, 11, &[], participant_attrs(false, 0x1))
        .unwrap();
    let props = vec![prop("dds.sec.crypto.keysize", "128")];
    // submessage and payload both protected and encrypted.
    let w = factory
        .register_local_datawriter(p, &props, endpoint_attrs(true, true, 0x1 | 0x2 | 0x4))
        .unwrap();
    match factory.get_encode_key_materials_(&w).unwrap() {
        KeyMaterial_AES_GCM_GMAC_seq::One(k) => {
            assert!(matches!(
                k.transformation_kind,
                BuiltinCryptoTransformationKind::CRYPTO_TRANSFORMATION_KIND_AES128_GCM
            ));
            assert_eq!(k.master_sender_key.len(), 16);
        },
        KeyMaterial_AES_GCM_GMAC_seq::Two(_, _) => panic!("expected key reuse"),
    }
}

#[test]
fn writer_256_mixed_two_records() {
    let mut factory = CryptographicBuiltin::new();
    let p = factory
        .register_local_participant(10, 11, &[], participant_attrs(false, 0x1))
        .unwrap();
    // submessage protected but not encrypted, payload protected and
    // encrypted, default 256-bit keys.
    let w = factory
        .register_local_datawriter(p, &[], endpoint_attrs(true, true, 0x1 | 0x4))
        .unwrap();
    match factory.get_encode_key_materials_(&w).unwrap() {
        KeyMaterial_AES_GCM_GMAC_seq::Two(k1, k2) => {
            assert!(matches!(
                k1.transformation_kind,
                BuiltinCryptoTransformationKind::CRYPTO_TRANSFORMATION_KIND_AES256_GMAC
            ));
            assert!(matches!(
                k2.transformation_kind,
                BuiltinCryptoTransformationKind::CRYPTO_TRANSFORMATION_KIND_AES256_GCM
            ));
            assert_eq!(k1.master_sender_key.len(), 32);
            assert_eq!(k2.master_sender_key.len(), 32);
            assert_eq!(k1.sender_key_id, w);
            assert_eq!(k2.sender_key_id, w + 1);
            assert_ne!(k1.sender_key_id, k2.sender_key_id);
        },
        KeyMaterial_AES_GCM_GMAC_seq::One(_) => panic!("expected two records"),
    }
}

#[test]
fn volatile_endpoint_rejected() {
    let mut factory = CryptographicBuiltin::new();
    let p = factory
        .register_local_participant(10, 11, &[], participant_attrs(false, 0x1))
        .unwrap();
    let props = vec![prop(
        "dds.sec.builtin_endpoint_name",
        "BuiltinParticipantVolatileMessageSecureWriter",
    )];
    let r = factory.register_local_datawriter(p, &props, endpoint_attrs(true, true, 0x1));
    assert_eq!(r, Err(SecurityError::VolatileEndpointRejected));
    let props = vec![prop(
        "dds.sec.builtin_endpoint_name",
        "BuiltinParticipantVolatileMessageSecureReader",
    )];
    let r = factory.register_local_datareader(p, &props, endpoint_attrs(true, false, 0x1));
    assert_eq!(r, Err(SecurityError::VolatileEndpointRejected));
}

#[test]
fn matched_remote_idempotence() {
    let mut factory = CryptographicBuiltin::new();
    let p1 = factory
        .register_local_participant(10, 11, &[], participant_attrs(true, 0x1 | 0x2))
        .unwrap();
    let w = factory
        .register_local_datawriter(p1, &[], endpoint_attrs(true, false, 0x1 | 0x2))
        .unwrap();
    let r1 = factory.register_matched_remote_participant(p1, 20, 21, 99).unwrap();
    let first = factory.register_matched_remote_datareader(w, r1, 99, false).unwrap();
    let second = factory.register_matched_remote_datareader(w, r1, 99, false).unwrap();
    assert_eq!(first, second);
    let infos = factory.participant_endpoint_info_of(&r1).unwrap();
    assert_eq!(infos.len(), 1);
    assert_eq!(
        infos[0],
        EndpointInfo { crypto_handle: first, kind: EndpointKind::DataReader }
    );
    assert_eq!(factory.matched_remote_endpoint_of(&w, &r1), Some(first));
    assert_eq!(factory.matched_local_endpoint_of(&first), Some(w));
    assert_eq!(factory.endpoint_to_participant_of(&first), Some(r1));
}

#[test]
fn receiver_specific_key_on_origin_authentication() {
    let mut factory = CryptographicBuiltin::new();
    // RTPS protected, encrypted and origin-authenticated.
    let p = factory
        .register_local_participant(10, 11, &[], participant_attrs(true, 0x1 | 0x2 | 0x10))
        .unwrap();
    let remote = factory.register_matched_remote_participant(p, 20, 21, 99).unwrap();
    match factory.get_encode_key_materials_(&remote).unwrap() {
        KeyMaterial_AES_GCM_GMAC_seq::One(k) => {
            assert!(matches!(
                k.transformation_kind,
                BuiltinCryptoTransformationKind::CRYPTO_TRANSFORMATION_KIND_AES256_GCM
            ));
            assert_eq!(k.receiver_specific_key_id, remote);
            assert_eq!(k.master_receiver_specific_key.len(), 32);
        },
        KeyMaterial_AES_GCM_GMAC_seq::Two(_, _) => panic!("expected a single record"),
    }
}

#[test]
fn unregister_datawriter_twice_is_noop() {
    let mut factory = CryptographicBuiltin::new();
    let p = factory
        .register_local_participant(10, 11, &[], participant_attrs(false, 0x1))
        .unwrap();
    let w = factory
        .register_local_datawriter(p, &[], endpoint_attrs(true, false, 0x1))
        .unwrap();
    assert_eq!(factory.unregister_datawriter(w), Ok(()));
    assert!(factory.get_encode_key_materials_(&w).is_err());
    assert!(factory.endpoint_encrypt_options_of(&w).is_none());
    assert!(factory.endpoint_to_participant_of(&w).is_none());
    // The second call is accepted and changes nothing.
    assert_eq!(factory.unregister_datawriter(w), Ok(()));
    assert!(factory.get_encode_key_materials_(&w).is_err());
    // An unknown handle is accepted too.
    assert_eq!(factory.unregister_datawriter(424242), Ok(()));
}

#[test]
fn unregister_local_writer_cascades_to_remote_readers() {
    let mut factory = CryptographicBuiltin::new();
    let p1 = factory
        .register_local_participant(10, 11, &[], participant_attrs(true, 0x1 | 0x2))
        .unwrap();
    let w = factory
        .register_local_datawriter(p1, &[], endpoint_attrs(true, false, 0x1 | 0x2))
        .unwrap();
    let r1 = factory.register_matched_remote_participant(p1, 20, 21, 99).unwrap();
    let remote_reader = factory.register_matched_remote_datareader(w, r1, 99, false).unwrap();
    assert_eq!(factory.unregister_datawriter(w), Ok(()));
    // The derived remote reader serves no purpose on its own and went
    // with its local writer.
    assert!(factory.get_encode_key_materials_(&remote_reader).is_err());
    assert!(factory.matched_local_endpoint_of(&remote_reader).is_none());
    assert!(factory.matched_remote_endpoint_of(&w, &r1).is_none());
}

#[test]
fn unregister_participant_removes_endpoints() {
    let mut factory = CryptographicBuiltin::new();
    let p = factory
        .register_local_participant(10, 11, &[], participant_attrs(false, 0x1))
        .unwrap();
    let w = factory
        .register_local_datawriter(p, &[], endpoint_attrs(true, false, 0x1))
        .unwrap();
    let r = factory
        .register_local_datareader(p, &[], endpoint_attrs(true, false, 0x1))
        .unwrap();
    assert_eq!(factory.unregister_participant(p), Ok(()));
    assert!(factory.participant_encrypt_options_of(&p).is_none());
    assert!(factory.participant_endpoint_info_of(&p).is_none());
    assert!(factory.get_encode_key_materials_(&w).is_err());
    assert!(factory.get_encode_key_materials_(&r).is_err());
    // Unknown participants are accepted.
    assert_eq!(factory.unregister_participant(777), Ok(()));
}

#[test]
fn handles_strictly_monotonic_and_nonzero() {
    let mut factory = CryptographicBuiltin::new();
    let h1 = factory.generate_crypto_handle_();
    let h2 = factory.generate_crypto_handle_();
    let h3 = factory.generate_crypto_handle_();
    assert!(h1 != 0 && h2 != 0 && h3 != 0);
    assert!(h1 < h2 && h2 < h3);
    assert_eq!((h1, h2, h3), (1, 2, 3));
}

#[test]
fn error_cases() {
    let mut factory = CryptographicBuiltin::new();
    // A plugin mask with undefined bits is malformed.
    let r = factory.register_local_participant(10, 11, &[], participant_attrs(false, 0x80));
    assert_eq!(r, Err(SecurityError::MissingAttributes(0x80)));
    // A remote participant needs the local participant's key material.
    let r = factory.register_matched_remote_participant(123, 20, 21, 99);
    assert_eq!(r, Err(SecurityError::UnknownHandle(123)));
    // A local participant handle has key material but no endpoint
    // attributes, so matching a remote reader under it fails.
    let p = factory
        .register_local_participant(10, 11, &[], participant_attrs(false, 0x1))
        .unwrap();
    let rp = factory.register_matched_remote_participant(p, 20, 21, 99).unwrap();
    let r = factory.register_matched_remote_datareader(9999, rp, 99, false);
    assert_eq!(r, Err(SecurityError::UnknownHandle(9999)));
}

#[test]
fn property_lookups() {
    let props = vec![
        prop("dds.sec.crypto.keysize", "128"),
        prop("dds.sec.builtin_endpoint_name", "BuiltinParticipantVolatileMessageSecureWriter"),
    ];
    assert!(!CryptographicBuiltin::use_256_bit_key_(&props));
    assert!(CryptographicBuiltin::is_volatile_(&props));
    let other = vec![prop("dds.sec.crypto.keysize", "256"), prop("unrelated", "128")];
    assert!(CryptographicBuiltin::use_256_bit_key_(&other));
    assert!(!CryptographicBuiltin::is_volatile_(&other));
    assert!(CryptographicBuiltin::use_256_bit_key_(&[]));
    assert!(!CryptographicBuiltin::is_volatile_(&[]));
}

#[test]
fn transformation_kind_matrix() {
    assert!(matches!(
        CryptographicBuiltin::transformation_kind_(false, true, true),
        BuiltinCryptoTransformationKind::CRYPTO_TRANSFORMATION_KIND_NONE
    ));
    assert!(matches!(
        CryptographicBuiltin::transformation_kind_(true, false, false),
        BuiltinCryptoTransformationKind::CRYPTO_TRANSFORMATION_KIND_AES128_GMAC
    ));
    assert!(matches!(
        CryptographicBuiltin::transformation_kind_(true, false, true),
        BuiltinCryptoTransformationKind::CRYPTO_TRANSFORMATION_KIND_AES256_GMAC
    ));
    assert!(matches!(
        CryptographicBuiltin::transformation_kind_(true, true, false),
        BuiltinCryptoTransformationKind::CRYPTO_TRANSFORMATION_KIND_AES128_GCM
    ));
    assert!(matches!(
        CryptographicBuiltin::transformation_kind_(true, true, true),
        BuiltinCryptoTransformationKind::CRYPTO_TRANSFORMATION_KIND_AES256_GCM
    ));
}

#[test]
fn decode_key_materials_follow_the_endpoint() {
    let mut factory = CryptographicBuiltin::new();
    let p = factory
        .register_local_participant(10, 11, &[], participant_attrs(false, 0x1))
        .unwrap();
    let w = factory
        .register_local_datawriter(p, &[], endpoint_attrs(true, false, 0x1))
        .unwrap();
    let remote_keys = KeyMaterial_AES_GCM_GMAC_seq::One(
        CryptographicBuiltin::generate_key_material_(
            w,
            BuiltinCryptoTransformationKind::CRYPTO_TRANSFORMATION_KIND_AES128_GMAC,
        ),
    );
    factory.insert_decode_key_materials_(w, remote_keys);
    assert!(factory.get_decode_key_materials_(&w).is_some());
    assert_eq!(factory.unregister_datawriter(w), Ok(()));
    assert!(factory.get_decode_key_materials_(&w).is_none());
}

#[test]
fn generated_key_lengths_match_the_kind() {
    let kinds_and_lengths = [
        (BuiltinCryptoTransformationKind::CRYPTO_TRANSFORMATION_KIND_NONE, 0usize),
        (BuiltinCryptoTransformationKind::CRYPTO_TRANSFORMATION_KIND_AES128_GMAC, 16),
        (BuiltinCryptoTransformationKind::CRYPTO_TRANSFORMATION_KIND_AES128_GCM, 16),
        (BuiltinCryptoTransformationKind::CRYPTO_TRANSFORMATION_KIND_AES256_GMAC, 32),
        (BuiltinCryptoTransformationKind::CRYPTO_TRANSFORMATION_KIND_AES256_GCM, 32),
    ];
    for (kind, len) in kinds_and_lengths {
        let k = CryptographicBuiltin::generate_key_material_(5, kind);
        assert_eq!(k.master_sender_key.len(), len);
        assert!(k.master_sender_key.len() == 0 || k.master_sender_key.len() == 16
            || k.master_sender_key.len() == 32);
        assert_eq!(k.sender_key_id, 5);
        assert_eq!(k.receiver_specific_key_id, 0);
        assert!(k.master_receiver_specific_key.is_empty());
    }
}
