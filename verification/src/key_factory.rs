//! The builtin CryptoKeyFactory operations from section 9.5.3.1 of the
//! Security specification (v. 1.1): registration and unregistration of
//! participants, data writers and data readers, and the key material
//! they are given.

use vstd::prelude::*;

use crate::attributes::{
    spec_plugin_endpoint_attributes, spec_plugin_mask_wf, spec_plugin_participant_attributes,
    BuiltinPluginEndpointSecurityAttributes, BuiltinPluginParticipantSecurityAttributes,
    EndpointSecurityAttributes, ParticipantSecurityAttributes,
};
use crate::error::SecurityError;
use crate::keymat::{
    keymat_seq_wf, KeyMatView, KeyMaterial_AES_GCM_GMAC, KeyMaterial_AES_GCM_GMAC_seq,
};
use crate::properties::{find_property, props_view, lookup_property, str_eq, Property, PropertyView};
use crate::registry::{
    add_info, assoc_get, assoc_has_key, assoc_index, assoc_remove, has_info_for,
    lemma_assoc_remove_facts, lemma_assoc_remove_subseq, lemma_classification_frame,
    lemma_classification_shrink, lemma_endpoint_classification_frame, lemma_endpoints_frame,
    lemma_handles_shrink, lemma_keymats_frame, lemma_matched_frame,
    lemma_participant_classification_frame, lemma_remove_info_facts, lemma_remove_info_subseq,
    remove_info, CryptographicBuiltin, EndpointInfo, EndpointKind, RegistryView,
};
use crate::SharedSecretHandle;
use crate::transformation::{spec_transformation_kind, BuiltinCryptoTransformationKind};
use crate::{CryptoHandle, IdentityHandle, ParticipantCryptoHandle, PermissionsHandle};

verus! {

broadcast use vstd::std_specs::hash::group_hash_axioms;

/// Whether the properties mark a builtin volatile endpoint, which the
/// key factory must reject (section 8.8.8.3).
pub open spec fn spec_is_volatile(ps: Seq<PropertyView>) -> bool {
    match find_property(ps, "dds.sec.builtin_endpoint_name"@) {
        Some(v) => v == "BuiltinParticipantVolatileMessageSecureWriter"@ || v
            == "BuiltinParticipantVolatileMessageSecureReader"@,
        None => false,
    }
}

/// Whether the properties select 256-bit keys: they do unless
/// `dds.sec.crypto.keysize` is present with the exact value `128`.
pub open spec fn spec_use_256_bit_key(ps: Seq<PropertyView>) -> bool {
    match find_property(ps, "dds.sec.crypto.keysize"@) {
        Some(v) => v != "128"@,
        None => true,
    }
}

/// A key material record as registration creates it: the given kind and
/// sender key id, a sender key of the kind's length, an empty salt and
/// no receiver-specific key.
pub open spec fn fresh_keymat(k: KeyMatView, key_id: u32, kind: BuiltinCryptoTransformationKind) -> bool {
    &&& k.transformation_kind == kind
    &&& k.master_salt.len() == 0
    &&& k.sender_key_id == key_id
    &&& k.master_sender_key.len() == kind.spec_key_len()
    &&& k.receiver_specific_key_id == 0
    &&& k.master_receiver_specific_key.len() == 0
}

/// How `generate_receiver_specific_key_` turns the key sequence `src`
/// into `dst`: when origin authentication asks for one (and the kind
/// has a key at all), the submessage record is bound to the receiver's
/// handle with a fresh key of the kind's length; otherwise its receiver
/// fields are cleared. Any payload record is kept as it is.
pub open spec fn receiver_key_attached(
    src: Seq<KeyMatView>,
    dst: Seq<KeyMatView>,
    origin_authentication: bool,
    crypto_handle: u32,
) -> bool {
    &&& dst.len() == src.len()
    &&& (forall|i: int| 1 <= i < src.len() ==> dst[i] == src[i])
    &&& src.len() > 0 ==> (if origin_authentication && src[0].transformation_kind.spec_key_len()
        > 0 {
        &&& dst[0].receiver_specific_key_id == crypto_handle
        &&& dst[0].master_receiver_specific_key.len()
            == src[0].transformation_kind.spec_key_len()
        &&& dst[0] == src[0].with_receiver_key(
            crypto_handle,
            dst[0].master_receiver_specific_key,
        )
    } else {
        dst[0] == src[0].with_receiver_key(0, Seq::<u8>::empty())
    })
}

/// What a successful `register_local_participant` does: one fresh
/// handle, one fresh single-record key sequence of the kind selected by
/// the policy matrix, and the attributes recorded; nothing else moves.
pub open spec fn register_local_participant_post(
    pre: RegistryView,
    post: RegistryView,
    props: Seq<PropertyView>,
    attrs: ParticipantSecurityAttributes,
    h: u32,
) -> bool {
    let kind = spec_transformation_kind(
        attrs.is_rtps_protected,
        spec_plugin_participant_attributes(attrs.plugin_participant_attributes).is_rtps_encrypted,
        spec_use_256_bit_key(props),
    );
    &&& h == pre.counter + 1
    &&& post.counter == h
    &&& post.encode_key_materials.contains_key(h)
    &&& post.encode_key_materials[h].len() == 1
    &&& fresh_keymat(post.encode_key_materials[h][0], h, kind)
    &&& post.encode_key_materials == pre.encode_key_materials.insert(
        h,
        post.encode_key_materials[h],
    )
    &&& post.participant_encrypt_options == pre.participant_encrypt_options.insert(h, attrs)
    &&& post.decode_key_materials == pre.decode_key_materials
    &&& post.endpoint_encrypt_options == pre.endpoint_encrypt_options
    &&& post.participant_to_endpoint_info == pre.participant_to_endpoint_info
    &&& post.endpoint_to_participant == pre.endpoint_to_participant
    &&& post.matched_remote_endpoint == pre.matched_remote_endpoint
    &&& post.matched_local_endpoint == pre.matched_local_endpoint
}

/// What a successful `register_matched_remote_participant` does: one
/// fresh handle whose key sequence is the local participant's with a
/// receiver-specific key attached; nothing else moves.
pub open spec fn register_matched_remote_participant_post(
    pre: RegistryView,
    post: RegistryView,
    local_participant: u32,
    h: u32,
) -> bool {
    let origin = spec_plugin_participant_attributes(
        pre.participant_encrypt_options[local_participant].plugin_participant_attributes,
    ).is_rtps_origin_authenticated;
    &&& h == pre.counter + 1
    &&& post.counter == h
    &&& post.encode_key_materials.contains_key(h)
    &&& receiver_key_attached(
        pre.encode_key_materials[local_participant],
        post.encode_key_materials[h],
        origin,
        h,
    )
    &&& post.encode_key_materials == pre.encode_key_materials.insert(
        h,
        post.encode_key_materials[h],
    )
    &&& post.decode_key_materials == pre.decode_key_materials
    &&& post.participant_encrypt_options == pre.participant_encrypt_options
    &&& post.endpoint_encrypt_options == pre.endpoint_encrypt_options
    &&& post.participant_to_endpoint_info == pre.participant_to_endpoint_info
    &&& post.endpoint_to_participant == pre.endpoint_to_participant
    &&& post.matched_remote_endpoint == pre.matched_remote_endpoint
    &&& post.matched_local_endpoint == pre.matched_local_endpoint
}

/// What a successful local endpoint registration does. A writer whose
/// submessage and payload kinds agree shares one record between them;
/// otherwise it gets a pair of records, the payload record under a
/// second fresh key id. A reader always gets the single submessage
/// record. The endpoint is recorded in tables 4, 5 and 6.
pub open spec fn register_local_endpoint_post(
    pre: RegistryView,
    post: RegistryView,
    participant: u32,
    props: Seq<PropertyView>,
    attrs: EndpointSecurityAttributes,
    kind: EndpointKind,
    h: u32,
) -> bool {
    let plugin = spec_plugin_endpoint_attributes(attrs.plugin_endpoint_attributes);
    let use256 = spec_use_256_bit_key(props);
    let sub_kind = spec_transformation_kind(
        attrs.is_submessage_protected,
        plugin.is_submessage_encrypted,
        use256,
    );
    let pay_kind = spec_transformation_kind(
        attrs.is_payload_protected,
        plugin.is_payload_encrypted,
        use256,
    );
    &&& h == pre.counter + 1
    &&& post.encode_key_materials.contains_key(h)
    &&& (if kind == EndpointKind::DataReader || sub_kind == pay_kind {
        &&& post.counter == h
        &&& post.encode_key_materials[h].len() == 1
        &&& fresh_keymat(post.encode_key_materials[h][0], h, sub_kind)
    } else {
        &&& post.counter == h + 1
        &&& post.encode_key_materials[h].len() == 2
        &&& fresh_keymat(post.encode_key_materials[h][0], h, sub_kind)
        &&& fresh_keymat(post.encode_key_materials[h][1], (h + 1) as u32, pay_kind)
    })
    &&& post.encode_key_materials == pre.encode_key_materials.insert(
        h,
        post.encode_key_materials[h],
    )
    &&& post.endpoint_encrypt_options == pre.endpoint_encrypt_options.insert(h, attrs)
    &&& post.endpoint_to_participant == pre.endpoint_to_participant.insert(h, participant)
    &&& post.participant_to_endpoint_info == pre.participant_to_endpoint_info.insert(
        participant,
        add_info(
            if pre.participant_to_endpoint_info.contains_key(participant) {
                pre.participant_to_endpoint_info[participant]
            } else {
                Seq::<EndpointInfo>::empty()
            },
            EndpointInfo { crypto_handle: h, kind },
        ),
    )
    &&& post.decode_key_materials == pre.decode_key_materials
    &&& post.participant_encrypt_options == pre.participant_encrypt_options
    &&& post.matched_remote_endpoint == pre.matched_remote_endpoint
    &&& post.matched_local_endpoint == pre.matched_local_endpoint
}

/// What a successful matched-remote endpoint registration does. The
/// handle for the pair `(remote participant, local endpoint)` is reused
/// when the pair was seen before — then the matching tables do not
/// move — and freshly allocated and recorded in tables 6, 7 and 8
/// otherwise. Either way the remote endpoint is listed under the
/// remote participant, inherits the local endpoint's attributes, and
/// receives the local endpoint's key sequence with a receiver-specific
/// key attached when submessage origin authentication asks for one.
pub open spec fn register_matched_remote_endpoint_post(
    pre: RegistryView,
    post: RegistryView,
    local: u32,
    remote_participant: u32,
    kind: EndpointKind,
    h: u32,
) -> bool {
    let origin = spec_plugin_endpoint_attributes(
        pre.endpoint_encrypt_options[local].plugin_endpoint_attributes,
    ).is_submessage_origin_authenticated;
    let existed = pre.matched_remote_endpoint.contains_key(local) && assoc_has_key(
        pre.matched_remote_endpoint[local],
        remote_participant,
    );
    &&& (if existed {
        &&& h == assoc_get(pre.matched_remote_endpoint[local], remote_participant)
        &&& post.counter == pre.counter
        &&& post.endpoint_to_participant == pre.endpoint_to_participant
        &&& post.matched_local_endpoint == pre.matched_local_endpoint
        &&& post.matched_remote_endpoint == pre.matched_remote_endpoint
    } else {
        &&& h == pre.counter + 1
        &&& post.counter == h
        &&& post.endpoint_to_participant == pre.endpoint_to_participant.insert(
            h,
            remote_participant,
        )
        &&& post.matched_local_endpoint == pre.matched_local_endpoint.insert(h, local)
        &&& post.matched_remote_endpoint == pre.matched_remote_endpoint.insert(
            local,
            (if pre.matched_remote_endpoint.contains_key(local) {
                pre.matched_remote_endpoint[local]
            } else {
                Seq::<(u32, u32)>::empty()
            }).push((remote_participant, h)),
        )
    })
    &&& post.participant_to_endpoint_info == pre.participant_to_endpoint_info.insert(
        remote_participant,
        add_info(
            if pre.participant_to_endpoint_info.contains_key(remote_participant) {
                pre.participant_to_endpoint_info[remote_participant]
            } else {
                Seq::<EndpointInfo>::empty()
            },
            EndpointInfo { crypto_handle: h, kind },
        ),
    )
    &&& post.endpoint_encrypt_options == pre.endpoint_encrypt_options.insert(
        h,
        pre.endpoint_encrypt_options[local],
    )
    &&& post.encode_key_materials.contains_key(h)
    &&& receiver_key_attached(
        pre.encode_key_materials[local],
        post.encode_key_materials[h],
        origin,
        h,
    )
    &&& post.encode_key_materials == pre.encode_key_materials.insert(
        h,
        post.encode_key_materials[h],
    )
    &&& post.decode_key_materials == pre.decode_key_materials
    &&& post.participant_encrypt_options == pre.participant_encrypt_options
}

/// What one non-cascading endpoint removal does: the handle's key
/// material and attributes are dropped; if it belonged to a
/// participant, its info is removed from that participant's list; if
/// it was a matched remote endpoint, the matching entries of tables 7
/// and 8 are dropped too. Unknown handles change nothing.
pub open spec fn unregister_one_step(pre: RegistryView, info: EndpointInfo) -> RegistryView {
    let h = info.crypto_handle;
    let base = RegistryView {
        encode_key_materials: pre.encode_key_materials.remove(h),
        decode_key_materials: pre.decode_key_materials.remove(h),
        endpoint_encrypt_options: pre.endpoint_encrypt_options.remove(h),
        ..pre
    };
    if pre.endpoint_to_participant.contains_key(h) {
        let p = pre.endpoint_to_participant[h];
        let with_p2e = RegistryView {
            endpoint_to_participant: pre.endpoint_to_participant.remove(h),
            participant_to_endpoint_info: if pre.participant_to_endpoint_info.contains_key(p) {
                pre.participant_to_endpoint_info.insert(
                    p,
                    remove_info(pre.participant_to_endpoint_info[p], info),
                )
            } else {
                pre.participant_to_endpoint_info
            },
            ..base
        };
        if pre.matched_local_endpoint.contains_key(h) {
            let local = pre.matched_local_endpoint[h];
            RegistryView {
                matched_local_endpoint: pre.matched_local_endpoint.remove(h),
                matched_remote_endpoint: if pre.matched_remote_endpoint.contains_key(local) {
                    pre.matched_remote_endpoint.insert(
                        local,
                        assoc_remove(pre.matched_remote_endpoint[local], p),
                    )
                } else {
                    pre.matched_remote_endpoint
                },
                ..with_p2e
            }
        } else {
            with_p2e
        }
    } else {
        base
    }
}

/// The cascade of a local endpoint's unregistration: unregister every
/// remote endpoint of `sub` from `i` on, each with kind `kind`.
pub open spec fn cascade_fold(
    s: RegistryView,
    sub: Seq<(u32, u32)>,
    kind: EndpointKind,
    i: int,
) -> RegistryView
    decreases sub.len() - i,
{
    if i < 0 || i >= sub.len() {
        s
    } else {
        cascade_fold(
            unregister_one_step(s, EndpointInfo { crypto_handle: sub[i].1, kind }),
            sub,
            kind,
            i + 1,
        )
    }
}

/// What `unregister_endpoint_` does: one removal, plus — when the
/// handle is a local endpoint — the removal of its matched-remote list
/// and of every remote endpoint derived from it.
pub open spec fn unregister_endpoint_step(pre: RegistryView, info: EndpointInfo) -> RegistryView {
    let h = info.crypto_handle;
    if pre.endpoint_to_participant.contains_key(h) && !pre.matched_local_endpoint.contains_key(
        h,
    ) {
        let sub = if pre.matched_remote_endpoint.contains_key(h) {
            pre.matched_remote_endpoint[h]
        } else {
            Seq::<(u32, u32)>::empty()
        };
        let start = unregister_one_step(
            RegistryView { matched_remote_endpoint: pre.matched_remote_endpoint.remove(h), ..pre },
            info,
        );
        cascade_fold(start, sub, info.kind.spec_opposite(), 0)
    } else {
        unregister_one_step(pre, info)
    }
}

/// What `unregister_participant` does: every endpoint listed under the
/// participant is unregistered in list order, then the participant's
/// attributes and list are dropped.
pub open spec fn participant_fold(
    s: RegistryView,
    infos: Seq<EndpointInfo>,
    i: int,
) -> RegistryView
    decreases infos.len() - i,
{
    if i < 0 || i >= infos.len() {
        s
    } else {
        participant_fold(unregister_endpoint_step(s, infos[i]), infos, i + 1)
    }
}

/// The full participant unregistration step.
pub open spec fn unregister_participant_step(pre: RegistryView, p: u32) -> RegistryView {
    let infos = if pre.participant_to_endpoint_info.contains_key(p) {
        pre.participant_to_endpoint_info[p]
    } else {
        Seq::<EndpointInfo>::empty()
    };
    let after = participant_fold(pre, infos, 0);
    RegistryView {
        participant_encrypt_options: after.participant_encrypt_options.remove(p),
        participant_to_endpoint_info: after.participant_to_endpoint_info.remove(p),
        ..after
    }
}

/// One removal step preserves the registry invariant, provided the
/// handle is not a key of table 7 (the caller takes a local endpoint's
/// matched-remote list off first).
pub proof fn lemma_unregister_one_wf(pre: RegistryView, info: EndpointInfo)
    requires
        pre.wf(),
        !pre.matched_remote_endpoint.contains_key(info.crypto_handle),
    ensures
        unregister_one_step(pre, info).wf(),
        unregister_one_step(pre, info).counter == pre.counter,
{
    let post = unregister_one_step(pre, info);
    let h = info.crypto_handle;
    let in_e2p = pre.endpoint_to_participant.contains_key(h);
    let p = pre.endpoint_to_participant[h];
    let in_mle = pre.matched_local_endpoint.contains_key(h);
    let local = pre.matched_local_endpoint[h];
    if in_e2p {
        if pre.participant_to_endpoint_info.contains_key(p) {
            lemma_remove_info_subseq(pre.participant_to_endpoint_info[p], info);
            lemma_remove_info_facts(pre.participant_to_endpoint_info[p], info);
        }
        if in_mle && pre.matched_remote_endpoint.contains_key(local) {
            lemma_assoc_remove_subseq(pre.matched_remote_endpoint[local], p);
            lemma_assoc_remove_facts(pre.matched_remote_endpoint[local], p);
        }
    }
    // Value-level subset facts for the shrink lemmas.
    assert forall|q: u32, i: int|
        post.participant_to_endpoint_info.contains_key(q) && 0 <= i
            < post.participant_to_endpoint_info[q].len()
        implies pre.participant_to_endpoint_info[q].contains(
        #[trigger] post.participant_to_endpoint_info[q][i],
    ) by {
        if in_e2p && pre.participant_to_endpoint_info.contains_key(p) && q == p {
        } else {
            assert(post.participant_to_endpoint_info[q] == pre.participant_to_endpoint_info[q]);
            assert(pre.participant_to_endpoint_info[q][i]
                == post.participant_to_endpoint_info[q][i]);
        }
    }
    assert forall|l: u32, i: int|
        post.matched_remote_endpoint.contains_key(l) && 0 <= i
            < post.matched_remote_endpoint[l].len()
        implies pre.matched_remote_endpoint.contains_key(l)
        && pre.matched_remote_endpoint[l].contains(
        #[trigger] post.matched_remote_endpoint[l][i],
    ) by {
        if in_e2p && in_mle && pre.matched_remote_endpoint.contains_key(local) && l == local {
        } else {
            assert(post.matched_remote_endpoint[l] == pre.matched_remote_endpoint[l]);
            assert(pre.matched_remote_endpoint[l][i] == post.matched_remote_endpoint[l][i]);
        }
    }
    lemma_handles_shrink(pre, post);
    lemma_classification_shrink(pre, post);
    assert(post.inv_no_overlap());
    // I2
    assert forall|l: u32, i: int|
        post.matched_remote_endpoint.contains_key(l) && 0 <= i
            < post.matched_remote_endpoint[l].len() implies {
        let e = #[trigger] post.matched_remote_endpoint[l][i];
        &&& post.matched_local_endpoint.contains_key(e.1)
        &&& post.matched_local_endpoint[e.1] == l
        &&& post.endpoint_to_participant.contains_key(e.1)
        &&& post.endpoint_to_participant[e.1] == e.0
    } by {
        let e = post.matched_remote_endpoint[l][i];
        assert(pre.matched_remote_endpoint[l].contains(e));
        let i0 = choose|i0: int|
            0 <= i0 < pre.matched_remote_endpoint[l].len() && pre.matched_remote_endpoint[l][i0]
                == e;
        assert(pre.matched_local_endpoint.contains_key(e.1) && pre.matched_local_endpoint[e.1]
            == l && pre.endpoint_to_participant.contains_key(e.1)
            && pre.endpoint_to_participant[e.1] == e.0);
        // The removed handle stands in no surviving entry.
        if in_e2p {
            if in_mle {
                if l == local && pre.matched_remote_endpoint.contains_key(local) {
                    assert(e.0 != p);
                    assert(e.1 != h) by {
                        if e.1 == h {
                            assert(pre.endpoint_to_participant[h] == e.0);
                        }
                    }
                } else {
                    assert(e.1 != h) by {
                        if e.1 == h {
                            assert(pre.matched_local_endpoint[h] == l);
                            assert(l == local);
                            assert(pre.matched_remote_endpoint.contains_key(local));
                        }
                    }
                }
            } else {
                assert(e.1 != h) by {
                    if e.1 == h {
                        assert(pre.matched_local_endpoint.contains_key(h));
                    }
                }
            }
        } else {
            assert(e.1 != h) by {
                if e.1 == h {
                    assert(pre.endpoint_to_participant.contains_key(h));
                }
            }
        }
    }
    assert forall|l: u32, i: int, j: int|
        post.matched_remote_endpoint.contains_key(l) && 0 <= i
            < post.matched_remote_endpoint[l].len() && 0 <= j
            < post.matched_remote_endpoint[l].len() && i != j implies (
    #[trigger] post.matched_remote_endpoint[l][i]).0 != (
    #[trigger] post.matched_remote_endpoint[l][j]).0 by {
        if in_e2p && in_mle && pre.matched_remote_endpoint.contains_key(local) && l == local {
        } else {
            assert(post.matched_remote_endpoint[l] == pre.matched_remote_endpoint[l]);
        }
    }
    // The keys of the matching tables survive with their table 6
    // entries: the removed handle keys neither table 7 (required) nor,
    // after its own removal, table 8.
    assert forall|x: u32| #[trigger] post.matched_local_endpoint.contains_key(x)
        implies post.endpoint_to_participant.contains_key(x) by {
        assert(pre.matched_local_endpoint.contains_key(x));
        assert(x != h);
        assert(pre.endpoint_to_participant.contains_key(x));
    }
    assert forall|l: u32| #[trigger] post.matched_remote_endpoint.contains_key(l)
        implies post.endpoint_to_participant.contains_key(l)
        && !post.matched_local_endpoint.contains_key(l) by {
        assert(pre.matched_remote_endpoint.contains_key(l));
        assert(l != h);
        assert(pre.endpoint_to_participant.contains_key(l));
        assert(!pre.matched_local_endpoint.contains_key(l));
    }
    assert(post.inv_matched());
    // I3
    assert forall|x: u32| #[trigger] post.endpoint_encrypt_options.contains_key(x)
        <==> #[trigger] post.endpoint_to_participant.contains_key(x) by {
        if x != h {
            assert(post.endpoint_encrypt_options.contains_key(x)
                == pre.endpoint_encrypt_options.contains_key(x));
        } else {
            assert(!post.endpoint_encrypt_options.contains_key(h));
            if !in_e2p {
                assert(!pre.endpoint_encrypt_options.contains_key(h));
            }
        }
    }
    assert forall|x: u32| #[trigger] post.endpoint_to_participant.contains_key(x)
        implies post.encode_key_materials.contains_key(x) by {
        assert(x != h);
        assert(pre.encode_key_materials.contains_key(x));
    }
    assert forall|x: u32| #[trigger] post.endpoint_to_participant.contains_key(x)
        implies post.participant_to_endpoint_info.contains_key(post.endpoint_to_participant[x])
        && has_info_for(
        post.participant_to_endpoint_info[post.endpoint_to_participant[x]],
        x,
    ) by {
        assert(x != h);
        assert(pre.endpoint_to_participant.contains_key(x));
        let q = pre.endpoint_to_participant[x];
        assert(pre.participant_to_endpoint_info.contains_key(q));
        assert(has_info_for(pre.participant_to_endpoint_info[q], x));
        if in_e2p && pre.participant_to_endpoint_info.contains_key(p) && q == p {
            let s0 = pre.participant_to_endpoint_info[p];
            let i0 = choose|i0: int|
                0 <= i0 < s0.len() && (#[trigger] s0[i0]).crypto_handle == x;
            assert(s0[i0] != info);
            assert(remove_info(s0, info).contains(s0[i0]));
            let i1 = choose|i1: int|
                0 <= i1 < remove_info(s0, info).len() && remove_info(s0, info)[i1] == s0[i0];
            assert(has_info_for(post.participant_to_endpoint_info[q], x));
        } else {
            assert(post.participant_to_endpoint_info[q] == pre.participant_to_endpoint_info[q]);
        }
    }
    assert forall|x: u32, i: int, j: int|
        post.participant_to_endpoint_info.contains_key(x) && 0 <= i
            < post.participant_to_endpoint_info[x].len() && 0 <= j
            < post.participant_to_endpoint_info[x].len() && i != j implies (
    #[trigger] post.participant_to_endpoint_info[x][i]) != (
    #[trigger] post.participant_to_endpoint_info[x][j]) by {
        if in_e2p && pre.participant_to_endpoint_info.contains_key(p) && x == p {
        } else {
            assert(post.participant_to_endpoint_info[x] == pre.participant_to_endpoint_info[x]);
        }
    }
    assert(post.inv_endpoints());
    // I4
    assert forall|x: u32| #[trigger] post.encode_key_materials.contains_key(x)
        implies keymat_seq_wf(post.encode_key_materials[x]) by {
        assert(pre.encode_key_materials.contains_key(x));
    }
    assert(post.inv_keymats());
    assert(post.inv_handles());
}

/// Removal steps only shrink table 6: no entry is added or changed,
/// and the unregistered handle's entry is gone.
pub proof fn lemma_one_step_e2p_shrink(s: RegistryView, info: EndpointInfo)
    ensures
        forall|x: u32| #[trigger] unregister_one_step(s, info).endpoint_to_participant.contains_key(
            x,
        ) ==> s.endpoint_to_participant.contains_key(x) && unregister_one_step(
            s,
            info,
        ).endpoint_to_participant[x] == s.endpoint_to_participant[x],
        !unregister_one_step(s, info).endpoint_to_participant.contains_key(info.crypto_handle),
{
}

/// The cascade only shrinks table 6.
pub proof fn lemma_cascade_e2p_shrink(
    s: RegistryView,
    sub: Seq<(u32, u32)>,
    kind: EndpointKind,
    i: int,
)
    ensures
        forall|x: u32| #[trigger] cascade_fold(
            s,
            sub,
            kind,
            i,
        ).endpoint_to_participant.contains_key(x) ==> s.endpoint_to_participant.contains_key(x)
            && cascade_fold(s, sub, kind, i).endpoint_to_participant[x]
            == s.endpoint_to_participant[x],
    decreases sub.len() - i,
{
    if 0 <= i < sub.len() {
        let next = unregister_one_step(s, EndpointInfo { crypto_handle: sub[i].1, kind });
        lemma_one_step_e2p_shrink(s, EndpointInfo { crypto_handle: sub[i].1, kind });
        lemma_cascade_e2p_shrink(next, sub, kind, i + 1);
        assert(cascade_fold(s, sub, kind, i) == cascade_fold(next, sub, kind, i + 1));
        assert forall|x: u32| #[trigger] cascade_fold(
            s,
            sub,
            kind,
            i,
        ).endpoint_to_participant.contains_key(x) implies s.endpoint_to_participant.contains_key(
            x,
        ) && cascade_fold(s, sub, kind, i).endpoint_to_participant[x]
            == s.endpoint_to_participant[x] by {
            assert(cascade_fold(next, sub, kind, i + 1).endpoint_to_participant.contains_key(x));
            assert(next.endpoint_to_participant.contains_key(x));
        }
    }
}

/// A whole endpoint unregistration only shrinks table 6, and drops the
/// unregistered handle from it.
pub proof fn lemma_endpoint_step_e2p_shrink(s: RegistryView, info: EndpointInfo)
    ensures
        forall|x: u32| #[trigger] unregister_endpoint_step(
            s,
            info,
        ).endpoint_to_participant.contains_key(x) ==> s.endpoint_to_participant.contains_key(x)
            && unregister_endpoint_step(s, info).endpoint_to_participant[x]
            == s.endpoint_to_participant[x],
        !unregister_endpoint_step(s, info).endpoint_to_participant.contains_key(
            info.crypto_handle,
        ),
{
    let h = info.crypto_handle;
    if s.endpoint_to_participant.contains_key(h) && !s.matched_local_endpoint.contains_key(h) {
        let pre1 = RegistryView {
            matched_remote_endpoint: s.matched_remote_endpoint.remove(h),
            ..s
        };
        let sub = if s.matched_remote_endpoint.contains_key(h) {
            s.matched_remote_endpoint[h]
        } else {
            Seq::<(u32, u32)>::empty()
        };
        lemma_one_step_e2p_shrink(pre1, info);
        lemma_cascade_e2p_shrink(unregister_one_step(pre1, info), sub, info.kind.spec_opposite(), 0);
    } else {
        lemma_one_step_e2p_shrink(s, info);
    }
}

/// Removal steps drop the unregistered handle from all four per-handle
/// tables and never add a key to them.
pub proof fn lemma_one_step_tables(s: RegistryView, info: EndpointInfo)
    ensures
        !unregister_one_step(s, info).encode_key_materials.contains_key(info.crypto_handle),
        !unregister_one_step(s, info).decode_key_materials.contains_key(info.crypto_handle),
        !unregister_one_step(s, info).endpoint_encrypt_options.contains_key(info.crypto_handle),
        forall|x: u32| #[trigger] unregister_one_step(s, info).encode_key_materials.contains_key(x)
            ==> s.encode_key_materials.contains_key(x),
        forall|x: u32| #[trigger] unregister_one_step(s, info).decode_key_materials.contains_key(x)
            ==> s.decode_key_materials.contains_key(x),
        forall|x: u32| #[trigger] unregister_one_step(s, info).endpoint_encrypt_options.contains_key(
            x,
        ) ==> s.endpoint_encrypt_options.contains_key(x),
{
}

/// The cascade never adds a key to the four per-handle tables.
pub proof fn lemma_cascade_tables(s: RegistryView, sub: Seq<(u32, u32)>, kind: EndpointKind, i: int)
    ensures
        forall|x: u32| #[trigger] cascade_fold(s, sub, kind, i).encode_key_materials.contains_key(x)
            ==> s.encode_key_materials.contains_key(x),
        forall|x: u32| #[trigger] cascade_fold(s, sub, kind, i).decode_key_materials.contains_key(x)
            ==> s.decode_key_materials.contains_key(x),
        forall|x: u32| #[trigger] cascade_fold(
            s,
            sub,
            kind,
            i,
        ).endpoint_encrypt_options.contains_key(x) ==> s.endpoint_encrypt_options.contains_key(x),
    decreases sub.len() - i,
{
    if 0 <= i < sub.len() {
        let next = unregister_one_step(s, EndpointInfo { crypto_handle: sub[i].1, kind });
        lemma_one_step_tables(s, EndpointInfo { crypto_handle: sub[i].1, kind });
        lemma_cascade_tables(next, sub, kind, i + 1);
        assert(cascade_fold(s, sub, kind, i) == cascade_fold(next, sub, kind, i + 1));
    }
}

/// After an endpoint unregistration the handle stands in none of the
/// per-handle tables.
pub proof fn lemma_endpoint_step_tables(s: RegistryView, info: EndpointInfo)
    ensures
        !unregister_endpoint_step(s, info).encode_key_materials.contains_key(info.crypto_handle),
        !unregister_endpoint_step(s, info).decode_key_materials.contains_key(info.crypto_handle),
        !unregister_endpoint_step(s, info).endpoint_encrypt_options.contains_key(
            info.crypto_handle,
        ),
        !unregister_endpoint_step(s, info).endpoint_to_participant.contains_key(info.crypto_handle),
{
    let h = info.crypto_handle;
    lemma_endpoint_step_e2p_shrink(s, info);
    if s.endpoint_to_participant.contains_key(h) && !s.matched_local_endpoint.contains_key(h) {
        let pre1 = RegistryView {
            matched_remote_endpoint: s.matched_remote_endpoint.remove(h),
            ..s
        };
        let sub = if s.matched_remote_endpoint.contains_key(h) {
            s.matched_remote_endpoint[h]
        } else {
            Seq::<(u32, u32)>::empty()
        };
        lemma_one_step_tables(pre1, info);
        lemma_cascade_tables(unregister_one_step(pre1, info), sub, info.kind.spec_opposite(), 0);
    } else {
        lemma_one_step_tables(s, info);
    }
}

/// Unregistering an endpoint twice is a no-op the second time: after
/// the first call nothing about the handle is left, so the second call
/// returns the registry unchanged.
pub proof fn lemma_unregister_endpoint_idempotent(s0: RegistryView, info: EndpointInfo)
    ensures
        unregister_endpoint_step(unregister_endpoint_step(s0, info), info)
            == unregister_endpoint_step(s0, info),
{
    let s1 = unregister_endpoint_step(s0, info);
    let s2 = unregister_endpoint_step(s1, info);
    let h = info.crypto_handle;
    lemma_endpoint_step_e2p_shrink(s0, info);
    lemma_endpoint_step_tables(s0, info);
    assert(!s1.endpoint_to_participant.contains_key(h));
    assert(s2 == unregister_one_step(s1, info));
    assert(s2.encode_key_materials =~= s1.encode_key_materials);
    assert(s2.decode_key_materials =~= s1.decode_key_materials);
    assert(s2.endpoint_encrypt_options =~= s1.endpoint_encrypt_options);
    assert(s2 == s1);
}

/// Registering the same matched remote endpoint twice returns the same
/// handle and leaves the matching tables exactly as they were.
pub proof fn lemma_matched_remote_registration_idempotent(
    s0: RegistryView,
    s1: RegistryView,
    s2: RegistryView,
    local: u32,
    remote_participant: u32,
    kind: EndpointKind,
    h1: u32,
    h2: u32,
)
    requires
        s1.wf(),
        register_matched_remote_endpoint_post(s0, s1, local, remote_participant, kind, h1),
        register_matched_remote_endpoint_post(s1, s2, local, remote_participant, kind, h2),
    ensures
        h2 == h1,
        s2.counter == s1.counter,
        s2.matched_remote_endpoint == s1.matched_remote_endpoint,
        s2.matched_local_endpoint == s1.matched_local_endpoint,
        s2.endpoint_to_participant == s1.endpoint_to_participant,
{
    let existed0 = s0.matched_remote_endpoint.contains_key(local) && assoc_has_key(
        s0.matched_remote_endpoint[local],
        remote_participant,
    );
    let s = s1.matched_remote_endpoint[local];
    // After the first call the pair stands in the matching table with
    // value h1.
    if existed0 {
        assert(s == s0.matched_remote_endpoint[local]);
        assert(assoc_has_key(s, remote_participant));
        assert(h1 == assoc_get(s, remote_participant));
    } else {
        let s0list = if s0.matched_remote_endpoint.contains_key(local) {
            s0.matched_remote_endpoint[local]
        } else {
            Seq::<(u32, u32)>::empty()
        };
        assert(s == s0list.push((remote_participant, h1)));
        let last = s0list.len() as int;
        assert(s[last] == (remote_participant, h1));
        assert(assoc_has_key(s, remote_participant));
        let ci = assoc_index(s, remote_participant);
        assert(s[ci].0 == remote_participant);
        assert(ci == last);
        assert(assoc_get(s, remote_participant) == h1);
    }
    assert(s1.matched_remote_endpoint.contains_key(local));
    assert(h2 == assoc_get(s, remote_participant));
}

/// Every key material record held for encoding has a sender key whose
/// length is 0, 16 or 32 octets and matches its transformation kind,
/// and holds a receiver-specific key exactly when its id is set.
pub proof fn lemma_registered_key_material_lengths(v: RegistryView, h: u32, i: int)
    requires
        v.wf(),
        v.encode_key_materials.contains_key(h),
        0 <= i < v.encode_key_materials[h].len(),
    ensures
        ({
            let k = v.encode_key_materials[h][i];
            &&& k.master_sender_key.len() == k.transformation_kind.spec_key_len()
            &&& (k.master_sender_key.len() == 0 || k.master_sender_key.len() == 16
                || k.master_sender_key.len() == 32)
            &&& (k.receiver_specific_key_id == 0 <==> k.master_receiver_specific_key.len() == 0)
        }),
{
}

/// Handles are allocated strictly monotonically and are never 0: two
/// successive registrations under any starting state return handles
/// with `0 < h1 < h2`.
pub proof fn lemma_handles_strictly_monotonic(
    s0: RegistryView,
    s1: RegistryView,
    s2: RegistryView,
    props1: Seq<PropertyView>,
    props2: Seq<PropertyView>,
    attrs1: ParticipantSecurityAttributes,
    attrs2: ParticipantSecurityAttributes,
    h1: u32,
    h2: u32,
)
    requires
        register_local_participant_post(s0, s1, props1, attrs1, h1),
        register_local_participant_post(s1, s2, props2, attrs2, h2),
    ensures
        0 < h1 < h2,
{
}

/// Dropping a whole matched-remote list preserves the invariant.
pub proof fn lemma_remove_mre_key_wf(pre: RegistryView, h: u32)
    requires
        pre.wf(),
    ensures
        (RegistryView { matched_remote_endpoint: pre.matched_remote_endpoint.remove(h), ..pre }).wf(),
{
    let post = RegistryView {
        matched_remote_endpoint: pre.matched_remote_endpoint.remove(h),
        ..pre
    };
    assert forall|l: u32, i: int|
        post.matched_remote_endpoint.contains_key(l) && 0 <= i
            < post.matched_remote_endpoint[l].len()
        implies pre.matched_remote_endpoint.contains_key(l)
        && pre.matched_remote_endpoint[l].contains(
        #[trigger] post.matched_remote_endpoint[l][i],
    ) by {
        assert(post.matched_remote_endpoint[l] == pre.matched_remote_endpoint[l]);
        assert(pre.matched_remote_endpoint[l][i] == post.matched_remote_endpoint[l][i]);
    }
    assert forall|q: u32, i: int|
        post.participant_to_endpoint_info.contains_key(q) && 0 <= i
            < post.participant_to_endpoint_info[q].len()
        implies pre.participant_to_endpoint_info[q].contains(
        #[trigger] post.participant_to_endpoint_info[q][i],
    ) by {
        assert(pre.participant_to_endpoint_info[q][i] == post.participant_to_endpoint_info[q][i]);
    }
    lemma_handles_shrink(pre, post);
    lemma_classification_shrink(pre, post);
    assert forall|l: u32, i: int|
        post.matched_remote_endpoint.contains_key(l) && 0 <= i
            < post.matched_remote_endpoint[l].len() implies {
        let e = #[trigger] post.matched_remote_endpoint[l][i];
        &&& post.matched_local_endpoint.contains_key(e.1)
        &&& post.matched_local_endpoint[e.1] == l
        &&& post.endpoint_to_participant.contains_key(e.1)
        &&& post.endpoint_to_participant[e.1] == e.0
    } by {
        assert(post.matched_remote_endpoint[l] == pre.matched_remote_endpoint[l]);
    }
    assert forall|l: u32, i: int, j: int|
        post.matched_remote_endpoint.contains_key(l) && 0 <= i
            < post.matched_remote_endpoint[l].len() && 0 <= j
            < post.matched_remote_endpoint[l].len() && i != j implies (
    #[trigger] post.matched_remote_endpoint[l][i]).0 != (
    #[trigger] post.matched_remote_endpoint[l][j]).0 by {
        assert(post.matched_remote_endpoint[l] == pre.matched_remote_endpoint[l]);
    }
    assert(post.inv_matched());
    lemma_endpoints_frame(pre, post);
    lemma_keymats_frame(pre, post);
    assert(post.inv_no_overlap());
}

/// A handle above the counter of a well-formed registry stands in no
/// table, as key or as value.
pub proof fn lemma_fresh_handle(v: RegistryView, h: u32)
    requires
        v.inv_handles(),
        h > v.counter,
    ensures
        !v.encode_key_materials.contains_key(h),
        !v.decode_key_materials.contains_key(h),
        !v.participant_encrypt_options.contains_key(h),
        !v.endpoint_encrypt_options.contains_key(h),
        !v.participant_to_endpoint_info.contains_key(h),
        !v.endpoint_to_participant.contains_key(h),
        !v.matched_remote_endpoint.contains_key(h),
        !v.matched_local_endpoint.contains_key(h),
        forall|e: u32| #[trigger] v.endpoint_to_participant.contains_key(e)
            ==> v.endpoint_to_participant[e] != h,
        forall|e: u32| #[trigger] v.matched_local_endpoint.contains_key(e)
            ==> v.matched_local_endpoint[e] != h,
        forall|l: u32, i: int|
            v.matched_remote_endpoint.contains_key(l) && 0 <= i
                < v.matched_remote_endpoint[l].len() ==> (
            #[trigger] v.matched_remote_endpoint[l][i]).0 != h
                && v.matched_remote_endpoint[l][i].1 != h,
        forall|p: u32, i: int|
            v.participant_to_endpoint_info.contains_key(p) && 0 <= i
                < v.participant_to_endpoint_info[p].len() ==> (
            #[trigger] v.participant_to_endpoint_info[p][i]).crypto_handle != h,
        !v.is_participant_handle(h),
        !v.is_endpoint_handle(h),
{
}

impl CryptographicBuiltin {
    /// Whether the properties name one of the two builtin volatile
    /// message secure endpoints.
    pub fn is_volatile_(properties: &[Property]) -> (r: bool)
        ensures
            r == spec_is_volatile(props_view(properties@)),
    {
        match lookup_property(properties, "dds.sec.builtin_endpoint_name") {
            Some(v) => str_eq(v.as_str(), "BuiltinParticipantVolatileMessageSecureWriter")
                || str_eq(v.as_str(), "BuiltinParticipantVolatileMessageSecureReader"),
            None => false,
        }
    }

    /// Whether 256-bit keys are selected: yes unless the keysize
    /// property holds exactly `128`.
    pub fn use_256_bit_key_(properties: &[Property]) -> (r: bool)
        ensures
            r == spec_use_256_bit_key(props_view(properties@)),
    {
        match lookup_property(properties, "dds.sec.crypto.keysize") {
            Some(v) => !str_eq(v.as_str(), "128"),
            None => true,
        }
    }

    /// Select the transformation kind from the policy matrix.
    pub fn transformation_kind_(
        is_protected: bool,
        is_encrypted: bool,
        use_256_bit_key: bool,
    ) -> (r: BuiltinCryptoTransformationKind)
        ensures
            r == spec_transformation_kind(is_protected, is_encrypted, use_256_bit_key),
    {
        if !is_protected {
            BuiltinCryptoTransformationKind::CRYPTO_TRANSFORMATION_KIND_NONE
        } else if is_encrypted {
            if use_256_bit_key {
                BuiltinCryptoTransformationKind::CRYPTO_TRANSFORMATION_KIND_AES256_GCM
            } else {
                BuiltinCryptoTransformationKind::CRYPTO_TRANSFORMATION_KIND_AES128_GCM
            }
        } else {
            if use_256_bit_key {
                BuiltinCryptoTransformationKind::CRYPTO_TRANSFORMATION_KIND_AES256_GMAC
            } else {
                BuiltinCryptoTransformationKind::CRYPTO_TRANSFORMATION_KIND_AES128_GMAC
            }
        }
    }

    /// A mock key of the wanted length, derived from the seed. A
    /// production implementation draws these bytes from a
    /// cryptographically secure source instead.
    fn generate_mock_bytes(seed: u32, len: usize) -> (r: Vec<u8>)
        ensures
            r@.len() == len,
    {
        let mut r: Vec<u8> = Vec::new();
        let mut i: usize = 0;
        while i < len
            invariant
                0 <= i <= len,
                r@.len() == i,
            decreases len - i,
        {
            r.push(((seed % 0x100) as u8) ^ ((i % 0x100) as u8));
            i += 1;
        }
        r
    }

    /// Build a key material record for a fresh registration: empty salt,
    /// the handle as sender key id, a sender key of the kind's length
    /// and no receiver-specific key.
    pub fn generate_key_material_(
        crypto_handle: CryptoHandle,
        transformation_kind: BuiltinCryptoTransformationKind,
    ) -> (r: KeyMaterial_AES_GCM_GMAC)
        ensures
            fresh_keymat(r@, crypto_handle, transformation_kind),
            r@.wf(),
    {
        let key_len = transformation_kind.key_len();
        KeyMaterial_AES_GCM_GMAC {
            transformation_kind,
            master_salt: Vec::new(),
            sender_key_id: crypto_handle,
            master_sender_key: Self::generate_mock_bytes(crypto_handle, key_len),
            receiver_specific_key_id: 0,
            master_receiver_specific_key: Vec::new(),
        }
    }

    /// A placeholder record of kind NONE for the given handle.
    pub fn generate_mock_key_(crypto_handle: CryptoHandle) -> (r: KeyMaterial_AES_GCM_GMAC)
        ensures
            fresh_keymat(
                r@,
                crypto_handle,
                BuiltinCryptoTransformationKind::CRYPTO_TRANSFORMATION_KIND_NONE,
            ),
            r@.wf(),
    {
        Self::generate_key_material_(
            crypto_handle,
            BuiltinCryptoTransformationKind::CRYPTO_TRANSFORMATION_KIND_NONE,
        )
    }

    /// Derive the key sequence stored for a matched remote entity: bind
    /// a receiver-specific key to `crypto_handle` when origin
    /// authentication demands one, clear the receiver fields otherwise.
    pub fn generate_receiver_specific_key_(
        &mut self,
        key_materials: KeyMaterial_AES_GCM_GMAC_seq,
        origin_authentication: bool,
        crypto_handle: CryptoHandle,
    ) -> (r: KeyMaterial_AES_GCM_GMAC_seq)
        ensures
            final(self)@ == old(self)@,
            receiver_key_attached(key_materials@, r@, origin_authentication, crypto_handle),
            keymat_seq_wf(key_materials@) && crypto_handle != 0 ==> keymat_seq_wf(r@),
    {
        let kind = key_materials.key_material().transformation_kind;
        let key_len = kind.key_len();
        if origin_authentication && key_len > 0 {
            let master_receiver_specific_key = Self::generate_mock_bytes(crypto_handle, key_len);
            key_materials.add_master_receiver_specific_key(
                crypto_handle,
                master_receiver_specific_key,
            )
        } else {
            let empty_key: Vec<u8> = Vec::new();
            assert(empty_key@ =~= Seq::<u8>::empty());
            key_materials.add_master_receiver_specific_key(0, empty_key)
        }
    }

    /// Record encode key material for a handle.
    pub(crate) fn insert_encode_key_materials_(
        &mut self,
        handle: CryptoHandle,
        key_materials: KeyMaterial_AES_GCM_GMAC_seq,
    )
        ensures
            final(self)@ == (RegistryView {
                encode_key_materials: old(self)@.encode_key_materials.insert(
                    handle,
                    key_materials@,
                ),
                ..old(self)@
            }),
    {
        let ghost pre = self@;
        let ghost kv = key_materials@;
        self.encode_key_materials_.insert(handle, key_materials);
        proof {
            assert(self@.encode_key_materials =~= pre.encode_key_materials.insert(handle, kv));
        }
    }

    /// Record decode key material obtained from a remote peer's crypto
    /// token for a handle already emitted by this registry.
    pub fn insert_decode_key_materials_(
        &mut self,
        handle: CryptoHandle,
        key_materials: KeyMaterial_AES_GCM_GMAC_seq,
    )
        requires
            old(self)@.wf(),
            old(self)@.handle_emitted(handle),
        ensures
            final(self)@ == (RegistryView {
                decode_key_materials: old(self)@.decode_key_materials.insert(
                    handle,
                    key_materials@,
                ),
                ..old(self)@
            }),
            final(self)@.wf(),
    {
        let ghost pre = self@;
        let ghost kv = key_materials@;
        self.decode_key_materials_.insert(handle, key_materials);
        proof {
            assert(self@.decode_key_materials =~= pre.decode_key_materials.insert(handle, kv));
            let post = self@;
            assert forall|x: u32| #[trigger] post.decode_key_materials.contains_key(x)
                implies post.handle_emitted(x) by {
                if x != handle {
                    assert(pre.decode_key_materials.contains_key(x));
                }
            }
            assert(post.inv_handles());
            lemma_classification_frame(pre, post);
            lemma_matched_frame(pre, post);
            lemma_endpoints_frame(pre, post);
            lemma_keymats_frame(pre, post);
        }
    }

    /// Record which participant an endpoint belongs to.
    pub(crate) fn insert_endpoint_to_participant_(
        &mut self,
        endpoint: CryptoHandle,
        participant: CryptoHandle,
    )
        ensures
            final(self)@ == (RegistryView {
                endpoint_to_participant: old(self)@.endpoint_to_participant.insert(
                    endpoint,
                    participant,
                ),
                ..old(self)@
            }),
    {
        self.endpoint_to_participant_.insert(endpoint, participant);
    }

    /// Record a local participant's security attributes.
    pub(crate) fn insert_participant_attributes_(
        &mut self,
        handle: CryptoHandle,
        attributes: ParticipantSecurityAttributes,
    )
        ensures
            final(self)@ == (RegistryView {
                participant_encrypt_options: old(self)@.participant_encrypt_options.insert(
                    handle,
                    attributes,
                ),
                ..old(self)@
            }),
    {
        self.participant_encrypt_options_.insert(handle, attributes);
    }

    /// Record an endpoint's security attributes.
    pub(crate) fn insert_endpoint_attributes_(
        &mut self,
        handle: CryptoHandle,
        attributes: crate::attributes::EndpointSecurityAttributes,
    )
        ensures
            final(self)@ == (RegistryView {
                endpoint_encrypt_options: old(self)@.endpoint_encrypt_options.insert(
                    handle,
                    attributes,
                ),
                ..old(self)@
            }),
    {
        self.endpoint_encrypt_options_.insert(handle, attributes);
    }

    /// Add an endpoint info under a participant, keeping the list free
    /// of duplicates.
    pub(crate) fn insert_endpoint_info_(&mut self, participant: CryptoHandle, info: EndpointInfo)
        ensures
            final(self)@ == (RegistryView {
                participant_to_endpoint_info: old(self)@.participant_to_endpoint_info.insert(
                    participant,
                    add_info(
                        if old(self)@.participant_to_endpoint_info.contains_key(participant) {
                            old(self)@.participant_to_endpoint_info[participant]
                        } else {
                            Seq::<EndpointInfo>::empty()
                        },
                        info,
                    ),
                ),
                ..old(self)@
            }),
    {
        let ghost pre = self@;
        match self.participant_to_endpoint_info_.remove(&participant) {
            Some(mut infos) => {
                let mut present = false;
                let mut i: usize = 0;
                while i < infos.len()
                    invariant
                        0 <= i <= infos.len(),
                        present == exists|j: int| 0 <= j < i && infos@[j] == info,
                    decreases infos.len() - i,
                {
                    if infos[i] == info {
                        present = true;
                    }
                    i += 1;
                }
                assert(present == infos@.contains(info));
                if !present {
                    infos.push(info);
                }
                self.participant_to_endpoint_info_.insert(participant, infos);
                proof {
                    assert(self@.participant_to_endpoint_info
                        =~= pre.participant_to_endpoint_info.insert(
                        participant,
                        add_info(pre.participant_to_endpoint_info[participant], info),
                    ));
                }
            },
            None => {
                let infos = vec![info];
                assert(infos@ =~= Seq::<EndpointInfo>::empty().push(info));
                self.participant_to_endpoint_info_.insert(participant, infos);
                proof {
                    assert(self@.participant_to_endpoint_info
                        =~= pre.participant_to_endpoint_info.insert(
                        participant,
                        add_info(Seq::<EndpointInfo>::empty(), info),
                    ));
                }
            },
        }
    }

    /// Find the remote endpoint handle already matched for the pair
    /// `(remote participant, local endpoint)`, or allocate one and
    /// record the pair in tables 6, 7 and 8.
    ///
    /// The new handle is not yet a complete endpoint: the caller
    /// records its attributes, its endpoint info and its key material
    /// before returning, which restores the registry invariant.
    pub fn get_or_generate_matched_remote_endpoint_crypto_handle_(
        &mut self,
        remote_participant_crypto_handle: ParticipantCryptoHandle,
        local_endpoint_crypto_handle: CryptoHandle,
    ) -> (r: CryptoHandle)
        requires
            old(self)@.wf(),
            old(self)@.counter < u32::MAX,
        ensures
            old(self)@.matched_remote_endpoint.contains_key(local_endpoint_crypto_handle)
                && assoc_has_key(
                old(self)@.matched_remote_endpoint[local_endpoint_crypto_handle],
                remote_participant_crypto_handle,
            ) ==> final(self)@ == old(self)@ && r == assoc_get(
                old(self)@.matched_remote_endpoint[local_endpoint_crypto_handle],
                remote_participant_crypto_handle,
            ),
            !(old(self)@.matched_remote_endpoint.contains_key(local_endpoint_crypto_handle)
                && assoc_has_key(
                old(self)@.matched_remote_endpoint[local_endpoint_crypto_handle],
                remote_participant_crypto_handle,
            )) ==> r == old(self)@.counter + 1 && final(self)@ == (RegistryView {
                counter: r,
                endpoint_to_participant: old(self)@.endpoint_to_participant.insert(
                    r,
                    remote_participant_crypto_handle,
                ),
                matched_local_endpoint: old(self)@.matched_local_endpoint.insert(
                    r,
                    local_endpoint_crypto_handle,
                ),
                matched_remote_endpoint: old(self)@.matched_remote_endpoint.insert(
                    local_endpoint_crypto_handle,
                    (if old(self)@.matched_remote_endpoint.contains_key(
                        local_endpoint_crypto_handle,
                    ) {
                        old(self)@.matched_remote_endpoint[local_endpoint_crypto_handle]
                    } else {
                        Seq::<(u32, u32)>::empty()
                    }).push((remote_participant_crypto_handle, r)),
                ),
                ..old(self)@
            }),
    {
        if let Some(remote_endpoint_crypto_handle) = self.matched_remote_endpoint_of(
            &local_endpoint_crypto_handle,
            &remote_participant_crypto_handle,
        ) {
            return remote_endpoint_crypto_handle;
        }
        let ghost pre = self@;
        let remote_endpoint_crypto_handle = self.generate_crypto_handle_();
        self.endpoint_to_participant_.insert(
            remote_endpoint_crypto_handle,
            remote_participant_crypto_handle,
        );
        self.matched_local_endpoint_.insert(
            remote_endpoint_crypto_handle,
            local_endpoint_crypto_handle,
        );
        let ghost mid = self@;
        match self.matched_remote_endpoint_.remove(&local_endpoint_crypto_handle) {
            Some(mut entries) => {
                entries.push((remote_participant_crypto_handle, remote_endpoint_crypto_handle));
                self.matched_remote_endpoint_.insert(local_endpoint_crypto_handle, entries);
                proof {
                    assert(self@.matched_remote_endpoint =~= pre.matched_remote_endpoint.insert(
                        local_endpoint_crypto_handle,
                        pre.matched_remote_endpoint[local_endpoint_crypto_handle].push(
                            (remote_participant_crypto_handle, remote_endpoint_crypto_handle),
                        ),
                    ));
                }
            },
            None => {
                let entries = vec![
                    (remote_participant_crypto_handle, remote_endpoint_crypto_handle),
                ];
                assert(entries@ =~= Seq::<(u32, u32)>::empty().push(
                    (remote_participant_crypto_handle, remote_endpoint_crypto_handle),
                ));
                self.matched_remote_endpoint_.insert(local_endpoint_crypto_handle, entries);
                proof {
                    assert(self@.matched_remote_endpoint =~= pre.matched_remote_endpoint.insert(
                        local_endpoint_crypto_handle,
                        Seq::<(u32, u32)>::empty().push(
                            (remote_participant_crypto_handle, remote_endpoint_crypto_handle),
                        ),
                    ));
                }
            },
        }
        remote_endpoint_crypto_handle
    }

    /// Register a local participant: allocate a handle, build a fresh
    /// single-record key sequence of the kind the policy matrix selects
    /// from the participant's protection flags, and record the
    /// attributes. Fails, leaving the registry unchanged, exactly when
    /// the packed plugin attribute mask is malformed.
    pub fn register_local_participant(
        &mut self,
        participant_identity: IdentityHandle,
        participant_permissions: PermissionsHandle,
        participant_properties: &[Property],
        participant_security_attributes: ParticipantSecurityAttributes,
    ) -> (r: Result<ParticipantCryptoHandle, SecurityError>)
        requires
            old(self)@.wf(),
            old(self)@.counter < u32::MAX,
        ensures
            final(self)@.wf(),
            r is Ok <==> spec_plugin_mask_wf(
                participant_security_attributes.plugin_participant_attributes,
            ),
            r is Err ==> final(self)@ == old(self)@ && r == Err::<u32, _>(
                SecurityError::MissingAttributes(
                    participant_security_attributes.plugin_participant_attributes,
                ),
            ),
            r matches Ok(h) ==> register_local_participant_post(
                old(self)@,
                final(self)@,
                props_view(participant_properties@),
                participant_security_attributes,
                h,
            ),
    {
        let plugin_participant_security_attributes =
            match BuiltinPluginParticipantSecurityAttributes::try_from_mask(
            participant_security_attributes.plugin_participant_attributes,
        ) {
            Ok(plugin) => plugin,
            Err(e) => {
                return Err(e);
            },
        };
        let ghost pre = self@;
        let crypto_handle = self.generate_crypto_handle_();
        let key_material = Self::generate_key_material_(
            crypto_handle,
            Self::transformation_kind_(
                participant_security_attributes.is_rtps_protected,
                plugin_participant_security_attributes.is_rtps_encrypted,
                Self::use_256_bit_key_(participant_properties),
            ),
        );
        self.insert_encode_key_materials_(
            crypto_handle,
            KeyMaterial_AES_GCM_GMAC_seq::One(key_material),
        );
        self.insert_participant_attributes_(crypto_handle, participant_security_attributes);
        proof {
            let post = self@;
            let h = crypto_handle;
            lemma_fresh_handle(pre, h);
            assert forall|x: u32| #[trigger] post.encode_key_materials.contains_key(x)
                implies post.handle_emitted(x) by {
                if x != h {
                    assert(pre.encode_key_materials.contains_key(x));
                }
            }
            assert forall|x: u32| #[trigger] post.participant_encrypt_options.contains_key(x)
                implies post.handle_emitted(x) by {
                if x != h {
                    assert(pre.participant_encrypt_options.contains_key(x));
                }
            }
            assert(post.inv_handles());
            lemma_matched_frame(pre, post);
            lemma_endpoints_frame(pre, post);
            assert forall|x: u32| #[trigger] post.encode_key_materials.contains_key(x)
                implies keymat_seq_wf(post.encode_key_materials[x]) by {
                if x != h {
                    assert(pre.encode_key_materials.contains_key(x));
                }
            }
            assert(post.inv_keymats());
            lemma_endpoint_classification_frame(pre, post);
            assert forall|x: u32|
                !(#[trigger] post.is_participant_handle(x)
                    && #[trigger] post.is_endpoint_handle(x)) by {
                if post.is_participant_handle(x) && x != h {
                    lemma_participant_classification_frame(
                        pre,
                        RegistryView {
                            participant_encrypt_options: pre.participant_encrypt_options,
                            ..post
                        },
                    );
                    if post.participant_to_endpoint_info.contains_key(x) {
                        assert(pre.is_participant_handle(x));
                    } else if exists|e: u32| #[trigger]
                        post.endpoint_to_participant.contains_key(e)
                            && post.endpoint_to_participant[e] == x {
                        let e = choose|e: u32| #[trigger]
                            post.endpoint_to_participant.contains_key(e)
                                && post.endpoint_to_participant[e] == x;
                        assert(pre.endpoint_to_participant.contains_key(e));
                        assert(pre.is_participant_handle(x));
                    } else {
                        assert(post.participant_encrypt_options.contains_key(x));
                        assert(pre.participant_encrypt_options.contains_key(x));
                        assert(pre.is_participant_handle(x));
                    }
                    assert(!pre.is_endpoint_handle(x));
                }
            }
            assert(post.inv_no_overlap());
        }
        Ok(crypto_handle)
    }

    /// Register a remote participant matched to a local one: clone the
    /// local participant's key sequence, attach a receiver-specific key
    /// when the local participant asks for RTPS origin authentication,
    /// and store the result under a fresh handle. Fails, leaving the
    /// registry unchanged, when the local participant has no key
    /// material (`UnknownHandle`), no recorded attributes or a
    /// malformed attribute mask (`MissingAttributes`).
    pub fn register_matched_remote_participant(
        &mut self,
        local_participant_crypto_handle: ParticipantCryptoHandle,
        remote_participant_identity: IdentityHandle,
        remote_participant_permissions: PermissionsHandle,
        shared_secret: SharedSecretHandle,
    ) -> (r: Result<ParticipantCryptoHandle, SecurityError>)
        requires
            old(self)@.wf(),
            old(self)@.counter < u32::MAX,
        ensures
            final(self)@.wf(),
            r is Ok <==> (old(self)@.encode_key_materials.contains_key(
                local_participant_crypto_handle,
            ) && old(self)@.participant_encrypt_options.contains_key(
                local_participant_crypto_handle,
            ) && spec_plugin_mask_wf(
                old(
                    self,
                )@.participant_encrypt_options[local_participant_crypto_handle].plugin_participant_attributes,
            )),
            r is Err ==> final(self)@ == old(self)@,
            !old(self)@.encode_key_materials.contains_key(local_participant_crypto_handle) ==> r
                == Err::<u32, _>(SecurityError::UnknownHandle(local_participant_crypto_handle)),
            old(self)@.encode_key_materials.contains_key(local_participant_crypto_handle) && !old(
                self,
            )@.participant_encrypt_options.contains_key(local_participant_crypto_handle) ==> r
                == Err::<u32, _>(SecurityError::MissingAttributes(local_participant_crypto_handle)),
            r matches Ok(h) ==> register_matched_remote_participant_post(
                old(self)@,
                final(self)@,
                local_participant_crypto_handle,
                h,
            ),
    {
        let local_participant_key_materials = match self.get_encode_key_materials_(
            &local_participant_crypto_handle,
        ) {
            Ok(key_materials) => key_materials.clone(),
            Err(e) => {
                return Err(e);
            },
        };
        let attributes = match self.participant_encrypt_options_of(
            &local_participant_crypto_handle,
        ) {
            Some(attributes) => attributes,
            None => {
                return Err(SecurityError::MissingAttributes(local_participant_crypto_handle));
            },
        };
        let is_rtps_origin_authenticated =
            match BuiltinPluginParticipantSecurityAttributes::try_from_mask(
            attributes.plugin_participant_attributes,
        ) {
            Ok(plugin) => plugin.is_rtps_origin_authenticated,
            Err(e) => {
                return Err(e);
            },
        };
        let ghost pre = self@;
        let remote_participant_crypto_handle = self.generate_crypto_handle_();
        let key_materials = self.generate_receiver_specific_key_(
            local_participant_key_materials,
            is_rtps_origin_authenticated,
            remote_participant_crypto_handle,
        );
        self.insert_encode_key_materials_(remote_participant_crypto_handle, key_materials);
        proof {
            let post = self@;
            let h = remote_participant_crypto_handle;
            lemma_fresh_handle(pre, h);
            assert forall|x: u32| #[trigger] post.encode_key_materials.contains_key(x)
                implies post.handle_emitted(x) by {
                if x != h {
                    assert(pre.encode_key_materials.contains_key(x));
                }
            }
            assert(post.inv_handles());
            lemma_matched_frame(pre, post);
            lemma_endpoints_frame(pre, post);
            assert forall|x: u32| #[trigger] post.encode_key_materials.contains_key(x)
                implies keymat_seq_wf(post.encode_key_materials[x]) by {
                if x != h {
                    assert(pre.encode_key_materials.contains_key(x));
                } else {
                    assert(keymat_seq_wf(pre.encode_key_materials[local_participant_crypto_handle]));
                }
            }
            assert(post.inv_keymats());
            lemma_classification_frame(pre, post);
            assert(post.inv_no_overlap());
        }
        Ok(remote_participant_crypto_handle)
    }

    /// The shared body of the two local endpoint registrations.
    fn register_local_endpoint_(
        &mut self,
        participant_crypto: ParticipantCryptoHandle,
        properties: &[Property],
        attributes: EndpointSecurityAttributes,
        kind: EndpointKind,
    ) -> (r: Result<CryptoHandle, SecurityError>)
        requires
            old(self)@.wf(),
            old(self)@.counter <= u32::MAX - 2,
            old(self)@.handle_emitted(participant_crypto),
            !old(self)@.is_endpoint_handle(participant_crypto),
        ensures
            final(self)@.wf(),
            r is Ok <==> (spec_plugin_mask_wf(attributes.plugin_endpoint_attributes)
                && !spec_is_volatile(props_view(properties@))),
            r is Err ==> final(self)@ == old(self)@,
            !spec_plugin_mask_wf(attributes.plugin_endpoint_attributes) ==> r == Err::<u32, _>(
                SecurityError::MissingAttributes(attributes.plugin_endpoint_attributes),
            ),
            spec_plugin_mask_wf(attributes.plugin_endpoint_attributes) && spec_is_volatile(
                props_view(properties@),
            ) ==> r == Err::<u32, _>(SecurityError::VolatileEndpointRejected),
            r matches Ok(h) ==> register_local_endpoint_post(
                old(self)@,
                final(self)@,
                participant_crypto,
                props_view(properties@),
                attributes,
                kind,
                h,
            ),
    {
        let plugin_endpoint_security_attributes =
            match BuiltinPluginEndpointSecurityAttributes::try_from_mask(
            attributes.plugin_endpoint_attributes,
        ) {
            Ok(plugin) => plugin,
            Err(e) => {
                return Err(e);
            },
        };
        if Self::is_volatile_(properties) {
            // By 8.8.8.3 the volatile message secure channel derives
            // its key from the shared secret instead.
            return Err(SecurityError::VolatileEndpointRejected);
        }
        let ghost pre = self@;
        let local_endpoint_crypto_handle = self.generate_crypto_handle_();
        let use_256_bit_key = Self::use_256_bit_key_(properties);
        let submessage_transformation_kind = Self::transformation_kind_(
            attributes.is_submessage_protected,
            plugin_endpoint_security_attributes.is_submessage_encrypted,
            use_256_bit_key,
        );
        let payload_transformation_kind = Self::transformation_kind_(
            attributes.is_payload_protected,
            plugin_endpoint_security_attributes.is_payload_encrypted,
            use_256_bit_key,
        );
        let submessage_key_material = Self::generate_key_material_(
            local_endpoint_crypto_handle,
            submessage_transformation_kind,
        );
        // If the transformation kinds match, key reuse is possible: 9.5.3.1.
        let key_materials = if matches!(kind, EndpointKind::DataReader)
            || submessage_transformation_kind == payload_transformation_kind {
            KeyMaterial_AES_GCM_GMAC_seq::One(submessage_key_material)
        } else {
            let payload_crypto_handle = self.generate_crypto_handle_();
            KeyMaterial_AES_GCM_GMAC_seq::Two(
                submessage_key_material,
                Self::generate_key_material_(payload_crypto_handle, payload_transformation_kind),
            )
        };
        self.insert_encode_key_materials_(local_endpoint_crypto_handle, key_materials);
        self.insert_endpoint_attributes_(local_endpoint_crypto_handle, attributes);
        self.insert_endpoint_info_(
            participant_crypto,
            EndpointInfo { crypto_handle: local_endpoint_crypto_handle, kind },
        );
        self.insert_endpoint_to_participant_(local_endpoint_crypto_handle, participant_crypto);
        proof {
            let post = self@;
            let h = local_endpoint_crypto_handle;
            let p = participant_crypto;
            let info = EndpointInfo { crypto_handle: h, kind };
            lemma_fresh_handle(pre, h);
            // I1
            assert forall|x: u32| #[trigger] post.encode_key_materials.contains_key(x)
                implies post.handle_emitted(x) by {
                if x != h {
                    assert(pre.encode_key_materials.contains_key(x));
                }
            }
            assert forall|x: u32| #[trigger] post.endpoint_encrypt_options.contains_key(x)
                implies post.handle_emitted(x) by {
                if x != h {
                    assert(pre.endpoint_encrypt_options.contains_key(x));
                }
            }
            assert forall|x: u32| #[trigger] post.endpoint_to_participant.contains_key(x)
                implies post.handle_emitted(x) && post.handle_emitted(
                post.endpoint_to_participant[x],
            ) by {
                if x != h {
                    assert(pre.endpoint_to_participant.contains_key(x));
                }
            }
            assert forall|x: u32| #[trigger] post.participant_to_endpoint_info.contains_key(x)
                implies post.handle_emitted(x) by {
                if x != p {
                    assert(pre.participant_to_endpoint_info.contains_key(x));
                }
            }
            assert forall|x: u32, i: int|
                post.participant_to_endpoint_info.contains_key(x) && 0 <= i
                    < post.participant_to_endpoint_info[x].len() implies post.handle_emitted(
                (#[trigger] post.participant_to_endpoint_info[x][i]).crypto_handle,
            ) by {
                if x != p {
                    assert(pre.participant_to_endpoint_info.contains_key(x));
                } else {
                    let s = if pre.participant_to_endpoint_info.contains_key(p) {
                        pre.participant_to_endpoint_info[p]
                    } else {
                        Seq::<EndpointInfo>::empty()
                    };
                    if i < s.len() {
                        assert(post.participant_to_endpoint_info[x][i] == s[i]);
                    }
                }
            }
            assert(post.inv_handles());
            // I2: the matching tables are untouched and the fresh key of
            // table 6 stands in no matched entry.
            assert forall|l: u32, i: int|
                post.matched_remote_endpoint.contains_key(l) && 0 <= i
                    < post.matched_remote_endpoint[l].len() implies {
                let e = #[trigger] post.matched_remote_endpoint[l][i];
                &&& post.matched_local_endpoint.contains_key(e.1)
                &&& post.matched_local_endpoint[e.1] == l
                &&& post.endpoint_to_participant.contains_key(e.1)
                &&& post.endpoint_to_participant[e.1] == e.0
            } by {
                let e = post.matched_remote_endpoint[l][i];
                assert(pre.matched_remote_endpoint.contains_key(l));
                assert(e.1 != h);
            }
            assert(post.inv_matched());
            // I3
            assert forall|x: u32| #[trigger] post.endpoint_to_participant.contains_key(x)
                implies post.participant_to_endpoint_info.contains_key(
                post.endpoint_to_participant[x],
            ) && has_info_for(
                post.participant_to_endpoint_info[post.endpoint_to_participant[x]],
                x,
            ) by {
                if x == h {
                    let s = add_info(
                        if pre.participant_to_endpoint_info.contains_key(p) {
                            pre.participant_to_endpoint_info[p]
                        } else {
                            Seq::<EndpointInfo>::empty()
                        },
                        info,
                    );
                    assert(s.contains(info) ==> has_info_for(s, h));
                    assert(s == post.participant_to_endpoint_info[p]);
                    assert(s.last() == info || s.contains(info));
                } else {
                    assert(pre.endpoint_to_participant.contains_key(x));
                    let q = pre.endpoint_to_participant[x];
                    assert(has_info_for(pre.participant_to_endpoint_info[q], x));
                    if q == p {
                        let s0 = pre.participant_to_endpoint_info[p];
                        let i = choose|i: int| 0 <= i < s0.len() && (#[trigger] s0[i]).crypto_handle
                            == x;
                        assert(add_info(s0, info)[i] == s0[i]);
                        assert(has_info_for(post.participant_to_endpoint_info[p], x));
                    }
                }
            }
            assert forall|x: u32, i: int, j: int|
                post.participant_to_endpoint_info.contains_key(x) && 0 <= i
                    < post.participant_to_endpoint_info[x].len() && 0 <= j
                    < post.participant_to_endpoint_info[x].len() && i != j implies (
            #[trigger] post.participant_to_endpoint_info[x][i]) != (
            #[trigger] post.participant_to_endpoint_info[x][j]) by {
                if x != p {
                    assert(pre.participant_to_endpoint_info.contains_key(x));
                } else {
                    let s0 = if pre.participant_to_endpoint_info.contains_key(p) {
                        pre.participant_to_endpoint_info[p]
                    } else {
                        Seq::<EndpointInfo>::empty()
                    };
                    let s = add_info(s0, info);
                    if !s0.contains(info) {
                        assert(forall|m: int| 0 <= m < s0.len() ==> s[m] == s0[m]);
                    }
                }
            }
            assert(post.inv_endpoints());
            // I4
            assert forall|x: u32| #[trigger] post.encode_key_materials.contains_key(x)
                implies keymat_seq_wf(post.encode_key_materials[x]) by {
                if x != h {
                    assert(pre.encode_key_materials.contains_key(x));
                }
            }
            assert(post.inv_keymats());
            // I5: the new endpoint handle is fresh and its participant
            // was required not to stand for an endpoint.
            assert forall|x: u32| x != h && #[trigger] post.is_endpoint_handle(x)
                implies pre.is_endpoint_handle(x) by {
                if post.endpoint_encrypt_options.contains_key(x) {
                    assert(pre.endpoint_encrypt_options.contains_key(x));
                } else if post.endpoint_to_participant.contains_key(x) {
                    assert(pre.endpoint_to_participant.contains_key(x));
                } else if exists|e: u32| #[trigger]
                    post.matched_local_endpoint.contains_key(e) && post.matched_local_endpoint[e]
                        == x {
                    let e = choose|e: u32| #[trigger]
                        post.matched_local_endpoint.contains_key(e)
                            && post.matched_local_endpoint[e] == x;
                    assert(pre.matched_local_endpoint.contains_key(e)
                        && pre.matched_local_endpoint[e] == x);
                } else if exists|l: u32, i: int|
                    post.matched_remote_endpoint.contains_key(l) && 0 <= i
                        < post.matched_remote_endpoint[l].len() && (
                    #[trigger] post.matched_remote_endpoint[l][i]).1 == x {
                    let (l, i) = choose|l: u32, i: int|
                        post.matched_remote_endpoint.contains_key(l) && 0 <= i
                            < post.matched_remote_endpoint[l].len() && (
                        #[trigger] post.matched_remote_endpoint[l][i]).1 == x;
                    assert(pre.matched_remote_endpoint.contains_key(l) && 0 <= i
                        < pre.matched_remote_endpoint[l].len()
                        && pre.matched_remote_endpoint[l][i].1 == x);
                }
            }
            assert forall|x: u32| x != h && x != p && #[trigger] post.is_participant_handle(x)
                implies pre.is_participant_handle(x) by {
                if post.participant_encrypt_options.contains_key(x) {
                    assert(pre.participant_encrypt_options.contains_key(x));
                } else if post.participant_to_endpoint_info.contains_key(x) {
                    assert(pre.participant_to_endpoint_info.contains_key(x));
                } else {
                    let e = choose|e: u32| #[trigger]
                        post.endpoint_to_participant.contains_key(e)
                            && post.endpoint_to_participant[e] == x;
                    assert(e != h);
                    assert(pre.endpoint_to_participant.contains_key(e)
                        && pre.endpoint_to_participant[e] == x);
                }
            }
            assert(!post.is_participant_handle(h)) by {
                if post.is_participant_handle(h) {
                    if !post.participant_encrypt_options.contains_key(h)
                        && !post.participant_to_endpoint_info.contains_key(h) {
                        let e = choose|e: u32| #[trigger]
                            post.endpoint_to_participant.contains_key(e)
                                && post.endpoint_to_participant[e] == h;
                        if e != h {
                            assert(pre.endpoint_to_participant.contains_key(e));
                        } else {
                            assert(post.endpoint_to_participant[h] == p && p != h);
                        }
                    }
                }
            }
            assert(!post.is_endpoint_handle(p)) by {
                assert(!pre.is_endpoint_handle(p));
                if post.is_endpoint_handle(p) {
                    assert(p != h);
                    assert(pre.is_endpoint_handle(p));
                }
            }
            assert forall|x: u32|
                !(#[trigger] post.is_participant_handle(x)
                    && #[trigger] post.is_endpoint_handle(x)) by {
                if post.is_participant_handle(x) && post.is_endpoint_handle(x) {
                    assert(x != h);
                    assert(x != p);
                    assert(pre.is_participant_handle(x) && pre.is_endpoint_handle(x));
                }
            }
            assert(post.inv_no_overlap());
        }
        Ok(local_endpoint_crypto_handle)
    }

    /// The shared body of the two matched-remote endpoint
    /// registrations; `kind` is the kind of the remote endpoint. The
    /// remote participant handle is one this registry issued for a
    /// participant, never one of an endpoint, and the local endpoint
    /// handle is a local writer's or reader's, never that of a matched
    /// remote endpoint.
    fn register_matched_remote_endpoint_(
        &mut self,
        local_endpoint_crypto_handle: CryptoHandle,
        remote_participant_crypto_handle: ParticipantCryptoHandle,
        kind: EndpointKind,
    ) -> (r: Result<CryptoHandle, SecurityError>)
        requires
            old(self)@.wf(),
            old(self)@.counter < u32::MAX,
            old(self)@.handle_emitted(remote_participant_crypto_handle),
            !old(self)@.is_endpoint_handle(remote_participant_crypto_handle),
            !old(self)@.matched_local_endpoint.contains_key(local_endpoint_crypto_handle),
        ensures
            final(self)@.wf(),
            r is Ok <==> (old(self)@.encode_key_materials.contains_key(
                local_endpoint_crypto_handle,
            ) && old(self)@.endpoint_encrypt_options.contains_key(local_endpoint_crypto_handle)
                && spec_plugin_mask_wf(
                old(
                    self,
                )@.endpoint_encrypt_options[local_endpoint_crypto_handle].plugin_endpoint_attributes,
            )),
            r is Err ==> final(self)@ == old(self)@,
            !old(self)@.encode_key_materials.contains_key(local_endpoint_crypto_handle) ==> r
                == Err::<u32, _>(SecurityError::UnknownHandle(local_endpoint_crypto_handle)),
            old(self)@.encode_key_materials.contains_key(local_endpoint_crypto_handle) && !old(
                self,
            )@.endpoint_encrypt_options.contains_key(local_endpoint_crypto_handle) ==> r == Err::<
                u32,
                _,
            >(SecurityError::MissingAttributes(local_endpoint_crypto_handle)),
            r matches Ok(h) ==> register_matched_remote_endpoint_post(
                old(self)@,
                final(self)@,
                local_endpoint_crypto_handle,
                remote_participant_crypto_handle,
                kind,
                h,
            ),
    {
        let local_key_materials = match self.get_encode_key_materials_(
            &local_endpoint_crypto_handle,
        ) {
            Ok(key_materials) => key_materials.clone(),
            Err(e) => {
                return Err(e);
            },
        };
        let attributes = match self.endpoint_encrypt_options_of(&local_endpoint_crypto_handle) {
            Some(attributes) => attributes,
            None => {
                return Err(SecurityError::MissingAttributes(local_endpoint_crypto_handle));
            },
        };
        let is_submessage_origin_authenticated =
            match BuiltinPluginEndpointSecurityAttributes::try_from_mask(
            attributes.plugin_endpoint_attributes,
        ) {
            Ok(plugin) => plugin.is_submessage_origin_authenticated,
            Err(e) => {
                return Err(e);
            },
        };
        let ghost pre = self@;
        let ghost local = local_endpoint_crypto_handle;
        let ghost rp = remote_participant_crypto_handle;
        // Find a handle for the remote endpoint matched to the pair, or
        // generate a new one.
        let remote_endpoint_crypto_handle =
            self.get_or_generate_matched_remote_endpoint_crypto_handle_(
            remote_participant_crypto_handle,
            local_endpoint_crypto_handle,
        );
        proof {
            let h = remote_endpoint_crypto_handle;
            let existed = pre.matched_remote_endpoint.contains_key(local) && assoc_has_key(
                pre.matched_remote_endpoint[local],
                rp,
            );
            if existed {
                let s = pre.matched_remote_endpoint[local];
                let ci = choose|i: int| 0 <= i < s.len() && (#[trigger] s[i]).0 == rp;
                assert(s[ci].1 == h && s[ci].0 == rp);
                assert(pre.matched_local_endpoint.contains_key(h)
                    && pre.matched_local_endpoint[h] == local);
                assert(pre.endpoint_to_participant.contains_key(h)
                    && pre.endpoint_to_participant[h] == rp);
                assert(pre.endpoint_encrypt_options.contains_key(h));
                assert(pre.encode_key_materials.contains_key(h));
                assert(pre.handle_emitted(h));
            } else {
                lemma_fresh_handle(pre, h);
            }
        }
        // Add the endpoint info under the remote participant.
        self.insert_endpoint_info_(
            remote_participant_crypto_handle,
            EndpointInfo { crypto_handle: remote_endpoint_crypto_handle, kind },
        );
        // Copy the local endpoint's attributes.
        self.insert_endpoint_attributes_(remote_endpoint_crypto_handle, attributes);
        // Attach the receiver-specific key and store the sequence.
        let key_materials = self.generate_receiver_specific_key_(
            local_key_materials,
            is_submessage_origin_authenticated,
            remote_endpoint_crypto_handle,
        );
        self.insert_encode_key_materials_(remote_endpoint_crypto_handle, key_materials);
        proof {
            let post = self@;
            let h = remote_endpoint_crypto_handle;
            let info = EndpointInfo { crypto_handle: h, kind };
            let existed = pre.matched_remote_endpoint.contains_key(local) && assoc_has_key(
                pre.matched_remote_endpoint[local],
                rp,
            );
            assert(pre.participant_to_endpoint_info.contains_key(rp) ==> pre.handle_emitted(rp));
            // I1
            assert forall|x: u32| #[trigger] post.encode_key_materials.contains_key(x)
                implies post.handle_emitted(x) by {
                if x != h {
                    assert(pre.encode_key_materials.contains_key(x));
                }
            }
            assert forall|x: u32| #[trigger] post.endpoint_encrypt_options.contains_key(x)
                implies post.handle_emitted(x) by {
                if x != h {
                    assert(pre.endpoint_encrypt_options.contains_key(x));
                }
            }
            assert forall|x: u32| #[trigger] post.endpoint_to_participant.contains_key(x)
                implies post.handle_emitted(x) && post.handle_emitted(
                post.endpoint_to_participant[x],
            ) by {
                if x != h {
                    assert(pre.endpoint_to_participant.contains_key(x));
                }
            }
            assert forall|x: u32| #[trigger] post.matched_local_endpoint.contains_key(x)
                implies post.handle_emitted(x) && post.handle_emitted(
                post.matched_local_endpoint[x],
            ) by {
                if x != h {
                    assert(pre.matched_local_endpoint.contains_key(x));
                } else {
                    assert(pre.encode_key_materials.contains_key(local));
                }
            }
            assert forall|x: u32| #[trigger] post.matched_remote_endpoint.contains_key(x)
                implies post.handle_emitted(x) by {
                if x != local {
                    assert(pre.matched_remote_endpoint.contains_key(x));
                } else {
                    assert(pre.encode_key_materials.contains_key(local));
                }
            }
            assert forall|x: u32, i: int|
                post.matched_remote_endpoint.contains_key(x) && 0 <= i
                    < post.matched_remote_endpoint[x].len() implies post.handle_emitted(
                (#[trigger] post.matched_remote_endpoint[x][i]).0,
            ) && post.handle_emitted(post.matched_remote_endpoint[x][i].1) by {
                if existed || x != local {
                    assert(pre.matched_remote_endpoint.contains_key(x));
                    assert(post.matched_remote_endpoint[x] == pre.matched_remote_endpoint[x]);
                } else {
                    let s0 = if pre.matched_remote_endpoint.contains_key(local) {
                        pre.matched_remote_endpoint[local]
                    } else {
                        Seq::<(u32, u32)>::empty()
                    };
                    if i < s0.len() {
                        assert(post.matched_remote_endpoint[x][i] == s0[i]);
                        assert(pre.matched_remote_endpoint.contains_key(local));
                    } else {
                        assert(post.matched_remote_endpoint[x][i] == (rp, h));
                    }
                }
            }
            assert forall|x: u32| #[trigger] post.participant_to_endpoint_info.contains_key(x)
                implies post.handle_emitted(x) by {
                if x != rp {
                    assert(pre.participant_to_endpoint_info.contains_key(x));
                }
            }
            assert forall|x: u32, i: int|
                post.participant_to_endpoint_info.contains_key(x) && 0 <= i
                    < post.participant_to_endpoint_info[x].len() implies post.handle_emitted(
                (#[trigger] post.participant_to_endpoint_info[x][i]).crypto_handle,
            ) by {
                if x != rp {
                    assert(pre.participant_to_endpoint_info.contains_key(x));
                } else {
                    let s0 = if pre.participant_to_endpoint_info.contains_key(rp) {
                        pre.participant_to_endpoint_info[rp]
                    } else {
                        Seq::<EndpointInfo>::empty()
                    };
                    if i < s0.len() {
                        assert(post.participant_to_endpoint_info[x][i] == s0[i]);
                    }
                }
            }
            assert(post.inv_handles());
            // I2
            assert forall|l: u32, i: int|
                post.matched_remote_endpoint.contains_key(l) && 0 <= i
                    < post.matched_remote_endpoint[l].len() implies {
                let e = #[trigger] post.matched_remote_endpoint[l][i];
                &&& post.matched_local_endpoint.contains_key(e.1)
                &&& post.matched_local_endpoint[e.1] == l
                &&& post.endpoint_to_participant.contains_key(e.1)
                &&& post.endpoint_to_participant[e.1] == e.0
            } by {
                if existed || l != local {
                    assert(pre.matched_remote_endpoint.contains_key(l));
                    assert(post.matched_remote_endpoint[l] == pre.matched_remote_endpoint[l]);
                    let e = pre.matched_remote_endpoint[l][i];
                    assert(e.1 != h || existed);
                } else {
                    let s0 = if pre.matched_remote_endpoint.contains_key(local) {
                        pre.matched_remote_endpoint[local]
                    } else {
                        Seq::<(u32, u32)>::empty()
                    };
                    if i < s0.len() {
                        assert(post.matched_remote_endpoint[l][i] == s0[i]);
                        assert(pre.matched_remote_endpoint.contains_key(local));
                        assert(s0[i].1 != h);
                    } else {
                        assert(post.matched_remote_endpoint[l][i] == (rp, h));
                    }
                }
            }
            assert forall|l: u32, i: int, j: int|
                post.matched_remote_endpoint.contains_key(l) && 0 <= i
                    < post.matched_remote_endpoint[l].len() && 0 <= j
                    < post.matched_remote_endpoint[l].len() && i != j implies (
            #[trigger] post.matched_remote_endpoint[l][i]).0 != (
            #[trigger] post.matched_remote_endpoint[l][j]).0 by {
                if existed || l != local {
                    assert(pre.matched_remote_endpoint.contains_key(l));
                    assert(post.matched_remote_endpoint[l] == pre.matched_remote_endpoint[l]);
                } else {
                    let s0 = if pre.matched_remote_endpoint.contains_key(local) {
                        pre.matched_remote_endpoint[local]
                    } else {
                        Seq::<(u32, u32)>::empty()
                    };
                    let s = post.matched_remote_endpoint[l];
                    assert(forall|m: int| 0 <= m < s0.len() ==> s[m] == s0[m]);
                    assert(s[s0.len() as int] == (rp, h));
                    if i < s0.len() && j == s0.len() {
                        assert(pre.matched_remote_endpoint.contains_key(local));
                        assert(!assoc_has_key(s0, rp));
                        assert(s0[i].0 != rp);
                    }
                    if j < s0.len() && i == s0.len() {
                        assert(pre.matched_remote_endpoint.contains_key(local));
                        assert(!assoc_has_key(s0, rp));
                        assert(s0[j].0 != rp);
                    }
                }
            }
            assert(post.inv_matched());
            // I3
            assert forall|x: u32| #[trigger] post.endpoint_encrypt_options.contains_key(x)
                <==> #[trigger] post.endpoint_to_participant.contains_key(x) by {
                if x != h {
                    assert(post.endpoint_encrypt_options.contains_key(x)
                        == pre.endpoint_encrypt_options.contains_key(x));
                    assert(post.endpoint_to_participant.contains_key(x)
                        == pre.endpoint_to_participant.contains_key(x));
                }
            }
            assert forall|x: u32| #[trigger] post.endpoint_to_participant.contains_key(x)
                implies post.encode_key_materials.contains_key(x) by {
                if x != h {
                    assert(pre.endpoint_to_participant.contains_key(x));
                }
            }
            assert forall|x: u32| #[trigger] post.endpoint_to_participant.contains_key(x)
                implies post.participant_to_endpoint_info.contains_key(
                post.endpoint_to_participant[x],
            ) && has_info_for(
                post.participant_to_endpoint_info[post.endpoint_to_participant[x]],
                x,
            ) by {
                let s0 = if pre.participant_to_endpoint_info.contains_key(rp) {
                    pre.participant_to_endpoint_info[rp]
                } else {
                    Seq::<EndpointInfo>::empty()
                };
                let s = add_info(s0, info);
                if x == h {
                    assert(post.endpoint_to_participant[h] == rp);
                    if s0.contains(info) {
                        let i = s0.index_of(info);
                        assert(s[i] == info);
                    } else {
                        assert(s.last() == info);
                    }
                    assert(has_info_for(s, h));
                } else {
                    assert(pre.endpoint_to_participant.contains_key(x));
                    let q = pre.endpoint_to_participant[x];
                    assert(has_info_for(pre.participant_to_endpoint_info[q], x));
                    if q == rp {
                        let i = choose|i: int|
                            0 <= i < s0.len() && (#[trigger] s0[i]).crypto_handle == x;
                        assert(s[i] == s0[i]);
                        assert(has_info_for(s, x));
                    }
                }
            }
            assert forall|x: u32, i: int, j: int|
                post.participant_to_endpoint_info.contains_key(x) && 0 <= i
                    < post.participant_to_endpoint_info[x].len() && 0 <= j
                    < post.participant_to_endpoint_info[x].len() && i != j implies (
            #[trigger] post.participant_to_endpoint_info[x][i]) != (
            #[trigger] post.participant_to_endpoint_info[x][j]) by {
                if x != rp {
                    assert(pre.participant_to_endpoint_info.contains_key(x));
                } else {
                    let s0 = if pre.participant_to_endpoint_info.contains_key(rp) {
                        pre.participant_to_endpoint_info[rp]
                    } else {
                        Seq::<EndpointInfo>::empty()
                    };
                    let s = add_info(s0, info);
                    if !s0.contains(info) {
                        assert(forall|m: int| 0 <= m < s0.len() ==> s[m] == s0[m]);
                    }
                }
            }
            assert(post.inv_endpoints());
            // I4
            assert forall|x: u32| #[trigger] post.encode_key_materials.contains_key(x)
                implies keymat_seq_wf(post.encode_key_materials[x]) by {
                if x != h {
                    assert(pre.encode_key_materials.contains_key(x));
                } else {
                    assert(keymat_seq_wf(pre.encode_key_materials[local]));
                    assert(h != 0);
                }
            }
            assert(post.inv_keymats());
            // I5
            assert forall|x: u32| x != h && #[trigger] post.is_endpoint_handle(x)
                implies pre.is_endpoint_handle(x) || x == local by {
                if post.endpoint_encrypt_options.contains_key(x) {
                    assert(pre.endpoint_encrypt_options.contains_key(x));
                } else if post.endpoint_to_participant.contains_key(x) {
                    assert(pre.endpoint_to_participant.contains_key(x));
                } else if post.matched_local_endpoint.contains_key(x) {
                    assert(pre.matched_local_endpoint.contains_key(x));
                } else if post.matched_remote_endpoint.contains_key(x) {
                    if x != local {
                        assert(pre.matched_remote_endpoint.contains_key(x));
                    }
                } else if exists|e: u32| #[trigger]
                    post.matched_local_endpoint.contains_key(e) && post.matched_local_endpoint[e]
                        == x {
                    let e = choose|e: u32| #[trigger]
                        post.matched_local_endpoint.contains_key(e)
                            && post.matched_local_endpoint[e] == x;
                    if e == h && !existed {
                        assert(x == local);
                    } else {
                        assert(pre.matched_local_endpoint.contains_key(e)
                            && pre.matched_local_endpoint[e] == x);
                    }
                } else {
                    let (l, i) = choose|l: u32, i: int|
                        post.matched_remote_endpoint.contains_key(l) && 0 <= i
                            < post.matched_remote_endpoint[l].len() && (
                        #[trigger] post.matched_remote_endpoint[l][i]).1 == x;
                    if existed || l != local {
                        assert(pre.matched_remote_endpoint.contains_key(l));
                        assert(post.matched_remote_endpoint[l] == pre.matched_remote_endpoint[l]);
                        assert(pre.is_endpoint_handle(x));
                    } else {
                        let s0 = if pre.matched_remote_endpoint.contains_key(local) {
                            pre.matched_remote_endpoint[local]
                        } else {
                            Seq::<(u32, u32)>::empty()
                        };
                        if i < s0.len() {
                            assert(post.matched_remote_endpoint[l][i] == s0[i]);
                            assert(pre.matched_remote_endpoint.contains_key(local));
                            assert(pre.is_endpoint_handle(x));
                        } else {
                            assert(post.matched_remote_endpoint[l][i] == (rp, h));
                            assert(x == h);
                        }
                    }
                }
            }
            assert forall|x: u32| x != h && x != rp && #[trigger] post.is_participant_handle(x)
                implies pre.is_participant_handle(x) by {
                if post.participant_encrypt_options.contains_key(x) {
                    assert(pre.participant_encrypt_options.contains_key(x));
                } else if post.participant_to_endpoint_info.contains_key(x) {
                    assert(pre.participant_to_endpoint_info.contains_key(x));
                } else {
                    let e = choose|e: u32| #[trigger]
                        post.endpoint_to_participant.contains_key(e)
                            && post.endpoint_to_participant[e] == x;
                    assert(e != h);
                    assert(pre.endpoint_to_participant.contains_key(e)
                        && pre.endpoint_to_participant[e] == x);
                }
            }
            assert(!post.is_participant_handle(h)) by {
                if post.is_participant_handle(h) {
                    if existed {
                        assert(pre.is_endpoint_handle(h));
                        if post.participant_encrypt_options.contains_key(h) {
                            assert(pre.is_participant_handle(h));
                        } else if post.participant_to_endpoint_info.contains_key(h) {
                            if h != rp {
                                assert(pre.participant_to_endpoint_info.contains_key(h));
                                assert(pre.is_participant_handle(h));
                            }
                        } else {
                            let e = choose|e: u32| #[trigger]
                                post.endpoint_to_participant.contains_key(e)
                                    && post.endpoint_to_participant[e] == h;
                            assert(pre.endpoint_to_participant.contains_key(e)
                                && pre.endpoint_to_participant[e] == h);
                            assert(pre.is_participant_handle(h));
                        }
                        assert(h != rp);
                    } else {
                        if !post.participant_encrypt_options.contains_key(h)
                            && !post.participant_to_endpoint_info.contains_key(h) {
                            let e = choose|e: u32| #[trigger]
                                post.endpoint_to_participant.contains_key(e)
                                    && post.endpoint_to_participant[e] == h;
                            if e != h {
                                assert(pre.endpoint_to_participant.contains_key(e));
                            } else {
                                assert(post.endpoint_to_participant[h] == rp && rp != h);
                            }
                        }
                    }
                }
            }
            assert(!post.is_endpoint_handle(rp)) by {
                assert(!pre.is_endpoint_handle(rp));
                assert(pre.endpoint_encrypt_options.contains_key(local));
                assert(pre.is_endpoint_handle(local));
                assert(local != rp);
                if post.is_endpoint_handle(rp) {
                    assert(rp != h);
                    assert(pre.is_endpoint_handle(rp) || rp == local);
                }
            }
            assert(!post.is_participant_handle(local)) by {
                assert(pre.endpoint_encrypt_options.contains_key(local));
                assert(pre.is_endpoint_handle(local));
                assert(!pre.is_participant_handle(local));
                if post.is_participant_handle(local) {
                    assert(local != h) by {
                        if !existed {
                            lemma_fresh_handle(pre, h);
                        }
                    }
                    assert(local != rp);
                    assert(pre.is_participant_handle(local));
                }
            }
            assert forall|x: u32|
                !(#[trigger] post.is_participant_handle(x)
                    && #[trigger] post.is_endpoint_handle(x)) by {
                if post.is_participant_handle(x) && post.is_endpoint_handle(x) {
                    assert(x != h);
                    assert(x != rp);
                    assert(x != local);
                    assert(pre.is_participant_handle(x) && pre.is_endpoint_handle(x));
                }
            }
            assert(post.inv_no_overlap());
        }
        Ok(remote_endpoint_crypto_handle)
    }

    /// Remove the first occurrence of `info` from the list.
    #[verifier::loop_isolation(false)]
    fn vec_remove_info(mut infos: Vec<EndpointInfo>, info: EndpointInfo) -> (r: Vec<
        EndpointInfo,
    >)
        requires
            forall|i: int, j: int|
                0 <= i < infos@.len() && 0 <= j < infos@.len() && i != j ==> (#[trigger] infos@[i])
                    != (#[trigger] infos@[j]),
        ensures
            r@ == remove_info(infos@, info),
    {
        let ghost s = infos@;
        let mut i: usize = 0;
        while i < infos.len()
            invariant
                0 <= i <= infos.len(),
                infos@ == s,
                forall|j: int| 0 <= j < i ==> (#[trigger] s[j]) != info,
                forall|i0: int, j0: int|
                    0 <= i0 < s.len() && 0 <= j0 < s.len() && i0 != j0 ==> (#[trigger] s[i0]) != (
                    #[trigger] s[j0]),
            decreases infos.len() - i,
        {
            if infos[i] == info {
                let ghost fi = i as int;
                proof {
                    assert(s.contains(info)) by {
                        assert(s[fi] == info);
                    }
                    let ci = s.index_of(info);
                    assert(s[ci] == info);
                    assert(ci == fi);
                    assert(remove_info(s, info) == s.remove(fi));
                }
                infos.remove(i);
                assert(infos@ == s.remove(fi));
                return infos;
            }
            i += 1;
        }
        proof {
            if s.contains(info) {
                let w = choose|w: int| 0 <= w < s.len() && s[w] == info;
                assert(false);
            }
        }
        infos
    }

    /// Remove the entry with key `key` from the association list.
    #[verifier::loop_isolation(false)]
    fn vec_remove_assoc(mut entries: Vec<(u32, u32)>, key: u32) -> (r: Vec<(u32, u32)>)
        requires
            forall|i: int, j: int|
                0 <= i < entries@.len() && 0 <= j < entries@.len() && i != j ==> (
                #[trigger] entries@[i]).0 != (#[trigger] entries@[j]).0,
        ensures
            r@ == assoc_remove(entries@, key),
    {
        let ghost s = entries@;
        let mut i: usize = 0;
        while i < entries.len()
            invariant
                0 <= i <= entries.len(),
                entries@ == s,
                forall|j: int| 0 <= j < i ==> (#[trigger] s[j]).0 != key,
                forall|i0: int, j0: int|
                    0 <= i0 < s.len() && 0 <= j0 < s.len() && i0 != j0 ==> (#[trigger] s[i0]).0
                        != (#[trigger] s[j0]).0,
            decreases entries.len() - i,
        {
            if entries[i].0 == key {
                let ghost fi = i as int;
                proof {
                    assert(assoc_has_key(s, key)) by {
                        assert(s[fi].0 == key);
                    }
                    let ci = assoc_index(s, key);
                    assert(s[ci].0 == key);
                    assert(ci == fi);
                    assert(assoc_remove(s, key) == s.remove(fi));
                }
                entries.remove(i);
                assert(entries@ == s.remove(fi));
                return entries;
            }
            i += 1;
        }
        proof {
            if assoc_has_key(s, key) {
                let w = choose|w: int| 0 <= w < s.len() && (#[trigger] s[w]).0 == key;
                assert(false);
            }
        }
        entries
    }

    /// One non-cascading endpoint removal; see `unregister_one_step`.
    /// The handle is never a key of table 7: a local endpoint's
    /// matched-remote list is taken off before this removal runs.
    fn unregister_one_(&mut self, endpoint_info: EndpointInfo)
        requires
            old(self)@.wf(),
            !old(self)@.matched_remote_endpoint.contains_key(endpoint_info.crypto_handle),
        ensures
            final(self)@ == unregister_one_step(old(self)@, endpoint_info),
            final(self)@.wf(),
            final(self)@.counter == old(self)@.counter,
    {
        let endpoint_crypto_handle = endpoint_info.crypto_handle;
        let ghost pre = self@;
        let ghost h = endpoint_crypto_handle;
        self.encode_key_materials_.remove(&endpoint_crypto_handle);
        self.decode_key_materials_.remove(&endpoint_crypto_handle);
        self.endpoint_encrypt_options_.remove(&endpoint_crypto_handle);
        proof {
            assert(self@.encode_key_materials =~= pre.encode_key_materials.remove(h));
            assert(self@.decode_key_materials =~= pre.decode_key_materials.remove(h));
            assert(self@.endpoint_encrypt_options =~= pre.endpoint_encrypt_options.remove(h));
        }
        if let Some(participant_crypto_handle) = self.endpoint_to_participant_.remove(
            &endpoint_crypto_handle,
        ) {
            let ghost p = participant_crypto_handle;
            proof {
                assert(self@.endpoint_to_participant =~= pre.endpoint_to_participant.remove(h));
                assert(pre.endpoint_to_participant.contains_key(h)
                    && pre.endpoint_to_participant[h] == p);
            }
            if let Some(infos) = self.participant_to_endpoint_info_.remove(
                &participant_crypto_handle,
            ) {
                proof {
                    assert(pre.participant_to_endpoint_info.contains_key(p)
                        && pre.participant_to_endpoint_info[p] == infos@);
                }
                let infos = Self::vec_remove_info(infos, endpoint_info);
                self.participant_to_endpoint_info_.insert(participant_crypto_handle, infos);
                proof {
                    assert(self@.participant_to_endpoint_info
                        =~= pre.participant_to_endpoint_info.insert(
                        p,
                        remove_info(pre.participant_to_endpoint_info[p], endpoint_info),
                    ));
                }
            }
            if let Some(local_endpoint_crypto_handle) = self.matched_local_endpoint_.remove(
                &endpoint_crypto_handle,
            ) {
                let ghost local = local_endpoint_crypto_handle;
                proof {
                    assert(self@.matched_local_endpoint =~= pre.matched_local_endpoint.remove(h));
                    assert(pre.matched_local_endpoint.contains_key(h)
                        && pre.matched_local_endpoint[h] == local);
                }
                if let Some(entries) = self.matched_remote_endpoint_.remove(
                    &local_endpoint_crypto_handle,
                ) {
                    proof {
                        assert(pre.matched_remote_endpoint.contains_key(local)
                            && pre.matched_remote_endpoint[local] == entries@);
                    }
                    let entries = Self::vec_remove_assoc(entries, participant_crypto_handle);
                    self.matched_remote_endpoint_.insert(local_endpoint_crypto_handle, entries);
                    proof {
                        assert(self@.matched_remote_endpoint
                            =~= pre.matched_remote_endpoint.insert(
                            local,
                            assoc_remove(pre.matched_remote_endpoint[local], p),
                        ));
                    }
                }
            }
        }
        proof {
            let post = self@;
            let info = endpoint_info;
            assert(post == unregister_one_step(pre, info)) by {
                let target = unregister_one_step(pre, info);
                assert(post.counter == target.counter);
                assert(post.encode_key_materials == target.encode_key_materials);
                assert(post.decode_key_materials == target.decode_key_materials);
                assert(post.endpoint_encrypt_options == target.endpoint_encrypt_options);
                assert(post.participant_encrypt_options == target.participant_encrypt_options);
                if !pre.endpoint_to_participant.contains_key(h) {
                    assert(post.endpoint_to_participant =~= pre.endpoint_to_participant);
                    assert(post.participant_to_endpoint_info == target.participant_to_endpoint_info);
                    assert(post.matched_local_endpoint == target.matched_local_endpoint);
                    assert(post.matched_remote_endpoint == target.matched_remote_endpoint);
                } else {
                    assert(post.endpoint_to_participant == target.endpoint_to_participant);
                    let p0 = pre.endpoint_to_participant[h];
                    if pre.participant_to_endpoint_info.contains_key(p0) {
                        assert(post.participant_to_endpoint_info
                            == target.participant_to_endpoint_info);
                    } else {
                        assert(post.participant_to_endpoint_info
                            == target.participant_to_endpoint_info);
                    }
                    if !pre.matched_local_endpoint.contains_key(h) {
                        assert(post.matched_local_endpoint =~= pre.matched_local_endpoint);
                        assert(post.matched_local_endpoint == target.matched_local_endpoint);
                        assert(post.matched_remote_endpoint == target.matched_remote_endpoint);
                    } else {
                        assert(post.matched_local_endpoint == target.matched_local_endpoint);
                        assert(post.matched_remote_endpoint == target.matched_remote_endpoint);
                    }
                }
            }
            lemma_unregister_one_wf(pre, info);
        }
    }

    /// Copy a list of endpoint infos.
    fn copy_infos(infos: &Vec<EndpointInfo>) -> (r: Vec<EndpointInfo>)
        ensures
            r@ == infos@,
    {
        let mut r: Vec<EndpointInfo> = Vec::new();
        let mut i: usize = 0;
        while i < infos.len()
            invariant
                0 <= i <= infos.len(),
                r@ == infos@.subrange(0, i as int),
            decreases infos.len() - i,
        {
            r.push(infos[i]);
            assert(r@ =~= infos@.subrange(0, i + 1));
            i += 1;
        }
        assert(r@ =~= infos@);
        r
    }

    /// Unregister an endpoint. Its key material, attributes and
    /// associations are dropped; a local endpoint additionally drags
    /// every remote endpoint derived from it along, since those serve
    /// no purpose on their own. Unknown handles change nothing.
    pub fn unregister_endpoint_(&mut self, endpoint_info: EndpointInfo)
        requires
            old(self)@.wf(),
        ensures
            final(self)@ == unregister_endpoint_step(old(self)@, endpoint_info),
            final(self)@.wf(),
            final(self)@.counter == old(self)@.counter,
    {
        let endpoint_crypto_handle = endpoint_info.crypto_handle;
        let ghost pre = self@;
        let ghost h = endpoint_crypto_handle;
        let is_local = self.endpoint_to_participant_.contains_key(&endpoint_crypto_handle)
            && !self.matched_local_endpoint_.contains_key(&endpoint_crypto_handle);
        if is_local {
            let sub_opt = self.matched_remote_endpoint_.remove(&endpoint_crypto_handle);
            let ghost pre1 = self@;
            proof {
                assert(self@.matched_remote_endpoint =~= pre.matched_remote_endpoint.remove(h));
                assert(pre1 == (RegistryView {
                    matched_remote_endpoint: pre.matched_remote_endpoint.remove(h),
                    ..pre
                }));
                lemma_remove_mre_key_wf(pre, h);
            }
            self.unregister_one_(endpoint_info);
            let sub: Vec<(u32, u32)> = match sub_opt {
                Some(v) => v,
                None => Vec::new(),
            };
            let ghost subspec = if pre.matched_remote_endpoint.contains_key(h) {
                pre.matched_remote_endpoint[h]
            } else {
                Seq::<(u32, u32)>::empty()
            };
            proof {
                assert(sub@ =~= subspec);
            }
            let ghost start = self@;
            let ghost opp_spec = endpoint_info.kind.spec_opposite();
            let opp = endpoint_info.kind.opposite();
            proof {
                // The cascade targets are pairwise distinct remote
                // endpoints, each still matched in table 8.
                assert forall|j1: int, j2: int|
                    0 <= j1 < subspec.len() && 0 <= j2 < subspec.len() && j1 != j2 implies (
                #[trigger] subspec[j1]).1 != (#[trigger] subspec[j2]).1 by {
                    assert(pre.matched_remote_endpoint.contains_key(h));
                    if subspec[j1].1 == subspec[j2].1 {
                        assert(pre.endpoint_to_participant[subspec[j1].1] == subspec[j1].0);
                        assert(pre.endpoint_to_participant[subspec[j2].1] == subspec[j2].0);
                        assert(subspec[j1].0 != subspec[j2].0);
                    }
                }
                assert forall|j: int| 0 <= j < subspec.len()
                    implies start.matched_local_endpoint.contains_key(
                    (#[trigger] subspec[j]).1,
                ) by {
                    assert(pre.matched_remote_endpoint.contains_key(h));
                    assert(pre.matched_local_endpoint.contains_key(subspec[j].1));
                }
            }
            let mut i: usize = 0;
            while i < sub.len()
                invariant
                    0 <= i <= sub.len(),
                    self@.wf(),
                    self@.counter == pre.counter,
                    opp == opp_spec,
                    sub@ == subspec,
                    forall|j: int| i <= j < subspec.len()
                        ==> self@.matched_local_endpoint.contains_key((#[trigger] subspec[j]).1),
                    forall|j1: int, j2: int|
                        0 <= j1 < subspec.len() && 0 <= j2 < subspec.len() && j1 != j2 ==> (
                        #[trigger] subspec[j1]).1 != (#[trigger] subspec[j2]).1,
                    cascade_fold(self@, subspec, opp_spec, i as int) == cascade_fold(
                        start,
                        subspec,
                        opp_spec,
                        0,
                    ),
                decreases sub.len() - i,
            {
                let ghost before = self@;
                proof {
                    // A key of table 8 is never a key of table 7.
                    assert(before.matched_local_endpoint.contains_key(subspec[i as int].1));
                    assert(!before.matched_remote_endpoint.contains_key(subspec[i as int].1));
                }
                self.unregister_one_(
                    EndpointInfo { crypto_handle: sub[i].1, kind: opp },
                );
                proof {
                    assert(self@ == unregister_one_step(
                        before,
                        EndpointInfo { crypto_handle: subspec[i as int].1, kind: opp_spec },
                    ));
                    assert(cascade_fold(before, subspec, opp_spec, i as int) == cascade_fold(
                        self@,
                        subspec,
                        opp_spec,
                        i + 1,
                    ));
                    // The later targets stay matched: this step only
                    // took its own handle out of table 8.
                    assert forall|j: int| i + 1 <= j < subspec.len()
                        implies self@.matched_local_endpoint.contains_key(
                        (#[trigger] subspec[j]).1,
                    ) by {
                        assert(subspec[j].1 != subspec[i as int].1);
                        assert(before.matched_local_endpoint.contains_key(subspec[j].1));
                    }
                }
                i += 1;
            }
            proof {
                assert(cascade_fold(self@, subspec, opp_spec, sub@.len() as int) == self@);
                assert(self@ == cascade_fold(start, subspec, opp_spec, 0));
                assert(start == unregister_one_step(pre1, endpoint_info));
                assert(pre.endpoint_to_participant.contains_key(h)
                    && !pre.matched_local_endpoint.contains_key(h));
                assert(final(self)@ == unregister_endpoint_step(pre, endpoint_info));
            }
        } else {
            self.unregister_one_(endpoint_info);
            proof {
                assert(!(pre.endpoint_to_participant.contains_key(h)
                    && !pre.matched_local_endpoint.contains_key(h)));
                assert(final(self)@ == unregister_endpoint_step(pre, endpoint_info));
            }
        }
    }

    /// Unregister a participant: drop its attributes, unregister every
    /// endpoint listed under it, and drop the list. Always succeeds;
    /// unknown handles change nothing.
    pub fn unregister_participant(
        &mut self,
        participant_crypto_handle: ParticipantCryptoHandle,
    ) -> (r: Result<(), SecurityError>)
        requires
            old(self)@.wf(),
        ensures
            final(self)@.wf(),
            r == Ok::<(), SecurityError>(()),
            final(self)@ == unregister_participant_step(old(self)@, participant_crypto_handle),
    {
        let ghost pre = self@;
        let ghost p = participant_crypto_handle;
        let infos: Vec<EndpointInfo> = match self.participant_to_endpoint_info_.get(
            &participant_crypto_handle,
        ) {
            Some(v) => Self::copy_infos(v),
            None => Vec::new(),
        };
        let ghost infspec = if pre.participant_to_endpoint_info.contains_key(p) {
            pre.participant_to_endpoint_info[p]
        } else {
            Seq::<EndpointInfo>::empty()
        };
        proof {
            assert(infos@ =~= infspec);
        }
        let mut i: usize = 0;
        while i < infos.len()
            invariant
                0 <= i <= infos.len(),
                self@.wf(),
                infos@ == infspec,
                participant_fold(self@, infspec, i as int) == participant_fold(pre, infspec, 0),
                forall|x: u32|
                    #[trigger] self@.endpoint_to_participant.contains_key(x)
                        && self@.endpoint_to_participant[x] == p ==> exists|j: int|
                        i <= j < infspec.len() && (#[trigger] infspec[j]).crypto_handle == x,
            decreases infos.len() - i,
        {
            let ghost before = self@;
            self.unregister_endpoint_(infos[i]);
            proof {
                assert(self@ == unregister_endpoint_step(before, infspec[i as int]));
                assert(participant_fold(before, infspec, i as int) == participant_fold(
                    self@,
                    infspec,
                    i + 1,
                ));
                lemma_endpoint_step_e2p_shrink(before, infspec[i as int]);
                assert forall|x: u32|
                    #[trigger] self@.endpoint_to_participant.contains_key(x)
                        && self@.endpoint_to_participant[x] == p implies exists|j: int|
                    i + 1 <= j < infspec.len() && (#[trigger] infspec[j]).crypto_handle == x by {
                    assert(before.endpoint_to_participant.contains_key(x)
                        && before.endpoint_to_participant[x] == p);
                    let j = choose|j: int|
                        i <= j < infspec.len() && (#[trigger] infspec[j]).crypto_handle == x;
                    assert(x != infspec[i as int].crypto_handle);
                    assert(j != i);
                }
            }
            i += 1;
        }
        let ghost after = self@;
        proof {
            assert(participant_fold(after, infspec, infspec.len() as int) == after);
            assert(after == participant_fold(pre, infspec, 0));
        }
        self.participant_encrypt_options_.remove(&participant_crypto_handle);
        self.participant_to_endpoint_info_.remove(&participant_crypto_handle);
        proof {
            assert(self@.participant_encrypt_options =~= after.participant_encrypt_options.remove(
                p,
            ));
            assert(self@.participant_to_endpoint_info
                =~= after.participant_to_endpoint_info.remove(p));
            let post = self@;
            assert(post == unregister_participant_step(pre, p));
            // The invariant survives the final removals: no endpoint
            // still points at the participant.
            assert forall|q: u32, i2: int|
                post.participant_to_endpoint_info.contains_key(q) && 0 <= i2
                    < post.participant_to_endpoint_info[q].len()
                implies after.participant_to_endpoint_info[q].contains(
                #[trigger] post.participant_to_endpoint_info[q][i2],
            ) by {
                assert(after.participant_to_endpoint_info[q][i2]
                    == post.participant_to_endpoint_info[q][i2]);
            }
            assert forall|l: u32, i2: int|
                post.matched_remote_endpoint.contains_key(l) && 0 <= i2
                    < post.matched_remote_endpoint[l].len()
                implies after.matched_remote_endpoint.contains_key(l)
                && after.matched_remote_endpoint[l].contains(
                #[trigger] post.matched_remote_endpoint[l][i2],
            ) by {
                assert(after.matched_remote_endpoint[l][i2]
                    == post.matched_remote_endpoint[l][i2]);
            }
            lemma_handles_shrink(after, post);
            lemma_classification_shrink(after, post);
            assert(post.inv_no_overlap());
            lemma_matched_frame(after, post);
            lemma_keymats_frame(after, post);
            assert forall|x: u32| #[trigger] post.endpoint_to_participant.contains_key(x)
                implies post.participant_to_endpoint_info.contains_key(
                post.endpoint_to_participant[x],
            ) && has_info_for(
                post.participant_to_endpoint_info[post.endpoint_to_participant[x]],
                x,
            ) by {
                assert(after.endpoint_to_participant.contains_key(x));
                assert(after.endpoint_to_participant[x] != p);
            }
            assert(post.inv_endpoints());
            assert(post.wf());
        }
        Ok(())
    }

    /// Unregister a data writer. Always succeeds; calling it again for
    /// the same handle is a no-op.
    pub fn unregister_datawriter(
        &mut self,
        datawriter_crypto_handle: crate::DatawriterCryptoHandle,
    ) -> (r: Result<(), SecurityError>)
        requires
            old(self)@.wf(),
        ensures
            final(self)@.wf(),
            r == Ok::<(), SecurityError>(()),
            final(self)@ == unregister_endpoint_step(
                old(self)@,
                EndpointInfo {
                    crypto_handle: datawriter_crypto_handle,
                    kind: EndpointKind::DataWriter,
                },
            ),
    {
        self.unregister_endpoint_(
            EndpointInfo { crypto_handle: datawriter_crypto_handle, kind: EndpointKind::DataWriter },
        );
        Ok(())
    }

    /// Unregister a data reader. Always succeeds; calling it again for
    /// the same handle is a no-op.
    pub fn unregister_datareader(
        &mut self,
        datareader_crypto_handle: crate::DatareaderCryptoHandle,
    ) -> (r: Result<(), SecurityError>)
        requires
            old(self)@.wf(),
        ensures
            final(self)@.wf(),
            r == Ok::<(), SecurityError>(()),
            final(self)@ == unregister_endpoint_step(
                old(self)@,
                EndpointInfo {
                    crypto_handle: datareader_crypto_handle,
                    kind: EndpointKind::DataReader,
                },
            ),
    {
        self.unregister_endpoint_(
            EndpointInfo { crypto_handle: datareader_crypto_handle, kind: EndpointKind::DataReader },
        );
        Ok(())
    }

    /// Register a local data writer under its participant: allocate its
    /// handle, give it submessage (and, where the kinds differ, payload)
    /// key material, and record it in the endpoint tables. Volatile
    /// endpoints are rejected. The caller passes a handle this registry
    /// issued for a participant, never one of an endpoint, which keeps
    /// the two handle populations disjoint (I5).
    pub fn register_local_datawriter(
        &mut self,
        participant_crypto: ParticipantCryptoHandle,
        datawriter_properties: &[Property],
        datawriter_security_attributes: EndpointSecurityAttributes,
    ) -> (r: Result<crate::DatawriterCryptoHandle, SecurityError>)
        requires
            old(self)@.wf(),
            old(self)@.counter <= u32::MAX - 2,
            old(self)@.handle_emitted(participant_crypto),
            !old(self)@.is_endpoint_handle(participant_crypto),
        ensures
            final(self)@.wf(),
            r is Ok <==> (spec_plugin_mask_wf(
                datawriter_security_attributes.plugin_endpoint_attributes,
            ) && !spec_is_volatile(props_view(datawriter_properties@))),
            r is Err ==> final(self)@ == old(self)@,
            !spec_plugin_mask_wf(datawriter_security_attributes.plugin_endpoint_attributes) ==> r
                == Err::<u32, _>(
                SecurityError::MissingAttributes(
                    datawriter_security_attributes.plugin_endpoint_attributes,
                ),
            ),
            spec_plugin_mask_wf(datawriter_security_attributes.plugin_endpoint_attributes)
                && spec_is_volatile(props_view(datawriter_properties@)) ==> r == Err::<u32, _>(
                SecurityError::VolatileEndpointRejected,
            ),
            r matches Ok(h) ==> register_local_endpoint_post(
                old(self)@,
                final(self)@,
                participant_crypto,
                props_view(datawriter_properties@),
                datawriter_security_attributes,
                EndpointKind::DataWriter,
                h,
            ),
    {
        self.register_local_endpoint_(
            participant_crypto,
            datawriter_properties,
            datawriter_security_attributes,
            EndpointKind::DataWriter,
        )
    }

    /// Register a local data reader under its participant: allocate its
    /// handle, give it a single submessage key material record, and
    /// record it in the endpoint tables. Volatile endpoints are
    /// rejected. The caller passes a handle this registry issued for a
    /// participant, never one of an endpoint, which keeps the two
    /// handle populations disjoint (I5).
    pub fn register_local_datareader(
        &mut self,
        participant_crypto_handle: ParticipantCryptoHandle,
        datareader_properties: &[Property],
        datareader_security_attributes: EndpointSecurityAttributes,
    ) -> (r: Result<crate::DatareaderCryptoHandle, SecurityError>)
        requires
            old(self)@.wf(),
            old(self)@.counter <= u32::MAX - 2,
            old(self)@.handle_emitted(participant_crypto_handle),
            !old(self)@.is_endpoint_handle(participant_crypto_handle),
        ensures
            final(self)@.wf(),
            r is Ok <==> (spec_plugin_mask_wf(
                datareader_security_attributes.plugin_endpoint_attributes,
            ) && !spec_is_volatile(props_view(datareader_properties@))),
            r is Err ==> final(self)@ == old(self)@,
            !spec_plugin_mask_wf(datareader_security_attributes.plugin_endpoint_attributes) ==> r
                == Err::<u32, _>(
                SecurityError::MissingAttributes(
                    datareader_security_attributes.plugin_endpoint_attributes,
                ),
            ),
            spec_plugin_mask_wf(datareader_security_attributes.plugin_endpoint_attributes)
                && spec_is_volatile(props_view(datareader_properties@)) ==> r == Err::<u32, _>(
                SecurityError::VolatileEndpointRejected,
            ),
            r matches Ok(h) ==> register_local_endpoint_post(
                old(self)@,
                final(self)@,
                participant_crypto_handle,
                props_view(datareader_properties@),
                datareader_security_attributes,
                EndpointKind::DataReader,
                h,
            ),
    {
        self.register_local_endpoint_(
            participant_crypto_handle,
            datareader_properties,
            datareader_security_attributes,
            EndpointKind::DataReader,
        )
    }

    /// Register the remote data reader matched to a local data writer
    /// through a remote participant. Reuses the handle for a pair seen
    /// before, so calling this twice for the same pair returns the same
    /// handle and adds nothing. The writer handle is a local writer's,
    /// never that of a matched remote endpoint. `shared_secret` is
    /// accepted but not yet consumed, and `relay_only` is recorded for
    /// audit only: deriving keys from the shared secret is an open
    /// extension point.
    pub fn register_matched_remote_datareader(
        &mut self,
        local_datawriter_crypto_handle: crate::DatawriterCryptoHandle,
        remote_participant_crypto_handle: ParticipantCryptoHandle,
        shared_secret: SharedSecretHandle,
        relay_only: bool,
    ) -> (r: Result<crate::DatareaderCryptoHandle, SecurityError>)
        requires
            old(self)@.wf(),
            old(self)@.counter < u32::MAX,
            old(self)@.handle_emitted(remote_participant_crypto_handle),
            !old(self)@.is_endpoint_handle(remote_participant_crypto_handle),
            !old(self)@.matched_local_endpoint.contains_key(local_datawriter_crypto_handle),
        ensures
            final(self)@.wf(),
            r is Ok <==> (old(self)@.encode_key_materials.contains_key(
                local_datawriter_crypto_handle,
            ) && old(self)@.endpoint_encrypt_options.contains_key(local_datawriter_crypto_handle)
                && spec_plugin_mask_wf(
                old(
                    self,
                )@.endpoint_encrypt_options[local_datawriter_crypto_handle].plugin_endpoint_attributes,
            )),
            r is Err ==> final(self)@ == old(self)@,
            !old(self)@.encode_key_materials.contains_key(local_datawriter_crypto_handle) ==> r
                == Err::<u32, _>(SecurityError::UnknownHandle(local_datawriter_crypto_handle)),
            old(self)@.encode_key_materials.contains_key(local_datawriter_crypto_handle) && !old(
                self,
            )@.endpoint_encrypt_options.contains_key(local_datawriter_crypto_handle) ==> r == Err::<
                u32,
                _,
            >(SecurityError::MissingAttributes(local_datawriter_crypto_handle)),
            r matches Ok(h) ==> register_matched_remote_endpoint_post(
                old(self)@,
                final(self)@,
                local_datawriter_crypto_handle,
                remote_participant_crypto_handle,
                EndpointKind::DataReader,
                h,
            ),
    {
        self.register_matched_remote_endpoint_(
            local_datawriter_crypto_handle,
            remote_participant_crypto_handle,
            EndpointKind::DataReader,
        )
    }

    /// Register the remote data writer matched to a local data reader
    /// through a remote participant. Reuses the handle for a pair seen
    /// before. The reader handle is a local reader's, never that of a
    /// matched remote endpoint. `shared_secret` is accepted but not yet
    /// consumed.
    pub fn register_matched_remote_datawriter(
        &mut self,
        local_datareader_crypto_handle: crate::DatareaderCryptoHandle,
        remote_participant_crypto_handle: ParticipantCryptoHandle,
        shared_secret: SharedSecretHandle,
    ) -> (r: Result<crate::DatawriterCryptoHandle, SecurityError>)
        requires
            old(self)@.wf(),
            old(self)@.counter < u32::MAX,
            old(self)@.handle_emitted(remote_participant_crypto_handle),
            !old(self)@.is_endpoint_handle(remote_participant_crypto_handle),
            !old(self)@.matched_local_endpoint.contains_key(local_datareader_crypto_handle),
        ensures
            final(self)@.wf(),
            r is Ok <==> (old(self)@.encode_key_materials.contains_key(
                local_datareader_crypto_handle,
            ) && old(self)@.endpoint_encrypt_options.contains_key(local_datareader_crypto_handle)
                && spec_plugin_mask_wf(
                old(
                    self,
                )@.endpoint_encrypt_options[local_datareader_crypto_handle].plugin_endpoint_attributes,
            )),
            r is Err ==> final(self)@ == old(self)@,
            !old(self)@.encode_key_materials.contains_key(local_datareader_crypto_handle) ==> r
                == Err::<u32, _>(SecurityError::UnknownHandle(local_datareader_crypto_handle)),
            old(self)@.encode_key_materials.contains_key(local_datareader_crypto_handle) && !old(
                self,
            )@.endpoint_encrypt_options.contains_key(local_datareader_crypto_handle) ==> r == Err::<
                u32,
                _,
            >(SecurityError::MissingAttributes(local_datareader_crypto_handle)),
            r matches Ok(h) ==> register_matched_remote_endpoint_post(
                old(self)@,
                final(self)@,
                local_datareader_crypto_handle,
                remote_participant_crypto_handle,
                EndpointKind::DataWriter,
                h,
            ),
    {
        self.register_matched_remote_endpoint_(
            local_datareader_crypto_handle,
            remote_participant_crypto_handle,
            EndpointKind::DataWriter,
        )
    }
}

} // verus!
