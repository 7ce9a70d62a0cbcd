//! The key-factory registry state: the tables linking crypto handles to
//! key material, security attributes and endpoint associations, with the
//! invariants that every operation preserves.

use std::collections::HashMap;

use vstd::prelude::*;

use crate::attributes::{EndpointSecurityAttributes, ParticipantSecurityAttributes};
use crate::error::SecurityError;
use crate::keymat::{keymat_seq_wf, KeyMatView, KeyMaterial_AES_GCM_GMAC_seq};
use crate::CryptoHandle;

verus! {

broadcast use vstd::std_specs::hash::group_hash_axioms;

/// Whether an endpoint handle stands for a data writer or a data reader.
#[derive(Clone, Copy, Debug, PartialEq, Eq, Structural)]
pub enum EndpointKind {
    DataWriter,
    DataReader,
}

impl EndpointKind {
    /// The kind a matched remote endpoint has: the opposite of the
    /// local endpoint's kind.
    pub open spec fn spec_opposite(self) -> EndpointKind {
        match self {
            EndpointKind::DataWriter => EndpointKind::DataReader,
            EndpointKind::DataReader => EndpointKind::DataWriter,
        }
    }

    /// The opposite kind.
    pub fn opposite(self) -> (r: EndpointKind)
        ensures
            r == self.spec_opposite(),
    {
        match self {
            EndpointKind::DataWriter => EndpointKind::DataReader,
            EndpointKind::DataReader => EndpointKind::DataWriter,
        }
    }
}

/// An endpoint handle together with its kind. Two endpoint infos are
/// equal exactly when both fields match.
#[derive(Clone, Copy, Debug, PartialEq, Eq, Structural)]
pub struct EndpointInfo {
    pub crypto_handle: CryptoHandle,
    pub kind: EndpointKind,
}

/// The mathematical state of the registry.
pub struct RegistryView {
    /// The last handle the allocator emitted; 0 before the first one.
    pub counter: u32,
    /// Table 1: keys this side encodes with, per handle.
    pub encode_key_materials: Map<u32, Seq<KeyMatView>>,
    /// Table 2: keys received from remotes for decoding, per handle.
    pub decode_key_materials: Map<u32, Seq<KeyMatView>>,
    /// Table 3: security attributes of local participants.
    pub participant_encrypt_options: Map<u32, ParticipantSecurityAttributes>,
    /// Table 4: security attributes of endpoints.
    pub endpoint_encrypt_options: Map<u32, EndpointSecurityAttributes>,
    /// Table 5: the endpoints owned by or matched under a participant.
    pub participant_to_endpoint_info: Map<u32, Seq<EndpointInfo>>,
    /// Table 6: the participant an endpoint belongs to.
    pub endpoint_to_participant: Map<u32, u32>,
    /// Table 7: per local endpoint, the remote endpoint handle seen
    /// through each remote participant, as an association list.
    pub matched_remote_endpoint: Map<u32, Seq<(u32, u32)>>,
    /// Table 8: per remote endpoint, the local endpoint it matches.
    pub matched_local_endpoint: Map<u32, u32>,
}

/// Whether `s` holds an info for handle `h` (of any kind).
pub open spec fn has_info_for(s: Seq<EndpointInfo>, h: u32) -> bool {
    exists|i: int| 0 <= i < s.len() && (#[trigger] s[i]).crypto_handle == h
}

/// Whether the association list `s` has an entry with key `k`.
pub open spec fn assoc_has_key(s: Seq<(u32, u32)>, k: u32) -> bool {
    exists|i: int| 0 <= i < s.len() && (#[trigger] s[i]).0 == k
}

/// The index of an entry with key `k` in the association list `s`;
/// meaningful only when `assoc_has_key(s, k)`.
pub open spec fn assoc_index(s: Seq<(u32, u32)>, k: u32) -> int {
    choose|i: int| 0 <= i < s.len() && (#[trigger] s[i]).0 == k
}

/// The value bound to key `k` in the association list `s`.
pub open spec fn assoc_get(s: Seq<(u32, u32)>, k: u32) -> u32 {
    s[assoc_index(s, k)].1
}

/// `s` with the entry for key `k` removed, if one is there.
pub open spec fn assoc_remove(s: Seq<(u32, u32)>, k: u32) -> Seq<(u32, u32)> {
    if assoc_has_key(s, k) {
        s.remove(assoc_index(s, k))
    } else {
        s
    }
}

/// `s` with `info` appended unless already present.
pub open spec fn add_info(s: Seq<EndpointInfo>, info: EndpointInfo) -> Seq<EndpointInfo> {
    if s.contains(info) {
        s
    } else {
        s.push(info)
    }
}

/// `s` with the first occurrence of `info` removed, if any.
pub open spec fn remove_info(s: Seq<EndpointInfo>, info: EndpointInfo) -> Seq<EndpointInfo> {
    if s.contains(info) {
        s.remove(s.index_of(info))
    } else {
        s
    }
}

impl RegistryView {
    /// Whether the allocator has emitted `h`: handles run from 1 up to
    /// the counter, and 0 is never emitted.
    pub open spec fn handle_emitted(self, h: u32) -> bool {
        1 <= h <= self.counter
    }

    /// I1 (and the frame the other invariants lean on): every handle
    /// standing in any table, as key or as value, was emitted.
    pub open spec fn inv_handles(self) -> bool {
        &&& forall|h: u32| #[trigger]
            self.encode_key_materials.contains_key(h) ==> self.handle_emitted(h)
        &&& forall|h: u32| #[trigger]
            self.decode_key_materials.contains_key(h) ==> self.handle_emitted(h)
        &&& forall|h: u32| #[trigger]
            self.participant_encrypt_options.contains_key(h) ==> self.handle_emitted(h)
        &&& forall|h: u32| #[trigger]
            self.endpoint_encrypt_options.contains_key(h) ==> self.handle_emitted(h)
        &&& forall|h: u32| #[trigger]
            self.participant_to_endpoint_info.contains_key(h) ==> self.handle_emitted(h)
        &&& forall|h: u32| #[trigger]
            self.endpoint_to_participant.contains_key(h) ==> self.handle_emitted(h)
            && self.handle_emitted(self.endpoint_to_participant[h])
        &&& forall|h: u32| #[trigger]
            self.matched_remote_endpoint.contains_key(h) ==> self.handle_emitted(h)
        &&& forall|h: u32| #[trigger]
            self.matched_local_endpoint.contains_key(h) ==> self.handle_emitted(h)
            && self.handle_emitted(self.matched_local_endpoint[h])
        &&& forall|h: u32, i: int|
            self.matched_remote_endpoint.contains_key(h) && 0 <= i
                < self.matched_remote_endpoint[h].len() ==> self.handle_emitted(
                (#[trigger] self.matched_remote_endpoint[h][i]).0,
            ) && self.handle_emitted(self.matched_remote_endpoint[h][i].1)
        &&& forall|h: u32, i: int|
            self.participant_to_endpoint_info.contains_key(h) && 0 <= i
                < self.participant_to_endpoint_info[h].len() ==> self.handle_emitted(
                (#[trigger] self.participant_to_endpoint_info[h][i]).crypto_handle,
            )
    }

    /// I2: every matched-remote entry `(local, rp) -> re` is mirrored by
    /// `matched_local_endpoint[re] == local` and
    /// `endpoint_to_participant[re] == rp`, and within one local
    /// endpoint each remote participant appears at most once. The keys
    /// of both matching tables are registered endpoints: they stand in
    /// table 6, and a key of table 7 is a local endpoint, so it is no
    /// key of table 8.
    pub open spec fn inv_matched(self) -> bool {
        &&& forall|h: u32| #[trigger] self.matched_local_endpoint.contains_key(h)
            ==> self.endpoint_to_participant.contains_key(h)
        &&& forall|l: u32| #[trigger] self.matched_remote_endpoint.contains_key(l)
            ==> self.endpoint_to_participant.contains_key(l)
            && !self.matched_local_endpoint.contains_key(l)
        &&& forall|l: u32, i: int|
            self.matched_remote_endpoint.contains_key(l) && 0 <= i
                < self.matched_remote_endpoint[l].len() ==> {
                let e = #[trigger] self.matched_remote_endpoint[l][i];
                &&& self.matched_local_endpoint.contains_key(e.1)
                &&& self.matched_local_endpoint[e.1] == l
                &&& self.endpoint_to_participant.contains_key(e.1)
                &&& self.endpoint_to_participant[e.1] == e.0
            }
        &&& forall|l: u32, i: int, j: int|
            self.matched_remote_endpoint.contains_key(l) && 0 <= i
                < self.matched_remote_endpoint[l].len() && 0 <= j
                < self.matched_remote_endpoint[l].len() && i != j ==> (
            #[trigger] self.matched_remote_endpoint[l][i]).0 != (
            #[trigger] self.matched_remote_endpoint[l][j]).0
    }

    /// I3: endpoint handles are exactly the keys of tables 4 and 6, they
    /// carry encode key material, and their participant lists them.
    pub open spec fn inv_endpoints(self) -> bool {
        &&& forall|h: u32| #[trigger]
            self.endpoint_encrypt_options.contains_key(h)
                <==> #[trigger] self.endpoint_to_participant.contains_key(h)
        &&& forall|h: u32| #[trigger]
            self.endpoint_to_participant.contains_key(h) ==> self.encode_key_materials.contains_key(
                h,
            )
        &&& forall|h: u32| #[trigger]
            self.endpoint_to_participant.contains_key(h)
                ==> self.participant_to_endpoint_info.contains_key(self.endpoint_to_participant[h])
                && has_info_for(
                self.participant_to_endpoint_info[self.endpoint_to_participant[h]],
                h,
            )
        &&& forall|h: u32, i: int, j: int|
            self.participant_to_endpoint_info.contains_key(h) && 0 <= i
                < self.participant_to_endpoint_info[h].len() && 0 <= j
                < self.participant_to_endpoint_info[h].len() && i != j ==> (
            #[trigger] self.participant_to_endpoint_info[h][i]) != (
            #[trigger] self.participant_to_endpoint_info[h][j])
    }

    /// I4: all encode key material was produced by registration, so each
    /// record is well-formed and each sequence holds one or two records.
    pub open spec fn inv_keymats(self) -> bool {
        forall|h: u32| #[trigger]
            self.encode_key_materials.contains_key(h) ==> keymat_seq_wf(
                self.encode_key_materials[h],
            )
    }

    /// Whether `h` stands for a participant somewhere in the registry.
    pub open spec fn is_participant_handle(self, h: u32) -> bool {
        ||| self.participant_encrypt_options.contains_key(h)
        ||| self.participant_to_endpoint_info.contains_key(h)
        ||| exists|e: u32| #[trigger]
            self.endpoint_to_participant.contains_key(e) && self.endpoint_to_participant[e] == h
    }

    /// Whether `h` stands for an endpoint somewhere in the registry.
    pub open spec fn is_endpoint_handle(self, h: u32) -> bool {
        ||| self.endpoint_encrypt_options.contains_key(h)
        ||| self.endpoint_to_participant.contains_key(h)
        ||| self.matched_local_endpoint.contains_key(h)
        ||| self.matched_remote_endpoint.contains_key(h)
        ||| exists|e: u32| #[trigger]
            self.matched_local_endpoint.contains_key(e) && self.matched_local_endpoint[e] == h
        ||| exists|l: u32, i: int|
            self.matched_remote_endpoint.contains_key(l) && 0 <= i
                < self.matched_remote_endpoint[l].len() && (
            #[trigger] self.matched_remote_endpoint[l][i]).1 == h
    }

    /// I5: no handle is used both as a participant and as an endpoint.
    pub open spec fn inv_no_overlap(self) -> bool {
        forall|h: u32|
            !(#[trigger] self.is_participant_handle(h) && #[trigger] self.is_endpoint_handle(h))
    }

    /// The registry invariant: I1 through I5.
    pub open spec fn wf(self) -> bool {
        &&& self.inv_handles()
        &&& self.inv_matched()
        &&& self.inv_endpoints()
        &&& self.inv_keymats()
        &&& self.inv_no_overlap()
    }

    /// The state of an empty registry.
    pub open spec fn empty() -> RegistryView {
        RegistryView {
            counter: 0,
            encode_key_materials: Map::empty(),
            decode_key_materials: Map::empty(),
            participant_encrypt_options: Map::empty(),
            endpoint_encrypt_options: Map::empty(),
            participant_to_endpoint_info: Map::empty(),
            endpoint_to_participant: Map::empty(),
            matched_remote_endpoint: Map::empty(),
            matched_local_endpoint: Map::empty(),
        }
    }
}

/// Every element of `remove_info(s, info)` stands somewhere in `s`.
pub proof fn lemma_remove_info_subseq(s: Seq<EndpointInfo>, info: EndpointInfo)
    ensures
        remove_info(s, info).len() <= s.len(),
        forall|j: int|
            0 <= j < remove_info(s, info).len() ==> s.contains(#[trigger] remove_info(s, info)[j]),
{
    if s.contains(info) {
        let ci = s.index_of(info);
        let r = s.remove(ci);
        assert(remove_info(s, info) == r);
        assert(0 <= ci < s.len());
        s.remove_ensures(ci);
        assert forall|j: int| 0 <= j < remove_info(s, info).len() implies s.contains(
            #[trigger] remove_info(s, info)[j],
        ) by {
            if j < ci {
                assert(r[j] == s[j]);
            } else {
                assert(r[j] == s[j + 1]);
            }
        }
    } else {
        assert forall|j: int| 0 <= j < remove_info(s, info).len() implies s.contains(
            #[trigger] remove_info(s, info)[j],
        ) by {
            assert(s[j] == remove_info(s, info)[j]);
        }
    }
}

/// Removing one info keeps every other element, keeps the list free of
/// duplicates, and removes every occurrence of `info` when there was
/// only one.
pub proof fn lemma_remove_info_facts(s: Seq<EndpointInfo>, info: EndpointInfo)
    requires
        forall|i: int, j: int|
            0 <= i < s.len() && 0 <= j < s.len() && i != j ==> (#[trigger] s[i]) != (
            #[trigger] s[j]),
    ensures
        forall|i: int|
            0 <= i < s.len() && (#[trigger] s[i]) != info ==> remove_info(s, info).contains(s[i]),
        forall|i: int, j: int|
            0 <= i < remove_info(s, info).len() && 0 <= j < remove_info(s, info).len() && i != j
                ==> (#[trigger] remove_info(s, info)[i]) != (#[trigger] remove_info(s, info)[j]),
        !remove_info(s, info).contains(info),
{
    let r = remove_info(s, info);
    if s.contains(info) {
        let ci = s.index_of(info);
        assert(0 <= ci < s.len() && s[ci] == info);
        s.remove_ensures(ci);
        assert forall|i: int| 0 <= i < s.len() && (#[trigger] s[i]) != info implies r.contains(
            s[i],
        ) by {
            if i < ci {
                assert(r[i] == s[i]);
            } else {
                assert(i != ci);
                assert(r[i - 1] == s[i]);
            }
        }
        assert forall|i: int, j: int|
            0 <= i < r.len() && 0 <= j < r.len() && i != j implies (#[trigger] r[i]) != (
        #[trigger] r[j]) by {
            let i0: int = if i < ci { i } else { i + 1 };
            let j0: int = if j < ci { j } else { j + 1 };
            assert(r[i] == s[i0] && r[j] == s[j0]);
        }
        if r.contains(info) {
            let k = choose|k: int| 0 <= k < r.len() && r[k] == info;
            let k0: int = if k < ci { k } else { k + 1 };
            assert(s[k0] == info && s[ci] == info && k0 != ci);
        }
    }
}

/// Every element of `assoc_remove(s, k)` stands somewhere in `s`.
pub proof fn lemma_assoc_remove_subseq(s: Seq<(u32, u32)>, k: u32)
    ensures
        assoc_remove(s, k).len() <= s.len(),
        forall|j: int|
            0 <= j < assoc_remove(s, k).len() ==> s.contains(#[trigger] assoc_remove(s, k)[j]),
{
    if assoc_has_key(s, k) {
        let ci = assoc_index(s, k);
        let r = s.remove(ci);
        assert(assoc_remove(s, k) == r);
        assert(0 <= ci < s.len());
        s.remove_ensures(ci);
        assert forall|j: int| 0 <= j < assoc_remove(s, k).len() implies s.contains(
            #[trigger] assoc_remove(s, k)[j],
        ) by {
            if j < ci {
                assert(r[j] == s[j]);
            } else {
                assert(r[j] == s[j + 1]);
            }
        }
    } else {
        assert forall|j: int| 0 <= j < assoc_remove(s, k).len() implies s.contains(
            #[trigger] assoc_remove(s, k)[j],
        ) by {
            assert(s[j] == assoc_remove(s, k)[j]);
        }
    }
}

/// Removing the entry for key `k` from a list with pairwise distinct
/// keys keeps every other entry, keeps the keys distinct, and leaves no
/// entry for `k`.
pub proof fn lemma_assoc_remove_facts(s: Seq<(u32, u32)>, k: u32)
    requires
        forall|i: int, j: int|
            0 <= i < s.len() && 0 <= j < s.len() && i != j ==> (#[trigger] s[i]).0 != (
            #[trigger] s[j]).0,
    ensures
        forall|i: int|
            0 <= i < s.len() && (#[trigger] s[i]).0 != k ==> assoc_remove(s, k).contains(s[i]),
        forall|i: int, j: int|
            0 <= i < assoc_remove(s, k).len() && 0 <= j < assoc_remove(s, k).len() && i != j ==> (
            #[trigger] assoc_remove(s, k)[i]).0 != (#[trigger] assoc_remove(s, k)[j]).0,
        !assoc_has_key(assoc_remove(s, k), k),
{
    let r = assoc_remove(s, k);
    if assoc_has_key(s, k) {
        let ci = choose|i: int| 0 <= i < s.len() && (#[trigger] s[i]).0 == k;
        s.remove_ensures(ci);
        assert forall|i: int| 0 <= i < s.len() && (#[trigger] s[i]).0 != k implies r.contains(
            s[i],
        ) by {
            if i < ci {
                assert(r[i] == s[i]);
            } else {
                assert(i != ci);
                assert(r[i - 1] == s[i]);
            }
        }
        assert forall|i: int, j: int|
            0 <= i < r.len() && 0 <= j < r.len() && i != j implies (#[trigger] r[i]).0 != (
        #[trigger] r[j]).0 by {
            let i0: int = if i < ci { i } else { i + 1 };
            let j0: int = if j < ci { j } else { j + 1 };
            assert(r[i] == s[i0] && r[j] == s[j0]);
        }
        if assoc_has_key(r, k) {
            let m = choose|m: int| 0 <= m < r.len() && (#[trigger] r[m]).0 == k;
            let m0: int = if m < ci { m } else { m + 1 };
            assert(s[m0].0 == k && s[ci].0 == k && m0 != ci);
        }
    }
}

/// The empty registry satisfies the invariant.
pub proof fn lemma_empty_wf()
    ensures
        RegistryView::empty().wf(),
{
}

/// Two states with the same participant-side tables classify every
/// handle alike as a participant.
pub proof fn lemma_participant_classification_frame(pre: RegistryView, post: RegistryView)
    requires
        forall|h: u32| #[trigger] post.participant_encrypt_options.contains_key(h)
            <==> #[trigger] pre.participant_encrypt_options.contains_key(h),
        forall|h: u32| #[trigger] post.participant_to_endpoint_info.contains_key(h)
            <==> #[trigger] pre.participant_to_endpoint_info.contains_key(h),
        post.endpoint_to_participant == pre.endpoint_to_participant,
    ensures
        forall|h: u32| #[trigger] post.is_participant_handle(h) <==> pre.is_participant_handle(h),
{
    assert forall|h: u32| #[trigger] post.is_participant_handle(h)
        <==> pre.is_participant_handle(h) by {
        if post.is_participant_handle(h) && !post.participant_encrypt_options.contains_key(h)
            && !post.participant_to_endpoint_info.contains_key(h) {
            let e = choose|e: u32| #[trigger]
                post.endpoint_to_participant.contains_key(e) && post.endpoint_to_participant[e]
                    == h;
            assert(pre.endpoint_to_participant.contains_key(e));
        }
        if pre.is_participant_handle(h) && !pre.participant_encrypt_options.contains_key(h)
            && !pre.participant_to_endpoint_info.contains_key(h) {
            let e = choose|e: u32| #[trigger]
                pre.endpoint_to_participant.contains_key(e) && pre.endpoint_to_participant[e]
                    == h;
            assert(post.endpoint_to_participant.contains_key(e));
        }
    }
}

/// Two states with the same endpoint-side tables classify every handle
/// alike as an endpoint.
pub proof fn lemma_endpoint_classification_frame(pre: RegistryView, post: RegistryView)
    requires
        forall|h: u32| #[trigger] post.endpoint_encrypt_options.contains_key(h)
            <==> #[trigger] pre.endpoint_encrypt_options.contains_key(h),
        forall|h: u32| #[trigger] post.endpoint_to_participant.contains_key(h)
            <==> #[trigger] pre.endpoint_to_participant.contains_key(h),
        post.matched_local_endpoint == pre.matched_local_endpoint,
        post.matched_remote_endpoint == pre.matched_remote_endpoint,
    ensures
        forall|h: u32| #[trigger] post.is_endpoint_handle(h) <==> pre.is_endpoint_handle(h),
{
    assert forall|h: u32| #[trigger] post.is_endpoint_handle(h)
        <==> pre.is_endpoint_handle(h) by {
        if post.is_endpoint_handle(h) {
            if exists|e: u32| #[trigger]
                post.matched_local_endpoint.contains_key(e) && post.matched_local_endpoint[e]
                    == h {
                let e = choose|e: u32| #[trigger]
                    post.matched_local_endpoint.contains_key(e) && post.matched_local_endpoint[e]
                        == h;
                assert(pre.matched_local_endpoint.contains_key(e));
            }
            if exists|l: u32, i: int|
                post.matched_remote_endpoint.contains_key(l) && 0 <= i
                    < post.matched_remote_endpoint[l].len() && (
                #[trigger] post.matched_remote_endpoint[l][i]).1 == h {
                let (l, i) = choose|l: u32, i: int|
                    post.matched_remote_endpoint.contains_key(l) && 0 <= i
                        < post.matched_remote_endpoint[l].len() && (
                    #[trigger] post.matched_remote_endpoint[l][i]).1 == h;
                assert(pre.matched_remote_endpoint.contains_key(l) && 0 <= i
                    < pre.matched_remote_endpoint[l].len() && pre.matched_remote_endpoint[l][i].1
                    == h);
            }
        }
        if pre.is_endpoint_handle(h) {
            if exists|e: u32| #[trigger]
                pre.matched_local_endpoint.contains_key(e) && pre.matched_local_endpoint[e] == h {
                let e = choose|e: u32| #[trigger]
                    pre.matched_local_endpoint.contains_key(e) && pre.matched_local_endpoint[e]
                        == h;
                assert(post.matched_local_endpoint.contains_key(e));
            }
            if exists|l: u32, i: int|
                pre.matched_remote_endpoint.contains_key(l) && 0 <= i
                    < pre.matched_remote_endpoint[l].len() && (
                #[trigger] pre.matched_remote_endpoint[l][i]).1 == h {
                let (l, i) = choose|l: u32, i: int|
                    pre.matched_remote_endpoint.contains_key(l) && 0 <= i
                        < pre.matched_remote_endpoint[l].len() && (
                    #[trigger] pre.matched_remote_endpoint[l][i]).1 == h;
                assert(post.matched_remote_endpoint.contains_key(l) && 0 <= i
                    < post.matched_remote_endpoint[l].len() && post.matched_remote_endpoint[l][i].1
                    == h);
            }
        }
    }
}

/// Two states with the same classification tables classify every
/// handle alike, so I5 carries over between them.
pub proof fn lemma_classification_frame(pre: RegistryView, post: RegistryView)
    requires
        post.participant_encrypt_options == pre.participant_encrypt_options,
        post.participant_to_endpoint_info == pre.participant_to_endpoint_info,
        post.endpoint_encrypt_options == pre.endpoint_encrypt_options,
        post.endpoint_to_participant == pre.endpoint_to_participant,
        post.matched_local_endpoint == pre.matched_local_endpoint,
        post.matched_remote_endpoint == pre.matched_remote_endpoint,
    ensures
        forall|h: u32| #[trigger] post.is_participant_handle(h) <==> pre.is_participant_handle(h),
        forall|h: u32| #[trigger] post.is_endpoint_handle(h) <==> pre.is_endpoint_handle(h),
        pre.inv_no_overlap() ==> post.inv_no_overlap(),
{
    lemma_participant_classification_frame(pre, post);
    lemma_endpoint_classification_frame(pre, post);
}

/// I2 carries over between states with the same matching tables.
pub proof fn lemma_matched_frame(pre: RegistryView, post: RegistryView)
    requires
        pre.inv_matched(),
        post.endpoint_to_participant == pre.endpoint_to_participant,
        post.matched_local_endpoint == pre.matched_local_endpoint,
        post.matched_remote_endpoint == pre.matched_remote_endpoint,
    ensures
        post.inv_matched(),
{
}

/// I3 carries over between states with the same endpoint tables; the
/// encode table may have grown.
pub proof fn lemma_endpoints_frame(pre: RegistryView, post: RegistryView)
    requires
        pre.inv_endpoints(),
        forall|h: u32| #[trigger] pre.encode_key_materials.contains_key(h)
            ==> post.encode_key_materials.contains_key(h),
        post.endpoint_encrypt_options == pre.endpoint_encrypt_options,
        post.endpoint_to_participant == pre.endpoint_to_participant,
        post.participant_to_endpoint_info == pre.participant_to_endpoint_info,
    ensures
        post.inv_endpoints(),
{
}

/// A state that only lost entries classifies fewer handles on both
/// sides, so I5 carries over to it.
pub proof fn lemma_classification_shrink(pre: RegistryView, post: RegistryView)
    requires
        forall|x: u32| #[trigger] post.participant_encrypt_options.contains_key(x)
            ==> pre.participant_encrypt_options.contains_key(x),
        forall|x: u32| #[trigger] post.participant_to_endpoint_info.contains_key(x)
            ==> pre.participant_to_endpoint_info.contains_key(x),
        forall|x: u32| #[trigger] post.endpoint_to_participant.contains_key(x)
            ==> pre.endpoint_to_participant.contains_key(x) && post.endpoint_to_participant[x]
            == pre.endpoint_to_participant[x],
        forall|x: u32| #[trigger] post.endpoint_encrypt_options.contains_key(x)
            ==> pre.endpoint_encrypt_options.contains_key(x),
        forall|x: u32| #[trigger] post.matched_local_endpoint.contains_key(x)
            ==> pre.matched_local_endpoint.contains_key(x) && post.matched_local_endpoint[x]
            == pre.matched_local_endpoint[x],
        forall|l: u32, i: int|
            post.matched_remote_endpoint.contains_key(l) && 0 <= i
                < post.matched_remote_endpoint[l].len()
                ==> pre.matched_remote_endpoint.contains_key(l)
                && pre.matched_remote_endpoint[l].contains(
                #[trigger] post.matched_remote_endpoint[l][i],
            ),
        forall|l: u32| #[trigger] post.matched_remote_endpoint.contains_key(l)
            ==> pre.matched_remote_endpoint.contains_key(l),
    ensures
        forall|x: u32| #[trigger] post.is_participant_handle(x) ==> pre.is_participant_handle(x),
        forall|x: u32| #[trigger] post.is_endpoint_handle(x) ==> pre.is_endpoint_handle(x),
        pre.inv_no_overlap() ==> post.inv_no_overlap(),
{
    assert forall|x: u32| #[trigger] post.is_participant_handle(x)
        implies pre.is_participant_handle(x) by {
        if !post.participant_encrypt_options.contains_key(x)
            && !post.participant_to_endpoint_info.contains_key(x) {
            let e = choose|e: u32| #[trigger]
                post.endpoint_to_participant.contains_key(e) && post.endpoint_to_participant[e]
                    == x;
            assert(pre.endpoint_to_participant.contains_key(e) && pre.endpoint_to_participant[e]
                == x);
        }
    }
    assert forall|x: u32| #[trigger] post.is_endpoint_handle(x)
        implies pre.is_endpoint_handle(x) by {
        if !post.endpoint_encrypt_options.contains_key(x)
            && !post.endpoint_to_participant.contains_key(x)
            && !post.matched_local_endpoint.contains_key(x)
            && !post.matched_remote_endpoint.contains_key(x) {
            if exists|e: u32| #[trigger]
                post.matched_local_endpoint.contains_key(e) && post.matched_local_endpoint[e]
                    == x {
                let e = choose|e: u32| #[trigger]
                    post.matched_local_endpoint.contains_key(e) && post.matched_local_endpoint[e]
                        == x;
                assert(pre.matched_local_endpoint.contains_key(e)
                    && pre.matched_local_endpoint[e] == x);
            } else {
                let (l, i) = choose|l: u32, i: int|
                    post.matched_remote_endpoint.contains_key(l) && 0 <= i
                        < post.matched_remote_endpoint[l].len() && (
                    #[trigger] post.matched_remote_endpoint[l][i]).1 == x;
                let s0 = pre.matched_remote_endpoint[l];
                assert(s0.contains(post.matched_remote_endpoint[l][i]));
                let i0 = choose|i0: int|
                    0 <= i0 < s0.len() && s0[i0] == post.matched_remote_endpoint[l][i];
                assert(pre.matched_remote_endpoint[l][i0].1 == x);
            }
        }
    }
}

/// I1 carries over to a state that only lost entries.
pub proof fn lemma_handles_shrink(pre: RegistryView, post: RegistryView)
    requires
        pre.inv_handles(),
        post.counter == pre.counter,
        forall|x: u32| #[trigger] post.encode_key_materials.contains_key(x)
            ==> pre.encode_key_materials.contains_key(x),
        forall|x: u32| #[trigger] post.decode_key_materials.contains_key(x)
            ==> pre.decode_key_materials.contains_key(x),
        forall|x: u32| #[trigger] post.participant_encrypt_options.contains_key(x)
            ==> pre.participant_encrypt_options.contains_key(x),
        forall|x: u32| #[trigger] post.endpoint_encrypt_options.contains_key(x)
            ==> pre.endpoint_encrypt_options.contains_key(x),
        forall|x: u32| #[trigger] post.participant_to_endpoint_info.contains_key(x)
            ==> pre.participant_to_endpoint_info.contains_key(x),
        forall|x: u32| #[trigger] post.endpoint_to_participant.contains_key(x)
            ==> pre.endpoint_to_participant.contains_key(x) && post.endpoint_to_participant[x]
            == pre.endpoint_to_participant[x],
        forall|x: u32| #[trigger] post.matched_local_endpoint.contains_key(x)
            ==> pre.matched_local_endpoint.contains_key(x) && post.matched_local_endpoint[x]
            == pre.matched_local_endpoint[x],
        forall|l: u32| #[trigger] post.matched_remote_endpoint.contains_key(l)
            ==> pre.matched_remote_endpoint.contains_key(l),
        forall|l: u32, i: int|
            post.matched_remote_endpoint.contains_key(l) && 0 <= i
                < post.matched_remote_endpoint[l].len()
                ==> pre.matched_remote_endpoint[l].contains(
                #[trigger] post.matched_remote_endpoint[l][i],
            ),
        forall|p: u32, i: int|
            post.participant_to_endpoint_info.contains_key(p) && 0 <= i
                < post.participant_to_endpoint_info[p].len()
                ==> pre.participant_to_endpoint_info[p].contains(
                #[trigger] post.participant_to_endpoint_info[p][i],
            ),
    ensures
        post.inv_handles(),
{
    assert forall|h: u32, i: int|
        post.matched_remote_endpoint.contains_key(h) && 0 <= i
            < post.matched_remote_endpoint[h].len() implies post.handle_emitted(
        (#[trigger] post.matched_remote_endpoint[h][i]).0,
    ) && post.handle_emitted(post.matched_remote_endpoint[h][i].1) by {
        let s0 = pre.matched_remote_endpoint[h];
        assert(s0.contains(post.matched_remote_endpoint[h][i]));
        let i0 = choose|i0: int|
            0 <= i0 < s0.len() && s0[i0] == post.matched_remote_endpoint[h][i];
        assert(pre.handle_emitted(pre.matched_remote_endpoint[h][i0].0));
    }
    assert forall|h: u32, i: int|
        post.participant_to_endpoint_info.contains_key(h) && 0 <= i
            < post.participant_to_endpoint_info[h].len() implies post.handle_emitted(
        (#[trigger] post.participant_to_endpoint_info[h][i]).crypto_handle,
    ) by {
        let s0 = pre.participant_to_endpoint_info[h];
        assert(s0.contains(post.participant_to_endpoint_info[h][i]));
        let i0 = choose|i0: int|
            0 <= i0 < s0.len() && s0[i0] == post.participant_to_endpoint_info[h][i];
        assert(pre.handle_emitted(pre.participant_to_endpoint_info[h][i0].crypto_handle));
    }
}

/// I4 carries over between states with the same encode table.
pub proof fn lemma_keymats_frame(pre: RegistryView, post: RegistryView)
    requires
        pre.inv_keymats(),
        post.encode_key_materials == pre.encode_key_materials,
    ensures
        post.inv_keymats(),
{
}

/// The builtin cryptographic plugin state: the handle allocator and the
/// eight registry tables. All mutation goes through the key factory
/// operations, which keep `self@.wf()`.
pub struct CryptographicBuiltin {
    pub(crate) crypto_handle_counter_: u32,
    pub(crate) encode_key_materials_: HashMap<u32, KeyMaterial_AES_GCM_GMAC_seq>,
    pub(crate) decode_key_materials_: HashMap<u32, KeyMaterial_AES_GCM_GMAC_seq>,
    pub(crate) participant_encrypt_options_: HashMap<u32, ParticipantSecurityAttributes>,
    pub(crate) endpoint_encrypt_options_: HashMap<u32, EndpointSecurityAttributes>,
    pub(crate) participant_to_endpoint_info_: HashMap<u32, Vec<EndpointInfo>>,
    pub(crate) endpoint_to_participant_: HashMap<u32, u32>,
    pub(crate) matched_remote_endpoint_: HashMap<u32, Vec<(u32, u32)>>,
    pub(crate) matched_local_endpoint_: HashMap<u32, u32>,
}

/// Lift a map of key material sequences to its view.
pub open spec fn keymat_map_view(m: Map<u32, KeyMaterial_AES_GCM_GMAC_seq>) -> Map<
    u32,
    Seq<KeyMatView>,
> {
    Map::new(|k: u32| m.contains_key(k), |k: u32| m[k]@)
}

/// Lift a map of endpoint info vectors to its view.
pub open spec fn info_map_view(m: Map<u32, Vec<EndpointInfo>>) -> Map<u32, Seq<EndpointInfo>> {
    Map::new(|k: u32| m.contains_key(k), |k: u32| m[k]@)
}

/// Lift a map of association lists to its view.
pub open spec fn assoc_map_view(m: Map<u32, Vec<(u32, u32)>>) -> Map<u32, Seq<(u32, u32)>> {
    Map::new(|k: u32| m.contains_key(k), |k: u32| m[k]@)
}

impl View for CryptographicBuiltin {
    type V = RegistryView;

    open(crate) spec fn view(&self) -> RegistryView {
        RegistryView {
            counter: self.crypto_handle_counter_,
            encode_key_materials: keymat_map_view(self.encode_key_materials_@),
            decode_key_materials: keymat_map_view(self.decode_key_materials_@),
            participant_encrypt_options: self.participant_encrypt_options_@,
            endpoint_encrypt_options: self.endpoint_encrypt_options_@,
            participant_to_endpoint_info: info_map_view(self.participant_to_endpoint_info_@),
            endpoint_to_participant: self.endpoint_to_participant_@,
            matched_remote_endpoint: assoc_map_view(self.matched_remote_endpoint_@),
            matched_local_endpoint: self.matched_local_endpoint_@,
        }
    }
}

impl CryptographicBuiltin {
    /// A fresh registry with no handles issued and all tables empty.
    pub fn new() -> (r: Self)
        ensures
            r@ == RegistryView::empty(),
            r@.wf(),
    {
        let r = CryptographicBuiltin {
            crypto_handle_counter_: 0,
            encode_key_materials_: HashMap::new(),
            decode_key_materials_: HashMap::new(),
            participant_encrypt_options_: HashMap::new(),
            endpoint_encrypt_options_: HashMap::new(),
            participant_to_endpoint_info_: HashMap::new(),
            endpoint_to_participant_: HashMap::new(),
            matched_remote_endpoint_: HashMap::new(),
            matched_local_endpoint_: HashMap::new(),
        };
        proof {
            assert(r@.encode_key_materials =~= Map::<u32, Seq<KeyMatView>>::empty());
            assert(r@.decode_key_materials =~= Map::<u32, Seq<KeyMatView>>::empty());
            assert(r@.participant_to_endpoint_info =~= Map::<u32, Seq<EndpointInfo>>::empty());
            assert(r@.matched_remote_endpoint =~= Map::<u32, Seq<(u32, u32)>>::empty());
            assert(r@ == RegistryView::empty());
        }
        r
    }

    /// Allocate a fresh crypto handle. Handles are strictly monotonic
    /// and never 0: the counter is bumped before it is returned.
    pub fn generate_crypto_handle_(&mut self) -> (r: CryptoHandle)
        requires
            old(self)@.counter < u32::MAX,
        ensures
            r == old(self)@.counter + 1,
            r != 0,
            final(self)@ == (RegistryView { counter: r, ..old(self)@ }),
    {
        self.crypto_handle_counter_ += 1;
        let r = self.crypto_handle_counter_;
        proof {
            assert(final(self)@ == RegistryView { counter: r, ..old(self)@ });
        }
        r
    }

    /// The encode key material registered for `handle`, or
    /// `UnknownHandle` if there is none.
    pub fn get_encode_key_materials_(&self, handle: &CryptoHandle) -> (r: Result<
        &KeyMaterial_AES_GCM_GMAC_seq,
        SecurityError,
    >)
        ensures
            match r {
                Ok(s) => self@.encode_key_materials.contains_key(*handle)
                    && self@.encode_key_materials[*handle] == s@,
                Err(e) => !self@.encode_key_materials.contains_key(*handle) && e
                    == SecurityError::UnknownHandle(*handle),
            },
    {
        match self.encode_key_materials_.get(handle) {
            Some(s) => Ok(s),
            None => Err(SecurityError::UnknownHandle(*handle)),
        }
    }

    /// The decode key material registered for `handle`, if any.
    pub fn get_decode_key_materials_(&self, handle: &CryptoHandle) -> (r: Option<
        &KeyMaterial_AES_GCM_GMAC_seq,
    >)
        ensures
            match r {
                Some(s) => self@.decode_key_materials.contains_key(*handle)
                    && self@.decode_key_materials[*handle] == s@,
                None => !self@.decode_key_materials.contains_key(*handle),
            },
    {
        self.decode_key_materials_.get(handle)
    }

    /// The security attributes recorded for participant `handle`.
    pub fn participant_encrypt_options_of(&self, handle: &CryptoHandle) -> (r: Option<
        ParticipantSecurityAttributes,
    >)
        ensures
            match r {
                Some(a) => self@.participant_encrypt_options.contains_key(*handle)
                    && self@.participant_encrypt_options[*handle] == a,
                None => !self@.participant_encrypt_options.contains_key(*handle),
            },
    {
        match self.participant_encrypt_options_.get(handle) {
            Some(a) => Some(*a),
            None => None,
        }
    }

    /// The security attributes recorded for endpoint `handle`.
    pub fn endpoint_encrypt_options_of(&self, handle: &CryptoHandle) -> (r: Option<
        EndpointSecurityAttributes,
    >)
        ensures
            match r {
                Some(a) => self@.endpoint_encrypt_options.contains_key(*handle)
                    && self@.endpoint_encrypt_options[*handle] == a,
                None => !self@.endpoint_encrypt_options.contains_key(*handle),
            },
    {
        match self.endpoint_encrypt_options_.get(handle) {
            Some(a) => Some(*a),
            None => None,
        }
    }

    /// The endpoint infos recorded under participant `handle`.
    pub fn participant_endpoint_info_of(&self, handle: &CryptoHandle) -> (r: Option<
        &Vec<EndpointInfo>,
    >)
        ensures
            match r {
                Some(v) => self@.participant_to_endpoint_info.contains_key(*handle)
                    && self@.participant_to_endpoint_info[*handle] == v@,
                None => !self@.participant_to_endpoint_info.contains_key(*handle),
            },
    {
        self.participant_to_endpoint_info_.get(handle)
    }

    /// The participant an endpoint belongs to, if recorded.
    pub fn endpoint_to_participant_of(&self, handle: &CryptoHandle) -> (r: Option<CryptoHandle>)
        ensures
            match r {
                Some(p) => self@.endpoint_to_participant.contains_key(*handle)
                    && self@.endpoint_to_participant[*handle] == p,
                None => !self@.endpoint_to_participant.contains_key(*handle),
            },
    {
        match self.endpoint_to_participant_.get(handle) {
            Some(p) => Some(*p),
            None => None,
        }
    }

    /// The remote endpoint handle matched for `(local, remote
    /// participant)`, if one was generated.
    pub fn matched_remote_endpoint_of(&self, local: &CryptoHandle, remote_participant: &CryptoHandle) -> (r: Option<CryptoHandle>)
        requires
            self@.wf(),
        ensures
            match r {
                Some(re) => self@.matched_remote_endpoint.contains_key(*local) && assoc_has_key(
                    self@.matched_remote_endpoint[*local],
                    *remote_participant,
                ) && assoc_get(self@.matched_remote_endpoint[*local], *remote_participant) == re,
                None => !self@.matched_remote_endpoint.contains_key(*local) || !assoc_has_key(
                    self@.matched_remote_endpoint[*local],
                    *remote_participant,
                ),
            },
    {
        match self.matched_remote_endpoint_.get(local) {
            Some(entries) => {
                let mut i: usize = 0;
                while i < entries.len()
                    invariant
                        0 <= i <= entries.len(),
                        self@.wf(),
                        self@.matched_remote_endpoint.contains_key(*local),
                        entries@ == self@.matched_remote_endpoint[*local],
                        forall|j: int| 0 <= j < i ==> (#[trigger] entries@[j]).0
                            != *remote_participant,
                    decreases entries.len() - i,
                {
                    if entries[i].0 == *remote_participant {
                        proof {
                            let s = self@.matched_remote_endpoint[*local];
                            assert(s == entries@);
                            let ci = choose|j: int| 0 <= j < s.len() && (#[trigger] s[j]).0
                                == *remote_participant;
                            assert(s[ci].0 == *remote_participant);
                            assert(ci == i as int);
                        }
                        return Some(entries[i].1);
                    }
                    i += 1;
                }
                None
            },
            None => None,
        }
    }

    /// The local endpoint a remote endpoint is matched to, if any.
    pub fn matched_local_endpoint_of(&self, handle: &CryptoHandle) -> (r: Option<CryptoHandle>)
        ensures
            match r {
                Some(l) => self@.matched_local_endpoint.contains_key(*handle)
                    && self@.matched_local_endpoint[*handle] == l,
                None => !self@.matched_local_endpoint.contains_key(*handle),
            },
    {
        match self.matched_local_endpoint_.get(handle) {
            Some(l) => Some(*l),
            None => None,
        }
    }
}

} // verus!
