//! The big-endian CDR codec for key material records and for the
//! one-or-two-record key material sequence.
//!
//! A record is laid out as: the four-octet transformation-kind tag,
//! then the three variable octet fields (`master_salt`,
//! `master_sender_key`, `master_receiver_specific_key`), each written
//! as a four-octet length prefix, the octets, and zero padding up to
//! the next four-octet boundary, with the two key ids as four-octet
//! big-endian integers between them. A sequence is a four-octet count
//! followed by the records.

use vstd::prelude::*;

use crate::error::SecurityError;
use crate::keymat::{KeyMatView, KeyMaterial_AES_GCM_GMAC, KeyMaterial_AES_GCM_GMAC_seq};
use crate::transformation::BuiltinCryptoTransformationKind;
use crate::wire::{be32, lemma_be32_roundtrip, push_u32_be, read_u32_be, u32_be};

verus! {

/// Zero padding up to the next four-octet boundary after `n` octets.
pub open spec fn pad4(n: int) -> int {
    (4 - n % 4) % 4
}

/// A run of zero octets.
pub open spec fn zeros(n: int) -> Seq<u8> {
    Seq::new(n as nat, |i: int| 0u8)
}

/// The CDR form of a variable octet field: length prefix, octets,
/// padding.
pub open spec fn octets_bytes(b: Seq<u8>) -> Seq<u8> {
    u32_be(b.len() as u32) + b + zeros(pad4(b.len() as int))
}

/// Whether a record's octet fields fit their 32-bit length prefixes.
pub open spec fn keymat_fits(k: KeyMatView) -> bool {
    &&& k.master_salt.len() <= u32::MAX
    &&& k.master_sender_key.len() <= u32::MAX
    &&& k.master_receiver_specific_key.len() <= u32::MAX
}

/// The CDR form of a key material record.
pub open spec fn keymat_bytes(k: KeyMatView) -> Seq<u8> {
    k.transformation_kind.spec_tag() + octets_bytes(k.master_salt) + u32_be(k.sender_key_id)
        + octets_bytes(k.master_sender_key) + u32_be(k.receiver_specific_key_id) + octets_bytes(
        k.master_receiver_specific_key,
    )
}

/// The CDR form of a key material sequence of one or two records.
pub open spec fn keymat_seq_bytes(s: Seq<KeyMatView>) -> Seq<u8> {
    if s.len() == 1 {
        u32_be(1) + keymat_bytes(s[0])
    } else {
        u32_be(2) + keymat_bytes(s[0]) + keymat_bytes(s[1])
    }
}

/// The 32-bit big-endian value at position `i`; meaningful when
/// `i + 4 <= s.len()`.
pub open spec fn take_u32(s: Seq<u8>, i: int) -> int {
    be32(s[i], s[i + 1], s[i + 2], s[i + 3])
}

/// Parse a length-prefixed, padded octet field at position `i`.
pub open spec fn parse_octets(s: Seq<u8>, i: int) -> Option<(Seq<u8>, int)> {
    if i + 4 <= s.len() {
        let l = take_u32(s, i);
        let end = i + 4 + l + pad4(l);
        if end <= s.len() {
            Some((s.subrange(i + 4, i + 4 + l), end))
        } else {
            None
        }
    } else {
        None
    }
}

/// The kind whose tag value is `v`; meaningful for `v <= 4`.
pub open spec fn kind_of_tag_value(v: u8) -> BuiltinCryptoTransformationKind {
    if v == 0 {
        BuiltinCryptoTransformationKind::CRYPTO_TRANSFORMATION_KIND_NONE
    } else if v == 1 {
        BuiltinCryptoTransformationKind::CRYPTO_TRANSFORMATION_KIND_AES128_GMAC
    } else if v == 2 {
        BuiltinCryptoTransformationKind::CRYPTO_TRANSFORMATION_KIND_AES128_GCM
    } else if v == 3 {
        BuiltinCryptoTransformationKind::CRYPTO_TRANSFORMATION_KIND_AES256_GMAC
    } else {
        BuiltinCryptoTransformationKind::CRYPTO_TRANSFORMATION_KIND_AES256_GCM
    }
}

/// Parse a transformation-kind tag at position `i`.
pub open spec fn parse_kind(s: Seq<u8>, i: int) -> Option<(BuiltinCryptoTransformationKind, int)> {
    if i + 4 <= s.len() && s[i] == 0 && s[i + 1] == 0 && s[i + 2] == 0 && s[i + 3] <= 4 {
        Some((kind_of_tag_value(s[i + 3]), i + 4))
    } else {
        None
    }
}

/// Parse one key material record at position `i`.
pub open spec fn parse_keymat_at(s: Seq<u8>, i: int) -> Option<(KeyMatView, int)> {
    match parse_kind(s, i) {
        None => None,
        Some((kind, i1)) => match parse_octets(s, i1) {
            None => None,
            Some((salt, i2)) => if i2 + 4 <= s.len() {
                match parse_octets(s, i2 + 4) {
                    None => None,
                    Some((skey, i3)) => if i3 + 4 <= s.len() {
                        match parse_octets(s, i3 + 4) {
                            None => None,
                            Some((rkey, i4)) => Some(
                                (
                                    KeyMatView {
                                        transformation_kind: kind,
                                        master_salt: salt,
                                        sender_key_id: take_u32(s, i2) as u32,
                                        master_sender_key: skey,
                                        receiver_specific_key_id: take_u32(s, i3) as u32,
                                        master_receiver_specific_key: rkey,
                                    },
                                    i4,
                                ),
                            ),
                        }
                    } else {
                        None
                    },
                }
            } else {
                None
            },
        },
    }
}

/// Parse a whole buffer as one key material record.
pub open spec fn parse_keymat(s: Seq<u8>) -> Option<KeyMatView> {
    match parse_keymat_at(s, 0) {
        Some((k, end)) => if end == s.len() {
            Some(k)
        } else {
            None
        },
        None => None,
    }
}

/// Parse a whole buffer as a key material sequence of one or two
/// records.
pub open spec fn parse_keymat_seq(s: Seq<u8>) -> Option<Seq<KeyMatView>> {
    if s.len() >= 4 {
        let n = take_u32(s, 0);
        if n == 1 {
            match parse_keymat_at(s, 4) {
                Some((k, end)) => if end == s.len() {
                    Some(seq![k])
                } else {
                    None
                },
                None => None,
            }
        } else if n == 2 {
            match parse_keymat_at(s, 4) {
                Some((k1, e1)) => match parse_keymat_at(s, e1) {
                    Some((k2, e2)) => if e2 == s.len() {
                        Some(seq![k1, k2])
                    } else {
                        None
                    },
                    None => None,
                },
                None => None,
            }
        } else {
            None
        }
    } else {
        None
    }
}

/// A field encoded by `octets_bytes` parses back to itself.
pub proof fn lemma_parse_octets_at(s: Seq<u8>, i: int, b: Seq<u8>)
    requires
        0 <= i,
        b.len() <= u32::MAX,
        i + octets_bytes(b).len() <= s.len(),
        s.subrange(i, i + octets_bytes(b).len()) == octets_bytes(b),
    ensures
        parse_octets(s, i) == Some((b, i + octets_bytes(b).len())),
{
    let ob = octets_bytes(b);
    let l = b.len() as int;
    assert(ob.len() == 4 + l + pad4(l));
    assert forall|j: int| 0 <= j < ob.len() implies s[i + j] == ob[j] by {
        assert(s.subrange(i, i + ob.len())[j] == s[i + j]);
    }
    lemma_be32_roundtrip(b.len() as u32);
    assert(ob[0] == u32_be(b.len() as u32)[0]);
    assert(ob[1] == u32_be(b.len() as u32)[1]);
    assert(ob[2] == u32_be(b.len() as u32)[2]);
    assert(ob[3] == u32_be(b.len() as u32)[3]);
    assert(take_u32(s, i) == l);
    assert(s.subrange(i + 4, i + 4 + l) =~= b) by {
        assert forall|j: int| 0 <= j < l implies s.subrange(i + 4, i + 4 + l)[j] == b[j] by {
            assert(s[i + 4 + j] == ob[4 + j]);
            assert(ob[4 + j] == b[j]);
        }
    }
}

/// A record encoded by `keymat_bytes` parses back to itself at any
/// position.
#[verifier::rlimit(80)]
pub proof fn lemma_parse_keymat_at(s: Seq<u8>, i: int, k: KeyMatView)
    requires
        0 <= i,
        keymat_fits(k),
        i + keymat_bytes(k).len() <= s.len(),
        s.subrange(i, i + keymat_bytes(k).len()) == keymat_bytes(k),
    ensures
        parse_keymat_at(s, i) == Some((k, i + keymat_bytes(k).len())),
{
    let kb = keymat_bytes(k);
    let tag = k.transformation_kind.spec_tag();
    let o1 = octets_bytes(k.master_salt);
    let id1 = u32_be(k.sender_key_id);
    let o2 = octets_bytes(k.master_sender_key);
    let id2 = u32_be(k.receiver_specific_key_id);
    let o3 = octets_bytes(k.master_receiver_specific_key);
    assert(kb.len() == 4 + o1.len() + 4 + o2.len() + 4 + o3.len());
    assert forall|j: int| 0 <= j < kb.len() implies s[i + j] == kb[j] by {
        assert(s.subrange(i, i + kb.len())[j] == s[i + j]);
    }
    // The tag.
    assert(kb[0] == tag[0] && kb[1] == tag[1] && kb[2] == tag[2] && kb[3] == tag[3]);
    assert(s[i + 0] == kb[0] && s[i + 1] == kb[1] && s[i + 2] == kb[2] && s[i + 3] == kb[3]);
    assert(s[i] == tag[0] && s[i + 1] == tag[1] && s[i + 2] == tag[2] && s[i + 3] == tag[3]);
    assert(parse_kind(s, i) == Some((k.transformation_kind, i + 4))) by {
        assert(kind_of_tag_value(k.transformation_kind.spec_tag_value())
            == k.transformation_kind);
    }
    // The salt.
    let p1 = i + 4;
    assert(s.subrange(p1, p1 + o1.len()) =~= o1) by {
        assert forall|j: int| 0 <= j < o1.len() implies s.subrange(p1, p1 + o1.len())[j]
            == o1[j] by {
            assert(s[p1 + j] == kb[4 + j]);
            assert(kb[4 + j] == o1[j]);
        }
    }
    lemma_parse_octets_at(s, p1, k.master_salt);
    // The sender key id.
    let p2 = p1 + o1.len();
    lemma_be32_roundtrip(k.sender_key_id);
    assert(s[p2] == id1[0] && s[p2 + 1] == id1[1] && s[p2 + 2] == id1[2] && s[p2 + 3] == id1[3])
        by {
        assert(kb[p2 - i] == id1[0]);
        assert(kb[p2 - i + 1] == id1[1]);
        assert(kb[p2 - i + 2] == id1[2]);
        assert(kb[p2 - i + 3] == id1[3]);
    }
    assert(take_u32(s, p2) == k.sender_key_id);
    // The sender key.
    let p3 = p2 + 4;
    assert(s.subrange(p3, p3 + o2.len()) =~= o2) by {
        assert forall|j: int| 0 <= j < o2.len() implies s.subrange(p3, p3 + o2.len())[j]
            == o2[j] by {
            assert(s[p3 + j] == kb[p3 - i + j]);
            assert(kb[p3 - i + j] == o2[j]);
        }
    }
    lemma_parse_octets_at(s, p3, k.master_sender_key);
    // The receiver-specific key id.
    let p4 = p3 + o2.len();
    lemma_be32_roundtrip(k.receiver_specific_key_id);
    assert(s[p4] == id2[0] && s[p4 + 1] == id2[1] && s[p4 + 2] == id2[2] && s[p4 + 3] == id2[3])
        by {
        assert(kb[p4 - i] == id2[0]);
        assert(kb[p4 - i + 1] == id2[1]);
        assert(kb[p4 - i + 2] == id2[2]);
        assert(kb[p4 - i + 3] == id2[3]);
    }
    assert(take_u32(s, p4) == k.receiver_specific_key_id);
    // The receiver-specific key.
    let p5 = p4 + 4;
    assert(s.subrange(p5, p5 + o3.len()) =~= o3) by {
        assert forall|j: int| 0 <= j < o3.len() implies s.subrange(p5, p5 + o3.len())[j]
            == o3[j] by {
            assert(s[p5 + j] == kb[p5 - i + j]);
            assert(kb[p5 - i + j] == o3[j]);
        }
    }
    lemma_parse_octets_at(s, p5, k.master_receiver_specific_key);
    assert(p5 + o3.len() == i + kb.len());
}

/// R1 for a single record: decoding an encoded record gives the record
/// back.
pub proof fn lemma_keymat_roundtrip(k: KeyMatView)
    requires
        keymat_fits(k),
    ensures
        parse_keymat(keymat_bytes(k)) == Some(k),
{
    let s = keymat_bytes(k);
    assert(s.subrange(0, s.len() as int) =~= s);
    lemma_parse_keymat_at(s, 0, k);
}

/// A record encoded between a prefix and a suffix parses back to
/// itself at the prefix's end.
#[verifier::rlimit(100)]
#[verifier::spinoff_prover]
pub proof fn lemma_parse_keymat_shift(prefix: Seq<u8>, k: KeyMatView, suffix: Seq<u8>)
    requires
        keymat_fits(k),
    ensures
        parse_keymat_at(prefix + keymat_bytes(k) + suffix, prefix.len() as int) == Some(
            (k, prefix.len() as int + keymat_bytes(k).len() as int),
        ),
{
    let s = prefix + keymat_bytes(k) + suffix;
    let kb = keymat_bytes(k);
    let i = prefix.len() as int;
    assert(s.subrange(i, i + kb.len() as int) =~= kb) by {
        assert forall|j: int| 0 <= j < kb.len() implies s.subrange(i, i + kb.len() as int)[j]
            == kb[j] by {
            assert(s[i + j] == kb[j]);
        }
    }
    lemma_parse_keymat_at(s, i, k);
}

/// R1 for a one-record sequence.
#[verifier::rlimit(100)]
#[verifier::spinoff_prover]
pub proof fn lemma_keymat_seq_roundtrip_one(k: KeyMatView)
    requires
        keymat_fits(k),
    ensures
        parse_keymat_seq(keymat_seq_bytes(seq![k])) == Some(seq![k]),
{
    let ks = seq![k];
    let s = keymat_seq_bytes(ks);
    lemma_be32_roundtrip(1);
    assert(take_u32(s, 0) == 1);
    let kb = keymat_bytes(k);
    let empty = Seq::<u8>::empty();
    assert(s =~= u32_be(1) + kb + empty);
    lemma_parse_keymat_shift(u32_be(1), k, empty);
    assert(parse_keymat_at(s, 4) == Some((k, s.len() as int)));
}

/// R1 for a two-record sequence.
#[verifier::rlimit(100)]
#[verifier::spinoff_prover]
pub proof fn lemma_keymat_seq_roundtrip_two(k1: KeyMatView, k2: KeyMatView)
    requires
        keymat_fits(k1),
        keymat_fits(k2),
    ensures
        parse_keymat_seq(keymat_seq_bytes(seq![k1, k2])) == Some(seq![k1, k2]),
{
    let ks = seq![k1, k2];
    let s = keymat_seq_bytes(ks);
    lemma_be32_roundtrip(2);
    assert(take_u32(s, 0) == 2);
    let kb1 = keymat_bytes(k1);
    let kb2 = keymat_bytes(k2);
    let empty = Seq::<u8>::empty();
    assert(s =~= u32_be(2) + kb1 + kb2);
    lemma_parse_keymat_shift(u32_be(2), k1, kb2);
    assert(parse_keymat_at(s, 4) == Some((k1, 4 + kb1.len() as int)));
    let e1 = 4 + kb1.len() as int;
    assert(s =~= (u32_be(2) + kb1) + kb2 + empty);
    lemma_parse_keymat_shift(u32_be(2) + kb1, k2, empty);
    assert(parse_keymat_at(s, e1) == Some((k2, s.len() as int)));
}

/// R1 for sequences of one or two records.
#[verifier::rlimit(100)]
#[verifier::spinoff_prover]
pub proof fn lemma_keymat_seq_roundtrip(ks: Seq<KeyMatView>)
    requires
        1 <= ks.len() <= 2,
        forall|i: int| 0 <= i < ks.len() ==> keymat_fits(#[trigger] ks[i]),
    ensures
        parse_keymat_seq(keymat_seq_bytes(ks)) == Some(ks),
{
    if ks.len() == 1 {
        assert(ks =~= seq![ks[0]]);
        lemma_keymat_seq_roundtrip_one(ks[0]);
    } else {
        assert(ks =~= seq![ks[0], ks[1]]);
        lemma_keymat_seq_roundtrip_two(ks[0], ks[1]);
    }
}

/// Append a length-prefixed, padded octet field.
fn push_octets(out: &mut Vec<u8>, b: &Vec<u8>)
    requires
        b@.len() <= u32::MAX,
    ensures
        final(out)@ == old(out)@ + octets_bytes(b@),
{
    let len = b.len();
    push_u32_be(out, len as u32);
    let mut j: usize = 0;
    while j < len
        invariant
            0 <= j <= len,
            len == b@.len(),
            out@ == old(out)@ + u32_be(len as u32) + b@.subrange(0, j as int),
        decreases len - j,
    {
        out.push(b[j]);
        assert(out@ =~= old(out)@ + u32_be(len as u32) + b@.subrange(0, j + 1));
        j += 1;
    }
    assert(b@.subrange(0, len as int) =~= b@);
    let pad: usize = (4 - len % 4) % 4;
    let mut m: usize = 0;
    while m < pad
        invariant
            0 <= m <= pad,
            pad == pad4(b@.len() as int),
            out@ == old(out)@ + u32_be(b@.len() as u32) + b@ + zeros(m as int),
        decreases pad - m,
    {
        out.push(0);
        assert(out@ =~= old(out)@ + u32_be(b@.len() as u32) + b@ + zeros(m + 1));
        m += 1;
    }
    assert(out@ =~= old(out)@ + octets_bytes(b@));
}

impl KeyMaterial_AES_GCM_GMAC {
    /// The big-endian CDR form of this record. Fails with
    /// `SerializationFailure` carrying the offending length exactly
    /// when an octet field is longer than its 32-bit prefix can say.
    pub fn to_bytes(&self) -> (r: Result<Vec<u8>, SecurityError>)
        ensures
            r is Ok <==> keymat_fits(self@),
            r matches Ok(v) ==> v@ == keymat_bytes(self@),
            r is Err ==> r matches Err(SecurityError::SerializationFailure(_)),
    {
        if self.master_salt.len() > u32::MAX as usize {
            return Err(SecurityError::SerializationFailure(self.master_salt.len()));
        }
        if self.master_sender_key.len() > u32::MAX as usize {
            return Err(SecurityError::SerializationFailure(self.master_sender_key.len()));
        }
        if self.master_receiver_specific_key.len() > u32::MAX as usize {
            return Err(
                SecurityError::SerializationFailure(self.master_receiver_specific_key.len()),
            );
        }
        let mut out: Vec<u8> = Vec::new();
        let tag = self.transformation_kind.tag();
        out.push(tag[0]);
        out.push(tag[1]);
        out.push(tag[2]);
        out.push(tag[3]);
        assert(out@ =~= self@.transformation_kind.spec_tag());
        push_octets(&mut out, &self.master_salt);
        push_u32_be(&mut out, self.sender_key_id);
        push_octets(&mut out, &self.master_sender_key);
        push_u32_be(&mut out, self.receiver_specific_key_id);
        push_octets(&mut out, &self.master_receiver_specific_key);
        assert(out@ =~= keymat_bytes(self@));
        Ok(out)
    }
}

/// Read a length-prefixed, padded octet field at `pos`, mirroring
/// `parse_octets`.
#[verifier::loop_isolation(false)]
fn read_octets(data: &[u8], pos: usize) -> (r: Result<(Vec<u8>, usize), SecurityError>)
    ensures
        r matches Ok(p) ==> parse_octets(data@, pos as int) == Some((p.0@, p.1 as int)),
        r is Err ==> parse_octets(data@, pos as int) is None,
        r matches Ok(p) ==> pos < p.1 <= data@.len(),
{
    if pos > data.len() || data.len() - pos < 4 {
        return Err(SecurityError::SerializationFailure(pos));
    }
    let l32 = read_u32_be(data[pos], data[pos + 1], data[pos + 2], data[pos + 3]);
    let l = l32 as usize;
    let rest = data.len() - (pos + 4);
    if l > rest {
        return Err(SecurityError::SerializationFailure(pos));
    }
    let pad: usize = (4 - l % 4) % 4;
    if pad > rest - l {
        return Err(SecurityError::SerializationFailure(pos));
    }
    let mut b: Vec<u8> = Vec::new();
    let mut j: usize = 0;
    while j < l
        invariant
            0 <= j <= l,
            pos + 4 + l <= data@.len(),
            b@ == data@.subrange(pos + 4, pos + 4 + j),
        decreases l - j,
    {
        b.push(data[pos + 4 + j]);
        assert(b@ =~= data@.subrange(pos + 4, pos + 4 + j + 1));
        j += 1;
    }
    let end = pos + 4 + l + pad;
    proof {
        assert(take_u32(data@, pos as int) == l);
        assert(pad == pad4(l as int));
        assert(parse_octets(data@, pos as int) == Some(
            (data@.subrange(pos + 4, pos + 4 + l), end as int),
        ));
    }
    Ok((b, end))
}

/// Read a transformation-kind tag at `pos`, mirroring `parse_kind`.
fn read_kind(data: &[u8], pos: usize) -> (r: Result<
    (BuiltinCryptoTransformationKind, usize),
    SecurityError,
>)
    ensures
        r matches Ok(p) ==> parse_kind(data@, pos as int) == Some((p.0, p.1 as int)),
        r is Err ==> parse_kind(data@, pos as int) is None,
        r matches Ok(p) ==> p.1 == pos + 4,
        r is Err && pos + 4 <= data@.len() ==> r == Err::<
            (BuiltinCryptoTransformationKind, usize),
            _,
        >(
            SecurityError::InvalidTransformationKind(
                [data@[pos as int], data@[pos as int + 1], data@[pos as int + 2], data@[pos as int
                    + 3]],
            ),
        ),
{
    if pos > data.len() || data.len() - pos < 4 {
        return Err(SecurityError::SerializationFailure(pos));
    }
    let tag: [u8; 4] = [data[pos], data[pos + 1], data[pos + 2], data[pos + 3]];
    match BuiltinCryptoTransformationKind::try_from_tag(tag) {
        Ok(kind) => {
            proof {
                assert(tag@[0] == 0 && tag@[1] == 0 && tag@[2] == 0 && tag@[3] <= 4);
                assert(kind_of_tag_value(kind.spec_tag_value()) == kind);
            }
            Ok((kind, pos + 4))
        },
        Err(e) => {
            proof {
                if data@[pos as int] == 0 && data@[pos as int + 1] == 0 && data@[pos as int + 2]
                    == 0 && data@[pos as int + 3] <= 4 {
                    let k = kind_of_tag_value(data@[pos as int + 3]);
                    assert(tag@ =~= k.spec_tag());
                }
            }
            Err(e)
        },
    }
}

/// Parse one record at `pos`, mirroring `parse_keymat_at`.
fn read_keymat(data: &[u8], pos: usize) -> (r: Result<
    (KeyMaterial_AES_GCM_GMAC, usize),
    SecurityError,
>)
    ensures
        r matches Ok(p) ==> parse_keymat_at(data@, pos as int) == Some((p.0@, p.1 as int)),
        r is Err ==> parse_keymat_at(data@, pos as int) is None,
        r matches Ok(p) ==> pos < p.1 <= data@.len(),
        pos + 4 <= data@.len() && parse_kind(data@, pos as int) is None ==> r == Err::<
            (KeyMaterial_AES_GCM_GMAC, usize),
            _,
        >(
            SecurityError::InvalidTransformationKind(
                [data@[pos as int], data@[pos as int + 1], data@[pos as int + 2], data@[pos as int
                    + 3]],
            ),
        ),
{
    let (kind, i1) = match read_kind(data, pos) {
        Ok(p) => p,
        Err(e) => {
            return Err(e);
        },
    };
    let (salt, i2) = match read_octets(data, i1) {
        Ok(p) => p,
        Err(e) => {
            return Err(e);
        },
    };
    if data.len() - i2 < 4 {
        return Err(SecurityError::SerializationFailure(i2));
    }
    let sender_key_id = read_u32_be(data[i2], data[i2 + 1], data[i2 + 2], data[i2 + 3]);
    let (skey, i3) = match read_octets(data, i2 + 4) {
        Ok(p) => p,
        Err(e) => {
            return Err(e);
        },
    };
    if data.len() - i3 < 4 {
        return Err(SecurityError::SerializationFailure(i3));
    }
    let receiver_specific_key_id = read_u32_be(
        data[i3],
        data[i3 + 1],
        data[i3 + 2],
        data[i3 + 3],
    );
    let (rkey, i4) = match read_octets(data, i3 + 4) {
        Ok(p) => p,
        Err(e) => {
            return Err(e);
        },
    };
    let record = KeyMaterial_AES_GCM_GMAC {
        transformation_kind: kind,
        master_salt: salt,
        sender_key_id,
        master_sender_key: skey,
        receiver_specific_key_id,
        master_receiver_specific_key: rkey,
    };
    Ok((record, i4))
}

impl KeyMaterial_AES_GCM_GMAC {
    /// Decode one record from its big-endian CDR form. Succeeds exactly
    /// on buffers that parse as a whole record; an unknown
    /// transformation-kind tag gives `InvalidTransformationKind`, any
    /// other malformation `SerializationFailure`.
    pub fn try_from_bytes(data: &[u8]) -> (r: Result<KeyMaterial_AES_GCM_GMAC, SecurityError>)
        ensures
            r matches Ok(k) ==> parse_keymat(data@) == Some(k@),
            r is Err ==> parse_keymat(data@) is None,
            data@.len() >= 4 && parse_kind(data@, 0) is None ==> r == Err::<
                KeyMaterial_AES_GCM_GMAC,
                _,
            >(SecurityError::InvalidTransformationKind([data@[0], data@[1], data@[2], data@[3]])),
    {
        let (record, end) = match read_keymat(data, 0) {
            Ok(p) => p,
            Err(e) => {
                return Err(e);
            },
        };
        if end != data.len() {
            return Err(SecurityError::SerializationFailure(end));
        }
        Ok(record)
    }
}

impl KeyMaterial_AES_GCM_GMAC_seq {
    /// The big-endian CDR form of this sequence: the record count, then
    /// the records.
    #[verifier::rlimit(100)]
    pub fn to_bytes(&self) -> (r: Result<Vec<u8>, SecurityError>)
        ensures
            r is Ok <==> (forall|i: int| 0 <= i < self@.len() ==> keymat_fits(#[trigger] self@[i])),
            r matches Ok(v) ==> v@ == keymat_seq_bytes(self@),
            r is Err ==> r matches Err(SecurityError::SerializationFailure(_)),
    {
        match self {
            KeyMaterial_AES_GCM_GMAC_seq::One(k) => {
                let mut out: Vec<u8> = Vec::new();
                push_u32_be(&mut out, 1);
                let kb = match k.to_bytes() {
                    Ok(v) => v,
                    Err(e) => {
                        assert(!keymat_fits(self@[0]));
                        return Err(e);
                    },
                };
                let mut kb = kb;
                out.append(&mut kb);
                assert(out@ =~= keymat_seq_bytes(self@));
                Ok(out)
            },
            KeyMaterial_AES_GCM_GMAC_seq::Two(k1, k2) => {
                let mut out: Vec<u8> = Vec::new();
                push_u32_be(&mut out, 2);
                let kb1 = match k1.to_bytes() {
                    Ok(v) => v,
                    Err(e) => {
                        assert(!keymat_fits(self@[0]));
                        return Err(e);
                    },
                };
                let mut kb1 = kb1;
                out.append(&mut kb1);
                let kb2 = match k2.to_bytes() {
                    Ok(v) => v,
                    Err(e) => {
                        assert(!keymat_fits(self@[1]));
                        return Err(e);
                    },
                };
                let mut kb2 = kb2;
                out.append(&mut kb2);
                assert(out@ =~= keymat_seq_bytes(self@));
                Ok(out)
            },
        }
    }

    /// Decode a sequence of one or two records from its big-endian CDR
    /// form. Succeeds exactly on buffers that parse as a whole
    /// sequence.
    pub fn try_from_bytes(data: &[u8]) -> (r: Result<KeyMaterial_AES_GCM_GMAC_seq, SecurityError>)
        ensures
            r matches Ok(s) ==> parse_keymat_seq(data@) == Some(s@),
            r is Err ==> parse_keymat_seq(data@) is None,
    {
        if data.len() < 4 {
            return Err(SecurityError::SerializationFailure(0));
        }
        let n = read_u32_be(data[0], data[1], data[2], data[3]);
        if n == 1 {
            let (k, end) = match read_keymat(data, 4) {
                Ok(p) => p,
                Err(e) => {
                    return Err(e);
                },
            };
            if end != data.len() {
                return Err(SecurityError::SerializationFailure(end));
            }
            let r = KeyMaterial_AES_GCM_GMAC_seq::One(k);
            assert(r@ =~= seq![k@]);
            Ok(r)
        } else if n == 2 {
            let (k1, e1) = match read_keymat(data, 4) {
                Ok(p) => p,
                Err(e) => {
                    return Err(e);
                },
            };
            let (k2, e2) = match read_keymat(data, e1) {
                Ok(p) => p,
                Err(e) => {
                    return Err(e);
                },
            };
            if e2 != data.len() {
                return Err(SecurityError::SerializationFailure(e2));
            }
            let r = KeyMaterial_AES_GCM_GMAC_seq::Two(k1, k2);
            assert(r@ =~= seq![k1@, k2@]);
            Ok(r)
        } else {
            Err(SecurityError::SerializationFailure(0))
        }
    }
}

} // verus!
