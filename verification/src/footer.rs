//! The crypto footer (section 9.5.2.5): a 16-octet common MAC followed
//! by a big-endian CDR sequence of receiver-specific MAC records, each
//! a 4-octet key id plus a 16-octet MAC, and its byte codec.

use vstd::prelude::*;

use crate::error::SecurityError;
use crate::wire::{be32, lemma_be32_roundtrip, push_u32_be, read_u32_be, u32_be};
use crate::CryptoTransformKeyId;

verus! {

/// ReceiverSpecificMAC type from section 9.5.2.5 of the Security
/// specification (v. 1.1).
#[derive(Debug, PartialEq, Eq, Clone, Copy)]
pub struct ReceiverSpecificMAC {
    pub receiver_mac_key_id: CryptoTransformKeyId,
    pub receiver_mac: [u8; 16],
}

/// The mathematical value of a receiver-specific MAC record.
pub struct RSMacView {
    pub receiver_mac_key_id: u32,
    pub receiver_mac: Seq<u8>,
}

impl View for ReceiverSpecificMAC {
    type V = RSMacView;

    open spec fn view(&self) -> RSMacView {
        RSMacView {
            receiver_mac_key_id: self.receiver_mac_key_id,
            receiver_mac: self.receiver_mac@,
        }
    }
}

/// The views of a list of receiver-specific MACs.
pub open spec fn macs_view(ms: Seq<ReceiverSpecificMAC>) -> Seq<RSMacView> {
    ms.map_values(|m: ReceiverSpecificMAC| m@)
}

/// CryptoFooter type from section 9.5.2.5 of the Security
/// specification (v. 1.1).
#[derive(Debug, PartialEq, Eq, Clone)]
pub struct BuiltinCryptoFooter {
    pub common_mac: [u8; 16],
    pub receiver_specific_macs: Vec<ReceiverSpecificMAC>,
}

/// The mathematical value of a footer.
pub struct FooterView {
    pub common_mac: Seq<u8>,
    pub receiver_specific_macs: Seq<RSMacView>,
}

impl View for BuiltinCryptoFooter {
    type V = FooterView;

    open spec fn view(&self) -> FooterView {
        FooterView {
            common_mac: self.common_mac@,
            receiver_specific_macs: macs_view(self.receiver_specific_macs@),
        }
    }
}

/// The octet at offset `j` of the flattened MAC records: record `j/20`,
/// its key id for the first four octets, its MAC for the rest.
pub open spec fn mac_byte(ms: Seq<RSMacView>, j: int) -> u8 {
    let i = j / 20;
    let o = j % 20;
    if o < 4 {
        u32_be(ms[i].receiver_mac_key_id)[o]
    } else {
        ms[i].receiver_mac[o - 4]
    }
}

/// The wire form of a footer: the common MAC, the record count, then
/// 20 octets per record.
pub open spec fn footer_bytes(f: FooterView) -> Seq<u8> {
    f.common_mac + u32_be(f.receiver_specific_macs.len() as u32) + Seq::new(
        (20 * f.receiver_specific_macs.len()) as nat,
        |j: int| mac_byte(f.receiver_specific_macs, j),
    )
}

/// Parse a footer from a whole buffer.
pub open spec fn parse_footer(s: Seq<u8>) -> Option<FooterView> {
    if s.len() >= 20 {
        let n = be32(s[16], s[17], s[18], s[19]);
        if s.len() == 20 + 20 * n {
            Some(
                FooterView {
                    common_mac: s.subrange(0, 16),
                    receiver_specific_macs: Seq::new(
                        n as nat,
                        |i: int|
                            RSMacView {
                                receiver_mac_key_id: be32(
                                    s[20 + 20 * i],
                                    s[20 + 20 * i + 1],
                                    s[20 + 20 * i + 2],
                                    s[20 + 20 * i + 3],
                                ) as u32,
                                receiver_mac: s.subrange(20 + 20 * i + 4, 20 + 20 * i + 20),
                            },
                    ),
                },
            )
        } else {
            None
        }
    } else {
        None
    }
}

/// Division facts for the per-record offsets.
proof fn lemma_mac_offset(i: int, o: int)
    requires
        0 <= i,
        0 <= o < 20,
    ensures
        (20 * i + o) / 20 == i,
        (20 * i + o) % 20 == o,
{
    assert((20 * i + o) / 20 == i && (20 * i + o) % 20 == o) by (nonlinear_arith)
        requires
            0 <= i,
            0 <= o < 20,
    ;
}

/// R3: a footer written by `to_bytes` parses back to itself.
#[verifier::rlimit(100)]
pub proof fn lemma_footer_roundtrip(f: FooterView)
    requires
        f.common_mac.len() == 16,
        f.receiver_specific_macs.len() <= u32::MAX,
        forall|i: int|
            0 <= i < f.receiver_specific_macs.len() ==> (
            #[trigger] f.receiver_specific_macs[i]).receiver_mac.len() == 16,
    ensures
        parse_footer(footer_bytes(f)) == Some(f),
{
    let s = footer_bytes(f);
    let ms = f.receiver_specific_macs;
    let n = ms.len() as int;
    let body = Seq::new((20 * ms.len()) as nat, |j: int| mac_byte(ms, j));
    lemma_be32_roundtrip(ms.len() as u32);
    assert(s[16] == u32_be(ms.len() as u32)[0] && s[17] == u32_be(ms.len() as u32)[1] && s[18]
        == u32_be(ms.len() as u32)[2] && s[19] == u32_be(ms.len() as u32)[3]);
    assert(be32(s[16], s[17], s[18], s[19]) == n);
    assert(s.len() == 20 + 20 * n);
    assert(s.subrange(0, 16) =~= f.common_mac);
    let parsed = Seq::new(
        n as nat,
        |i: int|
            RSMacView {
                receiver_mac_key_id: be32(
                    s[20 + 20 * i],
                    s[20 + 20 * i + 1],
                    s[20 + 20 * i + 2],
                    s[20 + 20 * i + 3],
                ) as u32,
                receiver_mac: s.subrange(20 + 20 * i + 4, 20 + 20 * i + 20),
            },
    );
    assert forall|i: int| 0 <= i < n implies parsed[i] == ms[i] by {
        assert forall|o: int| 0 <= o < 20 implies #[trigger] s[20 + 20 * i + o] == mac_byte(
            ms,
            20 * i + o,
        ) by {
            assert(body[20 * i + o] == mac_byte(ms, 20 * i + o));
        }
        lemma_mac_offset(i, 0);
        lemma_mac_offset(i, 1);
        lemma_mac_offset(i, 2);
        lemma_mac_offset(i, 3);
        let key = ms[i].receiver_mac_key_id;
        lemma_be32_roundtrip(key);
        assert(s[20 + 20 * i + 0] == u32_be(key)[0]);
        assert(s[20 + 20 * i + 1] == u32_be(key)[1]);
        assert(s[20 + 20 * i + 2] == u32_be(key)[2]);
        assert(s[20 + 20 * i + 3] == u32_be(key)[3]);
        assert(parsed[i].receiver_mac_key_id == key);
        assert(parsed[i].receiver_mac =~= ms[i].receiver_mac) by {
            assert forall|m: int| 0 <= m < 16 implies s.subrange(
                20 + 20 * i + 4,
                20 + 20 * i + 20,
            )[m] == ms[i].receiver_mac[m] by {
                assert(s.subrange(20 + 20 * i + 4, 20 + 20 * i + 20)[m] == s[20 + 20 * i + 4 + m]);
                lemma_mac_offset(i, 4 + m);
                assert(mac_byte(ms, 20 * i + (4 + m)) == ms[i].receiver_mac[m]);
            }
        }
    }
    assert(parsed =~= ms);
}

impl BuiltinCryptoFooter {
    /// The big-endian CDR form of this footer. Fails with
    /// `SerializationFailure` exactly when the record count does not
    /// fit its 32-bit prefix.
    #[verifier::rlimit(100)]
    pub fn to_bytes(&self) -> (r: Result<Vec<u8>, SecurityError>)
        ensures
            r is Ok <==> self.receiver_specific_macs@.len() <= u32::MAX,
            r matches Ok(v) ==> v@ == footer_bytes(self@),
    {
        if self.receiver_specific_macs.len() > u32::MAX as usize {
            return Err(SecurityError::SerializationFailure(self.receiver_specific_macs.len()));
        }
        let ghost ms = self@.receiver_specific_macs;
        let n = self.receiver_specific_macs.len();
        let mut out: Vec<u8> = Vec::new();
        let mut c: usize = 0;
        while c < 16
            invariant
                0 <= c <= 16,
                out@ == self.common_mac@.subrange(0, c as int),
            decreases 16 - c,
        {
            out.push(self.common_mac[c]);
            assert(out@ =~= self.common_mac@.subrange(0, c + 1));
            c += 1;
        }
        assert(self.common_mac@.subrange(0, 16) =~= self.common_mac@);
        push_u32_be(&mut out, n as u32);
        let ghost head = self.common_mac@ + u32_be(n as u32);
        let mut i: usize = 0;
        while i < n
            invariant
                0 <= i <= n,
                n == ms.len(),
                ms == self@.receiver_specific_macs,
                head == self.common_mac@ + u32_be(n as u32),
                out@.len() == 20 + 20 * i,
                out@ == head + Seq::new((20 * i) as nat, |j: int| mac_byte(ms, j)),
            decreases n - i,
        {
            let rec = &self.receiver_specific_macs[i];
            push_u32_be(&mut out, rec.receiver_mac_key_id);
            let mut m: usize = 0;
            while m < 16
                invariant
                    0 <= m <= 16,
                    0 <= i < n,
                    n == ms.len(),
                    ms == self@.receiver_specific_macs,
                    rec@ == ms[i as int],
                    head == self.common_mac@ + u32_be(n as u32),
                    out@ == head + Seq::new((20 * i) as nat, |j: int| mac_byte(ms, j)) + u32_be(
                        rec.receiver_mac_key_id,
                    ) + rec.receiver_mac@.subrange(0, m as int),
                decreases 16 - m,
            {
                out.push(rec.receiver_mac[m]);
                assert(out@ =~= head + Seq::new((20 * i) as nat, |j: int| mac_byte(ms, j))
                    + u32_be(rec.receiver_mac_key_id) + rec.receiver_mac@.subrange(0, m + 1));
                m += 1;
            }
            proof {
                assert(rec.receiver_mac@.subrange(0, 16) =~= rec.receiver_mac@);
                let prev = Seq::new((20 * i) as nat, |j: int| mac_byte(ms, j));
                let next = Seq::new((20 * (i + 1)) as nat, |j: int| mac_byte(ms, j));
                assert forall|j: int| 0 <= j < 20 * (i + 1) implies next[j] == (prev + u32_be(
                    rec.receiver_mac_key_id,
                ) + rec.receiver_mac@)[j] by {
                    if j < 20 * i {
                    } else {
                        let o = j - 20 * i;
                        lemma_mac_offset(i as int, o);
                        assert(mac_byte(ms, j) == (if o < 4 {
                            u32_be(ms[i as int].receiver_mac_key_id)[o]
                        } else {
                            ms[i as int].receiver_mac[o - 4]
                        }));
                    }
                }
                assert(next =~= prev + u32_be(rec.receiver_mac_key_id) + rec.receiver_mac@);
                assert(out@ =~= head + next);
            }
            i += 1;
        }
        proof {
            assert(out@ =~= footer_bytes(self@));
        }
        Ok(out)
    }

    /// Decode a footer from its big-endian CDR form. Succeeds exactly
    /// on buffers that parse as a whole footer.
    #[verifier::rlimit(100)]
    pub fn try_from_bytes(data: &[u8]) -> (r: Result<BuiltinCryptoFooter, SecurityError>)
        ensures
            r matches Ok(f) ==> parse_footer(data@) == Some(f@),
            r is Err ==> parse_footer(data@) is None,
            r is Err ==> r matches Err(SecurityError::SerializationFailure(_)),
    {
        if data.len() < 20 {
            return Err(SecurityError::SerializationFailure(data.len()));
        }
        let n32 = read_u32_be(data[16], data[17], data[18], data[19]);
        let n = n32 as usize;
        let rest = data.len() - 20;
        if rest / 20 != n || rest % 20 != 0 {
            proof {
                assert(20 * (rest / 20) + rest % 20 == rest) by (nonlinear_arith)
                    requires
                        rest >= 0,
                ;
                if data@.len() == 20 + 20 * (n as int) {
                    assert(rest == 20 * (n as int));
                    assert(rest / 20 == n && rest % 20 == 0) by (nonlinear_arith)
                        requires
                            rest == 20 * (n as int),
                            n >= 0,
                    ;
                }
            }
            return Err(SecurityError::SerializationFailure(data.len()));
        }
        proof {
            assert(20 * (rest / 20) + rest % 20 == rest) by (nonlinear_arith)
                requires
                    rest >= 0,
            ;
            assert(data@.len() == 20 + 20 * (n as int));
        }
        let common_mac: [u8; 16] = [
            data[0],
            data[1],
            data[2],
            data[3],
            data[4],
            data[5],
            data[6],
            data[7],
            data[8],
            data[9],
            data[10],
            data[11],
            data[12],
            data[13],
            data[14],
            data[15],
        ];
        assert(common_mac@ =~= data@.subrange(0, 16));
        let ghost target = parse_footer(data@)->Some_0.receiver_specific_macs;
        let mut receiver_specific_macs: Vec<ReceiverSpecificMAC> = Vec::new();
        let mut i: usize = 0;
        while i < n
            invariant
                0 <= i <= n,
                data@.len() == 20 + 20 * n,
                data@.len() <= usize::MAX,
                target == parse_footer(data@)->Some_0.receiver_specific_macs,
                parse_footer(data@) is Some,
                target.len() == n,
                receiver_specific_macs@.len() == i,
                forall|j: int| 0 <= j < i ==> (#[trigger] receiver_specific_macs@[j])@
                    == target[j],
            decreases n - i,
        {
            proof {
                assert(20 * (i as int) + 20 <= 20 * (n as int)) by (nonlinear_arith)
                    requires
                        0 <= i < n,
                ;
            }
            let p = 20 + 20 * i;
            let receiver_mac_key_id = read_u32_be(data[p], data[p + 1], data[p + 2], data[p + 3]);
            let receiver_mac: [u8; 16] = [
                data[p + 4],
                data[p + 5],
                data[p + 6],
                data[p + 7],
                data[p + 8],
                data[p + 9],
                data[p + 10],
                data[p + 11],
                data[p + 12],
                data[p + 13],
                data[p + 14],
                data[p + 15],
                data[p + 16],
                data[p + 17],
                data[p + 18],
                data[p + 19],
            ];
            let rec = ReceiverSpecificMAC { receiver_mac_key_id, receiver_mac };
            proof {
                let s = data@;
                let ii = i as int;
                assert(receiver_mac@ =~= s.subrange(20 + 20 * ii + 4, 20 + 20 * ii + 20));
                assert(p as int == 20 + 20 * ii);
                let kv = be32(s[20 + 20 * ii], s[20 + 20 * ii + 1], s[20 + 20 * ii + 2], s[20 + 20
                    * ii + 3]);
                assert(0 <= kv <= u32::MAX);
                assert(receiver_mac_key_id == kv);
                assert(rec@.receiver_mac_key_id == kv as u32);
                assert(target[ii].receiver_mac_key_id == kv as u32);
                assert(target[ii].receiver_mac == s.subrange(20 + 20 * ii + 4, 20 + 20 * ii + 20));
                assert(rec@ == target[ii]);
            }
            receiver_specific_macs.push(rec);
            i += 1;
        }
        let f = BuiltinCryptoFooter { common_mac, receiver_specific_macs };
        proof {
            assert(f@.receiver_specific_macs =~= target);
            assert(f@.common_mac == parse_footer(data@)->Some_0.common_mac);
        }
        Ok(f)
    }
}

} // verus!
