//! The RTPS DATA submessage body: the length-and-flag-driven decoder
//! and the writer.
//!
//! The body starts with two zero extraFlags octets and the 16-bit
//! `octetsToInlineQos` field, which counts the octets from its own end
//! to the start of the inline QoS. The fixed fields (reader entity id,
//! writer entity id, 64-bit writer sequence number) follow at offsets
//! 4 to 20. When the InlineQos flag is set, a parameter list whose
//! first four octets give its own total length stands at
//! `4 + octetsToInlineQos`; the serialized payload follows it, or
//! stands at `4 + octetsToInlineQos` directly when the flag is clear.

use vstd::prelude::*;

use crate::error::SecurityError;
use crate::wire::{
    be16, be32, lemma_be16_roundtrip, lemma_be32_roundtrip, push_u16_be, push_u32_be, read_u16_be,
    read_u32_be, u16_be, u32_be,
};

verus! {

/// Identifies an RTPS entity within a participant; four octets
/// big-endian on the wire.
#[derive(Clone, Copy, Debug, PartialEq, Eq, Structural)]
pub struct EntityId {
    pub value: u32,
}

/// A 64-bit sequence number carried as two big-endian 32-bit halves,
/// high half first.
#[derive(Clone, Copy, Debug, PartialEq, Eq, Structural)]
pub struct SequenceNumber {
    pub high: i32,
    pub low: i32,
}

impl SequenceNumber {
    /// The combined 64-bit value: `high * 2^32` plus the low half read
    /// as unsigned.
    pub open spec fn spec_as_i64(self) -> int {
        self.high * 0x1_0000_0000 + (self.low as u32)
    }

    /// The combined 64-bit value.
    pub fn as_i64(self) -> (r: i64)
        ensures
            r == self.spec_as_i64(),
    {
        (self.high as i64) * 0x1_0000_0000 + ((self.low as u32) as i64)
    }
}

/// An inline QoS parameter list: the raw parameter octets that follow
/// the list's own four-octet length prefix on the wire.
#[derive(Debug, PartialEq, Eq, Clone)]
pub struct ParameterList {
    pub parameters: Vec<u8>,
}

/// A serialized payload: the raw encapsulated octets.
#[derive(Debug, PartialEq, Eq, Clone)]
pub struct SerializedPayload {
    pub value: Vec<u8>,
}

/// The flag bits of the enclosing submessage header that drive the
/// DATA body layout.
#[derive(Clone, Copy, Debug, PartialEq, Eq, Structural)]
pub struct DataFlags {
    pub inline_qos: bool,
    pub data: bool,
    pub key: bool,
}

/// The DATA submessage body from an RTPS writer to a reader: the
/// change's reader and writer entities, its sequence number, the
/// optional inline QoS, and the serialized payload.
#[derive(Debug, PartialEq, Eq, Clone)]
pub struct Data {
    pub reader_id: EntityId,
    pub writer_id: EntityId,
    pub writer_sn: SequenceNumber,
    pub inline_qos: Option<ParameterList>,
    pub serialized_payload: SerializedPayload,
}

/// The mathematical value of a DATA submessage body.
pub struct DataView {
    pub reader_id: u32,
    pub writer_id: u32,
    pub sn_high: i32,
    pub sn_low: i32,
    pub inline_qos: Option<Seq<u8>>,
    pub payload: Seq<u8>,
}

impl View for Data {
    type V = DataView;

    open spec fn view(&self) -> DataView {
        DataView {
            reader_id: self.reader_id.value,
            writer_id: self.writer_id.value,
            sn_high: self.writer_sn.high,
            sn_low: self.writer_sn.low,
            inline_qos: match self.inline_qos {
                Some(ref q) => Some(q.parameters@),
                None => None,
            },
            payload: self.serialized_payload.value@,
        }
    }
}

/// Parse a DATA submessage body under the given flags. `None` is a
/// malformed body.
pub open spec fn parse_data(s: Seq<u8>, flags: DataFlags) -> Option<DataView> {
    if s.len() < 20 {
        None
    } else {
        let octets = be16(s[2], s[3]);
        let base = 4 + octets;
        if base > s.len() {
            None
        } else {
            let reader_id = be32(s[4], s[5], s[6], s[7]) as u32;
            let writer_id = be32(s[8], s[9], s[10], s[11]) as u32;
            let sn_high = be32(s[12], s[13], s[14], s[15]) as u32 as i32;
            let sn_low = be32(s[16], s[17], s[18], s[19]) as u32 as i32;
            if flags.inline_qos {
                if base + 4 > s.len() {
                    None
                } else {
                    let qlen = be32(s[base], s[base + 1], s[base + 2], s[base + 3]);
                    if qlen < 4 || base + qlen > s.len() {
                        None
                    } else {
                        let qos = s.subrange(base + 4, base + qlen);
                        let pstart = base + qlen;
                        Some(
                            DataView {
                                reader_id,
                                writer_id,
                                sn_high,
                                sn_low,
                                inline_qos: Some(qos),
                                payload: if flags.data {
                                    s.subrange(pstart, s.len() as int)
                                } else {
                                    Seq::<u8>::empty()
                                },
                            },
                        )
                    }
                }
            } else {
                Some(
                    DataView {
                        reader_id,
                        writer_id,
                        sn_high,
                        sn_low,
                        inline_qos: None,
                        payload: if flags.data {
                            s.subrange(base, s.len() as int)
                        } else {
                            Seq::<u8>::empty()
                        },
                    },
                )
            }
        }
    }
}

/// The wire form of a DATA submessage body: zero extraFlags, the
/// sentinel `octetsToInlineQos = 16` pointing just past the fixed
/// fields, the fixed fields, the inline QoS (with its length prefix)
/// when present and non-empty, then the payload.
pub open spec fn data_bytes(d: DataView) -> Seq<u8> {
    let head = u16_be(0) + u16_be(16) + u32_be(d.reader_id) + u32_be(d.writer_id) + u32_be(
        d.sn_high as u32,
    ) + u32_be(d.sn_low as u32);
    match d.inline_qos {
        Some(q) => if q.len() > 0 {
            head + u32_be((4 + q.len()) as u32) + q + d.payload
        } else {
            head + d.payload
        },
        None => head + d.payload,
    }
}

/// Copy `data[from..to]` into a fresh vector.
fn copy_range(data: &[u8], from: usize, to: usize) -> (r: Vec<u8>)
    requires
        from <= to <= data@.len(),
    ensures
        r@ == data@.subrange(from as int, to as int),
{
    let mut r: Vec<u8> = Vec::new();
    let mut j: usize = from;
    while j < to
        invariant
            from <= j <= to <= data@.len(),
            r@ == data@.subrange(from as int, j as int),
        decreases to - j,
    {
        r.push(data[j]);
        assert(r@ =~= data@.subrange(from as int, j + 1));
        j += 1;
    }
    r
}

impl Data {
    /// Decode a DATA submessage body. The flags come from the
    /// enclosing submessage header. Fails with `MalformedSubmessage`,
    /// carrying the offending offset, exactly on the buffers the spec
    /// parser rejects.
    ///
    /// The key-only encapsulation (`key` set without `data`) is not
    /// finalized by the standard's source material and is excluded
    /// here.
    pub fn deserialize_data(buffer: &[u8], flags: DataFlags) -> (r: Result<Data, SecurityError>)
        requires
            flags.key ==> flags.data,
        ensures
            r matches Ok(d) ==> parse_data(buffer@, flags) == Some(d@),
            r matches Err(e) ==> parse_data(buffer@, flags) is None && e matches
                SecurityError::MalformedSubmessage(_),
    {
        if buffer.len() < 20 {
            return Err(SecurityError::MalformedSubmessage(buffer.len()));
        }
        let octets = read_u16_be(buffer[2], buffer[3]) as usize;
        let base = 4 + octets;
        if base > buffer.len() {
            return Err(SecurityError::MalformedSubmessage(2));
        }
        let reader_id = EntityId { value: read_u32_be(buffer[4], buffer[5], buffer[6], buffer[7]) };
        let writer_id = EntityId {
            value: read_u32_be(buffer[8], buffer[9], buffer[10], buffer[11]),
        };
        let writer_sn = SequenceNumber {
            high: read_u32_be(buffer[12], buffer[13], buffer[14], buffer[15]) as i32,
            low: read_u32_be(buffer[16], buffer[17], buffer[18], buffer[19]) as i32,
        };
        let (inline_qos, payload_start): (Option<ParameterList>, usize) = if flags.inline_qos {
            if buffer.len() - base < 4 {
                return Err(SecurityError::MalformedSubmessage(base));
            }
            let qlen = read_u32_be(
                buffer[base],
                buffer[base + 1],
                buffer[base + 2],
                buffer[base + 3],
            ) as usize;
            if qlen < 4 || qlen > buffer.len() - base {
                return Err(SecurityError::MalformedSubmessage(base));
            }
            let qos = copy_range(buffer, base + 4, base + qlen);
            (Some(ParameterList { parameters: qos }), base + qlen)
        } else {
            (None, base)
        };
        let payload = if flags.data {
            copy_range(buffer, payload_start, buffer.len())
        } else {
            Vec::new()
        };
        let d = Data {
            reader_id,
            writer_id,
            writer_sn,
            inline_qos,
            serialized_payload: SerializedPayload { value: payload },
        };
        proof {
            assert(parse_data(buffer@, flags) == Some(d@));
        }
        Ok(d)
    }

    /// Write the body to its wire form: zero extraFlags, the sentinel
    /// `octetsToInlineQos = 16`, the fixed fields, the inline QoS with
    /// its length prefix when present and non-empty, then the payload.
    pub fn write_to(&self) -> (r: Vec<u8>)
        requires
            match self.inline_qos {
                Some(q) => q.parameters@.len() + 4 <= u32::MAX,
                None => true,
            },
        ensures
            r@ == data_bytes(self@),
    {
        let mut out: Vec<u8> = Vec::new();
        // This version of the protocol sets every extraFlags bit to
        // zero, and the sentinel points just past the four fixed
        // fields.
        push_u16_be(&mut out, 0);
        push_u16_be(&mut out, 16);
        push_u32_be(&mut out, self.reader_id.value);
        push_u32_be(&mut out, self.writer_id.value);
        push_u32_be(&mut out, self.writer_sn.high as u32);
        push_u32_be(&mut out, self.writer_sn.low as u32);
        let ghost head = out@;
        if let Some(q) = &self.inline_qos {
            if q.parameters.len() > 0 {
                push_u32_be(&mut out, 4 + q.parameters.len() as u32);
                let mut j: usize = 0;
                while j < q.parameters.len()
                    invariant
                        0 <= j <= q.parameters@.len(),
                        out@ == head + u32_be((4 + q.parameters@.len()) as u32)
                            + q.parameters@.subrange(0, j as int),
                    decreases q.parameters@.len() - j,
                {
                    out.push(q.parameters[j]);
                    assert(out@ =~= head + u32_be((4 + q.parameters@.len()) as u32)
                        + q.parameters@.subrange(0, j + 1));
                    j += 1;
                }
                assert(q.parameters@.subrange(0, q.parameters@.len() as int) =~= q.parameters@);
            }
        }
        let ghost mid = out@;
        let mut j: usize = 0;
        while j < self.serialized_payload.value.len()
            invariant
                0 <= j <= self.serialized_payload.value@.len(),
                out@ == mid + self.serialized_payload.value@.subrange(0, j as int),
            decreases self.serialized_payload.value@.len() - j,
        {
            out.push(self.serialized_payload.value[j]);
            assert(out@ =~= mid + self.serialized_payload.value@.subrange(0, j + 1));
            j += 1;
        }
        proof {
            assert(self.serialized_payload.value@.subrange(
                0,
                self.serialized_payload.value@.len() as int,
            ) =~= self.serialized_payload.value@);
            assert(mid + Seq::<u8>::empty() =~= mid);
            assert(out@ =~= data_bytes(self@));
        }
        out
    }
}

impl Default for Data {
    /// The all-zero body: zero entities and sequence number, no inline
    /// QoS, empty payload.
    fn default() -> (r: Data)
        ensures
            r@.reader_id == 0,
            r@.writer_id == 0,
            r@.sn_high == 0,
            r@.sn_low == 0,
            r@.inline_qos is None,
            r@.payload.len() == 0,
    {
        Data {
            reader_id: EntityId { value: 0 },
            writer_id: EntityId { value: 0 },
            writer_sn: SequenceNumber { high: 0, low: 0 },
            inline_qos: None,
            serialized_payload: SerializedPayload { value: Vec::new() },
        }
    }
}

/// R5: a body written by `write_to` parses back to itself under
/// matching flags: the InlineQos flag is set exactly when a non-empty
/// inline QoS is present (an absent or empty list is written as the
/// bare sentinel), and a payload is only carried when the Data flag is
/// set.
pub proof fn lemma_data_roundtrip(d: DataView, flags: DataFlags)
    requires
        d.inline_qos matches Some(q) ==> q.len() > 0 && q.len() + 4 <= u32::MAX,
        flags.inline_qos <==> (d.inline_qos matches Some(q) && q.len() > 0),
        flags.data,
    ensures
        parse_data(data_bytes(d), flags) == Some(d),
{
    let s = data_bytes(d);
    lemma_be16_roundtrip(0);
    lemma_be16_roundtrip(16);
    lemma_be32_roundtrip(d.reader_id);
    lemma_be32_roundtrip(d.writer_id);
    lemma_be32_roundtrip(d.sn_high as u32);
    lemma_be32_roundtrip(d.sn_low as u32);
    let head = u16_be(0) + u16_be(16) + u32_be(d.reader_id) + u32_be(d.writer_id) + u32_be(
        d.sn_high as u32,
    ) + u32_be(d.sn_low as u32);
    assert(head.len() == 20);
    assert(s[2] == u16_be(16)[0] && s[3] == u16_be(16)[1]);
    assert(be16(s[2], s[3]) == 16);
    assert(s[4] == u32_be(d.reader_id)[0] && s[5] == u32_be(d.reader_id)[1] && s[6] == u32_be(
        d.reader_id,
    )[2] && s[7] == u32_be(d.reader_id)[3]);
    assert(be32(s[4], s[5], s[6], s[7]) == d.reader_id);
    assert(be32(s[8], s[9], s[10], s[11]) == d.writer_id);
    assert(be32(s[12], s[13], s[14], s[15]) == d.sn_high as u32);
    assert(be32(s[16], s[17], s[18], s[19]) == d.sn_low as u32);
    let hh = d.sn_high;
    let ll = d.sn_low;
    assert((hh as u32) as i32 == hh) by (bit_vector);
    assert((ll as u32) as i32 == ll) by (bit_vector);
    match d.inline_qos {
        Some(q) => {
            let qp = u32_be((4 + q.len()) as u32);
            lemma_be32_roundtrip((4 + q.len()) as u32);
            assert(s[20] == qp[0] && s[21] == qp[1] && s[22] == qp[2] && s[23] == qp[3]);
            assert(be32(s[20], s[21], s[22], s[23]) == 4 + q.len());
            let qlen = 4 + q.len() as int;
            assert(s.subrange(24, 20 + qlen) =~= q);
            assert(s.subrange(20 + qlen, s.len() as int) =~= d.payload);
        },
        None => {
            assert(s.subrange(20, s.len() as int) =~= d.payload);
        },
    }
}

} // verus!
