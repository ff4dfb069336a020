//! The batch codec: a contiguous run of messages sharing a base offset,
//! framed as `base_offset:u64-LE || length:u32-LE || last_offset_delta:u32-LE
//! || messages_bytes`, where `length` counts the 16 header bytes too.
use vstd::prelude::*;
use vstd::bytes::*;
use crate::bytes_support::{bytes_view, bytes_from_vec, bytes_copy_from_slice, bytes_len, bytes_append_to};
use crate::error::Error;
use crate::message::{Message, message_wf, message_bytes, lemma_message_bytes_len};

verus! {

/// A run of encoded messages occupying offsets
/// `[base_offset, base_offset + last_offset_delta]`.
pub struct MessagesBatch {
    pub base_offset: u64,
    pub length: u32,
    pub last_offset_delta: u32,
    pub messages: bytes::Bytes,
}

/// A batch whose length field accounts for its header and payload, whose
/// payload is non-empty (a batch of no messages is illegal), and whose
/// offset range stays within u64.
pub open spec fn batch_wf(b: MessagesBatch) -> bool {
    &&& b.length == 16 + bytes_view(b.messages).len()
    &&& bytes_view(b.messages).len() > 0
    &&& b.base_offset + b.last_offset_delta <= u64::MAX
}

/// The 16 header bytes of a batch.
pub open spec fn batch_header_bytes(b: MessagesBatch) -> Seq<u8> {
    spec_u64_to_le_bytes(b.base_offset) + spec_u32_to_le_bytes(b.length)
        + spec_u32_to_le_bytes(b.last_offset_delta)
}

/// The full wire encoding of a batch.
pub open spec fn batch_bytes(b: MessagesBatch) -> Seq<u8> {
    batch_header_bytes(b) + bytes_view(b.messages)
}

/// The concatenated encodings of a run of messages.
pub open spec fn messages_payload(ms: Seq<Message>) -> Seq<u8>
    decreases ms.len(),
{
    if ms.len() == 0 {
        Seq::<u8>::empty()
    } else {
        messages_payload(ms.drop_last()) + message_bytes(ms.last())
    }
}

/// The encoding of a batch is exactly `length` bytes long, which is 16 plus
/// the payload; and decoding the encoding recovers every field.
pub proof fn lemma_batch_round_trip(b: MessagesBatch)
    requires
        batch_wf(b),
    ensures
        batch_bytes(b).len() == b.length,
        batch_bytes(b).len() == 16 + bytes_view(b.messages).len(),
        spec_u64_from_le_bytes(batch_bytes(b).subrange(0, 8)) == b.base_offset,
        spec_u32_from_le_bytes(batch_bytes(b).subrange(8, 12)) == b.length,
        spec_u32_from_le_bytes(batch_bytes(b).subrange(12, 16)) == b.last_offset_delta,
        batch_bytes(b).skip(16) == bytes_view(b.messages),
{
    lemma_auto_spec_u64_to_from_le_bytes();
    lemma_auto_spec_u32_to_from_le_bytes();
    assert(batch_bytes(b).subrange(0, 8) =~= spec_u64_to_le_bytes(b.base_offset));
    assert(batch_bytes(b).subrange(8, 12) =~= spec_u32_to_le_bytes(b.length));
    assert(batch_bytes(b).subrange(12, 16) =~= spec_u32_to_le_bytes(b.last_offset_delta));
    assert(batch_bytes(b).skip(16) =~= bytes_view(b.messages));
}

impl MessagesBatch {
    /// A batch from its four parts, taken as given.
    pub fn new(base_offset: u64, length: u32, last_offset_delta: u32, messages: bytes::Bytes)
        -> (r: MessagesBatch)
        ensures
            r.base_offset == base_offset,
            r.length == length,
            r.last_offset_delta == last_offset_delta,
            bytes_view(r.messages) == bytes_view(messages),
    {
        MessagesBatch { base_offset, length, last_offset_delta, messages }
    }

    /// The offset of the last message the batch covers.
    pub fn get_last_offset(&self) -> (r: u64)
        requires
            self.base_offset + self.last_offset_delta <= u64::MAX,
        ensures
            r == self.base_offset + self.last_offset_delta,
    {
        self.base_offset + self.last_offset_delta as u64
    }

    /// Build one batch from a run of messages: the payload is the
    /// concatenation of their encodings and `length` counts it plus the
    /// 16-byte header.
    pub fn messages_to_batch(base_offset: u64, last_offset_delta: u32, messages: Vec<Message>)
        -> (r: MessagesBatch)
        requires
            messages@.len() > 0,
            forall|i: int| 0 <= i < messages@.len() ==> message_wf(#[trigger] messages@[i]),
            16 + messages_payload(messages@).len() <= u32::MAX,
            base_offset + last_offset_delta <= u64::MAX,
        ensures
            r.base_offset == base_offset,
            r.last_offset_delta == last_offset_delta,
            bytes_view(r.messages) == messages_payload(messages@),
            r.length == 16 + messages_payload(messages@).len(),
            batch_wf(r),
    {
        let mut payload: Vec<u8> = Vec::new();
        let mut i: usize = 0;
        while i < messages.len()
            invariant
                i <= messages@.len(),
                payload@ == messages_payload(messages@.take(i as int)),
                forall|k: int| 0 <= k < messages@.len() ==> message_wf(#[trigger] messages@[k]),
                messages_payload(messages@).len() <= u32::MAX,
            decreases messages@.len() - i,
        {
            proof {
                lemma_messages_payload_prefix(messages@, i + 1);
                assert(messages@.take(i + 1).drop_last() =~= messages@.take(i as int));
                assert(messages@.take(i + 1).last() == messages@[i as int]);
            }
            let mut one = messages[i].to_bytes();
            payload.append(&mut one);
            i = i + 1;
        }
        proof {
            assert(messages@.take(messages@.len() as int) =~= messages@);
        }
        let len: u32 = 16 + payload.len() as u32;
        proof {
            lemma_messages_payload_nonempty(messages@);
        }
        MessagesBatch {
            base_offset,
            length: len,
            last_offset_delta,
            messages: bytes_from_vec(payload),
        }
    }

    /// The total encoded size of the batch: header plus payload.
    pub fn get_size_bytes(&self) -> (r: u32)
        requires
            16 + bytes_view(self.messages).len() <= u32::MAX,
        ensures
            r == 16 + bytes_view(self.messages).len(),
    {
        16 + bytes_len(&self.messages) as u32
    }

    /// Append the wire encoding of this batch to `bytes`.
    pub fn extend(&self, bytes: &mut Vec<u8>)
        ensures
            final(bytes)@ == old(bytes)@ + batch_bytes(*self),
    {
        let mut base = u64_to_le_bytes(self.base_offset);
        bytes.append(&mut base);
        let mut len = u32_to_le_bytes(self.length);
        bytes.append(&mut len);
        let mut delta = u32_to_le_bytes(self.last_offset_delta);
        bytes.append(&mut delta);
        bytes_append_to(bytes, &self.messages);
        proof {
            assert(final(bytes)@ =~= old(bytes)@ + batch_bytes(*self));
        }
    }

    /// The wire encoding of this batch.
    pub fn encode(&self) -> (r: Vec<u8>)
        ensures
            r@ == batch_bytes(*self),
    {
        let mut out: Vec<u8> = Vec::new();
        self.extend(&mut out);
        out
    }

    /// Decode one batch from exactly one framed encoding. Succeeds if and
    /// only if the data is long enough to frame a non-empty batch and its
    /// length field matches the data length; the recovered fields are the
    /// encoded ones.
    pub fn decode(data: &[u8]) -> (r: Result<MessagesBatch, Error>)
        ensures
            match r {
                Ok(b) => {
                    &&& data@.len() >= 17
                    &&& b.base_offset == spec_u64_from_le_bytes(data@.subrange(0, 8))
                    &&& b.length == spec_u32_from_le_bytes(data@.subrange(8, 12))
                    &&& b.length == data@.len()
                    &&& b.last_offset_delta == spec_u32_from_le_bytes(data@.subrange(12, 16))
                    &&& bytes_view(b.messages) == data@.skip(16)
                    &&& batch_wf(b) == (b.base_offset + b.last_offset_delta <= u64::MAX)
                },
                Err(e) => {
                    &&& e == Error::CorruptedData
                    &&& (data@.len() < 17 || spec_u32_from_le_bytes(data@.subrange(8, 12))
                        != data@.len())
                },
            },
    {
        if data.len() < 17 {
            return Err(Error::CorruptedData);
        }
        let base_offset = u64_from_le_bytes(vstd::slice::slice_subrange(data, 0, 8));
        let length = u32_from_le_bytes(vstd::slice::slice_subrange(data, 8, 12));
        if !(length as usize == data.len()) {
            return Err(Error::CorruptedData);
        }
        let last_offset_delta = u32_from_le_bytes(vstd::slice::slice_subrange(data, 12, 16));
        let messages = bytes_copy_from_slice(vstd::slice::slice_subrange(data, 16, data.len()));
        proof {
            assert(data@.subrange(16, data@.len() as int) =~= data@.skip(16));
        }
        Ok(MessagesBatch { base_offset, length, last_offset_delta, messages })
    }
}

/// Unrolls `messages_payload` one message at a time, for loop proofs.
pub proof fn lemma_messages_payload_prefix(ms: Seq<Message>, i: int)
    requires
        0 < i <= ms.len(),
    ensures
        messages_payload(ms.take(i)) == messages_payload(ms.take(i).drop_last())
            + message_bytes(ms.take(i).last()),
{
    assert(ms.take(i).len() == i);
}

/// A non-empty run of well-formed messages has a non-empty payload.
pub proof fn lemma_messages_payload_nonempty(ms: Seq<Message>)
    requires
        ms.len() > 0,
        forall|i: int| 0 <= i < ms.len() ==> message_wf(#[trigger] ms[i]),
    ensures
        messages_payload(ms).len() > 0,
{
    lemma_message_bytes_len(ms.last());
}

} // verus!
