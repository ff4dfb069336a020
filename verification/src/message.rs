//! A single message and its little-endian wire encoding:
//! `offset:u64 || state:u8 || timestamp:u64 || id:u128 || checksum:u32 ||
//!  headers_len:u32 || headers_bytes || payload_len:u32 || payload_bytes`.
use vstd::prelude::*;
use vstd::bytes::*;

verus! {

/// One message as stored in a partition. Header names are opaque bytes to the
/// core, so the headers block is kept as its raw encoding.
pub struct Message {
    pub offset: u64,
    pub state: u8,
    pub timestamp: u64,
    pub id: u128,
    pub checksum: u32,
    pub headers: Vec<u8>,
    pub payload: Vec<u8>,
}

/// The plain-value content of a message, for stating contracts.
pub open spec fn message_model(m: Message) -> (u64, u8, u64, u128, u32, Seq<u8>, Seq<u8>) {
    (m.offset, m.state, m.timestamp, m.id, m.checksum, m.headers@, m.payload@)
}

/// A message whose variable-length parts fit the u32 length prefixes and
/// whose encoding length fits the batch length field.
pub open spec fn message_wf(m: Message) -> bool {
    &&& m.headers@.len() <= u32::MAX
    &&& m.payload@.len() <= u32::MAX
    &&& message_size(m) <= u32::MAX
}

/// The encoded size of a message in bytes: the 45 fixed header bytes plus
/// both variable parts.
pub open spec fn message_size(m: Message) -> int {
    45 + m.headers@.len() as int + m.payload@.len() as int
}

/// The wire encoding of one message.
pub open spec fn message_bytes(m: Message) -> Seq<u8> {
    spec_u64_to_le_bytes(m.offset) + seq![m.state] + spec_u64_to_le_bytes(m.timestamp)
        + spec_u128_to_le_bytes(m.id) + spec_u32_to_le_bytes(m.checksum)
        + spec_u32_to_le_bytes(m.headers@.len() as u32) + m.headers@
        + spec_u32_to_le_bytes(m.payload@.len() as u32) + m.payload@
}

/// The encoding is as long as `message_size` says.
pub proof fn lemma_message_bytes_len(m: Message)
    requires
        message_wf(m),
    ensures
        message_bytes(m).len() == message_size(m),
{
    lemma_auto_spec_u64_to_from_le_bytes();
    lemma_auto_spec_u32_to_from_le_bytes();
    lemma_auto_spec_u128_to_from_le_bytes();
}

impl Message {
    /// The encoded size of this message, as a count of bytes.
    pub fn size_bytes(&self) -> (r: u32)
        requires
            message_wf(*self),
        ensures
            r == message_size(*self),
    {
        45 + self.headers.len() as u32 + self.payload.len() as u32
    }

    /// A fresh message equal to this one in every field.
    pub fn duplicate(&self) -> (r: Message)
        ensures
            message_model(r) == message_model(*self),
            r.offset == self.offset,
            r.state == self.state,
            r.timestamp == self.timestamp,
            r.id == self.id,
            r.checksum == self.checksum,
            r.headers@ == self.headers@,
            r.payload@ == self.payload@,
    {
        let mut headers: Vec<u8> = Vec::new();
        let mut payload: Vec<u8> = Vec::new();
        let mut i: usize = 0;
        while i < self.headers.len()
            invariant
                i <= self.headers@.len(),
                headers@ == self.headers@.take(i as int),
            decreases self.headers@.len() - i,
        {
            headers.push(self.headers[i]);
            i = i + 1;
            proof {
                assert(headers@ =~= self.headers@.take(i as int));
            }
        }
        let mut j: usize = 0;
        while j < self.payload.len()
            invariant
                j <= self.payload@.len(),
                payload@ == self.payload@.take(j as int),
            decreases self.payload@.len() - j,
        {
            payload.push(self.payload[j]);
            j = j + 1;
            proof {
                assert(payload@ =~= self.payload@.take(j as int));
            }
        }
        proof {
            assert(headers@ =~= self.headers@);
            assert(payload@ =~= self.payload@);
        }
        Message {
            offset: self.offset,
            state: self.state,
            timestamp: self.timestamp,
            id: self.id,
            checksum: self.checksum,
            headers,
            payload,
        }
    }

    /// Encode this message for the wire.
    pub fn to_bytes(&self) -> (r: Vec<u8>)
        requires
            message_wf(*self),
        ensures
            r@ == message_bytes(*self),
    {
        let mut out = u64_to_le_bytes(self.offset);
        out.push(self.state);
        let mut ts = u64_to_le_bytes(self.timestamp);
        out.append(&mut ts);
        let mut id = u128_to_le_bytes(self.id);
        out.append(&mut id);
        let mut ck = u32_to_le_bytes(self.checksum);
        out.append(&mut ck);
        let mut hl = u32_to_le_bytes(self.headers.len() as u32);
        out.append(&mut hl);
        let mut hs = Vec::new();
        let mut i: usize = 0;
        while i < self.headers.len()
            invariant
                i <= self.headers@.len(),
                hs@ == self.headers@.take(i as int),
            decreases self.headers@.len() - i,
        {
            hs.push(self.headers[i]);
            i = i + 1;
            proof {
                assert(hs@ =~= self.headers@.take(i as int));
            }
        }
        proof {
            assert(hs@ =~= self.headers@);
        }
        out.append(&mut hs);
        let mut pl = u32_to_le_bytes(self.payload.len() as u32);
        out.append(&mut pl);
        let mut ps = Vec::new();
        let mut j: usize = 0;
        while j < self.payload.len()
            invariant
                j <= self.payload@.len(),
                ps@ == self.payload@.take(j as int),
            decreases self.payload@.len() - j,
        {
            ps.push(self.payload[j]);
            j = j + 1;
            proof {
                assert(ps@ =~= self.payload@.take(j as int));
            }
        }
        proof {
            assert(ps@ =~= self.payload@);
        }
        out.append(&mut ps);
        proof {
            assert(out@ =~= message_bytes(*self));
        }
        out
    }
}


/// The headers length a message frame declares.
pub open spec fn parsed_headers_len(data: Seq<u8>) -> int {
    spec_u32_from_le_bytes(data.subrange(37, 41)) as int
}

/// The payload length a message frame declares.
pub open spec fn parsed_payload_len(data: Seq<u8>) -> int {
    let h = parsed_headers_len(data);
    spec_u32_from_le_bytes(data.subrange(41 + h, 45 + h)) as int
}

/// How many bytes the message frame at the front of `data` occupies, when
/// one is wholly present with both declared parts in range and a total that
/// fits the u32 size a batch accounts with.
pub open spec fn message_parse_len(data: Seq<u8>) -> Option<int> {
    if data.len() < 45 {
        Option::None
    } else {
        let h = parsed_headers_len(data);
        if data.len() < 45 + h {
            Option::None
        } else {
            let p = parsed_payload_len(data);
            if data.len() < 45 + h + p || 45 + h + p > u32::MAX {
                Option::None
            } else {
                Option::Some(45 + h + p)
            }
        }
    }
}

/// Parse one message from the front of `data`, per the wire layout.
/// Succeeds exactly when a whole frame is present; the parsed fields are
/// the frame's, and re-encoding the message reproduces the consumed bytes.
pub fn message_from_bytes(data: &[u8]) -> (r: Result<(Message, usize), crate::error::Error>)
    ensures
        match r {
            Ok((m, used)) => {
                let h = parsed_headers_len(data@);
                &&& message_parse_len(data@) == Option::Some(used as int)
                &&& message_wf(m)
                &&& used == message_size(m)
                &&& m.offset == spec_u64_from_le_bytes(data@.subrange(0, 8))
                &&& m.state == data@[8]
                &&& m.timestamp == spec_u64_from_le_bytes(data@.subrange(9, 17))
                &&& m.id == spec_u128_from_le_bytes(data@.subrange(17, 33))
                &&& m.checksum == spec_u32_from_le_bytes(data@.subrange(33, 37))
                &&& m.headers@ == data@.subrange(41, 41 + h)
                &&& m.payload@ == data@.subrange(45 + h, used as int)
                &&& data@.take(used as int) == message_bytes(m)
            },
            Err(e) => {
                &&& e == crate::error::Error::CorruptedData
                &&& message_parse_len(data@) is None
            },
        },
{
    if data.len() < 45 {
        return Err(crate::error::Error::CorruptedData);
    }
    let offset = u64_from_le_bytes(vstd::slice::slice_subrange(data, 0, 8));
    let state = *vstd::slice::slice_index_get(data, 8);
    let timestamp = u64_from_le_bytes(vstd::slice::slice_subrange(data, 9, 17));
    let id = u128_from_le_bytes(vstd::slice::slice_subrange(data, 17, 33));
    let checksum = u32_from_le_bytes(vstd::slice::slice_subrange(data, 33, 37));
    let hlen = u32_from_le_bytes(vstd::slice::slice_subrange(data, 37, 41)) as usize;
    if data.len() - 45 < hlen {
        return Err(crate::error::Error::CorruptedData);
    }
    let headers = vstd::slice::slice_to_vec(vstd::slice::slice_subrange(data, 41, 41 + hlen));
    let plen = u32_from_le_bytes(
        vstd::slice::slice_subrange(data, 41 + hlen, 45 + hlen),
    ) as usize;
    if (data.len() - 45) - hlen < plen {
        return Err(crate::error::Error::CorruptedData);
    }
    if (hlen as u64) + (plen as u64) > (u32::MAX as u64) - 45 {
        return Err(crate::error::Error::CorruptedData);
    }
    let used = 45 + hlen + plen;
    let payload = vstd::slice::slice_to_vec(
        vstd::slice::slice_subrange(data, 45 + hlen, used),
    );
    let m = Message { offset, state, timestamp, id, checksum, headers, payload };
    proof {
        lemma_auto_spec_u64_to_from_le_bytes();
        lemma_auto_spec_u32_to_from_le_bytes();
        lemma_auto_spec_u128_to_from_le_bytes();
        let d = data@;
        let h = hlen as int;
        let p = plen as int;
        assert(spec_u64_to_le_bytes(m.offset) == d.subrange(0, 8));
        assert(spec_u64_to_le_bytes(m.timestamp) == d.subrange(9, 17));
        assert(spec_u128_to_le_bytes(m.id) == d.subrange(17, 33));
        assert(spec_u32_to_le_bytes(m.checksum) == d.subrange(33, 37));
        assert(m.headers@.len() as u32 == spec_u32_from_le_bytes(d.subrange(37, 41)));
        assert(spec_u32_to_le_bytes(m.headers@.len() as u32) == d.subrange(37, 41));
        assert(m.payload@.len() as u32 == spec_u32_from_le_bytes(d.subrange(41 + h, 45 + h)));
        assert(spec_u32_to_le_bytes(m.payload@.len() as u32) == d.subrange(41 + h, 45 + h));
        assert(seq![m.state] =~= d.subrange(8, 9));
        assert(d.take(used as int) =~= message_bytes(m));
    }
    Ok((m, used))
}

/// A well-formed message's encoding, however followed, parses back to the
/// message: the frame length and every field are recovered.
pub proof fn lemma_message_parse_round_trip(m: Message, rest: Seq<u8>)
    requires
        message_wf(m),
    ensures
        message_parse_len(message_bytes(m) + rest) == Option::Some(message_size(m)),
        ({
            let d = message_bytes(m) + rest;
            let h = parsed_headers_len(d);
            &&& h == m.headers@.len()
            &&& spec_u64_from_le_bytes(d.subrange(0, 8)) == m.offset
            &&& d[8] == m.state
            &&& spec_u64_from_le_bytes(d.subrange(9, 17)) == m.timestamp
            &&& spec_u128_from_le_bytes(d.subrange(17, 33)) == m.id
            &&& spec_u32_from_le_bytes(d.subrange(33, 37)) == m.checksum
            &&& d.subrange(41, 41 + h) == m.headers@
            &&& d.subrange(45 + h, message_size(m)) == m.payload@
        }),
{
    lemma_auto_spec_u64_to_from_le_bytes();
    lemma_auto_spec_u32_to_from_le_bytes();
    lemma_auto_spec_u128_to_from_le_bytes();
    lemma_message_bytes_len(m);
    let d = message_bytes(m) + rest;
    let h = m.headers@.len() as int;
    let p = m.payload@.len() as int;
    assert(d.subrange(0, 8) =~= spec_u64_to_le_bytes(m.offset));
    assert(d[8] == m.state);
    assert(d.subrange(9, 17) =~= spec_u64_to_le_bytes(m.timestamp));
    assert(d.subrange(17, 33) =~= spec_u128_to_le_bytes(m.id));
    assert(d.subrange(33, 37) =~= spec_u32_to_le_bytes(m.checksum));
    assert(d.subrange(37, 41) =~= spec_u32_to_le_bytes(m.headers@.len() as u32));
    assert(parsed_headers_len(d) == h);
    assert(d.subrange(41, 41 + h) =~= m.headers@);
    assert(d.subrange(41 + h, 45 + h) =~= spec_u32_to_le_bytes(m.payload@.len() as u32));
    assert(parsed_payload_len(d) == p);
    assert(d.subrange(45 + h, 45 + h + p) =~= m.payload@);
}

} // verus!
