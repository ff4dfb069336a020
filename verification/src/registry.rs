//! The process-wide directory of streams and topics: lifecycle and lookup.
//! Stream ids and names are unique globally; topic ids and names are unique
//! within their stream. Creation rejects a clash with `AlreadyExists`;
//! deletion and lookup of an absent entry answer `NotFound`.
use vstd::prelude::*;
use crate::error::Error;
use crate::http_plan::bytes_match;

verus! {

/// One topic: a name unique within its stream.
pub struct Topic {
    pub topic_id: u32,
    pub name: Vec<u8>,
}

/// One stream: a namespace owning topics.
pub struct Stream {
    pub stream_id: u32,
    pub name: Vec<u8>,
    pub topics: Vec<Topic>,
}

/// Topic ids and names are unique within the stream.
pub open spec fn stream_wf(s: Stream) -> bool {
    forall|i: int, j: int|
        0 <= i < j < s.topics@.len() ==> (#[trigger] s.topics@[i]).topic_id
            != (#[trigger] s.topics@[j]).topic_id && s.topics@[i].name@ != s.topics@[j].name@
}

/// Stream ids and names are unique, and every stream is well-formed.
pub open spec fn registry_wf(r: SystemRegistry) -> bool {
    &&& forall|i: int, j: int|
        0 <= i < j < r.streams@.len() ==> (#[trigger] r.streams@[i]).stream_id
            != (#[trigger] r.streams@[j]).stream_id && r.streams@[i].name@ != r.streams@[j].name@
    &&& forall|i: int| 0 <= i < r.streams@.len() ==> stream_wf(#[trigger] r.streams@[i])
}

/// Some stream in the run has this id.
pub open spec fn has_stream_id(streams: Seq<Stream>, id: u32) -> bool {
    exists|i: int| 0 <= i < streams.len() && (#[trigger] streams[i]).stream_id == id
}

/// Some stream in the run has this name.
pub open spec fn has_stream_name(streams: Seq<Stream>, name: Seq<u8>) -> bool {
    exists|i: int| 0 <= i < streams.len() && (#[trigger] streams[i]).name@ == name
}

/// Some topic of the stream has this id.
pub open spec fn has_topic_id(s: Stream, id: u32) -> bool {
    exists|i: int| 0 <= i < s.topics@.len() && (#[trigger] s.topics@[i]).topic_id == id
}

/// Some topic of the stream has this name.
pub open spec fn has_topic_name(s: Stream, name: Seq<u8>) -> bool {
    exists|i: int| 0 <= i < s.topics@.len() && (#[trigger] s.topics@[i]).name@ == name
}

/// The directory of all streams.
pub struct SystemRegistry {
    pub streams: Vec<Stream>,
}

impl SystemRegistry {
    /// An empty directory.
    pub fn new() -> (r: SystemRegistry)
        ensures
            registry_wf(r),
            r.streams@.len() == 0,
    {
        SystemRegistry { streams: Vec::new() }
    }

    /// The position of the stream with this id, if any.
    pub fn find_stream(&self, stream_id: u32) -> (r: Option<usize>)
        ensures
            match r {
                Some(i) => i < self.streams@.len() && self.streams@[i as int].stream_id
                    == stream_id,
                None => !has_stream_id(self.streams@, stream_id),
            },
    {
        let mut i: usize = 0;
        while i < self.streams.len()
            invariant
                i <= self.streams@.len(),
                forall|j: int| 0 <= j < i ==> (#[trigger] self.streams@[j]).stream_id != stream_id,
            decreases self.streams@.len() - i,
        {
            if self.streams[i].stream_id == stream_id {
                return Some(i);
            }
            i = i + 1;
        }
        None
    }

    /// Whether any stream carries this name.
    fn stream_name_taken(&self, name: &[u8]) -> (r: bool)
        ensures
            r == has_stream_name(self.streams@, name@),
    {
        let mut i: usize = 0;
        while i < self.streams.len()
            invariant
                i <= self.streams@.len(),
                forall|j: int| 0 <= j < i ==> (#[trigger] self.streams@[j]).name@ != name@,
            decreases self.streams@.len() - i,
        {
            if bytes_match(self.streams[i].name.as_slice(), name) {
                return true;
            }
            i = i + 1;
        }
        false
    }

    /// Create a stream: refused with `AlreadyExists` exactly when its id or
    /// name is already taken; otherwise the stream is added, empty.
    pub fn create_stream(&mut self, stream_id: u32, name: Vec<u8>) -> (r: Result<(), Error>)
        requires
            registry_wf(*old(self)),
        ensures
            registry_wf(*final(self)),
            match r {
                Ok(()) => {
                    &&& !has_stream_id(old(self).streams@, stream_id)
                    &&& !has_stream_name(old(self).streams@, name@)
                    &&& final(self).streams@.len() == old(self).streams@.len() + 1
                    &&& final(self).streams@.last().stream_id == stream_id
                    &&& final(self).streams@.last().name@ == name@
                    &&& final(self).streams@.last().topics@.len() == 0
                    &&& final(self).streams@.drop_last() == old(self).streams@
                },
                Err(e) => {
                    &&& e == Error::AlreadyExists
                    &&& (has_stream_id(old(self).streams@, stream_id) || has_stream_name(
                        old(self).streams@,
                        name@,
                    ))
                    &&& *final(self) == *old(self)
                },
            },
    {
        if self.find_stream(stream_id).is_some() || self.stream_name_taken(name.as_slice()) {
            return Err(Error::AlreadyExists);
        }
        let ghost before = self.streams@;
        self.streams.push(Stream { stream_id, name, topics: Vec::new() });
        proof {
            assert(self.streams@.drop_last() =~= before);
        }
        Ok(())
    }

    /// Delete a stream and everything it owns: `NotFound` exactly when no
    /// stream has the id.
    pub fn delete_stream(&mut self, stream_id: u32) -> (r: Result<(), Error>)
        requires
            registry_wf(*old(self)),
        ensures
            registry_wf(*final(self)),
            match r {
                Ok(()) => {
                    &&& has_stream_id(old(self).streams@, stream_id)
                    &&& !has_stream_id(final(self).streams@, stream_id)
                    &&& final(self).streams@.len() == old(self).streams@.len() - 1
                    &&& exists|i: int|
                        0 <= i < old(self).streams@.len() && final(self).streams@ == old(self).streams@.remove(i) && (#[trigger] old(self).streams@[i]).stream_id
                            == stream_id
                },
                Err(e) => {
                    &&& e == Error::NotFound
                    &&& !has_stream_id(old(self).streams@, stream_id)
                    &&& *final(self) == *old(self)
                },
            },
    {
        let i = match self.find_stream(stream_id) {
            Some(i) => i,
            None => {
                return Err(Error::NotFound);
            },
        };
        let ghost before = self.streams@;
        self.streams.remove(i);
        proof {
            assert forall|j: int|
                0 <= j < self.streams@.len() implies (#[trigger] self.streams@[j]).stream_id
                != stream_id by {
                if j < i {
                    assert(self.streams@[j] == before[j]);
                } else {
                    assert(self.streams@[j] == before[j + 1]);
                }
            }
            assert forall|a: int, b: int|
                0 <= a < b < self.streams@.len() implies (#[trigger] self.streams@[a]).stream_id
                != (#[trigger] self.streams@[b]).stream_id && self.streams@[a].name@
                != self.streams@[b].name@ by {
                let a0: int = if a < i {
                    a
                } else {
                    a + 1
                };
                let b0: int = if b < i {
                    b
                } else {
                    b + 1
                };
                assert(self.streams@[a] == before[a0]);
                assert(self.streams@[b] == before[b0]);
            }
            assert forall|j: int| 0 <= j < self.streams@.len() implies stream_wf(
                #[trigger] self.streams@[j],
            ) by {
                if j < i {
                    assert(self.streams@[j] == before[j]);
                } else {
                    assert(self.streams@[j] == before[j + 1]);
                }
            }
        }
        Ok(())
    }

    /// Create a topic under a stream: `NotFound` exactly when the stream is
    /// absent; `AlreadyExists` exactly when the topic id or name is taken in
    /// that stream; otherwise the topic is appended to that stream and
    /// nothing else changes.
    pub fn create_topic(&mut self, stream_id: u32, topic_id: u32, name: Vec<u8>) -> (r: Result<
        (),
        Error,
    >)
        requires
            registry_wf(*old(self)),
        ensures
            registry_wf(*final(self)),
            match r {
                Ok(()) => exists|i: int|
                    {
                        &&& 0 <= i < old(self).streams@.len()
                        &&& (#[trigger] old(self).streams@[i]).stream_id == stream_id
                        &&& !has_topic_id(old(self).streams@[i], topic_id)
                        &&& !has_topic_name(old(self).streams@[i], name@)
                        &&& final(self).streams@.len() == old(self).streams@.len()
                        &&& forall|j: int|
                            0 <= j < old(self).streams@.len() && j != i ==> final(self).streams@[j] == old(self).streams@[j]
                        &&& final(self).streams@[i].stream_id == stream_id
                        &&& final(self).streams@[i].name@ == old(self).streams@[i].name@
                        &&& final(self).streams@[i].topics@.len() == old(self).streams@[i].topics@.len() + 1
                        &&& final(self).streams@[i].topics@.drop_last() == old(self).streams@[i].topics@
                        &&& final(self).streams@[i].topics@.last().topic_id == topic_id
                        &&& final(self).streams@[i].topics@.last().name@ == name@
                    },
                Err(e) => {
                    &&& final(self).streams@ == old(self).streams@
                    &&& (e == Error::NotFound || e == Error::AlreadyExists)
                    &&& (e == Error::NotFound) == !has_stream_id(old(self).streams@, stream_id)
                    &&& (e == Error::AlreadyExists) == exists|i: int|
                        {
                            &&& 0 <= i < old(self).streams@.len()
                            &&& (#[trigger] old(self).streams@[i]).stream_id == stream_id
                            &&& (has_topic_id(old(self).streams@[i], topic_id) || has_topic_name(
                                old(self).streams@[i],
                                name@,
                            ))
                        }
                },
            },
    {
        let i = match self.find_stream(stream_id) {
            Some(i) => i,
            None => {
                proof {
                    assert forall|k: int|
                        0 <= k < self.streams@.len() implies !((#[trigger] self.streams@[k]).stream_id
                        == stream_id && (has_topic_id(self.streams@[k], topic_id)
                        || has_topic_name(self.streams@[k], name@))) by {}
                }
                return Err(Error::NotFound);
            },
        };
        let ghost before = self.streams@;
        let mut stream = self.streams.remove(i);
        let mut taken = false;
        let mut t: usize = 0;
        while t < stream.topics.len()
            invariant
                t <= stream.topics@.len(),
                taken == exists|j: int|
                    0 <= j < t && ((#[trigger] stream.topics@[j]).topic_id == topic_id
                        || stream.topics@[j].name@ == name@),
            decreases stream.topics@.len() - t,
        {
            if stream.topics[t].topic_id == topic_id
                || bytes_match(stream.topics[t].name.as_slice(), name.as_slice()) {
                taken = true;
            }
            t = t + 1;
        }
        proof {
            if taken {
                let j = choose|j: int|
                    0 <= j < stream.topics@.len() && ((#[trigger] stream.topics@[j]).topic_id
                        == topic_id || stream.topics@[j].name@ == name@);
                if stream.topics@[j].topic_id == topic_id {
                    assert(has_topic_id(before[i as int], topic_id));
                } else {
                    assert(has_topic_name(before[i as int], name@));
                }
            } else {
                assert(!has_topic_id(before[i as int], topic_id));
                assert(!has_topic_name(before[i as int], name@));
            }
            // uniqueness of stream ids: no stream but the found one matches
            assert forall|k: int|
                0 <= k < before.len() && (#[trigger] before[k]).stream_id == stream_id implies k
                == i by {}
        }
        if taken {
            self.streams.insert(i, stream);
            proof {
                assert(self.streams@ =~= before);
            }
            return Err(Error::AlreadyExists);
        }
        let ghost topics_before = stream.topics@;
        stream.topics.push(Topic { topic_id, name });
        proof {
            assert(stream.topics@.drop_last() =~= topics_before);
            assert(stream_wf(stream));
        }
        self.streams.insert(i, stream);
        proof {
            let cur = self.streams@;
            assert forall|j: int|
                0 <= j < before.len() && j != i implies cur[j] == before[j] by {}
            assert forall|a: int, b: int| 0 <= a < b < cur.len() implies (
            #[trigger] cur[a]).stream_id != (#[trigger] cur[b]).stream_id && cur[a].name@
                != cur[b].name@ by {
                let sa: Stream = if a == i {
                    before[i as int]
                } else {
                    before[a]
                };
                let sb: Stream = if b == i {
                    before[i as int]
                } else {
                    before[b]
                };
                assert(cur[a].stream_id == sa.stream_id && cur[a].name@ == sa.name@);
                assert(cur[b].stream_id == sb.stream_id && cur[b].name@ == sb.name@);
            }
            assert forall|j: int| 0 <= j < cur.len() implies stream_wf(#[trigger] cur[j]) by {
                if j != i {
                    assert(cur[j] == before[j]);
                }
            }
        }
        Ok(())
    }
}

} // verus!
