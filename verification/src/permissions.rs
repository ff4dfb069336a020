//! Permission records: global flags, per-stream flags, and the packed
//! integer forms under which the authorization indices store them.
use vstd::prelude::*;

verus! {

/// Server-wide permission flags of one user.
#[derive(Clone, Copy, Debug, PartialEq, Eq, Structural)]
pub struct GlobalPermissions {
    pub manage_servers: bool,
    pub read_servers: bool,
    pub manage_users: bool,
    pub read_users: bool,
    pub manage_streams: bool,
    pub read_streams: bool,
    pub manage_topics: bool,
    pub read_topics: bool,
    pub poll_messages: bool,
    pub send_messages: bool,
}

/// Permission flags of one user on one stream.
#[derive(Clone, Copy, Debug, PartialEq, Eq, Structural)]
pub struct StreamPermissions {
    pub manage_stream: bool,
    pub read_stream: bool,
    pub manage_topics: bool,
    pub read_topics: bool,
    pub poll_messages: bool,
    pub send_messages: bool,
}

/// The full permission record of a user: global flags and, optionally,
/// per-stream flags keyed by stream id.
pub struct Permissions {
    pub global: GlobalPermissions,
    pub streams: Option<Vec<(u32, StreamPermissions)>>,
}

/// A record whose per-stream entries name each stream at most once.
pub open spec fn permissions_wf(p: Permissions) -> bool {
    match p.streams {
        Option::None => true,
        Option::Some(ss) => forall|i: int, j: int|
            0 <= i < j < ss@.len() ==> (#[trigger] ss@[i]).0 != (#[trigger] ss@[j]).0,
    }
}

/// The global flags packed into one word, one bit per flag;
/// `manage_servers` is the lowest bit.
pub open spec fn global_mask(g: GlobalPermissions) -> u32 {
    (if g.manage_servers { 1u32 } else { 0u32 }) | (if g.read_servers { 2u32 } else { 0u32 })
        | (if g.manage_users { 4u32 } else { 0u32 }) | (if g.read_users { 8u32 } else { 0u32 })
        | (if g.manage_streams { 16u32 } else { 0u32 })
        | (if g.read_streams { 32u32 } else { 0u32 })
        | (if g.manage_topics { 64u32 } else { 0u32 })
        | (if g.read_topics { 128u32 } else { 0u32 })
        | (if g.poll_messages { 256u32 } else { 0u32 })
        | (if g.send_messages { 512u32 } else { 0u32 })
}

/// The stream flags packed into one word, `manage_stream` lowest.
pub open spec fn stream_mask(s: StreamPermissions) -> u32 {
    (if s.manage_stream { 1u32 } else { 0u32 }) | (if s.read_stream { 2u32 } else { 0u32 })
        | (if s.manage_topics { 4u32 } else { 0u32 }) | (if s.read_topics { 8u32 } else { 0u32 })
        | (if s.poll_messages { 16u32 } else { 0u32 })
        | (if s.send_messages { 32u32 } else { 0u32 })
}

/// Pack the global flags for storage in the authorization index.
pub fn encode_global(g: &GlobalPermissions) -> (r: u32)
    ensures
        r == global_mask(*g),
{
    (if g.manage_servers { 1u32 } else { 0u32 }) | (if g.read_servers { 2u32 } else { 0u32 })
        | (if g.manage_users { 4u32 } else { 0u32 }) | (if g.read_users { 8u32 } else { 0u32 })
        | (if g.manage_streams { 16u32 } else { 0u32 })
        | (if g.read_streams { 32u32 } else { 0u32 })
        | (if g.manage_topics { 64u32 } else { 0u32 })
        | (if g.read_topics { 128u32 } else { 0u32 })
        | (if g.poll_messages { 256u32 } else { 0u32 })
        | (if g.send_messages { 512u32 } else { 0u32 })
}

/// Pack the stream flags for storage in the authorization index.
pub fn encode_stream(s: &StreamPermissions) -> (r: u32)
    ensures
        r == stream_mask(*s),
{
    (if s.manage_stream { 1u32 } else { 0u32 }) | (if s.read_stream { 2u32 } else { 0u32 })
        | (if s.manage_topics { 4u32 } else { 0u32 }) | (if s.read_topics { 8u32 } else { 0u32 })
        | (if s.poll_messages { 16u32 } else { 0u32 })
        | (if s.send_messages { 32u32 } else { 0u32 })
}

/// The lowest mask bit records exactly the `manage_servers` flag.
pub proof fn lemma_global_mask_manage_servers(g: GlobalPermissions)
    ensures
        ((global_mask(g) & 1u32) != 0) == g.manage_servers,
{
    let a0: u32 = if g.manage_servers { 1u32 } else { 0u32 };
    let a1: u32 = if g.read_servers { 2u32 } else { 0u32 };
    let a2: u32 = if g.manage_users { 4u32 } else { 0u32 };
    let a3: u32 = if g.read_users { 8u32 } else { 0u32 };
    let a4: u32 = if g.manage_streams { 16u32 } else { 0u32 };
    let a5: u32 = if g.read_streams { 32u32 } else { 0u32 };
    let a6: u32 = if g.manage_topics { 64u32 } else { 0u32 };
    let a7: u32 = if g.read_topics { 128u32 } else { 0u32 };
    let a8: u32 = if g.poll_messages { 256u32 } else { 0u32 };
    let a9: u32 = if g.send_messages { 512u32 } else { 0u32 };
    assert((((a0 | a1 | a2 | a3 | a4 | a5 | a6 | a7 | a8 | a9) & 1u32) != 0) == (a0 == 1))
        by (bit_vector)
        requires
            a0 == 0 || a0 == 1,
            a1 == 0 || a1 == 2,
            a2 == 0 || a2 == 4,
            a3 == 0 || a3 == 8,
            a4 == 0 || a4 == 16,
            a5 == 0 || a5 == 32,
            a6 == 0 || a6 == 64,
            a7 == 0 || a7 == 128,
            a8 == 0 || a8 == 256,
            a9 == 0 || a9 == 512,
    ;
}

/// One index key for a (user, stream) pair: the user id in the high half.
pub open spec fn pack(user_id: u32, stream_id: u32) -> u64 {
    ((user_id as u64) << 32) | (stream_id as u64)
}

/// The user id a packed key belongs to.
pub open spec fn key_user(k: u64) -> u32 {
    (k >> 32) as u32
}

/// Build the index key of a (user, stream) pair.
pub fn pack_key(user_id: u32, stream_id: u32) -> (r: u64)
    ensures
        r == pack(user_id, stream_id),
{
    ((user_id as u64) << 32) | (stream_id as u64)
}

/// A packed key names its user, and equal keys name equal pairs.
pub proof fn lemma_pack(u1: u32, s1: u32, u2: u32, s2: u32)
    ensures
        key_user(pack(u1, s1)) == u1,
        pack(u1, s1) == pack(u2, s2) ==> u1 == u2 && s1 == s2,
{
    let a = u1 as u64;
    let b = s1 as u64;
    let c = u2 as u64;
    let d = s2 as u64;
    assert((((a << 32) | b) >> 32) == a && (((a << 32) | b) == ((c << 32) | d) ==> a == c && b
        == d)) by (bit_vector)
        requires
            a <= 0xffff_ffffu64,
            b <= 0xffff_ffffu64,
            c <= 0xffff_ffffu64,
            d <= 0xffff_ffffu64,
    ;
}

} // verus!
