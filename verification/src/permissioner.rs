//! The authorization oracle: per-user indices answering, in one lookup each,
//! whether a user may poll or send on a stream. Installing, updating and
//! deleting a user's permissions rewrite the indices; every transition is
//! stated over `PermView`, the mathematical content of the six indices.
use vstd::prelude::*;
use crate::permissions::{
    Permissions, StreamPermissions, global_mask, stream_mask, encode_global, encode_stream, pack,
    pack_key, key_user, lemma_pack, permissions_wf,
};
use crate::perm_store::{IdSet, PermMap, id_set_view, perm_map_view};

verus! {

/// One user record as the authorization layer sees it.
pub struct User {
    pub id: u32,
    pub active: bool,
    pub permissions: Option<Permissions>,
}

/// The content of the six authorization indices: the two mask tables and the
/// four membership sets. Keys of the per-stream tables are packed
/// (user, stream) pairs; the others are plain user ids.
#[verifier::ext_equal]
pub struct PermView {
    pub global: Map<u64, u32>,
    pub streams: Map<u64, u32>,
    pub poll_all: Set<u64>,
    pub send_all: Set<u64>,
    pub poll_specific: Set<u64>,
    pub send_specific: Set<u64>,
}

/// Install one per-stream entry for a user.
pub open spec fn spec_stream_entry(v: PermView, uid: u32, sid: u32, sp: StreamPermissions)
    -> PermView {
    PermView {
        global: v.global,
        poll_all: v.poll_all,
        send_all: v.send_all,
        streams: v.streams.insert(pack(uid, sid), stream_mask(sp)),
        poll_specific: if sp.poll_messages {
            v.poll_specific.insert(pack(uid, sid))
        } else {
            v.poll_specific
        },
        send_specific: if sp.send_messages {
            v.send_specific.insert(pack(uid, sid))
        } else {
            v.send_specific
        },
    }
}

/// Install a user's per-stream entries, first to last.
pub open spec fn spec_apply_streams(
    v: PermView,
    uid: u32,
    ss: Seq<(u32, StreamPermissions)>,
) -> PermView
    decreases ss.len(),
{
    if ss.len() == 0 {
        v
    } else {
        spec_apply_streams(spec_stream_entry(v, uid, ss[0].0, ss[0].1), uid, ss.skip(1))
    }
}

/// Install a whole permission record for a user; an absent record installs
/// nothing.
pub open spec fn spec_init_user(v: PermView, uid: u32, p: Option<Permissions>) -> PermView {
    match p {
        Option::None => v,
        Option::Some(p) => {
            let v1 = PermView {
                global: v.global.insert(uid as u64, global_mask(p.global)),
                poll_all: if p.global.poll_messages {
                    v.poll_all.insert(uid as u64)
                } else {
                    v.poll_all
                },
                send_all: if p.global.send_messages {
                    v.send_all.insert(uid as u64)
                } else {
                    v.send_all
                },
                streams: v.streams,
                poll_specific: v.poll_specific,
                send_specific: v.send_specific,
            };
            match p.streams {
                Option::None => v1,
                Option::Some(ss) => spec_apply_streams(v1, uid, ss@),
            }
        },
    }
}

/// Remove a user from every index.
pub open spec fn spec_delete_user(v: PermView, uid: u32) -> PermView {
    PermView {
        global: v.global.remove(uid as u64),
        streams: v.streams.remove_keys(Set::new(|k: u64| key_user(k) == uid)),
        poll_all: v.poll_all.remove(uid as u64),
        send_all: v.send_all.remove(uid as u64),
        poll_specific: v.poll_specific.filter(|k: u64| key_user(k) != uid),
        send_specific: v.send_specific.filter(|k: u64| key_user(k) != uid),
    }
}

/// Install users one after the other, first to last.
pub open spec fn spec_init_users(v: PermView, us: Seq<User>) -> PermView
    decreases us.len(),
{
    if us.len() == 0 {
        v
    } else {
        spec_init_users(spec_init_user(v, us[0].id, us[0].permissions), us.skip(1))
    }
}

/// The user holds no entry in any index.
pub open spec fn user_absent(v: PermView, u: u32) -> bool {
    &&& !v.global.dom().contains(u as u64)
    &&& !v.poll_all.contains(u as u64)
    &&& !v.send_all.contains(u as u64)
    &&& forall|k: u64| key_user(k) == u ==> !(#[trigger] v.streams.dom().contains(k))
    &&& forall|k: u64| key_user(k) == u ==> !(#[trigger] v.poll_specific.contains(k))
    &&& forall|k: u64| key_user(k) == u ==> !(#[trigger] v.send_specific.contains(k))
}

/// The record grants send_messages on stream `s`.
pub open spec fn stream_grants_send(p: Permissions, s: u32) -> bool {
    match p.streams {
        Option::None => false,
        Option::Some(ss) => exists|i: int|
            0 <= i < ss@.len() && (#[trigger] ss@[i]).0 == s && ss@[i].1.send_messages,
    }
}

/// The record grants poll_messages on stream `s`.
pub open spec fn stream_grants_poll(p: Permissions, s: u32) -> bool {
    match p.streams {
        Option::None => false,
        Option::Some(ss) => exists|i: int|
            0 <= i < ss@.len() && (#[trigger] ss@[i]).0 == s && ss@[i].1.poll_messages,
    }
}

/// The user bypasses per-resource checks: its installed global flags have
/// `manage_servers` set.
pub open spec fn spec_is_root(v: PermView, u: u32) -> bool {
    v.global.dom().contains(u as u64) && (v.global[u as u64] & 1u32) != 0
}

/// The user may poll stream `s`: root, global poll grant, or a grant on `s`.
pub open spec fn spec_can_poll(v: PermView, u: u32, s: u32) -> bool {
    spec_is_root(v, u) || v.poll_all.contains(u as u64) || v.poll_specific.contains(pack(u, s))
}

/// The user may send to stream `s`: root, global send grant, or a grant on `s`.
pub open spec fn spec_can_send(v: PermView, u: u32, s: u32) -> bool {
    spec_is_root(v, u) || v.send_all.contains(u as u64) || v.send_specific.contains(pack(u, s))
}

/// The six authorization indices.
pub struct Permissioner {
    pub users_permissions: PermMap,
    pub users_streams_permissions: PermMap,
    pub users_that_can_poll_messages_from_all_streams: IdSet,
    pub users_that_can_send_messages_to_all_streams: IdSet,
    pub users_that_can_poll_messages_from_specific_streams: IdSet,
    pub users_that_can_send_messages_to_specific_streams: IdSet,
}

impl Permissioner {
    /// The mathematical content of the indices.
    pub open spec fn pview(self) -> PermView {
        PermView {
            global: perm_map_view(self.users_permissions),
            streams: perm_map_view(self.users_streams_permissions),
            poll_all: id_set_view(self.users_that_can_poll_messages_from_all_streams),
            send_all: id_set_view(self.users_that_can_send_messages_to_all_streams),
            poll_specific: id_set_view(self.users_that_can_poll_messages_from_specific_streams),
            send_specific: id_set_view(self.users_that_can_send_messages_to_specific_streams),
        }
    }

    /// All views empty: nobody is authorized for anything.
    pub open spec fn pview_empty(v: PermView) -> bool {
        &&& v.global =~= Map::empty()
        &&& v.streams =~= Map::empty()
        &&& v.poll_all =~= Set::empty()
        &&& v.send_all =~= Set::empty()
        &&& v.poll_specific =~= Set::empty()
        &&& v.send_specific =~= Set::empty()
    }

    /// An empty permissioner: every check denies.
    pub fn new() -> (r: Permissioner)
        ensures
            Permissioner::pview_empty(r.pview()),
    {
        Permissioner {
            users_permissions: PermMap::new(),
            users_streams_permissions: PermMap::new(),
            users_that_can_poll_messages_from_all_streams: IdSet::new(),
            users_that_can_send_messages_to_all_streams: IdSet::new(),
            users_that_can_poll_messages_from_specific_streams: IdSet::new(),
            users_that_can_send_messages_to_specific_streams: IdSet::new(),
        }
    }

    /// Install the permissions of every given user, first to last.
    pub fn init(&mut self, users: Vec<User>)
        ensures
            final(self).pview() == spec_init_users(old(self).pview(), users@),
    {
        let ghost orig = users@;
        let ghost v0 = self.pview();
        let mut users = users;
        while users.len() > 0
            invariant
                spec_init_users(self.pview(), users@) == spec_init_users(v0, orig),
            decreases users@.len(),
        {
            let ghost prev = users@;
            let ghost pv = self.pview();
            let u = users.remove(0);
            self.init_permissions_for_user(u.id, u.permissions);
            proof {
                assert(users@ =~= prev.skip(1));
                assert(spec_init_users(pv, prev) == spec_init_users(self.pview(), users@));
            }
        }
    }

    /// Install one user's permission record: global grants feed the all-stream
    /// sets and the mask table; each stream entry feeds the specific sets and
    /// the per-stream mask table. An absent record installs nothing.
    pub fn init_permissions_for_user(&mut self, user_id: u32, permissions: Option<Permissions>)
        ensures
            final(self).pview() == spec_init_user(old(self).pview(), user_id, permissions),
    {
        let p = match permissions {
            Option::None => {
                return ;
            },
            Option::Some(p) => p,
        };
        if p.global.poll_messages {
            self.users_that_can_poll_messages_from_all_streams.insert(user_id as u64);
        }
        if p.global.send_messages {
            self.users_that_can_send_messages_to_all_streams.insert(user_id as u64);
        }
        let mask = encode_global(&p.global);
        self.users_permissions.insert(user_id as u64, mask);
        let ghost v1 = self.pview();
        let ss = match p.streams {
            Option::None => {
                return ;
            },
            Option::Some(ss) => ss,
        };
        let mut i: usize = 0;
        while i < ss.len()
            invariant
                i <= ss@.len(),
                spec_apply_streams(v1, user_id, ss@.take(i as int)) == self.pview(),
            decreases ss@.len() - i,
        {
            let (sid, sp) = ss[i];
            if sp.poll_messages {
                self.users_that_can_poll_messages_from_specific_streams.insert(
                    pack_key(user_id, sid),
                );
            }
            if sp.send_messages {
                self.users_that_can_send_messages_to_specific_streams.insert(
                    pack_key(user_id, sid),
                );
            }
            self.users_streams_permissions.insert(pack_key(user_id, sid), encode_stream(&sp));
            proof {
                lemma_apply_streams_snoc(v1, user_id, ss@, i as int);
                assert(self.pview() =~= spec_stream_entry(
                    spec_apply_streams(v1, user_id, ss@.take(i as int)),
                    user_id,
                    sid,
                    sp,
                ));
            }
            i = i + 1;
        }
        proof {
            assert(ss@.take(ss@.len() as int) =~= ss@);
        }
    }

    /// Delete then reinstall: the indices afterwards hold exactly the new
    /// record, whatever they held of the user before.
    pub fn update_permissions_for_user(&mut self, user_id: u32, permissions: Option<Permissions>)
        ensures
            final(self).pview() == spec_init_user(
                spec_delete_user(old(self).pview(), user_id),
                user_id,
                permissions,
            ),
    {
        self.delete_permissions_for_user(user_id);
        self.init_permissions_for_user(user_id, permissions);
    }

    /// Remove the user from every index.
    pub fn delete_permissions_for_user(&mut self, user_id: u32)
        ensures
            final(self).pview() == spec_delete_user(old(self).pview(), user_id),
    {
        self.users_permissions.remove(user_id as u64);
        self.users_that_can_poll_messages_from_all_streams.remove(user_id as u64);
        self.users_that_can_send_messages_to_all_streams.remove(user_id as u64);
        self.users_streams_permissions.remove_user_keys(user_id);
        self.users_that_can_poll_messages_from_specific_streams.remove_user_keys(user_id);
        self.users_that_can_send_messages_to_specific_streams.remove_user_keys(user_id);
        proof {
            assert(self.pview() =~= spec_delete_user(old(self).pview(), user_id));
        }
    }

    /// May the user poll messages from the stream?
    pub fn can_poll_messages(&self, user_id: u32, stream_id: u32) -> (r: bool)
        ensures
            r == spec_can_poll(self.pview(), user_id, stream_id),
    {
        match self.users_permissions.get(user_id as u64) {
            Option::Some(m) => {
                if m & 1 != 0 {
                    return true;
                }
            },
            Option::None => {},
        }
        if self.users_that_can_poll_messages_from_all_streams.contains(user_id as u64) {
            return true;
        }
        self.users_that_can_poll_messages_from_specific_streams.contains(
            pack_key(user_id, stream_id),
        )
    }

    /// May the user send messages to the stream?
    pub fn can_send_messages(&self, user_id: u32, stream_id: u32) -> (r: bool)
        ensures
            r == spec_can_send(self.pview(), user_id, stream_id),
    {
        match self.users_permissions.get(user_id as u64) {
            Option::Some(m) => {
                if m & 1 != 0 {
                    return true;
                }
            },
            Option::None => {},
        }
        if self.users_that_can_send_messages_to_all_streams.contains(user_id as u64) {
            return true;
        }
        self.users_that_can_send_messages_to_specific_streams.contains(
            pack_key(user_id, stream_id),
        )
    }
}

impl Default for Permissioner {
    /// The empty permissioner.
    fn default() -> (r: Permissioner)
        ensures
            Permissioner::pview_empty(r.pview()),
    {
        Permissioner::new()
    }
}

/// Applying a prefix of one more entry is applying the prefix, then the entry.
pub proof fn lemma_apply_streams_snoc(
    v: PermView,
    uid: u32,
    ss: Seq<(u32, StreamPermissions)>,
    i: int,
)
    requires
        0 <= i < ss.len(),
    ensures
        spec_apply_streams(v, uid, ss.take(i + 1)) == spec_stream_entry(
            spec_apply_streams(v, uid, ss.take(i)),
            uid,
            ss[i].0,
            ss[i].1,
        ),
    decreases i,
{
    if i == 0 {
        assert(ss.take(1).skip(1) =~= ss.take(0));
        assert(spec_apply_streams(v, uid, ss.take(1)) == spec_apply_streams(
            spec_stream_entry(v, uid, ss[0].0, ss[0].1),
            uid,
            ss.take(1).skip(1),
        ));
    } else {
        let w = spec_stream_entry(v, uid, ss[0].0, ss[0].1);
        assert(ss.take(i + 1).skip(1) =~= ss.skip(1).take(i));
        assert(ss.take(i).skip(1) =~= ss.skip(1).take(i - 1));
        lemma_apply_streams_snoc(w, uid, ss.skip(1), i - 1);
        assert(ss.skip(1)[i - 1] == ss[i]);
    }
}

/// What the specific indices and per-stream table hold after a run of stream
/// entries: what they held before, plus the granted pairs of the run.
pub proof fn lemma_apply_streams_membership(
    v: PermView,
    u: u32,
    ss: Seq<(u32, StreamPermissions)>,
    k: u64,
)
    ensures
        spec_apply_streams(v, u, ss).send_specific.contains(k) == (v.send_specific.contains(k)
            || exists|i: int|
            0 <= i < ss.len() && k == pack(u, (#[trigger] ss[i]).0) && ss[i].1.send_messages),
        spec_apply_streams(v, u, ss).poll_specific.contains(k) == (v.poll_specific.contains(k)
            || exists|i: int|
            0 <= i < ss.len() && k == pack(u, (#[trigger] ss[i]).0) && ss[i].1.poll_messages),
        spec_apply_streams(v, u, ss).streams.dom().contains(k) == (v.streams.dom().contains(k)
            || exists|i: int| 0 <= i < ss.len() && k == pack(u, (#[trigger] ss[i]).0)),
        spec_apply_streams(v, u, ss).global == v.global,
        spec_apply_streams(v, u, ss).poll_all == v.poll_all,
        spec_apply_streams(v, u, ss).send_all == v.send_all,
    decreases ss.len(),
{
    if ss.len() > 0 {
        let v1 = spec_stream_entry(v, u, ss[0].0, ss[0].1);
        lemma_apply_streams_membership(v1, u, ss.skip(1), k);
        assert forall|i: int| 0 <= i < ss.skip(1).len() implies #[trigger] ss.skip(1)[i] == ss[i
            + 1] by {}
        if exists|i: int|
            0 <= i < ss.len() && k == pack(u, (#[trigger] ss[i]).0) && ss[i].1.send_messages {
            let i = choose|i: int|
                0 <= i < ss.len() && k == pack(u, (#[trigger] ss[i]).0) && ss[i].1.send_messages;
            if i > 0 {
                assert(ss.skip(1)[i - 1] == ss[i]);
            }
        }
        if exists|i: int|
            0 <= i < ss.len() && k == pack(u, (#[trigger] ss[i]).0) && ss[i].1.poll_messages {
            let i = choose|i: int|
                0 <= i < ss.len() && k == pack(u, (#[trigger] ss[i]).0) && ss[i].1.poll_messages;
            if i > 0 {
                assert(ss.skip(1)[i - 1] == ss[i]);
            }
        }
        if exists|i: int| 0 <= i < ss.len() && k == pack(u, (#[trigger] ss[i]).0) {
            let i = choose|i: int| 0 <= i < ss.len() && k == pack(u, (#[trigger] ss[i]).0);
            if i > 0 {
                assert(ss.skip(1)[i - 1] == ss[i]);
            }
        }
    }
}

/// After installing a record for a user absent from every index, the
/// specific indices hold (u, s) exactly when the record grants the matching
/// right on stream s.
pub proof fn lemma_init_installs_indices(v: PermView, u: u32, p: Permissions, s: u32)
    requires
        user_absent(v, u),
        permissions_wf(p),
    ensures
        spec_init_user(v, u, Option::Some(p)).send_specific.contains(pack(u, s))
            == stream_grants_send(p, s),
        spec_init_user(v, u, Option::Some(p)).poll_specific.contains(pack(u, s))
            == stream_grants_poll(p, s),
{
    lemma_pack(u, s, u, s);
    match p.streams {
        Option::None => {},
        Option::Some(ss) => {
            let v1 = spec_init_user_global(v, u, p);
            lemma_apply_streams_membership(v1, u, ss@, pack(u, s));
            assert forall|i: int| 0 <= i < ss@.len() implies (pack(u, s) == pack(
                u,
                (#[trigger] ss@[i]).0,
            )) == (ss@[i].0 == s) by {
                lemma_pack(u, ss@[i].0, u, s);
            }
        },
    }
}

/// The state after installing only the global half of a record.
pub open spec fn spec_init_user_global(v: PermView, uid: u32, p: Permissions) -> PermView {
    PermView {
        global: v.global.insert(uid as u64, global_mask(p.global)),
        poll_all: if p.global.poll_messages {
            v.poll_all.insert(uid as u64)
        } else {
            v.poll_all
        },
        send_all: if p.global.send_messages {
            v.send_all.insert(uid as u64)
        } else {
            v.send_all
        },
        streams: v.streams,
        poll_specific: v.poll_specific,
        send_specific: v.send_specific,
    }
}

/// After a user is deleted, the user is absent from every index.
pub proof fn lemma_delete_removes_user(v: PermView, u: u32)
    ensures
        user_absent(spec_delete_user(v, u), u),
{
    let d = spec_delete_user(v, u);
    assert forall|k: u64| key_user(k) == u implies !(#[trigger] d.streams.dom().contains(k)) by {
        assert(Set::new(|k: u64| key_user(k) == u).contains(k));
    }
    assert forall|k: u64| key_user(k) == u implies !(#[trigger] d.poll_specific.contains(k)) by {}
    assert forall|k: u64| key_user(k) == u implies !(#[trigger] d.send_specific.contains(k)) by {}
}

} // verus!
