use iggy_core::permissioner::{Permissioner, User};
use iggy_core::permissions::{GlobalPermissions, Permissions, StreamPermissions};

fn no_global() -> GlobalPermissions {
    GlobalPermissions {
        manage_servers: false,
        read_servers: false,
        manage_users: false,
        read_users: false,
        manage_streams: false,
        read_streams: false,
        manage_topics: false,
        read_topics: false,
        poll_messages: false,
        send_messages: false,
    }
}

fn stream_perm(poll: bool, send: bool) -> StreamPermissions {
    StreamPermissions {
        manage_stream: false,
        read_stream: false,
        manage_topics: false,
        read_topics: false,
        poll_messages: poll,
        send_messages: send,
    }
}

#[test]
fn init_installs_stream_specific_grants() {
    let mut p = Permissioner::new();
    let perms = Permissions {
        global: no_global(),
        streams: Some(vec![(1, stream_perm(true, true)), (2, stream_perm(true, false))]),
    };
    p.init_permissions_for_user(10, Some(perms));
    assert!(p.can_send_messages(10, 1));
    assert!(p.can_poll_messages(10, 1));
    assert!(!p.can_send_messages(10, 2));
    assert!(p.can_poll_messages(10, 2));
    assert!(!p.can_send_messages(10, 3));
    assert!(!p.can_poll_messages(10, 3));
    // another user has nothing
    assert!(!p.can_send_messages(11, 1));
}

#[test]
fn absent_permissions_deny_everything() {
    let mut p = Permissioner::new();
    p.init_permissions_for_user(10, None);
    assert!(!p.can_send_messages(10, 1));
    assert!(!p.can_poll_messages(10, 1));
}

#[test]
fn global_grants_cover_all_streams() {
    let mut p = Permissioner::new();
    let mut g = no_global();
    g.send_messages = true;
    p.init_permissions_for_user(7, Some(Permissions { global: g, streams: None }));
    assert!(p.can_send_messages(7, 123));
    assert!(!p.can_poll_messages(7, 123));
}

#[test]
fn manage_servers_bypasses_checks() {
    let mut p = Permissioner::new();
    let mut g = no_global();
    g.manage_servers = true;
    p.init_permissions_for_user(1, Some(Permissions { global: g, streams: None }));
    assert!(p.can_send_messages(1, 99));
    assert!(p.can_poll_messages(1, 99));
}

#[test]
fn delete_removes_user_from_every_index() {
    let mut p = Permissioner::new();
    let mut g = no_global();
    g.poll_messages = true;
    g.send_messages = true;
    let perms = Permissions {
        global: g,
        streams: Some(vec![(5, stream_perm(true, true))]),
    };
    p.init_permissions_for_user(10, Some(perms));
    assert!(p.can_send_messages(10, 5));
    p.delete_permissions_for_user(10);
    assert!(!p.can_send_messages(10, 5));
    assert!(!p.can_poll_messages(10, 5));
    assert!(!p.can_send_messages(10, 1));
}

#[test]
fn update_replaces_old_grants() {
    let mut p = Permissioner::new();
    p.init_permissions_for_user(
        3,
        Some(Permissions {
            global: no_global(),
            streams: Some(vec![(1, stream_perm(false, true))]),
        }),
    );
    assert!(p.can_send_messages(3, 1));
    p.update_permissions_for_user(
        3,
        Some(Permissions {
            global: no_global(),
            streams: Some(vec![(2, stream_perm(false, true))]),
        }),
    );
    assert!(!p.can_send_messages(3, 1));
    assert!(p.can_send_messages(3, 2));
}

#[test]
fn init_walks_users_in_order() {
    let mut p = Permissioner::new();
    let users = vec![
        User {
            id: 1,
            active: true,
            permissions: Some(Permissions {
                global: no_global(),
                streams: Some(vec![(8, stream_perm(true, false))]),
            }),
        },
        User { id: 2, active: true, permissions: None },
    ];
    p.init(users);
    assert!(p.can_poll_messages(1, 8));
    assert!(!p.can_poll_messages(2, 8));
}
