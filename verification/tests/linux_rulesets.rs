use guardrail::linux::access::{
    access_for_right, handled_access, HANDLED_ACCESS_FS, PRIVATE_IPC_ACCESS_FS,
};
use guardrail::linux::ruleset::{
    ipc_features_for_abi, net_features_for_abi, prepare_network, IpcFeatures, NetFeatures,
    PathGrant, Policy, PortGrant, LANDLOCK_ACCESS_FS_REFER, LANDLOCK_ACCESS_FS_RESOLVE_UNIX,
    LANDLOCK_ACCESS_NET_BIND_TCP, LANDLOCK_ACCESS_NET_BIND_UDP,
    LANDLOCK_SCOPE_ABSTRACT_UNIX_SOCKET, LANDLOCK_SCOPE_SIGNAL,
};
use guardrail::{Error, FsRight, NetworkPolicy, SandboxConfig, SandboxPath};
use landlock::{Access, AccessFs, BitFlags, ABI};

#[test]
fn ipc_abi_policy_matrix_is_exact() {
    for abi in [2, 5] {
        assert_eq!(
            ipc_features_for_abi(abi),
            IpcFeatures {
                scope_abstract_unix_socket: false,
                scope_signal: false,
                resolve_pathname_unix_socket: false,
            }
        );
    }
    for abi in [6, 7, 8] {
        assert_eq!(
            ipc_features_for_abi(abi),
            IpcFeatures {
                scope_abstract_unix_socket: true,
                scope_signal: true,
                resolve_pathname_unix_socket: false,
            }
        );
    }
    for abi in [9, 10, 99] {
        assert_eq!(
            ipc_features_for_abi(abi),
            IpcFeatures {
                scope_abstract_unix_socket: true,
                scope_signal: true,
                resolve_pathname_unix_socket: true,
            }
        );
    }
}

#[test]
fn pathname_grants_are_discarded_before_abi_v9() {
    let missing = vec![SandboxPath::from("/definitely/missing/guardrail.sock")];
    assert!(Policy::with_abi(8, &missing).unix_sockets.is_empty());
    assert_eq!(Policy::with_abi(9, &missing).unix_sockets, missing);
}

#[test]
fn net_abi_policy_matrix_is_exact() {
    for abi in [2, 3] {
        assert_eq!(
            net_features_for_abi(abi),
            NetFeatures { bind_tcp: false, bind_udp: false }
        );
    }
    for abi in [4, 5, 6, 7, 8, 9] {
        assert_eq!(
            net_features_for_abi(abi),
            NetFeatures { bind_tcp: true, bind_udp: false }
        );
    }
    for abi in [10, 11, 99] {
        assert_eq!(
            net_features_for_abi(abi),
            NetFeatures { bind_tcp: true, bind_udp: true }
        );
    }
}

#[test]
fn ipc_domains_follow_the_abi() {
    let sockets = vec![SandboxPath::from("/run/a.sock"), SandboxPath::from("/run/b")];
    assert!(Policy::with_abi(5, &sockets).prepare().is_none());

    let scoped = LANDLOCK_SCOPE_ABSTRACT_UNIX_SOCKET | LANDLOCK_SCOPE_SIGNAL;
    let request = Policy::with_abi(6, &sockets).prepare().unwrap();
    assert_eq!(request.handled_access_fs, LANDLOCK_ACCESS_FS_REFER);
    assert_eq!(request.handled_access_net, 0);
    assert_eq!(request.scoped, scoped);
    assert_eq!(
        request.path_grants,
        vec![PathGrant { path: "/".into(), access: LANDLOCK_ACCESS_FS_REFER }]
    );
    assert!(request.port_grants.is_empty());

    let config = SandboxConfig { linux_unix_sockets: sockets, ..SandboxConfig::default() };
    let request = Policy::new(&config, 9).prepare().unwrap();
    assert_eq!(
        request.handled_access_fs,
        LANDLOCK_ACCESS_FS_REFER | LANDLOCK_ACCESS_FS_RESOLVE_UNIX
    );
    assert_eq!(
        request.path_grants,
        vec![
            PathGrant { path: "/".into(), access: LANDLOCK_ACCESS_FS_REFER },
            PathGrant { path: "/run/a.sock".into(), access: LANDLOCK_ACCESS_FS_RESOLVE_UNIX },
            PathGrant { path: "/run/b".into(), access: LANDLOCK_ACCESS_FS_RESOLVE_UNIX },
        ]
    );
}

#[test]
fn only_outbound_networking_needs_a_ruleset() {
    assert_eq!(prepare_network(NetworkPolicy::Deny, 1), Ok(None));
    assert_eq!(prepare_network(NetworkPolicy::Full, 1), Ok(None));

    let request = prepare_network(NetworkPolicy::OutboundOnly, 4).unwrap().unwrap();
    assert_eq!(request.handled_access_net, LANDLOCK_ACCESS_NET_BIND_TCP);
    assert_eq!(request.handled_access_fs, LANDLOCK_ACCESS_FS_REFER);
    assert_eq!(request.scoped, 0);
    assert!(request.port_grants.is_empty());

    let request = prepare_network(NetworkPolicy::OutboundOnly, 10).unwrap().unwrap();
    assert_eq!(
        request.handled_access_net,
        LANDLOCK_ACCESS_NET_BIND_TCP | LANDLOCK_ACCESS_NET_BIND_UDP
    );
    assert_eq!(
        request.port_grants,
        vec![PortGrant { port: 0, access: LANDLOCK_ACCESS_NET_BIND_UDP }]
    );
}

#[test]
fn outbound_networking_needs_a_recent_kernel() {
    assert_eq!(
        prepare_network(NetworkPolicy::OutboundOnly, 3),
        Err(Error::Unsupported(
            "NetworkPolicy::OutboundOnly requires Landlock network support (ABI v4+); the running kernel reports ABI v3"
                .to_string()
        ))
    );
    assert_eq!(
        prepare_network(NetworkPolicy::OutboundOnly, -1),
        Err(Error::Unsupported(
            "NetworkPolicy::OutboundOnly requires Landlock network support (ABI v4+); the running kernel reports ABI v-1"
                .to_string()
        ))
    );
}

#[test]
fn write_access_uses_write_only_rights() {
    let write = access_for_right(FsRight::Write);

    let expected: BitFlags<AccessFs> = AccessFs::from_write(ABI::V2);
    assert_eq!(write, expected.bits());
    assert_ne!(write & BitFlags::from(AccessFs::Refer).bits(), 0);
    assert_eq!(write & access_for_right(FsRight::Read), 0);
    assert_eq!(write & access_for_right(FsRight::Execute), 0);
}

#[test]
fn rights_are_those_of_the_landlock_crate() {
    assert_eq!(
        access_for_right(FsRight::Read),
        (AccessFs::ReadFile | AccessFs::ReadDir).bits()
    );
    assert_eq!(
        access_for_right(FsRight::Execute),
        BitFlags::from(AccessFs::Execute).bits()
    );
    let all: BitFlags<AccessFs> = AccessFs::from_all(ABI::V2);
    assert_eq!(handled_access(), all.bits());
    assert_eq!(HANDLED_ACCESS_FS, all.bits());
    assert_eq!(
        access_for_right(FsRight::Read)
            | access_for_right(FsRight::Write)
            | access_for_right(FsRight::Execute),
        all.bits()
    );
    assert_eq!(
        PRIVATE_IPC_ACCESS_FS,
        access_for_right(FsRight::Read) | access_for_right(FsRight::Write)
    );
}
