//! The Landlock layers for network and IPC, selected by the running kernel's
//! ABI.
//!
//! Every Landlock layer denies `REFER` by default, even when it is not listed.
//! Both layers therefore handle it and grant it at `/`, so that they do not
//! narrow the filesystem policy.
use crate::config::SandboxConfig;
use crate::error::{is_unsupported, Error};
use crate::linux::access::{access_of, HANDLED_ACCESS_FS};
use crate::path::SandboxPath;
use crate::policy::{FsRight, NetworkPolicy};
use crate::text::{push_signed, signed_decimal};
use vstd::prelude::*;

verus! {

/// `LANDLOCK_ACCESS_FS_REFER`.
pub const LANDLOCK_ACCESS_FS_REFER: u64 = 0x2000;

/// `LANDLOCK_ACCESS_FS_RESOLVE_UNIX`.
pub const LANDLOCK_ACCESS_FS_RESOLVE_UNIX: u64 = 0x10000;

/// `LANDLOCK_ACCESS_NET_BIND_TCP`.
pub const LANDLOCK_ACCESS_NET_BIND_TCP: u64 = 0x1;

/// `LANDLOCK_ACCESS_NET_BIND_UDP`.
pub const LANDLOCK_ACCESS_NET_BIND_UDP: u64 = 0x4;

/// `LANDLOCK_SCOPE_ABSTRACT_UNIX_SOCKET`.
pub const LANDLOCK_SCOPE_ABSTRACT_UNIX_SOCKET: u64 = 0x1;

/// `LANDLOCK_SCOPE_SIGNAL`.
pub const LANDLOCK_SCOPE_SIGNAL: u64 = 0x2;

/// Rights beneath a path.
#[derive(Debug, PartialEq, Eq)]
pub struct PathGrant {
    /// The path.
    pub path: SandboxPath,
    /// The granted rights.
    pub access: u64,
}

/// Rights on a port.
#[derive(Debug, Clone, Copy, PartialEq, Eq, Structural)]
pub struct PortGrant {
    /// The port.
    pub port: u64,
    /// The granted rights.
    pub access: u64,
}

/// A Landlock ruleset: what it mediates and what it grants.
#[derive(Debug, PartialEq, Eq)]
pub struct RulesetRequest {
    /// The mediated filesystem rights.
    pub handled_access_fs: u64,
    /// The mediated network rights.
    pub handled_access_net: u64,
    /// The scoped operations.
    pub scoped: u64,
    /// The grants beneath paths, in order.
    pub path_grants: Vec<PathGrant>,
    /// The grants on ports, in order.
    pub port_grants: Vec<PortGrant>,
}

/// Whether `grant` grants `access` beneath `path`.
pub open spec fn grants_path(grant: PathGrant, path: Seq<u8>, access: u64) -> bool {
    grant.path@ == path && grant.access == access
}

/// The IPC operations that a kernel can mediate.
#[derive(Debug, Clone, Copy, PartialEq, Eq, Structural)]
pub struct IpcFeatures {
    /// Connecting to abstract Unix sockets.
    pub scope_abstract_unix_socket: bool,
    /// Sending signals.
    pub scope_signal: bool,
    /// Connecting to pathname Unix sockets.
    pub resolve_pathname_unix_socket: bool,
}

/// The network operations that a kernel can mediate.
#[derive(Debug, Clone, Copy, PartialEq, Eq, Structural)]
pub struct NetFeatures {
    /// Binding TCP sockets.
    pub bind_tcp: bool,
    /// Binding UDP sockets.
    pub bind_udp: bool,
}

/// The IPC operations that a kernel with Landlock ABI `abi` can mediate.
pub fn ipc_features_for_abi(abi: i32) -> (features: IpcFeatures)
    ensures
        features == (IpcFeatures {
            scope_abstract_unix_socket: abi >= 6,
            scope_signal: abi >= 6,
            resolve_pathname_unix_socket: abi >= 9,
        }),
{
    IpcFeatures {
        scope_abstract_unix_socket: abi >= 6,
        scope_signal: abi >= 6,
        resolve_pathname_unix_socket: abi >= 9,
    }
}

/// The network operations that a kernel with Landlock ABI `abi` can mediate.
pub fn net_features_for_abi(abi: i32) -> (features: NetFeatures)
    ensures
        features == (NetFeatures { bind_tcp: abi >= 4, bind_udp: abi >= 10 }),
{
    NetFeatures { bind_tcp: abi >= 4, bind_udp: abi >= 10 }
}

/// Runtime-selected IPC policy. Paths are retained only when ABI v9 can enforce
/// them, so older kernels never validate or open ignored grants.
#[derive(Debug, PartialEq, Eq)]
pub struct Policy {
    /// The Landlock ABI of the running kernel.
    pub abi: i32,
    /// The pathname sockets that may be connected to.
    pub unix_sockets: Vec<SandboxPath>,
}

/// The bytes of the paths in a vector of paths.
pub open spec fn path_bytes(paths: Seq<SandboxPath>) -> Seq<Seq<u8>> {
    paths.map_values(|path: SandboxPath| path@)
}

/// The root directory.
fn root() -> (path: SandboxPath)
    ensures
        path@ == seq![0x2fu8],
{
    let mut bytes: Vec<u8> = Vec::new();
    bytes.push(0x2f);
    assert(bytes@ =~= seq![0x2fu8]);
    SandboxPath::new(bytes)
}

/// Whether `request` is what an IPC policy calls for.
pub open spec fn is_ipc_ruleset(policy: Policy, request: Option<RulesetRequest>) -> bool {
    match request {
        None => policy.abi < 6,
        Some(request) => {
            &&& policy.abi >= 6
            &&& request.handled_access_fs == (if policy.abi >= 9 {
                LANDLOCK_ACCESS_FS_REFER | LANDLOCK_ACCESS_FS_RESOLVE_UNIX
            } else {
                LANDLOCK_ACCESS_FS_REFER
            })
            &&& request.handled_access_net == 0
            &&& request.scoped == LANDLOCK_SCOPE_ABSTRACT_UNIX_SOCKET
                | LANDLOCK_SCOPE_SIGNAL
            &&& request.path_grants@.len() == policy.unix_sockets@.len() + 1
            &&& grants_path(
                request.path_grants@[0],
                seq![0x2fu8],
                LANDLOCK_ACCESS_FS_REFER,
            )
            &&& forall|i: int|
                0 <= i < policy.unix_sockets@.len() ==> grants_path(
                    request.path_grants@[i + 1],
                    (#[trigger] policy.unix_sockets@[i])@,
                    LANDLOCK_ACCESS_FS_RESOLVE_UNIX,
                )
            &&& request.port_grants@.len() == 0
        },
    }
}

impl Policy {
    /// The IPC policy of a configuration on a kernel with Landlock ABI `abi`.
    pub fn new(config: &SandboxConfig, abi: i32) -> (policy: Policy)
        ensures
            policy.abi == abi,
            path_bytes(policy.unix_sockets@) == (if abi >= 9 {
                path_bytes(config.linux_unix_sockets@)
            } else {
                seq![]
            }),
    {
        Policy::with_abi(abi, &config.linux_unix_sockets)
    }

    /// The IPC policy with the given socket grants on a kernel with Landlock ABI
    /// `abi`.
    pub fn with_abi(abi: i32, unix_sockets: &Vec<SandboxPath>) -> (policy: Policy)
        ensures
            policy.abi == abi,
            path_bytes(policy.unix_sockets@) == (if abi >= 9 {
                path_bytes(unix_sockets@)
            } else {
                seq![]
            }),
    {
        let mut kept: Vec<SandboxPath> = Vec::new();
        assert(path_bytes(kept@) =~= seq![]);
        if ipc_features_for_abi(abi).resolve_pathname_unix_socket {
            let mut i: usize = 0;
            while i < unix_sockets.len()
                invariant
                    i <= unix_sockets@.len(),
                    path_bytes(kept@) == path_bytes(unix_sockets@.take(i as int)),
                decreases unix_sockets.len() - i,
            {
                let ghost before = path_bytes(kept@);
                kept.push(unix_sockets[i].clone());
                proof {
                    assert(path_bytes(kept@) =~= before.push(unix_sockets@[i as int]@));
                    assert(path_bytes(unix_sockets@.take(i + 1)) =~= before.push(
                        unix_sockets@[i as int]@,
                    ));
                }
                i += 1;
            }
            assert(unix_sockets@.take(i as int) =~= unix_sockets@);
        }
        Policy { abi, unix_sockets: kept }
    }

    /// The ruleset of the sandbox's IPC domain. ABI v2-v5 need none; ABI v6-v8
    /// scope abstract sockets and signals; ABI v9+ also mediates pathname socket
    /// resolution and grants it explicitly.
    pub fn prepare(&self) -> (request: Option<RulesetRequest>)
        ensures
            is_ipc_ruleset(*self, request),
    {
        let features = ipc_features_for_abi(self.abi);
        if !features.scope_abstract_unix_socket {
            return None;
        }
        let handled_access_fs = if features.resolve_pathname_unix_socket {
            LANDLOCK_ACCESS_FS_REFER | LANDLOCK_ACCESS_FS_RESOLVE_UNIX
        } else {
            LANDLOCK_ACCESS_FS_REFER
        };
        let mut path_grants: Vec<PathGrant> = Vec::new();
        path_grants.push(PathGrant { path: root(), access: LANDLOCK_ACCESS_FS_REFER });
        let mut i: usize = 0;
        while i < self.unix_sockets.len()
            invariant
                i <= self.unix_sockets@.len(),
                path_grants@.len() == i + 1,
                grants_path(path_grants@[0], seq![0x2fu8], LANDLOCK_ACCESS_FS_REFER),
                forall|k: int|
                    0 <= k < i ==> grants_path(
                        path_grants@[k + 1],
                        (#[trigger] self.unix_sockets@[k])@,
                        LANDLOCK_ACCESS_FS_RESOLVE_UNIX,
                    ),
            decreases self.unix_sockets.len() - i,
        {
            path_grants.push(
                PathGrant {
                    path: self.unix_sockets[i].clone(),
                    access: LANDLOCK_ACCESS_FS_RESOLVE_UNIX,
                },
            );
            i += 1;
        }
        Some(
            RulesetRequest {
                handled_access_fs,
                handled_access_net: 0,
                scoped: LANDLOCK_SCOPE_ABSTRACT_UNIX_SOCKET | LANDLOCK_SCOPE_SIGNAL,
                path_grants,
                port_grants: Vec::new(),
            },
        )
    }
}

/// Whether `request` is what the network policy calls for on a kernel with Landlock
/// ABI `abi`.
pub open spec fn is_network_ruleset(
    network: NetworkPolicy,
    abi: i32,
    request: Result<Option<RulesetRequest>, Error>,
) -> bool {
    match request {
        Ok(None) => network != NetworkPolicy::OutboundOnly,
        Ok(Some(request)) => {
            &&& network == NetworkPolicy::OutboundOnly
            &&& abi >= 4
            &&& request.handled_access_fs == LANDLOCK_ACCESS_FS_REFER
            &&& request.handled_access_net == (if abi >= 10 {
                LANDLOCK_ACCESS_NET_BIND_TCP | LANDLOCK_ACCESS_NET_BIND_UDP
            } else {
                LANDLOCK_ACCESS_NET_BIND_TCP
            })
            &&& request.scoped == 0
            &&& request.path_grants@.len() == 1
            &&& grants_path(request.path_grants@[0], seq![0x2fu8], LANDLOCK_ACCESS_FS_REFER)
            &&& request.port_grants@ == (if abi >= 10 {
                seq![PortGrant { port: 0, access: LANDLOCK_ACCESS_NET_BIND_UDP }]
            } else {
                seq![]
            })
        },
        Err(error) => network == NetworkPolicy::OutboundOnly && abi < 4 && is_unsupported(
            error,
            "NetworkPolicy::OutboundOnly requires Landlock network support (ABI v4+); the running kernel reports ABI v"@
                + signed_decimal(abi as int),
        ),
    }
}

/// The ruleset of the network policy.
///
/// Only [`NetworkPolicy::OutboundOnly`] needs one. It denies every explicit TCP
/// bind by mediating it without granting any port. ABI v10+ also mediates UDP
/// bind and grants only port 0, preserving kernel-selected ephemeral binds while
/// denying fixed local ports. Below ABI v4 the policy cannot be enforced.
pub fn prepare_network(network: NetworkPolicy, abi: i32) -> (request: Result<
    Option<RulesetRequest>,
    Error,
>)
    ensures
        is_network_ruleset(network, abi, request),
{
    if network != NetworkPolicy::OutboundOnly {
        return Ok(None);
    }
    let features = net_features_for_abi(abi);
    if !features.bind_tcp {
        let mut text = String::from_str(
            "NetworkPolicy::OutboundOnly requires Landlock network support (ABI v4+); the running kernel reports ABI v",
        );
        push_signed(&mut text, abi as i64);
        return Err(Error::Unsupported(text));
    }
    let mut path_grants: Vec<PathGrant> = Vec::new();
    path_grants.push(PathGrant { path: root(), access: LANDLOCK_ACCESS_FS_REFER });
    let mut port_grants: Vec<PortGrant> = Vec::new();
    let mut handled_access_net: u64 = LANDLOCK_ACCESS_NET_BIND_TCP;
    if features.bind_udp {
        handled_access_net = LANDLOCK_ACCESS_NET_BIND_TCP | LANDLOCK_ACCESS_NET_BIND_UDP;
        port_grants.push(PortGrant { port: 0, access: LANDLOCK_ACCESS_NET_BIND_UDP });
    }
    assert(port_grants@ =~= (if abi >= 10 {
        seq![PortGrant { port: 0, access: LANDLOCK_ACCESS_NET_BIND_UDP }]
    } else {
        seq![]
    }));
    Ok(
        Some(
            RulesetRequest {
                handled_access_fs: LANDLOCK_ACCESS_FS_REFER,
                handled_access_net,
                scoped: 0,
                path_grants,
                port_grants,
            },
        ),
    )
}

/// The IPC and the network layer do not narrow the filesystem policy: every file
/// right that they mediate is granted on the whole file system.
pub proof fn law_other_layers_keep_file_rights(
    policy: Policy,
    network: NetworkPolicy,
    abi: i32,
    request: RulesetRequest,
)
    requires
        is_ipc_ruleset(policy, Some(request)) || is_network_ruleset(
            network,
            abi,
            Ok(Some(request)),
        ),
    ensures
        request.path_grants@.len() > 0,
        grants_path(
            request.path_grants@[0],
            seq![0x2fu8],
            request.handled_access_fs & HANDLED_ACCESS_FS,
        ),
{
    assert(0x2000u64 & 0x3fffu64 == 0x2000u64 && (0x2000u64 | 0x10000u64) & 0x3fffu64 == 0x2000u64)
        by (bit_vector);
}

/// File access and socket access are independent: a filesystem grant carries no
/// right to connect to a socket, and a socket grant carries no file right.
pub proof fn law_socket_grants_are_independent_of_file_grants(
    policy: Policy,
    request: RulesetRequest,
    right: FsRight,
)
    requires
        is_ipc_ruleset(policy, Some(request)),
    ensures
        access_of(right) & LANDLOCK_ACCESS_FS_RESOLVE_UNIX == 0,
        forall|i: int|
            1 <= i < request.path_grants@.len() ==> (#[trigger] request.path_grants@[i]).access
                & HANDLED_ACCESS_FS == 0,
{
    assert(0xcu64 & 0x10000u64 == 0 && 0x3ff2u64 & 0x10000u64 == 0 && 0x1u64 & 0x10000u64 == 0
        && 0x10000u64 & 0x3fffu64 == 0) by (bit_vector);
    assert forall|i: int| 1 <= i < request.path_grants@.len() implies (
    #[trigger] request.path_grants@[i]).access & HANDLED_ACCESS_FS == 0 by {
        let socket = policy.unix_sockets@[i - 1];
        assert(grants_path(request.path_grants@[i], socket@, LANDLOCK_ACCESS_FS_RESOLVE_UNIX));
    }
}

/// Whether a layer lets the network right `access` be used on `port`: the layer does
/// not mediate the right, or grants it there.
pub open spec fn lets_port(request: Option<RulesetRequest>, access: u64, port: u64) -> bool {
    match request {
        None => true,
        Some(request) => request.handled_access_net & access == 0 || exists|i: int|
            0 <= i < request.port_grants@.len() && (#[trigger] request.port_grants@[i]).port == port
                && request.port_grants@[i].access & access != 0,
    }
}

/// What the network layer leaves, for every port, with the bits that the kernel
/// numbers the rights by. Binding TCP (bit 0) is denied on every port exactly for
/// outbound connections; connecting (bit 1) and sending (bit 3) never are. Binding UDP
/// (bit 2) is denied there from ABI 10 on, but for the port 0 that leaves the choice to
/// the kernel.
pub proof fn law_only_outbound_denies_binding(
    network: NetworkPolicy,
    abi: i32,
    request: Option<RulesetRequest>,
    port: u64,
)
    requires
        is_network_ruleset(network, abi, Ok(request)),
    ensures
        lets_port(request, 1, port) <==> network != NetworkPolicy::OutboundOnly,
        lets_port(request, 2, port),
        lets_port(request, 4, port) <==> network != NetworkPolicy::OutboundOnly || abi < 10 || port
            == 0,
        lets_port(request, 8, port),
        request matches Some(request) ==> request.scoped == 0,
{
    assert(1u64 & 1 != 0 && (1u64 | 4) & 1 != 0 && 1u64 & 2 == 0 && (1u64 | 4) & 2 == 0 && 1u64 & 4
        == 0 && (1u64 | 4) & 4 != 0 && 1u64 & 8 == 0 && (1u64 | 4) & 8 == 0 && 4u64 & 1 == 0 && 4u64
        & 4 != 0) by (bit_vector);
    if request is Some && abi >= 10 {
        let grants = request->0.port_grants@;
        assert(grants[0] == (PortGrant { port: 0, access: 4 }));
    }
}

/// Outbound connections alone cannot be told apart before ABI 4, and then the policy is
/// refused. Every other policy is accepted on every kernel.
pub proof fn law_only_outbound_needs_the_kernel(
    network: NetworkPolicy,
    abi: i32,
    request: Result<Option<RulesetRequest>, Error>,
)
    requires
        is_network_ruleset(network, abi, request),
    ensures
        request is Err <==> network == NetworkPolicy::OutboundOnly && abi < 4,
        request is Ok ==> (request->Ok_0 is Some <==> network == NetworkPolicy::OutboundOnly),
{
}

/// Whether a layer keeps the operation of a scope bit inside the sandbox.
pub open spec fn keeps_inside(request: Option<RulesetRequest>, scope: u64) -> bool {
    request matches Some(request) && request.scoped & scope != 0
}

/// Whether a layer lets a Unix socket be connected to by the path that a grant names.
pub open spec fn lets_socket(request: Option<RulesetRequest>, path: Seq<u8>) -> bool {
    match request {
        None => true,
        Some(request) => request.handled_access_fs & 0x1_0000 == 0 || exists|i: int|
            0 <= i < request.path_grants@.len() && (#[trigger] request.path_grants@[i]).path@ == path
                && request.path_grants@[i].access & 0x1_0000 != 0,
    }
}

/// What the IPC layer leaves, with the bits that the kernel numbers things by. From ABI
/// 6 on abstract Unix sockets (bit 0) and signals (bit 1) stay inside the sandbox. From
/// ABI 9 on pathname sockets can be connected to exactly where the policy grants it. No
/// network right is mediated, and no file right beyond linking and renaming.
pub proof fn law_sockets_are_granted_by_path(
    policy: Policy,
    request: Option<RulesetRequest>,
    path: Seq<u8>,
)
    requires
        is_ipc_ruleset(policy, request),
    ensures
        keeps_inside(request, 1) <==> policy.abi >= 6,
        keeps_inside(request, 2) <==> policy.abi >= 6,
        lets_socket(request, path) <==> policy.abi < 9 || path_bytes(
            policy.unix_sockets@,
        ).contains(path),
        request matches Some(request) ==> {
            &&& request.handled_access_net == 0
            &&& request.handled_access_fs & !0x1_2000u64 == 0
        },
{
    assert((1u64 | 2) & 1 != 0 && (1u64 | 2) & 2 != 0 && 0x2000u64 & 0x1_0000 == 0 && (0x2000u64
        | 0x1_0000) & 0x1_0000 != 0 && 0x1_0000u64 & 0x1_0000 != 0 && 0x2000u64 & !0x1_2000u64 == 0
        && (0x2000u64 | 0x1_0000) & !0x1_2000u64 == 0) by (bit_vector);
    if request is Some && policy.abi >= 9 {
        let grants = request->0.path_grants@;
        let sockets = policy.unix_sockets@;
        let paths = path_bytes(sockets);
        if paths.contains(path) {
            let i = choose|i: int| 0 <= i < paths.len() && paths[i] == path;
            assert(sockets[i]@ == path);
            assert(grants_path(grants[i + 1], sockets[i]@, LANDLOCK_ACCESS_FS_RESOLVE_UNIX));
        }
        if lets_socket(request, path) {
            let i = choose|i: int|
                0 <= i < grants.len() && (#[trigger] grants[i]).path@ == path && grants[i].access
                    & 0x1_0000 != 0;
            assert(i > 0);
            assert(grants_path(grants[i], sockets[i - 1]@, LANDLOCK_ACCESS_FS_RESOLVE_UNIX));
            assert(paths[i - 1] == path);
        }
    }
}

} // verus!
