//! The immutable, built sandbox configuration consumed by a backend.
use crate::order::{
    bytes_lt, compare_bytes, lemma_bytes_lt_irreflexive, lemma_bytes_lt_transitive, Order,
};
use crate::path::SandboxPath;
use crate::policy::{
    is_same_rule, FsAccess, IpcPolicy, NetworkPolicy, UserNamespacePolicy, WindowsAclVerification,
};
use vstd::prelude::*;
use vstd::utf8::{encode_utf8, encode_utf8_decode_utf8};

verus! {

/// Resource limits applied to the sandboxed child.
///
/// `None` means "do not impose this limit". Units are chosen to be unambiguous
/// at the API boundary; backends convert to the platform representation.
///
/// # Platform semantics
///
/// What a limit actually bounds differs per platform:
///
/// - **Windows** applies all three fields to the Job Object, so they are
///   aggregate budgets for the entire sandboxed process tree.
/// - **Linux and macOS** apply per-process `setrlimit(2)` caps in the child
///   before exec. Descendants inherit the same caps, but each process is
///   limited independently.
/// - On Linux and macOS `max_processes` maps to `RLIMIT_NPROC`, which counts
///   all processes (on Linux, also threads) of the real user ID system-wide,
///   not just the sandboxed tree, and is not enforced for privileged users.
#[derive(Debug, Clone, Copy, PartialEq, Eq, Structural)]
pub struct ResourceLimits {
    /// Maximum address space (virtual memory) in **bytes**.
    pub memory_bytes: Option<u64>,
    /// Maximum CPU time in **seconds**.
    pub cpu_time_secs: Option<u64>,
    /// Maximum number of processes/threads.
    pub max_processes: Option<u64>,
}

impl Default for ResourceLimits {
    fn default() -> (limits: ResourceLimits)
        ensures
            limits == (ResourceLimits {
                memory_bytes: None,
                cpu_time_secs: None,
                max_processes: None,
            }),
    {
        ResourceLimits { memory_bytes: None, cpu_time_secs: None, max_processes: None }
    }
}

/// Environment variables, in the order of their names.
#[derive(Debug, PartialEq, Eq)]
pub struct EnvMap {
    entries: Vec<(String, String)>,
}

/// Whether the entries are in strictly ascending order of their names.
spec fn names_ascending(entries: Seq<(String, String)>) -> bool {
    forall|i: int, j: int|
        #![trigger entries[i], entries[j]]
        0 <= i < j < entries.len() ==> bytes_lt(
            encode_utf8(entries[i].0@),
            encode_utf8(entries[j].0@),
        )
}

/// Whether entry `i` is for `name`.
spec fn is_for(entries: Seq<(String, String)>, i: int, name: Seq<char>) -> bool {
    0 <= i < entries.len() && entries[i].0@ == name
}

impl View for EnvMap {
    type V = Map<Seq<char>, Seq<char>>;

    closed spec fn view(&self) -> Map<Seq<char>, Seq<char>> {
        Map::new(
            |name: Seq<char>| exists|i: int| is_for(self.ordered(), i, name),
            |name: Seq<char>| self.ordered()[choose|i: int| is_for(self.ordered(), i, name)].1@,
        )
    }
}

/// Whether `entries` lists the variables of `map`, in the order of their names and
/// each once.
pub open spec fn is_listing(
    entries: Seq<(Seq<char>, Seq<char>)>,
    map: Map<Seq<char>, Seq<char>>,
) -> bool {
    &&& forall|i: int, j: int|
        #![trigger entries[i], entries[j]]
        0 <= i < j < entries.len() ==> bytes_lt(
            encode_utf8(entries[i].0),
            encode_utf8(entries[j].0),
        )
    &&& forall|i: int|
        0 <= i < entries.len() ==> map.contains_key((#[trigger] entries[i]).0)
            && map[entries[i].0] == entries[i].1
    &&& forall|name: Seq<char>| #[trigger]
        map.contains_key(name) ==> exists|i: int|
            0 <= i < entries.len() && (#[trigger] entries[i]).0 == name
}

/// The names of variables are told apart by their bytes.
proof fn lemma_names_differ(a: Seq<char>, b: Seq<char>)
    requires
        bytes_lt(encode_utf8(a), encode_utf8(b)),
    ensures
        a != b,
{
    lemma_bytes_lt_irreflexive(encode_utf8(a));
}

proof fn lemma_same_bytes(a: Seq<char>, b: Seq<char>)
    requires
        encode_utf8(a) == encode_utf8(b),
    ensures
        a == b,
{
    encode_utf8_decode_utf8(a);
    encode_utf8_decode_utf8(b);
}

/// Each name occurs once.
proof fn lemma_one_entry(entries: Seq<(String, String)>, i: int, j: int, name: Seq<char>)
    requires
        names_ascending(entries),
        is_for(entries, i, name),
        is_for(entries, j, name),
    ensures
        i == j,
{
    if i < j {
        lemma_names_differ(entries[i].0@, entries[j].0@);
    }
    if j < i {
        lemma_names_differ(entries[j].0@, entries[i].0@);
    }
}

impl EnvMap {
    #[verifier::type_invariant]
    spec fn well_formed(&self) -> bool {
        names_ascending(self.entries@)
    }

    /// The entries, which are in order in every map that can be made.
    spec fn ordered(&self) -> Seq<(String, String)> {
        if names_ascending(self.entries@) {
            self.entries@
        } else {
            seq![]
        }
    }

    /// No variables.
    pub fn new() -> (env: EnvMap)
        ensures
            env@ == Map::<Seq<char>, Seq<char>>::empty(),
    {
        let env = EnvMap { entries: Vec::new() };
        assert(env@ =~= Map::<Seq<char>, Seq<char>>::empty());
        env
    }

    /// Sets a variable; the last value wins.
    pub fn insert(&mut self, name: String, value: String)
        ensures
            final(self)@ == old(self)@.insert(name@, value@),
    {
        proof {
            use_type_invariant(&*self);
        }
        let ghost old_env = *self;
        let ghost before = self.entries@;
        let mut entries: Vec<(String, String)> = Vec::new();
        std::mem::swap(&mut entries, &mut self.entries);
        let mut at: usize = 0;
        let mut found = false;
        while at < entries.len()
            invariant_except_break
                at <= entries@.len(),
                !found,
            invariant
                entries@ == before,
                names_ascending(before),
                at <= entries@.len(),
                forall|j: int|
                    0 <= j < at ==> bytes_lt(
                        encode_utf8((#[trigger] before[j]).0@),
                        encode_utf8(name@),
                    ),
            ensures
                found ==> at < entries@.len() && before[at as int].0@ == name@,
                !found && at < entries@.len() ==> bytes_lt(
                    encode_utf8(name@),
                    encode_utf8(before[at as int].0@),
                ),
            decreases entries.len() - at,
        {
            match compare_bytes(entries[at].0.as_str().as_bytes(), name.as_str().as_bytes()) {
                Order::Less => {},
                Order::Equal => {
                    proof {
                        lemma_same_bytes(before[at as int].0@, name@);
                    }
                    found = true;
                    break ;
                },
                Order::Greater => {
                    break ;
                },
            }
            at += 1;
        }
        let ghost new_name = name@;
        let ghost new_value = value@;
        if found {
            entries.set(at, (name, value));
        } else {
            entries.insert(at, (name, value));
        }
        proof {
            let after = entries@;
            if found {
                assert(after =~= before.update(at as int, after[at as int]));
            } else {
                assert(after =~= before.insert(at as int, after[at as int]));
            }
            assert forall|i: int, j: int|
                #![trigger after[i], after[j]]
                0 <= i < j < after.len() implies bytes_lt(
                encode_utf8(after[i].0@),
                encode_utf8(after[j].0@),
            ) by {
                if found {
                    assert(after[i].0@ == before[i].0@);
                    assert(after[j].0@ == before[j].0@);
                } else if i == at && j - 1 > at {
                    lemma_bytes_lt_transitive(
                        encode_utf8(new_name),
                        encode_utf8(before[at as int].0@),
                        encode_utf8(before[j - 1].0@),
                    );
                } else if i > at {
                    assert(after[i] == before[i - 1]);
                    assert(after[j] == before[j - 1]);
                } else if i < at && j > at {
                    assert(after[j] == before[j - 1]);
                }
            }
        }
        self.entries = entries;
        proof {
            let after = self.entries@;
            assert forall|k: Seq<char>| #[trigger] self@.contains_key(k) <==> old_env@.insert(
                new_name,
                new_value,
            ).contains_key(k) by {
                if k == new_name {
                    assert(is_for(after, at as int, k));
                } else if old_env@.contains_key(k) {
                    let i = choose|i: int| is_for(before, i, k);
                    if found || i < at {
                        assert(is_for(after, i, k));
                    } else {
                        assert(is_for(after, i + 1, k));
                    }
                } else if self@.contains_key(k) {
                    let i = choose|i: int| is_for(after, i, k);
                    assert(i != at);
                    if found || i < at {
                        assert(is_for(before, i, k));
                    } else {
                        assert(is_for(before, i - 1, k));
                    }
                }
            }
            assert forall|k: Seq<char>| #[trigger] self@.contains_key(k) implies self@[k]
                == old_env@.insert(new_name, new_value)[k] by {
                let i = choose|i: int| is_for(after, i, k);
                if k == new_name {
                    assert(is_for(after, at as int, k));
                    lemma_one_entry(after, i, at as int, k);
                } else {
                    let j = choose|j: int| is_for(before, j, k);
                    assert(i != at);
                    if found || i < at {
                        assert(is_for(before, i, k));
                        lemma_one_entry(before, i, j, k);
                    } else {
                        assert(is_for(before, i - 1, k));
                        lemma_one_entry(before, i - 1, j, k);
                    }
                }
            }
            assert(self@ =~= old_env@.insert(new_name, new_value));
        }
    }

    /// The value of a variable.
    pub fn get(&self, name: &str) -> (value: Option<&String>)
        ensures
            match value {
                Some(value) => self@.contains_key(name@) && self@[name@] == value@,
                None => !self@.contains_key(name@),
            },
    {
        proof {
            use_type_invariant(self);
        }
        let mut i: usize = 0;
        while i < self.entries.len()
            invariant
                i <= self.entries@.len(),
                names_ascending(self.entries@),
                forall|j: int| 0 <= j < i ==> (#[trigger] self.entries@[j]).0@ != name@,
            decreases self.entries.len() - i,
        {
            match compare_bytes(self.entries[i].0.as_str().as_bytes(), name.as_bytes()) {
                Order::Equal => {
                    proof {
                        lemma_same_bytes(self.entries@[i as int].0@, name@);
                        assert(is_for(self.entries@, i as int, name@));
                        let j = choose|j: int| is_for(self.entries@, j, name@);
                        lemma_one_entry(self.entries@, i as int, j, name@);
                    }
                    return Some(&self.entries[i].1);
                },
                _ => {},
            }
            i += 1;
        }
        assert forall|j: int| !is_for(self.entries@, j, name@) by {}
        None
    }

    /// How many variables there are.
    pub fn len(&self) -> (len: usize)
        ensures
            len == self.spec_entries().len(),
    {
        proof {
            use_type_invariant(self);
        }
        self.entries.len()
    }

    /// Whether there are no variables.
    pub fn is_empty(&self) -> (empty: bool)
        ensures
            empty == (self@ =~= Map::<Seq<char>, Seq<char>>::empty()),
    {
        proof {
            use_type_invariant(self);
            if self.entries@.len() > 0 {
                assert(is_for(self.entries@, 0, self.entries@[0].0@));
                assert(self@.contains_key(self.entries@[0].0@));
            }
        }
        self.entries.len() == 0
    }

    /// The variables in the order of their names.
    pub closed spec fn spec_entries(&self) -> Seq<(Seq<char>, Seq<char>)> {
        self.ordered().map_values(|entry: (String, String)| (entry.0@, entry.1@))
    }

    /// The `i`-th variable in the order of the names.
    pub fn entry(&self, i: usize) -> (entry: (&String, &String))
        requires
            i < self.spec_entries().len(),
        ensures
            (entry.0@, entry.1@) == self.spec_entries()[i as int],
            self@.contains_key(entry.0@),
            self@[entry.0@] == entry.1@,
    {
        proof {
            use_type_invariant(self);
            let name = self.entries@[i as int].0@;
            assert(is_for(self.entries@, i as int, name));
            let j = choose|j: int| is_for(self.entries@, j, name);
            lemma_one_entry(self.entries@, i as int, j, name);
        }
        (&self.entries[i].0, &self.entries[i].1)
    }
}

impl Clone for EnvMap {
    fn clone(&self) -> (env: EnvMap)
        ensures
            env@ == self@,
            env.spec_entries() == self.spec_entries(),
    {
        proof {
            use_type_invariant(self);
        }
        let mut entries: Vec<(String, String)> = Vec::new();
        let mut i: usize = 0;
        while i < self.entries.len()
            invariant
                i <= self.entries@.len(),
                entries@ == self.entries@.take(i as int),
            decreases self.entries.len() - i,
        {
            entries.push((self.entries[i].0.clone(), self.entries[i].1.clone()));
            assert(entries@ =~= self.entries@.take(i + 1));
            i += 1;
        }
        assert(entries@ =~= self.entries@);
        let env = EnvMap { entries };
        assert(env@ =~= self@);
        env
    }
}

impl Default for EnvMap {
    fn default() -> (env: EnvMap)
        ensures
            env@ == Map::<Seq<char>, Seq<char>>::empty(),
    {
        EnvMap::new()
    }
}

/// The variables that [`EnvMap::entry`] lists come in the order of their names, and
/// so each name once.
pub proof fn law_env_entries_are_in_order(env: EnvMap)
    ensures
        forall|i: int, j: int|
            #![trigger env.spec_entries()[i], env.spec_entries()[j]]
            0 <= i < j < env.spec_entries().len() ==> bytes_lt(
                encode_utf8(env.spec_entries()[i].0),
                encode_utf8(env.spec_entries()[j].0),
            ),
{
    let entries = env.ordered();
    let listed = env.spec_entries();
    assert forall|i: int, j: int|
        #![trigger listed[i], listed[j]]
        0 <= i < j < listed.len() implies bytes_lt(
        encode_utf8(listed[i].0),
        encode_utf8(listed[j].0),
    ) by {
        assert(listed[i].0 == entries[i].0@);
        assert(listed[j].0 == entries[j].0@);
    }
}

/// The variables that [`EnvMap::entry`] lists are exactly those of the map, with
/// their values.
pub proof fn law_env_entries_are_the_map(env: EnvMap)
    ensures
        is_listing(env.spec_entries(), env@),
{
    law_env_entries_are_in_order(env);
    let entries = env.ordered();
    let listed = env.spec_entries();
    assert forall|i: int| 0 <= i < listed.len() implies env@.contains_key(
        (#[trigger] listed[i]).0,
    ) && env@[listed[i].0] == listed[i].1 by {
        let name = listed[i].0;
        assert(is_for(entries, i, name));
        let j = choose|j: int| is_for(entries, j, name);
        lemma_one_entry(entries, i, j, name);
    }
    assert forall|name: Seq<char>| #[trigger] env@.contains_key(name) implies exists|i: int|
        0 <= i < listed.len() && (#[trigger] listed[i]).0 == name by {
        let i = choose|i: int| is_for(entries, i, name);
        assert(listed[i].0 == name);
    }
}

/// A map has one listing: what [`EnvMap::entry`] lists depends on the map alone.
pub proof fn law_listing_is_unique(
    map: Map<Seq<char>, Seq<char>>,
    a: Seq<(Seq<char>, Seq<char>)>,
    b: Seq<(Seq<char>, Seq<char>)>,
)
    requires
        is_listing(a, map),
        is_listing(b, map),
    ensures
        a == b,
{
    if a.len() <= b.len() {
        lemma_listings_agree(map, a, b, a.len() as int);
    } else {
        lemma_listings_agree(map, b, a, b.len() as int);
    }
    lemma_listing_goes_on(map, a, b);
    lemma_listing_goes_on(map, b, a);
    assert(a =~= b);
}

/// A listing does not end before another one.
proof fn lemma_listing_goes_on(
    map: Map<Seq<char>, Seq<char>>,
    a: Seq<(Seq<char>, Seq<char>)>,
    b: Seq<(Seq<char>, Seq<char>)>,
)
    requires
        is_listing(a, map),
        is_listing(b, map),
        forall|i: int| 0 <= i < a.len() && i < b.len() ==> a[i] == b[i],
    ensures
        a.len() >= b.len(),
{
    if a.len() < b.len() {
        let n = a.len() as int;
        assert(map.contains_key(b[n].0));
        let i = choose|i: int| 0 <= i < a.len() && (#[trigger] a[i]).0 == b[n].0;
        assert(a[i] == b[i]);
        lemma_names_differ(b[i].0, b[n].0);
    }
}

/// Two listings of a map begin alike.
proof fn lemma_listings_agree(
    map: Map<Seq<char>, Seq<char>>,
    a: Seq<(Seq<char>, Seq<char>)>,
    b: Seq<(Seq<char>, Seq<char>)>,
    n: int,
)
    requires
        is_listing(a, map),
        is_listing(b, map),
        0 <= n <= a.len() <= b.len(),
    ensures
        forall|i: int| 0 <= i < n ==> a[i] == b[i],
    decreases n,
{
    if n > 0 {
        lemma_listings_agree(map, a, b, n - 1);
        let k = n - 1;
        assert(map.contains_key(a[k].0));
        assert(map.contains_key(b[k].0));
        let i = choose|i: int| 0 <= i < a.len() && (#[trigger] a[i]).0 == b[k].0;
        let j = choose|j: int| 0 <= j < b.len() && (#[trigger] b[j]).0 == a[k].0;
        if j < k {
            assert(a[j] == b[j]);
            lemma_names_differ(a[j].0, a[k].0);
        }
        if i < k {
            assert(a[i] == b[i]);
            lemma_names_differ(b[i].0, b[k].0);
        }
        if i > k && j > k {
            lemma_bytes_lt_transitive(
                encode_utf8(a[k].0),
                encode_utf8(b[k].0),
                encode_utf8(a[k].0),
            );
            lemma_bytes_lt_irreflexive(encode_utf8(a[k].0));
        }
    }
}

/// A fully-built, immutable sandbox configuration.
///
/// All fields are public so platform backends can read them directly.
#[derive(Debug, PartialEq, Eq)]
pub struct SandboxConfig {
    /// Filesystem rules, in the order they were declared.
    pub fs: Vec<FsAccess>,
    /// Network confinement level.
    pub network: NetworkPolicy,
    /// IPC confinement level.
    pub ipc: IpcPolicy,
    /// Resource limits.
    pub limits: ResourceLimits,
    /// The **only** environment variables the child will see. The child's
    /// inherited environment is unconditionally cleared before these are
    /// applied by the backend.
    pub env: EnvMap,
    /// Linux-only grants for connecting or sending to host-created pathname
    /// Unix sockets. Non-Linux backends ignore this field.
    ///
    /// Each entry identifies either one socket path or a path hierarchy. These
    /// grants are independent of [`FsAccess`]. The Linux backend uses this
    /// field only on Landlock ABI v9 and newer; on older kernels it does not
    /// validate or open these entries.
    pub linux_unix_sockets: Vec<SandboxPath>,
    /// Linux-only user-namespace policy. Non-Linux backends ignore this field.
    pub linux_user_namespaces: UserNamespacePolicy,
    /// macOS-only Seatbelt profile paths. Non-Darwin backends ignore this
    /// field.
    ///
    /// # Security
    ///
    /// Imported profiles are trusted policy extensions, not policy fragments
    /// constrained by `fs` or `network`: an imported `allow` can grant access
    /// absent from the portable policy.
    pub darwin_sandbox_profiles: Vec<SandboxPath>,
    /// Windows-only cache namespace for reusable AppContainer profiles and
    /// ACLs. Non-Windows backends ignore this field.
    pub windows_cache_namespace: Option<String>,
    /// Windows-only directory for the manifests of cached ACLs. Non-Windows
    /// backends ignore this field.
    pub windows_manifest_dir: Option<SandboxPath>,
    /// Windows-only verification of cached ACLs. Non-Windows backends ignore
    /// this field.
    pub windows_acl_verification: WindowsAclVerification,
}

impl SandboxConfig {
    /// Whether this is the maximally restrictive configuration.
    pub open spec fn is_default(self) -> bool {
        &&& self.fs@.len() == 0
        &&& self.network == NetworkPolicy::Deny
        &&& self.ipc == IpcPolicy::Strict
        &&& self.limits == (ResourceLimits {
            memory_bytes: None,
            cpu_time_secs: None,
            max_processes: None,
        })
        &&& self.env@ == Map::<Seq<char>, Seq<char>>::empty()
        &&& self.linux_unix_sockets@.len() == 0
        &&& self.linux_user_namespaces == UserNamespacePolicy::Deny
        &&& self.darwin_sandbox_profiles@.len() == 0
        &&& self.windows_cache_namespace is None
        &&& self.windows_manifest_dir is None
        &&& self.windows_acl_verification == WindowsAclVerification::DenyRoots
    }
}

impl Default for SandboxConfig {
    fn default() -> (config: SandboxConfig)
        ensures
            config.is_default(),
    {
        SandboxConfig {
            fs: Vec::new(),
            network: NetworkPolicy::default(),
            ipc: IpcPolicy::default(),
            limits: ResourceLimits::default(),
            env: EnvMap::new(),
            linux_unix_sockets: Vec::new(),
            linux_user_namespaces: UserNamespacePolicy::default(),
            darwin_sandbox_profiles: Vec::new(),
            windows_cache_namespace: None,
            windows_manifest_dir: None,
            windows_acl_verification: WindowsAclVerification::default(),
        }
    }
}

/// Whether two lists of rules say the same.
pub open spec fn are_same_rules(rules: Seq<FsAccess>, others: Seq<FsAccess>) -> bool {
    rules.len() == others.len() && forall|i: int|
        0 <= i < others.len() ==> is_same_rule(rules[i], #[trigger] others[i])
}

/// Whether two lists hold the same paths.
pub open spec fn are_same_paths(paths: Seq<SandboxPath>, others: Seq<SandboxPath>) -> bool {
    paths.len() == others.len() && forall|i: int|
        0 <= i < others.len() ==> paths[i]@ == (#[trigger] others[i])@
}

/// Whether two configurations say the same.
pub open spec fn is_same_config(config: SandboxConfig, other: SandboxConfig) -> bool {
    &&& are_same_rules(config.fs@, other.fs@)
    &&& other.network == config.network
    &&& other.ipc == config.ipc
    &&& other.limits == config.limits
    &&& other.env@ == config.env@
    &&& are_same_paths(config.linux_unix_sockets@, other.linux_unix_sockets@)
    &&& other.linux_user_namespaces == config.linux_user_namespaces
    &&& are_same_paths(config.darwin_sandbox_profiles@, other.darwin_sandbox_profiles@)
    &&& other.windows_cache_namespace == config.windows_cache_namespace
    &&& match (config.windows_manifest_dir, other.windows_manifest_dir) {
        (Some(dir), Some(other)) => dir@ == other@,
        (None, None) => true,
        _ => false,
    }
    &&& other.windows_acl_verification == config.windows_acl_verification
}

fn clone_rules(rules: &Vec<FsAccess>) -> (copy: Vec<FsAccess>)
    ensures
        are_same_rules(rules@, copy@),
{
    let mut copy: Vec<FsAccess> = Vec::new();
    let mut i: usize = 0;
    while i < rules.len()
        invariant
            i <= rules@.len(),
            copy@.len() == i,
            forall|k: int| 0 <= k < i ==> is_same_rule(rules@[k], #[trigger] copy@[k]),
        decreases rules.len() - i,
    {
        copy.push(rules[i].clone());
        i += 1;
    }
    copy
}

fn clone_paths(paths: &Vec<SandboxPath>) -> (copy: Vec<SandboxPath>)
    ensures
        are_same_paths(paths@, copy@),
{
    let mut copy: Vec<SandboxPath> = Vec::new();
    let mut i: usize = 0;
    while i < paths.len()
        invariant
            i <= paths@.len(),
            copy@.len() == i,
            forall|k: int| 0 <= k < i ==> paths@[k]@ == (#[trigger] copy@[k])@,
        decreases paths.len() - i,
    {
        copy.push(paths[i].clone());
        i += 1;
    }
    copy
}

impl Clone for SandboxConfig {
    fn clone(&self) -> (config: SandboxConfig)
        ensures
            is_same_config(*self, config),
    {
        SandboxConfig {
            fs: clone_rules(&self.fs),
            network: self.network,
            ipc: self.ipc,
            limits: self.limits,
            env: self.env.clone(),
            linux_unix_sockets: clone_paths(&self.linux_unix_sockets),
            linux_user_namespaces: self.linux_user_namespaces,
            darwin_sandbox_profiles: clone_paths(&self.darwin_sandbox_profiles),
            windows_cache_namespace: match &self.windows_cache_namespace {
                Some(name) => Some(name.clone()),
                None => None,
            },
            windows_manifest_dir: match &self.windows_manifest_dir {
                Some(dir) => Some(dir.clone()),
                None => None,
            },
            windows_acl_verification: self.windows_acl_verification,
        }
    }
}

/// A copy of a configuration has the same policies, limits and variables, the same
/// rules under the same names, and the same paths, all in their order.
pub proof fn law_copies_confine_alike(config: SandboxConfig, other: SandboxConfig)
    requires
        is_same_config(config, other),
    ensures
        other.network == config.network,
        other.ipc == config.ipc,
        other.linux_user_namespaces == config.linux_user_namespaces,
        other.windows_acl_verification == config.windows_acl_verification,
        other.limits == config.limits,
        other.env@ == config.env@,
        other.windows_cache_namespace == config.windows_cache_namespace,
        other.windows_manifest_dir is Some <==> config.windows_manifest_dir is Some,
        config.windows_manifest_dir is Some ==> other.windows_manifest_dir->0@
            == config.windows_manifest_dir->0@,
        other.fs@.len() == config.fs@.len(),
        forall|i: int|
            #![trigger other.fs@[i]]
            0 <= i < config.fs@.len() ==> {
                let rule = config.fs@[i];
                let copy = other.fs@[i];
                &&& rule is ReadAllow <==> copy is ReadAllow
                &&& rule is ReadDeny <==> copy is ReadDeny
                &&& rule is WriteAllow <==> copy is WriteAllow
                &&& rule is WriteDeny <==> copy is WriteDeny
                &&& rule is ExecuteAllow <==> copy is ExecuteAllow
                &&& rule is ExecuteDeny <==> copy is ExecuteDeny
                &&& rule.spec_path()@ == copy.spec_path()@
            },
        other.linux_unix_sockets@.len() == config.linux_unix_sockets@.len(),
        forall|i: int|
            0 <= i < config.linux_unix_sockets@.len() ==> (
            #[trigger] other.linux_unix_sockets@[i])@ == config.linux_unix_sockets@[i]@,
        other.darwin_sandbox_profiles@.len() == config.darwin_sandbox_profiles@.len(),
        forall|i: int|
            0 <= i < config.darwin_sandbox_profiles@.len() ==> (
            #[trigger] other.darwin_sandbox_profiles@[i])@ == config.darwin_sandbox_profiles@[i]@,
{
    assert forall|i: int|
        #![trigger other.fs@[i]]
        0 <= i < config.fs@.len() implies is_same_rule(config.fs@[i], other.fs@[i]) by {}
}

} // verus!
