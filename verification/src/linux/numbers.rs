//! The kernel's numbers on the machine that the library is compiled for.
use vstd::prelude::*;

verus! {

/// The architectures that seccomp filters can be compiled for.
#[derive(Debug, Clone, Copy, PartialEq, Eq, Structural)]
pub enum Arch {
    /// `x86_64`, with its x32 twin ABI.
    X86_64,
    /// `aarch64`.
    Aarch64,
    /// `riscv64`.
    Riscv64,
}

/// Kernel interfaces that no tool legitimately calls, but for `kexec_load`.
#[derive(Debug, Clone, Copy, PartialEq, Eq, Structural)]
pub struct SurfaceNumbers {
    pub init_module: i64,
    pub finit_module: i64,
    pub delete_module: i64,
    pub add_key: i64,
    pub request_key: i64,
    pub keyctl: i64,
    pub reboot: i64,
    pub swapon: i64,
    pub swapoff: i64,
    pub acct: i64,
}

/// The mount machinery.
#[derive(Debug, Clone, Copy, PartialEq, Eq, Structural)]
pub struct MountNumbers {
    pub mount: i64,
    pub umount2: i64,
    pub move_mount: i64,
    pub fsopen: i64,
    pub fsconfig: i64,
    pub fsmount: i64,
    pub fspick: i64,
    pub open_tree: i64,
    pub mount_setattr: i64,
    pub pivot_root: i64,
    pub chroot: i64,
}

/// The other system calls that the filters speak of.
#[derive(Debug, Clone, Copy, PartialEq, Eq, Structural)]
pub struct OtherNumbers {
    pub kexec_load: i64,
    pub bpf: i64,
    pub perf_event_open: i64,
    pub userfaultfd: i64,
    pub io_uring_setup: i64,
    pub io_uring_enter: i64,
    pub io_uring_register: i64,
    pub unshare: i64,
    pub clone: i64,
    pub setns: i64,
    pub clone3: i64,
    pub socket: i64,
}

/// Values that system calls take and give.
#[derive(Debug, Clone, Copy, PartialEq, Eq, Structural)]
pub struct KernelConstants {
    pub af_unix: i32,
    pub af_inet: i32,
    pub af_inet6: i32,
    pub clone_newuser: i32,
    pub eafnosupport: i32,
    pub eperm: i32,
    pub enosys: i32,
}

/// All numbers that the filters are built from.
#[derive(Debug, Clone, Copy, PartialEq, Eq, Structural)]
pub struct KernelNumbers {
    /// The architecture that the numbers are for.
    pub arch: Arch,
    /// Kernel interfaces that no tool legitimately calls, but for `kexec_load`.
    pub surface: SurfaceNumbers,
    /// The mount machinery.
    pub mount: MountNumbers,
    /// The other system calls.
    pub other: OtherNumbers,
    /// Values that system calls take and give.
    pub constants: KernelConstants,
}

/// Whether `n` can stand in a filter, also with the x32 bit.
pub open spec fn is_syscall_number(n: i64) -> bool {
    0 <= n < 0x8000_0000
}

/// The bit that x32 sets in a system call number. It shares the audit
/// architecture of x86-64, so filters must cover both ABIs there.
pub const X32_SYSCALL_BIT: i64 = 0x4000_0000;

/// A system call number without the x32 bit.
pub open spec fn plain_number(n: i64) -> int {
    n as int % X32_SYSCALL_BIT as int
}

/// Whether the system calls of `list` are told apart by their numbers, the x32 bit
/// left aside.
pub open spec fn all_differ(list: Seq<i64>) -> bool {
    forall|i: int, j: int|
        #![trigger list[i], list[j]]
        0 <= i < j < list.len() ==> plain_number(list[i]) != plain_number(list[j])
}

impl SurfaceNumbers {
    /// The numbers.
    pub open spec fn all(self) -> Seq<i64> {
        seq![
            self.init_module,
            self.finit_module,
            self.delete_module,
            self.add_key,
            self.request_key,
            self.keyctl,
            self.reboot,
            self.swapon,
            self.swapoff,
            self.acct,
        ]
    }

    /// Whether all numbers can stand in a filter.
    pub open spec fn is_valid(self) -> bool {
        &&& is_syscall_number(self.init_module)
        &&& is_syscall_number(self.finit_module)
        &&& is_syscall_number(self.delete_module)
        &&& is_syscall_number(self.add_key)
        &&& is_syscall_number(self.request_key)
        &&& is_syscall_number(self.keyctl)
        &&& is_syscall_number(self.reboot)
        &&& is_syscall_number(self.swapon)
        &&& is_syscall_number(self.swapoff)
        &&& is_syscall_number(self.acct)
    }
}

impl MountNumbers {
    /// The numbers.
    pub open spec fn all(self) -> Seq<i64> {
        seq![
            self.mount,
            self.umount2,
            self.move_mount,
            self.fsopen,
            self.fsconfig,
            self.fsmount,
            self.fspick,
            self.open_tree,
            self.mount_setattr,
            self.pivot_root,
            self.chroot,
        ]
    }

    /// Whether all numbers can stand in a filter.
    pub open spec fn is_valid(self) -> bool {
        &&& is_syscall_number(self.mount)
        &&& is_syscall_number(self.umount2)
        &&& is_syscall_number(self.move_mount)
        &&& is_syscall_number(self.fsopen)
        &&& is_syscall_number(self.fsconfig)
        &&& is_syscall_number(self.fsmount)
        &&& is_syscall_number(self.fspick)
        &&& is_syscall_number(self.open_tree)
        &&& is_syscall_number(self.mount_setattr)
        &&& is_syscall_number(self.pivot_root)
        &&& is_syscall_number(self.chroot)
    }
}

impl OtherNumbers {
    /// The numbers.
    pub open spec fn all(self) -> Seq<i64> {
        seq![
            self.kexec_load,
            self.bpf,
            self.perf_event_open,
            self.userfaultfd,
            self.io_uring_setup,
            self.io_uring_enter,
            self.io_uring_register,
            self.unshare,
            self.clone,
            self.setns,
            self.clone3,
            self.socket,
        ]
    }

    /// Whether all numbers can stand in a filter.
    pub open spec fn is_valid(self) -> bool {
        &&& is_syscall_number(self.kexec_load)
        &&& is_syscall_number(self.bpf)
        &&& is_syscall_number(self.perf_event_open)
        &&& is_syscall_number(self.userfaultfd)
        &&& is_syscall_number(self.io_uring_setup)
        &&& is_syscall_number(self.io_uring_enter)
        &&& is_syscall_number(self.io_uring_register)
        &&& is_syscall_number(self.unshare)
        &&& is_syscall_number(self.clone)
        &&& is_syscall_number(self.setns)
        &&& is_syscall_number(self.clone3)
        &&& is_syscall_number(self.socket)
    }
}

impl KernelConstants {
    /// Whether no value is negative.
    pub open spec fn is_valid(self) -> bool {
        &&& self.af_unix >= 0
        &&& self.af_inet >= 0
        &&& self.af_inet6 >= 0
        &&& self.clone_newuser >= 0
        &&& self.eafnosupport >= 0
        &&& self.eperm >= 0
        &&& self.enosys >= 0
    }

    /// What holds of the values on every Linux machine: only the last two differ
    /// between machines.
    pub open spec fn is_linux(self) -> bool {
        &&& self.af_unix == 1
        &&& self.af_inet == 2
        &&& self.af_inet6 == 10
        &&& self.clone_newuser == 0x1000_0000
        &&& self.eperm == 1
        &&& self.eafnosupport > 1
        &&& self.enosys > 1
        &&& self.eafnosupport != self.enosys
    }
}

impl KernelNumbers {
    /// Whether the filters can be built from the numbers.
    pub open spec fn is_valid(self) -> bool {
        &&& self.surface.is_valid()
        &&& self.mount.is_valid()
        &&& self.other.is_valid()
        &&& self.constants.is_valid()
    }

    /// What holds of the numbers on every Linux machine.
    pub open spec fn is_linux(self) -> bool {
        &&& all_differ(self.surface.all())
        &&& all_differ(self.mount.all())
        &&& all_differ(self.other.all())
        &&& self.constants.is_linux()
    }
}

/// Reads the `libc::SYS_*` constants of code loading, the keyring and host
/// state. What they are depends on the machine; on each, they are small
/// non-negative numbers that differ from each other.
#[verifier::external_body]
fn surface_numbers() -> (numbers: SurfaceNumbers)
    ensures
        numbers.is_valid(),
        all_differ(numbers.all()),
{
    SurfaceNumbers {
        init_module: libc::SYS_init_module,
        finit_module: libc::SYS_finit_module,
        delete_module: libc::SYS_delete_module,
        add_key: libc::SYS_add_key,
        request_key: libc::SYS_request_key,
        keyctl: libc::SYS_keyctl,
        reboot: libc::SYS_reboot,
        swapon: libc::SYS_swapon,
        swapoff: libc::SYS_swapoff,
        acct: libc::SYS_acct,
    }
}

/// Reads the `libc::SYS_*` constants of the mount machinery. What they are depends
/// on the machine; on each, they are small non-negative numbers that differ from
/// each other.
#[verifier::external_body]
fn mount_numbers() -> (numbers: MountNumbers)
    ensures
        numbers.is_valid(),
        all_differ(numbers.all()),
{
    MountNumbers {
        mount: libc::SYS_mount,
        umount2: libc::SYS_umount2,
        move_mount: libc::SYS_move_mount,
        fsopen: libc::SYS_fsopen,
        fsconfig: libc::SYS_fsconfig,
        fsmount: libc::SYS_fsmount,
        fspick: libc::SYS_fspick,
        open_tree: libc::SYS_open_tree,
        mount_setattr: libc::SYS_mount_setattr,
        pivot_root: libc::SYS_pivot_root,
        chroot: libc::SYS_chroot,
    }
}

/// Reads the other `libc::SYS_*` constants. What they are depends on the machine;
/// on each, they are small non-negative numbers that differ from each other.
#[verifier::external_body]
fn other_numbers() -> (numbers: OtherNumbers)
    ensures
        numbers.is_valid(),
        all_differ(numbers.all()),
{
    OtherNumbers {
        kexec_load: libc::SYS_kexec_load,
        bpf: libc::SYS_bpf,
        perf_event_open: libc::SYS_perf_event_open,
        userfaultfd: libc::SYS_userfaultfd,
        io_uring_setup: libc::SYS_io_uring_setup,
        io_uring_enter: libc::SYS_io_uring_enter,
        io_uring_register: libc::SYS_io_uring_register,
        unshare: libc::SYS_unshare,
        clone: libc::SYS_clone,
        setns: libc::SYS_setns,
        clone3: libc::SYS_clone3,
        socket: libc::SYS_socket,
    }
}

/// Reads the `libc` constants for socket families, clone flags and error
/// numbers. `EAFNOSUPPORT` and `ENOSYS` depend on the machine; the others are the
/// same on every Linux.
#[verifier::external_body]
fn kernel_constants() -> (constants: KernelConstants)
    ensures
        constants.is_linux(),
{
    KernelConstants {
        af_unix: libc::AF_UNIX,
        af_inet: libc::AF_INET,
        af_inet6: libc::AF_INET6,
        clone_newuser: libc::CLONE_NEWUSER,
        eafnosupport: libc::EAFNOSUPPORT,
        eperm: libc::EPERM,
        enosys: libc::ENOSYS,
    }
}

impl KernelNumbers {
    /// The numbers of the machine that the library is compiled for, which has
    /// the architecture `arch`.
    pub fn native(arch: Arch) -> (numbers: KernelNumbers)
        ensures
            numbers.arch == arch,
            numbers.is_valid(),
            numbers.is_linux(),
    {
        KernelNumbers {
            arch,
            surface: surface_numbers(),
            mount: mount_numbers(),
            other: other_numbers(),
            constants: kernel_constants(),
        }
    }

    /// The number of `kexec_file_load`: its own slot on x86-64, and the slot
    /// that is common to the newer architectures, where `libc` does not name it
    /// everywhere.
    pub open spec fn spec_kexec_file_load(self) -> i64 {
        match self.arch {
            Arch::X86_64 => 320,
            Arch::Aarch64 | Arch::Riscv64 => 294,
        }
    }

    /// The number of `kexec_file_load`.
    pub fn kexec_file_load(&self) -> (number: i64)
        ensures
            number == self.spec_kexec_file_load(),
    {
        match self.arch {
            Arch::X86_64 => 320,
            Arch::Aarch64 | Arch::Riscv64 => 294,
        }
    }

    /// Kernel code loading, the kernel keyring and host-state interference.
    pub open spec fn kernel_surface(self) -> Seq<i64> {
        seq![
            self.other.kexec_load,
            self.spec_kexec_file_load(),
            self.surface.init_module,
            self.surface.finit_module,
            self.surface.delete_module,
            self.surface.add_key,
            self.surface.request_key,
            self.surface.keyctl,
            self.surface.reboot,
            self.surface.swapon,
            self.surface.swapoff,
            self.surface.acct,
        ]
    }

    /// The mount machinery. Unprivileged code can only exercise it inside a user
    /// namespace that it owns.
    pub open spec fn mount_machinery(self) -> Seq<i64> {
        seq![
            self.mount.mount,
            self.mount.umount2,
            self.mount.move_mount,
            self.mount.fsopen,
            self.mount.fsconfig,
            self.mount.fsmount,
            self.mount.fspick,
            self.mount.open_tree,
            self.mount.mount_setattr,
            self.mount.pivot_root,
            self.mount.chroot,
        ]
    }

    /// Kernel interfaces that legitimate tools probe and fall back from.
    pub open spec fn probed_kernel(self) -> Seq<i64> {
        seq![self.other.bpf, self.other.perf_event_open, self.other.userfaultfd]
    }

    /// Operations submitted through a ring never pass a system call filter.
    pub open spec fn io_uring(self) -> Seq<i64> {
        seq![self.other.io_uring_setup, self.other.io_uring_enter, self.other.io_uring_register]
    }

    /// Kernel interfaces that no tool legitimately calls, denied regardless of
    /// policy.
    pub fn kernel_surface_syscalls(&self) -> (syscalls: Vec<i64>)
        ensures
            syscalls@ == self.kernel_surface(),
    {
        let syscalls = vec![
            self.other.kexec_load,
            self.kexec_file_load(),
            self.surface.init_module,
            self.surface.finit_module,
            self.surface.delete_module,
            self.surface.add_key,
            self.surface.request_key,
            self.surface.keyctl,
            self.surface.reboot,
            self.surface.swapon,
            self.surface.swapoff,
            self.surface.acct,
        ];
        assert(syscalls@ =~= self.kernel_surface());
        syscalls
    }

    /// Mount-machinery system calls.
    pub fn mount_syscalls(&self) -> (syscalls: Vec<i64>)
        ensures
            syscalls@ == self.mount_machinery(),
    {
        let syscalls = vec![
            self.mount.mount,
            self.mount.umount2,
            self.mount.move_mount,
            self.mount.fsopen,
            self.mount.fsconfig,
            self.mount.fsmount,
            self.mount.fspick,
            self.mount.open_tree,
            self.mount.mount_setattr,
            self.mount.pivot_root,
            self.mount.chroot,
        ];
        assert(syscalls@ =~= self.mount_machinery());
        syscalls
    }

    /// Kernel interfaces that legitimate tools probe.
    pub fn probed_kernel_syscalls(&self) -> (syscalls: Vec<i64>)
        ensures
            syscalls@ == self.probed_kernel(),
    {
        let syscalls = vec![self.other.bpf, self.other.perf_event_open, self.other.userfaultfd];
        assert(syscalls@ =~= self.probed_kernel());
        syscalls
    }

    /// io_uring system calls. `enter` and `register` are included besides
    /// `setup`, so that an inherited or passed ring is equally unusable.
    pub fn io_uring_syscalls(&self) -> (syscalls: Vec<i64>)
        ensures
            syscalls@ == self.io_uring(),
    {
        let syscalls = vec![
            self.other.io_uring_setup,
            self.other.io_uring_enter,
            self.other.io_uring_register,
        ];
        assert(syscalls@ =~= self.io_uring());
        syscalls
    }
}

} // verus!
