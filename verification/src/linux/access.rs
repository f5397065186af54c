//! The Landlock access rights behind the portable ones.
use crate::linux::fs::{is_pinned, CompiledRules};
use crate::linux::masks::{pin_paths, Pin};
use crate::linux::rules::views;
use crate::path::CanonicalPath;
use crate::policy::FsRight;
use landlock::{Access, AccessFs, BitFlags, ABI};
use vstd::prelude::*;

verus! {

/// Everything that ABI v2 lets a ruleset mediate. Its `Refer` right is required
/// for write grants to honor cross-directory rename and link.
pub const HANDLED_ACCESS_FS: u64 = 0x3fff;

/// Reading files and listing directories.
pub const READ_ACCESS_FS: u64 = 0xc;

/// Writing, creating, removing, renaming and linking.
pub const WRITE_ACCESS_FS: u64 = 0x3ff2;

/// Executing files.
pub const EXECUTE_ACCESS_FS: u64 = 0x1;

/// What the child may do in its private IPC mounts: everything but executing.
pub const PRIVATE_IPC_ACCESS_FS: u64 = 0x3ffe;

/// Calls `AccessFs::from_all` for ABI v2: every right from `Execute`, bit 0, to
/// `Refer`, bit 13.
#[verifier::external_body]
fn landlock_all() -> (bits: u64)
    ensures
        bits == HANDLED_ACCESS_FS,
{
    AccessFs::from_all(ABI::V2).bits()
}

/// Calls `AccessFs::from_write` for ABI v2: every right but `Execute`, bit 0,
/// `ReadFile`, bit 2, and `ReadDir`, bit 3.
#[verifier::external_body]
fn landlock_write() -> (bits: u64)
    ensures
        bits == WRITE_ACCESS_FS,
{
    AccessFs::from_write(ABI::V2).bits()
}

/// Joins `AccessFs::ReadFile`, bit 2, and `AccessFs::ReadDir`, bit 3.
#[verifier::external_body]
fn landlock_read() -> (bits: u64)
    ensures
        bits == READ_ACCESS_FS,
{
    (AccessFs::ReadFile | AccessFs::ReadDir).bits()
}

/// Reads the bit of `AccessFs::Execute`, bit 0.
#[verifier::external_body]
fn landlock_execute() -> (bits: u64)
    ensures
        bits == EXECUTE_ACCESS_FS,
{
    BitFlags::<AccessFs>::from(AccessFs::Execute).bits()
}

/// The Landlock rights that a grant for `right` carries.
pub open spec fn access_of(right: FsRight) -> u64 {
    match right {
        FsRight::Read => READ_ACCESS_FS,
        FsRight::Write => WRITE_ACCESS_FS,
        FsRight::Execute => EXECUTE_ACCESS_FS,
    }
}

/// The rights that the filesystem ruleset mediates: anything not granted is
/// denied.
pub fn handled_access() -> (bits: u64)
    ensures
        bits == HANDLED_ACCESS_FS,
{
    landlock_all()
}

/// The Landlock rights that a grant for `right` carries.
pub fn access_for_right(right: FsRight) -> (bits: u64)
    ensures
        bits == access_of(right),
{
    match right {
        FsRight::Read => landlock_read(),
        FsRight::Write => landlock_write(),
        FsRight::Execute => landlock_execute(),
    }
}

/// A grant carries no right of another one: write does not imply read, and
/// execute does not imply read.
pub proof fn law_rights_are_disjoint(a: FsRight, b: FsRight)
    requires
        a != b,
    ensures
        access_of(a) & access_of(b) == 0,
{
    assert(0xcu64 & 0x3ff2u64 == 0 && 0x3ff2u64 & 0xcu64 == 0) by (bit_vector);
    assert(0xcu64 & 0x1u64 == 0 && 0x1u64 & 0xcu64 == 0) by (bit_vector);
    assert(0x3ff2u64 & 0x1u64 == 0 && 0x1u64 & 0x3ff2u64 == 0) by (bit_vector);
}

/// Every mediated right is granted by one of the portable rights, and nothing
/// else is granted.
pub proof fn law_rights_cover_what_is_handled()
    ensures
        access_of(FsRight::Read) | access_of(FsRight::Write) | access_of(FsRight::Execute)
            == HANDLED_ACCESS_FS,
        PRIVATE_IPC_ACCESS_FS | access_of(FsRight::Execute) == HANDLED_ACCESS_FS,
        PRIVATE_IPC_ACCESS_FS & access_of(FsRight::Execute) == 0,
{
    assert(0xcu64 | 0x3ff2u64 | 0x1u64 == 0x3fffu64) by (bit_vector);
    assert(0x3ffeu64 | 0x1u64 == 0x3fffu64) by (bit_vector);
    assert(0x3ffeu64 & 0x1u64 == 0) by (bit_vector);
}

/// One rule of the filesystem ruleset: rights beneath a pinned path.
#[derive(Debug, Clone, Copy, PartialEq, Eq, Structural)]
pub struct PinGrant {
    /// The pin whose descriptor identifies the path.
    pub pin: usize,
    /// The rights that are granted beneath it.
    pub access: u64,
}

/// Whether `grants` grants `access` beneath each of `roots`, in their order.
pub open spec fn grants_beneath(
    pins: Seq<Pin>,
    roots: Seq<Seq<Seq<u8>>>,
    access: u64,
    grants: Seq<PinGrant>,
) -> bool {
    &&& grants.len() == roots.len()
    &&& forall|i: int|
        #![trigger grants[i]]
        0 <= i < grants.len() ==> grants[i].access == access && grants[i].pin < pins.len()
            && pins[grants[i].pin as int].path@ == roots[i]
}

/// The pin of a path.
fn pin_index(pins: &Vec<Pin>, path: &CanonicalPath) -> (index: usize)
    requires
        pin_paths(pins@).contains(path@),
    ensures
        index < pins@.len(),
        pins@[index as int].path@ == path@,
{
    let mut i: usize = 0;
    proof {
        let k = choose|k: int| 0 <= k < pin_paths(pins@).len() && pin_paths(pins@)[k] == path@;
        assert(pins@[k].path@ == path@);
    }
    while !pins[i].path.same(path)
        invariant
            i < pins@.len(),
            exists|k: int| i <= k < pins@.len() && (#[trigger] pins@[k]).path@ == path@,
        decreases pins.len() - i,
    {
        i += 1;
    }
    i
}

/// Appends a grant of `access` beneath each of `roots`.
fn add_pinned_rules(
    grants: &mut Vec<PinGrant>,
    pins: &Vec<Pin>,
    roots: &Vec<CanonicalPath>,
    access: u64,
)
    requires
        forall|path: Seq<Seq<u8>>| #[trigger]
            views(roots@).contains(path) ==> pin_paths(pins@).contains(path),
    ensures
        old(grants)@.len() <= final(grants)@.len(),
        final(grants)@.take(old(grants)@.len() as int) == old(grants)@,
        grants_beneath(
            pins@,
            views(roots@),
            access,
            final(grants)@.skip(old(grants)@.len() as int),
        ),
{
    let ghost start = grants@;
    let mut i: usize = 0;
    while i < roots.len()
        invariant
            i <= roots@.len(),
            start == old(grants)@,
            forall|path: Seq<Seq<u8>>| #[trigger]
                views(roots@).contains(path) ==> pin_paths(pins@).contains(path),
            grants@.len() == start.len() + i,
            grants@.take(start.len() as int) == start,
            forall|k: int|
                #![trigger grants@[k]]
                start.len() <= k < grants@.len() ==> grants@[k].access == access && grants@[k].pin
                    < pins@.len() && pins@[grants@[k].pin as int].path@ == roots@[k
                    - start.len()]@,
        decreases roots.len() - i,
    {
        assert(views(roots@)[i as int] == roots@[i as int]@);
        assert(views(roots@).contains(roots@[i as int]@));
        let pin = pin_index(pins, &roots[i]);
        grants.push(PinGrant { pin, access });
        assert(grants@.take(start.len() as int) =~= start);
        i += 1;
    }
    assert(grants@.take(start.len() as int) =~= start);
}

/// The rules of the filesystem ruleset, identified by the pinned descriptors
/// rather than by opening the paths again: read grants first, then write, then
/// execute.
pub fn landlock_grants(compiled: &CompiledRules) -> (grants: Vec<PinGrant>)
    requires
        is_pinned(*compiled),
    ensures
        ({
            let reads = compiled.grants.read@.len() as int;
            let writes = reads + compiled.grants.write@.len();
            let all = writes + compiled.grants.execute@.len();
            &&& grants@.len() == all
            &&& grants_beneath(
                compiled.pins@,
                views(compiled.grants.read@),
                READ_ACCESS_FS,
                grants@.subrange(0, reads),
            )
            &&& grants_beneath(
                compiled.pins@,
                views(compiled.grants.write@),
                WRITE_ACCESS_FS,
                grants@.subrange(reads, writes),
            )
            &&& grants_beneath(
                compiled.pins@,
                views(compiled.grants.execute@),
                EXECUTE_ACCESS_FS,
                grants@.subrange(writes, all),
            )
        }),
{
    let mut grants: Vec<PinGrant> = Vec::new();
    let ghost reads = compiled.grants.read@.len() as int;
    let ghost writes = reads + compiled.grants.write@.len();
    let ghost all = writes + compiled.grants.execute@.len();
    add_pinned_rules(
        &mut grants,
        &compiled.pins,
        &compiled.grants.read,
        access_for_right(FsRight::Read),
    );
    let ghost with_read = grants@;
    assert(with_read.skip(0) =~= with_read);
    add_pinned_rules(
        &mut grants,
        &compiled.pins,
        &compiled.grants.write,
        access_for_right(FsRight::Write),
    );
    let ghost with_write = grants@;
    add_pinned_rules(
        &mut grants,
        &compiled.pins,
        &compiled.grants.execute,
        access_for_right(FsRight::Execute),
    );
    proof {
        assert(with_read.len() == reads);
        assert(with_write.len() == writes);
        assert(with_write.take(reads) == with_read);
        assert(grants@.take(writes) == with_write);
        assert(grants@.subrange(0, reads) =~= with_read) by {
            assert(grants@.subrange(0, reads) =~= grants@.take(writes).take(reads));
        }
        assert(grants@.subrange(reads, writes) =~= with_write.skip(reads)) by {
            assert(grants@.subrange(reads, writes) =~= grants@.take(writes).skip(reads));
        }
        assert(grants@.subrange(writes, all) =~= grants@.skip(writes));
    }
    grants
}

/// The kernel's rights behind each portable one, by their bits. Executing is bit 0;
/// reading is reading files, bit 2, and directories, bit 3; writing is writing files, bit
/// 1, removing and making entries, bits 4 to 12, and linking and renaming across
/// directories, bit 13. All of these are mediated, and nothing else is.
pub proof fn law_rights_are_the_bits_of_the_kernel(bit: u64)
    requires
        bit < 64,
    ensures
        access_of(FsRight::Execute) & (1u64 << bit) != 0 <==> bit == 0,
        access_of(FsRight::Read) & (1u64 << bit) != 0 <==> bit == 2 || bit == 3,
        access_of(FsRight::Write) & (1u64 << bit) != 0 <==> bit == 1 || 4 <= bit <= 13,
        HANDLED_ACCESS_FS & (1u64 << bit) != 0 <==> bit <= 13,
        PRIVATE_IPC_ACCESS_FS & (1u64 << bit) != 0 <==> 1 <= bit <= 13,
{
    assert(bit < 64 ==> (0x1u64 & (1u64 << bit) != 0 <==> bit == 0) && (0xcu64 & (1u64 << bit) != 0
        <==> bit == 2 || bit == 3) && (0x3ff2u64 & (1u64 << bit) != 0 <==> bit == 1 || (4 <= bit
        && bit <= 13)) && (0x3fffu64 & (1u64 << bit) != 0 <==> bit <= 13) && (0x3ffeu64 & (1u64
        << bit) != 0 <==> 1 <= bit && bit <= 13)) by (bit_vector);
}

/// A list of grants carries a right of the kernel at a path exactly where the right is
/// among those granted and one of the roots is the path or lies above it.
pub proof fn law_grants_reach_what_lies_beneath(
    pins: Seq<Pin>,
    roots: Seq<Seq<Seq<u8>>>,
    access: u64,
    grants: Seq<PinGrant>,
    bit: u64,
    path: Seq<Seq<u8>>,
)
    requires
        grants_beneath(pins, roots, access, grants),
    ensures
        (exists|i: int|
            0 <= i < grants.len() && (#[trigger] grants[i]).access & bit != 0
                && pins[grants[i].pin as int].path@.is_prefix_of(path)) <==> access & bit != 0
            && exists|i: int| 0 <= i < roots.len() && (#[trigger] roots[i]).is_prefix_of(path),
{
    if exists|i: int| 0 <= i < roots.len() && (#[trigger] roots[i]).is_prefix_of(path) {
        let i = choose|i: int| 0 <= i < roots.len() && (#[trigger] roots[i]).is_prefix_of(path);
        assert(pins[grants[i].pin as int].path@ == roots[i]);
    }
    if exists|i: int|
        0 <= i < grants.len() && (#[trigger] grants[i]).access & bit != 0
            && pins[grants[i].pin as int].path@.is_prefix_of(path) {
        let i = choose|i: int|
            0 <= i < grants.len() && (#[trigger] grants[i]).access & bit != 0
                && pins[grants[i].pin as int].path@.is_prefix_of(path);
        assert(roots[i].is_prefix_of(path));
    }
}

} // verus!
