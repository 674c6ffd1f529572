//! The syscall ABI: numbers, errno encoding, and the argument validation and
//! address-space effects of the memory syscalls. Results are `u64`: a value
//! or `-errno` in two's complement.
//!
//! The caller's address space is identified by the root table the entry
//! path passes in.
pub mod process;

use vstd::prelude::*;
use crate::vmm::address_space::{
    affected_of, range_check, AddressSpace, ProtectPlan, UnmapPlan, VmmError, USER_VA_BASE,
};
use crate::vmm::cow_refcount::CowRegistry;
use crate::vmm::mapping::MappingFlags;
use crate::vmm::registry::{root_slot, AddressSpaces, MAX_ADDRESS_SPACES};

verus! {

pub const SYS_READ: u64 = 0;
pub const SYS_WRITE: u64 = 1;
pub const SYS_EXIT: u64 = 2;
pub const SYS_YIELD: u64 = 3;
pub const SYS_MMAP: u64 = 4;
pub const SYS_MUNMAP: u64 = 5;
pub const SYS_MPROTECT: u64 = 6;

pub const EPERM_I: i64 = -1;
pub const ENOMEM_I: i64 = -12;
pub const EFAULT_I: i64 = -14;
pub const EINVAL_I: i64 = -22;
pub const ENOSYS_I: i64 = -38;

/// `-EPERM` as a syscall result.
pub const EPERM: u64 = 0xFFFF_FFFF_FFFF_FFFF;
/// `-ENOMEM` as a syscall result.
pub const ENOMEM: u64 = 0xFFFF_FFFF_FFFF_FFF4;
/// `-EFAULT` as a syscall result.
pub const EFAULT: u64 = 0xFFFF_FFFF_FFFF_FFF2;
/// `-EINVAL` as a syscall result.
pub const EINVAL: u64 = 0xFFFF_FFFF_FFFF_FFEA;
/// `-ENOSYS` as a syscall result.
pub const ENOSYS: u64 = 0xFFFF_FFFF_FFFF_FFDA;

/// Largest `write` accepted per call.
pub const WRITE_BUF_SIZE: usize = 256;

/// Largest `mmap` length: a deterministic bound, not an overcommit promise.
pub const MAX_MMAP_BYTES: u64 = 64 * 1024 * 1024;

pub const PROT_READ: u64 = 1;
pub const PROT_WRITE: u64 = 2;
pub const PROT_EXEC: u64 = 4;

/// Object id of anonymous syscall mappings.
pub const OBJ_ANONYMOUS: u64 = 0xFFFF_FFFF_FFFF_FFFF;

/// The system call a number selects.
#[derive(Debug, Clone, Copy, PartialEq, Eq, Structural)]
pub enum SyscallKind {
    Read,
    Write,
    Exit,
    Yield,
    Mmap,
    Munmap,
    Mprotect,
    Unknown,
}

/// The system call numbered `num`; `Unknown` for any other number (the
/// caller answers `ENOSYS`, as it does for `read`).
pub fn classify(num: u64) -> (r: SyscallKind)
    ensures
        r == (if num == SYS_READ {
            SyscallKind::Read
        } else if num == SYS_WRITE {
            SyscallKind::Write
        } else if num == SYS_EXIT {
            SyscallKind::Exit
        } else if num == SYS_YIELD {
            SyscallKind::Yield
        } else if num == SYS_MMAP {
            SyscallKind::Mmap
        } else if num == SYS_MUNMAP {
            SyscallKind::Munmap
        } else if num == SYS_MPROTECT {
            SyscallKind::Mprotect
        } else {
            SyscallKind::Unknown
        }),
{
    if num == SYS_READ {
        SyscallKind::Read
    } else if num == SYS_WRITE {
        SyscallKind::Write
    } else if num == SYS_EXIT {
        SyscallKind::Exit
    } else if num == SYS_YIELD {
        SyscallKind::Yield
    } else if num == SYS_MMAP {
        SyscallKind::Mmap
    } else if num == SYS_MUNMAP {
        SyscallKind::Munmap
    } else if num == SYS_MPROTECT {
        SyscallKind::Mprotect
    } else {
        SyscallKind::Unknown
    }
}

/// The permissions a `prot` mask asks for: only the read, write and execute
/// bits, read always, never write and execute together; user accessible.
pub open spec fn prot_flags(prot: u64) -> Option<MappingFlags> {
    if prot & 0xFFFF_FFFF_FFFF_FFF8u64 != 0 || prot & PROT_READ == 0 || (prot & PROT_WRITE != 0 && prot
        & PROT_EXEC != 0) {
        None
    } else {
        Some(MappingFlags { user: true, read_write: prot & PROT_WRITE != 0, executable: prot & PROT_EXEC != 0 })
    }
}

/// The permissions decoded from a `prot` mask are what it asks for: user
/// accessible, writable exactly when it has `PROT_WRITE`, executable exactly
/// when it has `PROT_EXEC`. A mask is accepted exactly when it has no bit but
/// the three, has `PROT_READ`, and does not ask for write and execute
/// together.
pub proof fn law_prot_flags_exact(prot: u64)
    ensures
        prot_flags(prot) matches Some(f) ==> f.user && f.read_write == (prot & PROT_WRITE != 0) && f.executable == (
        prot & PROT_EXEC != 0),
        prot_flags(prot) is Some <==> (prot < 8 && prot & PROT_READ != 0 && !(prot & PROT_WRITE != 0 && prot
            & PROT_EXEC != 0)),
{
    assert(prot & 0xFFFF_FFFF_FFFF_FFF8u64 == 0 <==> prot < 8) by (bit_vector);
}

/// Validate a `prot` mask into permissions (W^X enforced).
pub fn decode_prot(prot: u64) -> (r: Option<MappingFlags>)
    ensures
        r == prot_flags(prot),
        r matches Some(f) ==> f.user && f.read_write == (prot & PROT_WRITE != 0) && f.executable == (prot
            & PROT_EXEC != 0),
        r is Some <==> (prot < 8 && prot & PROT_READ != 0 && !(prot & PROT_WRITE != 0 && prot & PROT_EXEC != 0)),
{
    proof {
        law_prot_flags_exact(prot);
    }
    let unknown = prot & !(PROT_READ | PROT_WRITE | PROT_EXEC);
    assert(!(PROT_READ | PROT_WRITE | PROT_EXEC) == 0xFFFF_FFFF_FFFF_FFF8u64) by (bit_vector);
    if unknown != 0 {
        return None;
    }
    if prot & PROT_READ == 0 {
        return None;
    }
    let mut f = MappingFlags::user();
    if prot & PROT_WRITE != 0 {
        f = f.union(MappingFlags::read_write());
    }
    if prot & PROT_EXEC != 0 {
        f = f.union(MappingFlags::executable());
    }
    if f.is_read_write() && f.is_executable() {
        return None;
    }
    Some(f)
}

/// The errno of a refused `prot`: `EPERM` for write+execute, else `EINVAL`.
pub open spec fn prot_errno(prot: u64) -> u64 {
    if prot & PROT_WRITE != 0 && prot & PROT_EXEC != 0 {
        EPERM
    } else {
        EINVAL
    }
}

fn prot_error(prot: u64) -> (r: u64)
    ensures
        r == prot_errno(prot),
{
    if prot & PROT_WRITE != 0 && prot & PROT_EXEC != 0 {
        EPERM
    } else {
        EINVAL
    }
}

/// `len` rounded up to whole pages, when that fits.
pub open spec fn page_rounded(len: u64) -> Option<u64> {
    if len + 0xFFF > u64::MAX {
        None
    } else {
        Some((len + 0xFFF - (len + 0xFFF) % 4096) as u64)
    }
}

pub fn page_round(len: u64) -> (r: Option<u64>)
    ensures
        r == page_rounded(len),
{
    if len > u64::MAX - 0xFFF {
        None
    } else {
        let v = len + 0xFFF;
        Some(v - v % 4096)
    }
}

/// The errno of a failed shadow operation: `ENOMEM` when the range is not
/// mapped, else `EINVAL`.
pub open spec fn vmm_errno(e: VmmError) -> u64 {
    if e == VmmError::NotMapped {
        ENOMEM
    } else {
        EINVAL
    }
}

fn vmm_error(e: VmmError) -> (r: u64)
    ensures
        r == vmm_errno(e),
{
    match e {
        VmmError::NotMapped => ENOMEM,
        _ => EINVAL,
    }
}

/// Why a `munmap`/`mprotect` range is refused before the address space is
/// consulted: misaligned, below the user domain, empty, or rounding past
/// the address space.
pub open spec fn user_range_errno(addr: u64, len: u64) -> Option<u64> {
    if addr % 4096 != 0 || addr < USER_VA_BASE || len == 0 || page_rounded(len) is None {
        Some(EINVAL)
    } else {
        None
    }
}

/// Validate the arguments of `mmap(addr, len, prot)`: only anonymous
/// mappings at an address of the kernel's choosing (`addr == 0`), of at
/// most `MAX_MMAP_BYTES`. Returns the page-rounded length and the
/// permissions, or the errno.
pub open spec fn mmap_args(addr: u64, len: u64, prot: u64) -> Result<(u64, MappingFlags), u64> {
    if addr != 0 || len == 0 || len > MAX_MMAP_BYTES {
        Err(EINVAL)
    } else {
        match prot_flags(prot) {
            None => Err(prot_errno(prot)),
            Some(f) => match page_rounded(len) {
                None => Err(EINVAL),
                Some(l) => Ok((l, f)),
            },
        }
    }
}

/// What `mmap` needs once the caller's address space is known: see
/// `mmap_args`. The caller then asks the VA allocator for the rounded
/// length and records the reservation with `AddressSpace::reserve_lazy`
/// (`ENOMEM` when either fails).
pub fn sys_mmap(spaces: &AddressSpaces, as_root: u64, addr: u64, len: u64, prot: u64) -> (r: Result<(usize, u64, MappingFlags), u64>)
    requires
        spaces.wf(),
    ensures
        root_slot(spaces.slots(), as_root, 0) >= MAX_ADDRESS_SPACES ==> r == Err::<(usize, u64, MappingFlags), u64>(EFAULT),
        root_slot(spaces.slots(), as_root, 0) < MAX_ADDRESS_SPACES ==> match mmap_args(addr, len, prot) {
            Err(e) => r == Err::<(usize, u64, MappingFlags), u64>(e),
            Ok((l, f)) => r == Ok::<(usize, u64, MappingFlags), u64>((root_slot(spaces.slots(), as_root, 0) as usize, l, f)),
        },
{
    let k = match spaces.find_by_root(as_root) {
        Some(k) => k,
        None => {
            return Err(EFAULT);
        },
    };
    if addr != 0 {
        return Err(EINVAL);
    }
    if len == 0 || len > MAX_MMAP_BYTES {
        return Err(EINVAL);
    }
    let flags = match decode_prot(prot) {
        Some(f) => f,
        None => {
            return Err(prot_error(prot));
        },
    };
    match page_round(len) {
        Some(l) => Ok((k, l, flags)),
        None => Err(EINVAL),
    }
}

/// The rest of `mmap` once the VA allocator has answered for the rounded
/// length `len` (`Err` when it had no room): record the lazy reservation at
/// that address in the space in `slot` (as `sys_mmap` found it). Returns the
/// address, or `ENOMEM`; the second value is true when the caller must give
/// the range back to the VA allocator (the space had no free slot).
pub fn sys_mmap_reserve(
    spaces: &mut AddressSpaces,
    slot: usize,
    va: Result<u64, ()>,
    len: u64,
    flags: MappingFlags,
) -> (r: (u64, bool))
    requires
        old(spaces).wf(),
        slot < MAX_ADDRESS_SPACES,
        old(spaces).slots()[slot as int] is Some,
        va matches Ok(v) ==> v + len <= u64::MAX && forall|i: int|
            0 <= i < old(spaces).slots()[slot as int]->0.mappings.live().len() ==> !crate::vmm::address_space::overlaps(
                #[trigger] old(spaces).slots()[slot as int]->0.mappings.live()[i],
                v as int,
                v + len,
            ),
    ensures
        final(spaces).wf(),
        ({
            let a = old(spaces).slots()[slot as int]->0;
            let h = crate::vmm::mapping::hole(a.mappings.slots(), 0);
            match va {
                Err(_) => r == (ENOMEM, false) && final(spaces).slots() == old(spaces).slots(),
                Ok(v) => if h < crate::vmm::mapping::MAX_MAPPINGS {
                    &&& r == (v, false)
                    &&& final(spaces).slots()[slot as int] matches Some(b) && b.id == a.id && b.root == a.root
                        && b.mappings.slots() == a.mappings.slots().update(
                        h,
                        Some(
                            crate::vmm::address_space::lazy_value(
                                crate::vmm::mapping::Mapping::new_spec(
                                    crate::vmm::mapping::VirtRange { base: v, size: len },
                                    OBJ_ANONYMOUS,
                                    flags,
                                ),
                            ),
                        ),
                    )
                    &&& forall|j: int| 0 <= j < MAX_ADDRESS_SPACES && j != slot ==> #[trigger] final(spaces).slots()[j]
                        == old(spaces).slots()[j]
                } else {
                    &&& r == (ENOMEM, true)
                    &&& final(spaces).slots()[slot as int] matches Some(b) && b.mappings.slots()
                        == a.mappings.slots()
                },
            }
        }),
{
    let v = match va {
        Ok(v) => v,
        Err(_) => {
            return (ENOMEM, false);
        },
    };
    let mut a = match spaces.take(slot) {
        Some(a) => a,
        None => {
            return (ENOMEM, false);
        },
    };
    let r = a.reserve_lazy(Ok(v), len, flags, OBJ_ANONYMOUS);
    spaces.put_back(slot, a);
    match r {
        Ok(v) => (v, false),
        Err(_) => (ENOMEM, true),
    }
}

/// `munmap(addr, len)` on the space with root `as_root`: `EFAULT` for an
/// unknown root, `EINVAL` for a bad range, then the unmap of the
/// page-rounded range (`ENOMEM` when it is not mapped). On success the
/// plan says what to clear and free; the caller also returns the range to
/// the VA allocator.
pub fn sys_munmap(spaces: &mut AddressSpaces, cow: &mut CowRegistry, as_root: u64, addr: u64, len: u64) -> (r: (u64, Option<UnmapPlan>))
    requires
        old(spaces).wf(),
    ensures
        final(spaces).wf(),
        root_slot(old(spaces).slots(), as_root, 0) >= MAX_ADDRESS_SPACES ==> r.0 == EFAULT && r.1 is None
            && final(spaces).slots() == old(spaces).slots(),
        root_slot(old(spaces).slots(), as_root, 0) < MAX_ADDRESS_SPACES ==> {
            let k = root_slot(old(spaces).slots(), as_root, 0);
            let a = old(spaces).slots()[k]->0;
            match user_range_errno(addr, len) {
                Some(e) => r.0 == e && r.1 is None && final(spaces).slots() == old(spaces).slots(),
                None => {
                    let l = page_rounded(len)->0;
                    match range_check(a.mappings.live(), a.mappings.spec_count() as int, addr, l) {
                        Some(err) => r.0 == vmm_errno(err) && r.1 is None,
                        None => r.0 == 0 && r.1 is Some && (final(spaces).slots()[k] matches Some(b) && b.mappings.live()
                            == crate::vmm::mapping::keep(a.mappings.live(), affected_of(a.mappings.live(), addr as int, addr + l))
                            + crate::vmm::address_space::unmap_pieces(
                            affected_of(a.mappings.live(), addr as int, addr + l),
                            addr as int,
                            addr + l,
                        )),
                    }
                },
            }
        },
{
    let k = match spaces.find_by_root(as_root) {
        Some(k) => k,
        None => {
            return (EFAULT, None);
        },
    };
    proof {
        crate::vmm::registry::lemma_root_slot(spaces.slots(), as_root, 0);
    }
    if addr % 4096 != 0 || addr < USER_VA_BASE {
        return (EINVAL, None);
    }
    if len == 0 {
        return (EINVAL, None);
    }
    let l = match page_round(len) {
        Some(l) => l,
        None => {
            return (EINVAL, None);
        },
    };
    let mut a = match spaces.take(k) {
        Some(a) => a,
        None => {
            return (EFAULT, None);
        },
    };
    let r = a.unmap_pages(addr, l, cow);
    spaces.put_back(k, a);
    match r {
        Ok(plan) => (0, Some(plan)),
        Err(e) => (vmm_error(e), None),
    }
}

/// `mprotect(addr, len, prot)` on the space with root `as_root`: `EFAULT`
/// for an unknown root, `EINVAL` for a bad range, `EPERM`/`EINVAL` for a
/// bad `prot`, then the permission change of the page-rounded range
/// (`ENOMEM` when it is not mapped). On success the plan says which runs
/// to reprogram.
pub fn sys_mprotect(spaces: &mut AddressSpaces, cow: &mut CowRegistry, as_root: u64, addr: u64, len: u64, prot: u64) -> (r: (u64, Option<ProtectPlan>))
    requires
        old(spaces).wf(),
    ensures
        final(spaces).wf(),
        root_slot(old(spaces).slots(), as_root, 0) >= MAX_ADDRESS_SPACES ==> r.0 == EFAULT && r.1 is None
            && final(spaces).slots() == old(spaces).slots(),
        root_slot(old(spaces).slots(), as_root, 0) < MAX_ADDRESS_SPACES ==> {
            let k = root_slot(old(spaces).slots(), as_root, 0);
            let a = old(spaces).slots()[k]->0;
            match user_range_errno(addr, len) {
                Some(e) => r.0 == e && r.1 is None && final(spaces).slots() == old(spaces).slots(),
                None => match prot_flags(prot) {
                    None => r.0 == prot_errno(prot) && r.1 is None && final(spaces).slots() == old(spaces).slots(),
                    Some(f) => {
                        let l = page_rounded(len)->0;
                        match range_check(a.mappings.live(), a.mappings.spec_count() as int, addr, l) {
                            Some(err) => r.0 == vmm_errno(err) && r.1 is None,
                            None => r.0 == 0 && r.1 is Some && (final(spaces).slots()[k] matches Some(b)
                                && b.mappings.live() == crate::vmm::mapping::keep(
                                a.mappings.live(),
                                affected_of(a.mappings.live(), addr as int, addr + l),
                            ) + crate::vmm::address_space::protect_pieces(
                                affected_of(a.mappings.live(), addr as int, addr + l),
                                addr as int,
                                addr + l,
                                f,
                            )),
                        }
                    },
                },
            }
        },
{
    let k = match spaces.find_by_root(as_root) {
        Some(k) => k,
        None => {
            return (EFAULT, None);
        },
    };
    proof {
        crate::vmm::registry::lemma_root_slot(spaces.slots(), as_root, 0);
    }
    if addr % 4096 != 0 || addr < USER_VA_BASE {
        return (EINVAL, None);
    }
    if len == 0 {
        return (EINVAL, None);
    }
    let l = match page_round(len) {
        Some(l) => l,
        None => {
            return (EINVAL, None);
        },
    };
    let flags = match decode_prot(prot) {
        Some(f) => f,
        None => {
            return (prot_error(prot), None);
        },
    };
    let mut a = match spaces.take(k) {
        Some(a) => a,
        None => {
            return (EFAULT, None);
        },
    };
    let r = a.protect(addr, l, flags, cow);
    spaces.put_back(k, a);
    match r {
        Ok(plan) => (0, Some(plan)),
        Err(e) => (vmm_error(e), None),
    }
}

/// Validate `write(fd, buf, count)` before the copy from user memory: only
/// stdout and stderr, at most `WRITE_BUF_SIZE` bytes. Returns the count.
pub fn sys_write_check(fd: u64, count: u64) -> (r: Result<usize, u64>)
    ensures
        (fd != 1 && fd != 2) ==> r == Err::<usize, u64>(EINVAL),
        (fd == 1 || fd == 2) && count > WRITE_BUF_SIZE ==> r == Err::<usize, u64>(EINVAL),
        (fd == 1 || fd == 2) && count <= WRITE_BUF_SIZE ==> r == Ok::<usize, u64>(count as usize),
{
    if fd != 1 && fd != 2 {
        return Err(EINVAL);
    }
    if count > WRITE_BUF_SIZE as u64 {
        return Err(EINVAL);
    }
    Ok(count as usize)
}

} // verus!
