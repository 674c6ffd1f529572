use vivanta::syscall::{classify, SyscallKind};
use vivanta::syscall::{
    decode_prot, page_round, sys_mmap, sys_mmap_reserve, sys_mprotect, sys_munmap, sys_write_check, EFAULT, EINVAL,
    ENOMEM, EPERM, MAX_MMAP_BYTES, PROT_EXEC, PROT_READ, PROT_WRITE,
};
use vivanta::syscall::process::{sys_execve, sys_kill};
use vivanta::syscall::ENOSYS;
use vivanta::vmm::address_space::AddressSpaceFlags;
use vivanta::vmm::cow_refcount::CowRegistry;
use vivanta::vmm::mapping::MappingFlags;
use vivanta::vmm::registry::AddressSpaces;
use vivanta::vmm::address_space::USER_VA_BASE;

#[test]
fn prot_decoding_enforces_w_xor_x() {
    let rw = decode_prot(PROT_READ | PROT_WRITE).unwrap();
    assert!(rw.is_read_write() && rw.is_user() && !rw.is_executable());
    let rx = decode_prot(PROT_READ | PROT_EXEC).unwrap();
    assert!(rx.is_executable() && !rx.is_read_write());
    assert_eq!(decode_prot(PROT_READ | PROT_WRITE | PROT_EXEC), None);
    assert_eq!(decode_prot(PROT_WRITE), None);
    assert_eq!(decode_prot(PROT_READ | 8), None);
}

#[test]
fn page_round_up() {
    assert_eq!(page_round(1), Some(4096));
    assert_eq!(page_round(4096), Some(4096));
    assert_eq!(page_round(4097), Some(8192));
    assert_eq!(page_round(u64::MAX), None);
}

#[test]
fn write_check_limits() {
    assert_eq!(sys_write_check(1, 16), Ok(16));
    assert_eq!(sys_write_check(2, 256), Ok(256));
    assert_eq!(sys_write_check(1, 257), Err(EINVAL));
    assert_eq!(sys_write_check(0, 1), Err(EINVAL));
}

#[test]
fn unsupported_calls() {
    assert_eq!(sys_kill(5, 9), EINVAL);
    assert_eq!(sys_execve(), ENOSYS);
}

fn spaces_with_user() -> AddressSpaces {
    let mut s = AddressSpaces::new();
    s.init_kernel_address_space(0x1000);
    s.register(0x2000, AddressSpaceFlags::User).unwrap();
    s
}

#[test]
fn mmap_validates_arguments() {
    let s = spaces_with_user();
    let (k, len, f) = sys_mmap(&s, 0x2000, 0, 5000, PROT_READ | PROT_WRITE).unwrap();
    assert_eq!(k, 1);
    assert_eq!(len, 8192);
    assert!(f.is_read_write());
    assert_eq!(sys_mmap(&s, 0x9999, 0, 4096, PROT_READ), Err(EFAULT));
    assert_eq!(sys_mmap(&s, 0x2000, 0x1000, 4096, PROT_READ), Err(EINVAL));
    assert_eq!(sys_mmap(&s, 0x2000, 0, 0, PROT_READ), Err(EINVAL));
    assert_eq!(sys_mmap(&s, 0x2000, 0, MAX_MMAP_BYTES + 1, PROT_READ), Err(EINVAL));
    assert_eq!(sys_mmap(&s, 0x2000, 0, 4096, PROT_READ | PROT_WRITE | PROT_EXEC), Err(EPERM));
    assert_eq!(sys_mmap(&s, 0x2000, 0, 4096, PROT_WRITE), Err(EINVAL));
}

#[test]
fn munmap_and_mprotect_on_a_reservation() {
    let mut s = spaces_with_user();
    let mut cow = CowRegistry::new();
    let k = s.find_by_root(0x2000).unwrap();
    let mut a = s.take(k).unwrap();
    a.reserve_lazy(Ok(USER_VA_BASE), 4 * 4096, MappingFlags::read_write(), 1).unwrap();
    s.put_back(k, a);
    let (rc, plan) = sys_mprotect(&mut s, &mut cow, 0x2000, USER_VA_BASE, 4096, PROT_READ);
    assert_eq!(rc, 0);
    assert!(plan.unwrap().runs.is_empty());
    assert_eq!(sys_mprotect(&mut s, &mut cow, 0x2000, USER_VA_BASE, 4096, PROT_WRITE | PROT_EXEC | PROT_READ).0, EPERM);
    assert_eq!(sys_mprotect(&mut s, &mut cow, 0x2000, USER_VA_BASE + 1, 4096, PROT_READ).0, EINVAL);
    assert_eq!(sys_mprotect(&mut s, &mut cow, 0x7777, USER_VA_BASE, 4096, PROT_READ).0, EFAULT);
    let (rc, plan) = sys_munmap(&mut s, &mut cow, 0x2000, USER_VA_BASE, 4 * 4096);
    assert_eq!(rc, 0);
    assert!(plan.unwrap().anon_frames.is_empty());
    assert_eq!(sys_munmap(&mut s, &mut cow, 0x2000, USER_VA_BASE, 4096).0, ENOMEM);
    assert_eq!(sys_munmap(&mut s, &mut cow, 0x2000, 0, 4096).0, EINVAL);
}

#[test]
fn syscall_numbers_classify() {
    assert_eq!(classify(0), SyscallKind::Read);
    assert_eq!(classify(1), SyscallKind::Write);
    assert_eq!(classify(2), SyscallKind::Exit);
    assert_eq!(classify(3), SyscallKind::Yield);
    assert_eq!(classify(4), SyscallKind::Mmap);
    assert_eq!(classify(5), SyscallKind::Munmap);
    assert_eq!(classify(6), SyscallKind::Mprotect);
    assert_eq!(classify(99), SyscallKind::Unknown);
}

#[test]
fn mmap_reserves_at_the_allocated_address() {
    let mut s = spaces_with_user();
    let (k, len, f) = sys_mmap(&s, 0x2000, 0, 5000, PROT_READ | PROT_WRITE).unwrap();
    assert_eq!(sys_mmap_reserve(&mut s, k, Err(()), len, f), (ENOMEM, false));
    assert_eq!(s.get(k).unwrap().mappings.len(), 0);
    assert_eq!(sys_mmap_reserve(&mut s, k, Ok(USER_VA_BASE), len, f), (USER_VA_BASE, false));
    let m = s.get(k).unwrap().query(USER_VA_BASE + 4096).unwrap();
    assert_eq!(m.backing, vivanta::vmm::mapping::Backing::LazyAnonymous);
    assert_eq!(m.virt_range.size, 8192);
    assert!(m.permissions.is_read_write());
    let mut next = USER_VA_BASE + len;
    loop {
        let (rc, give_back) = sys_mmap_reserve(&mut s, k, Ok(next), 4096, f);
        if give_back {
            assert_eq!(rc, ENOMEM);
            break;
        }
        assert_eq!(rc, next);
        next += 4096;
    }
}
