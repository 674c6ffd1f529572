use vivanta::boot::boot_info::BootInfo;
use vivanta::identity::boot::BootIdentity;
use vivanta::identity::persistent::PersistentIdentity;
use vivanta::identity::runtime::RuntimeIdentity;
use vivanta::identity::state::{BootSource, IdentityState};
use vivanta::identity::uuid::{Uuid, UuidSource};
use vivanta::memory::pmm_backend::PmmBackend;
use vivanta::pmm::PmmBitmap;
use vivanta::state::hardware::HardwareState;
use vivanta::state::identity::RuntimeIdentity as CountedIdentity;
use vivanta::state::SystemState;

#[test]
fn uuid_v4_layout_and_counter() {
    let mut src = UuidSource { counter: 0x0102_0304_0506_0708 };
    let u = Uuid::new_v4(&mut src);
    assert_eq!(
        u.bytes,
        [0x08, 0x07, 0x06, 0x05, 0x04, 0x03, 0x42, 0x01, 0x80, 0, 0, 0, 0, 0, 0, 0]
    );
    assert_eq!(src.counter, 0x0102_0304_0506_0709);
    assert!(!u.is_nil());
    assert!(Uuid::nil().is_nil());
}

#[test]
fn uuid_counter_wraps() {
    let mut src = UuidSource { counter: u64::MAX };
    let u = Uuid::new_v4(&mut src);
    assert_eq!(src.counter, 0);
    assert_eq!(u.bytes[6], 0x4f);
    assert!(!u.is_nil());
}

#[test]
fn fresh_uuids_differ() {
    let mut src = UuidSource::new();
    let a = Uuid::new_v4(&mut src);
    let b = Uuid::new_v4(&mut src);
    assert_ne!(a, b);
}

#[test]
fn runtime_identity_links_to_boot() {
    let mut src = UuidSource::new();
    let boot = BootIdentity::cold_start(42, &mut src);
    assert_eq!(boot.source, BootSource::ColdStart);
    assert_eq!(boot.boot_timestamp, 42);
    let rt = RuntimeIdentity::from_boot(&boot, 1, &mut src);
    assert_eq!(rt.boot_id, boot.boot_id);
    assert_eq!(rt.generation, 1);
    assert_ne!(rt.id, boot.boot_id);
    let next = rt.next_generation(&mut src);
    assert_eq!(next.generation, 2);
    assert_eq!(next.boot_id, boot.boot_id);
    assert_ne!(next.id, rt.id);
}

#[test]
fn identity_state_views() {
    let mut src = UuidSource::new();
    let boot = BootIdentity::warm_reset(7, &mut src);
    assert_eq!(boot.source, BootSource::WarmReset);
    let booting = IdentityState::Booting(boot);
    assert_eq!(booting.current_id(), boot.boot_id);
    assert_eq!(booting.generation(), 0);
    assert!(booting.runtime().is_none());
    let rt = RuntimeIdentity::from_boot(&boot, 3, &mut src);
    let running = IdentityState::Runtime(rt);
    assert_eq!(running.current_id(), rt.id);
    assert_eq!(running.generation(), 3);
    assert_eq!(running.boot_id(), Some(boot.boot_id));
    let p = PersistentIdentity::new_now(Uuid::nil(), 1, vec![1, 2, 3], 100);
    let persisted = IdentityState::Persistent(p.clone(), rt);
    assert_eq!(persisted.current_id(), Uuid::nil());
    assert_eq!(persisted.generation(), 3);
    assert!(persisted.persistent().is_some());
    assert_eq!(BootSource::default(), BootSource::ColdStart);
}

#[test]
fn persistent_identity_age_saturates() {
    let mut p = PersistentIdentity::new(Uuid::nil(), 1, 100, 100, vec![]);
    assert_eq!(p.age(), 0);
    p.touch(250);
    assert_eq!(p.age(), 150);
    p.update_hardware_signature(vec![9], 50);
    assert_eq!(p.hardware_signature, vec![9]);
    assert_eq!(p.age(), 0);
}

#[test]
fn counted_identity_numbers_boots() {
    let mut counter: u64 = 5;
    let a = CountedIdentity::generate(&mut counter);
    let b = CountedIdentity::generate(&mut counter);
    assert_eq!(a.boot_id, 5);
    assert_eq!(b.boot_id, 6);
    assert_eq!(counter, 7);
    assert_eq!(a.public_key, [0u8; 32]);
    let mut top = u64::MAX;
    let c = CountedIdentity::generate(&mut top);
    assert_eq!(c.boot_id, u64::MAX);
    assert_eq!(top, 0);
}

#[test]
fn hardware_state_from_boot_info() {
    assert_eq!(HardwareState::new().dtb_ptr, 0);
    assert_eq!(HardwareState::from_boot_info(&BootInfo { dtb: Some(0x4800_0000) }).dtb_ptr, 0x4800_0000);
    assert_eq!(HardwareState::from_boot_info(&BootInfo { dtb: None }).dtb_ptr, 0);
}

#[test]
fn system_state_boot_sequence() {
    let mut src = UuidSource::new();
    let mut s: SystemState<PmmBackend> = SystemState::from_boot_info(&BootInfo { dtb: Some(0x100) }, &mut src);
    assert_eq!(s.hardware().dtb_ptr, 0x100);
    assert!(!s.is_initialized());
    assert_eq!(s.generation(), 1);
    let rt = *s.runtime_identity().unwrap();
    assert_eq!(s.current_id(), rt.id);
    assert_eq!(src.counter, 2);
    let mut expect = UuidSource::new();
    let boot_id = Uuid::new_v4(&mut expect);
    assert_eq!(rt.boot_id, boot_id);
    assert!(matches!(s.identity(), IdentityState::Runtime(_)));
    s.init_memory(PmmBackend::new_dram(PmmBitmap::init(0x4000_0000, 16 * 4096)));
    assert_eq!(s.memory_manager().backend_count(), 1);
    assert_eq!(s.memory_manager_mut().backend_count(), 1);
    s.initialize();
    assert!(s.is_initialized());
}

#[test]
fn uuid_hyphenated_text() {
    let mut src = UuidSource { counter: 0x0102_0304_0506_0708 };
    let u = Uuid::new_v4(&mut src);
    assert_eq!(
        String::from_utf8(u.hyphenated()).unwrap(),
        "08070605-0403-4201-8000-000000000000"
    );
    assert_eq!(
        String::from_utf8(Uuid::nil().hyphenated()).unwrap(),
        "00000000-0000-0000-0000-000000000000"
    );
    let all = Uuid { bytes: [0xab, 0xcd, 0xef, 0x12, 0x34, 0x56, 0x78, 0x9a, 0xbc, 0xde, 0xf0, 0x01, 0x23, 0x45, 0x67, 0x89] };
    assert_eq!(String::from_utf8(all.hyphenated()).unwrap(), "abcdef12-3456-789a-bcde-f00123456789");
}

#[test]
fn default_identities_take_the_next_uuid() {
    let mut src = UuidSource { counter: 5 };
    let r = RuntimeIdentity::default_from(&mut src);
    assert_eq!(r.generation, 1);
    assert!(r.boot_id.is_nil());
    assert_eq!(r.id.bytes[0], 5);
    let p = PersistentIdentity::default_from(&mut src);
    assert_eq!(p.id.bytes[0], 6);
    assert_eq!(p.version, 1);
    assert_eq!((p.created_at, p.last_updated), (0, 0));
    assert!(p.hardware_signature.is_empty());
    assert_eq!(src.counter, 7);
}

#[test]
fn uuids_differ_within_the_low_52_counter_bits() {
    let mut a = UuidSource { counter: 0 };
    let mut b = UuidSource { counter: 0xF_FFFF_FFFF_FFFF };
    assert_ne!(Uuid::new_v4(&mut a), Uuid::new_v4(&mut b));
    // Bit 52 falls under the version nibble: these two collide.
    let mut c = UuidSource { counter: 0 };
    let mut d = UuidSource { counter: 1 << 52 };
    assert_eq!(Uuid::new_v4(&mut c), Uuid::new_v4(&mut d));
}
