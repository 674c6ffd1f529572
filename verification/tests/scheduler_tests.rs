use vivanta::scheduler::task::TaskState;
use vivanta::scheduler::task_manager::TaskManager;
use vivanta::scheduler::thread::{Priority, ThreadState};
use vivanta::scheduler::{
    check_sleeping_threads, current_thread_address_space, current_thread_id, init_boot,
    maybe_reschedule, running_thread_count, schedule_tick, sleep, task_for_thread, thread_exit,
    wake, yield_now, Scheduler, Switch,
};
use vivanta::syscall::process::{fork_precheck, sys_fork, sys_getpid, sys_getppid, sys_waitpid, WaitOutcome};
use vivanta::syscall::{EFAULT, EINVAL, ENOMEM};
use vivanta::vmm::address_space::AddressSpaceFlags;
use vivanta::vmm::registry::AddressSpaces;

fn booted() -> Scheduler {
    let mut s = Scheduler::new();
    init_boot(&mut s);
    s
}

#[test]
fn boot_thread_runs_alone() {
    let mut s = booted();
    assert_eq!(current_thread_id(&s), s.boot_thread);
    assert_eq!(running_thread_count(&s), 1);
    assert_eq!(s.rq.get(s.idle_thread).unwrap().state, ThreadState::Ready);
    assert_eq!(yield_now(&mut s), None);
    assert_eq!(current_thread_id(&s), s.boot_thread);
}

#[test]
fn spawned_user_task_gets_the_cpu_on_yield() {
    let mut s = booted();
    let mut tm = TaskManager::new();
    let h = tm.spawn_user(&mut s, Some(0x9000_0000), 5, Priority::Normal, None).unwrap();
    assert_eq!(h.id, 1);
    assert_eq!(tm.task_count(&s), 1);
    let tid = 2;
    assert_eq!(s.rq.get(tid).unwrap().state, ThreadState::Ready);
    assert_eq!(task_for_thread(&s, tid), Some(1));
    let sw = yield_now(&mut s).unwrap();
    assert_eq!(sw, Switch { from: 0, to: tid, activate: Some(5) });
    assert_eq!(current_thread_id(&s), tid);
    assert_eq!(current_thread_address_space(&s), 5);
    assert_eq!(running_thread_count(&s), 1);
    assert_eq!(s.rq.get(0).unwrap().state, ThreadState::Ready);
    assert_eq!(sys_getpid(&s), tid);
}

#[test]
fn spawn_without_stack_fails() {
    let mut s = booted();
    let mut tm = TaskManager::new();
    assert_eq!(
        tm.spawn_user(&mut s, None, 5, Priority::Normal, None),
        Err("kernel stack contiguous alloc failed")
    );
    assert_eq!(tm.task_count(&s), 0);
}

#[test]
fn exit_makes_a_zombie_and_switches_back() {
    let mut s = booted();
    let mut tm = TaskManager::new();
    tm.spawn_user(&mut s, Some(0x9000_0000), 5, Priority::Normal, None).unwrap();
    yield_now(&mut s).unwrap();
    let ex = thread_exit(&mut s, 0).unwrap();
    assert_eq!(ex.switch, Switch { from: 2, to: 0, activate: Some(0) });
    assert!(ex.freed_stacks.is_empty());
    assert_eq!(current_thread_id(&s), 0);
    assert_eq!(running_thread_count(&s), 1);
    assert_eq!(s.rq.get(2).unwrap().state, ThreadState::Terminated);
    assert_eq!(tm.zombies(&s), vec![1]);
    let t = tm.get(&s, 1).unwrap();
    assert_eq!(t.state, TaskState::Zombie);
    assert_eq!(t.exit_code, Some(0));
    let reaped = tm.reap_zombie(&mut s, 1).unwrap();
    assert_eq!(reaped.task_id, 1);
    assert!(tm.zombies(&s).is_empty());
}

#[test]
fn terminated_thread_stack_is_freed_on_next_exit() {
    let mut s = booted();
    let mut tm = TaskManager::new();
    tm.spawn_user(&mut s, Some(0x9000_0000), 5, Priority::Normal, None).unwrap();
    tm.spawn_kernel(&mut s, 0x1234, 0xA000_0000, 0, Priority::Normal, None).unwrap();
    yield_now(&mut s).unwrap();
    let first = thread_exit(&mut s, 3).unwrap();
    assert_eq!(first.switch.from, 2);
    let second = thread_exit(&mut s, 4).unwrap();
    assert_eq!(second.freed_stacks, vec![0x9000_0000]);
}

#[test]
fn sleep_and_wake_up() {
    let mut s = booted();
    let mut tm = TaskManager::new();
    tm.spawn_kernel(&mut s, 0x1234, 0xA000_0000, 0, Priority::Normal, None).unwrap();
    let sw = sleep(&mut s, 100, 10).unwrap();
    assert_eq!(sw, Switch { from: 0, to: 2, activate: None });
    // The yield that follows the sleep puts the sleeper back to Ready; its
    // wake-up time stays recorded.
    assert_eq!(s.rq.get(0).unwrap().state, ThreadState::Ready);
    assert_eq!(s.rq.get(0).unwrap().sleep_until, Some(110));
    check_sleeping_threads(&mut s, 105);
    assert_eq!(s.rq.get(0).unwrap().state, ThreadState::Ready);
    schedule_tick(&mut s, 110);
    assert_eq!(s.rq.get(0).unwrap().state, ThreadState::Ready);
    assert!(s.need_reschedule);
    assert_eq!(maybe_reschedule(&mut s), Some(Switch { from: 2, to: 0, activate: None }));
    assert!(!s.need_reschedule);
    assert_eq!(maybe_reschedule(&mut s), None);
    wake(&mut s, 2);
    assert_eq!(s.rq.get(2).unwrap().state, ThreadState::Ready);
}

#[test]
fn wake_and_tick_release_sleepers() {
    let mut s = booted();
    let mut tm = TaskManager::new();
    tm.spawn_kernel(&mut s, 0x1234, 0xA000_0000, 0, Priority::Normal, None).unwrap();
    assert!(s.rq.set_sleep(2, ThreadState::Sleeping, Some(50)));
    check_sleeping_threads(&mut s, 49);
    assert_eq!(s.rq.get(2).unwrap().state, ThreadState::Sleeping);
    check_sleeping_threads(&mut s, 50);
    assert_eq!(s.rq.get(2).unwrap().state, ThreadState::Ready);
    assert!(s.rq.set_sleep(2, ThreadState::Sleeping, Some(500)));
    wake(&mut s, 2);
    assert_eq!(s.rq.get(2).unwrap().state, ThreadState::Ready);
    assert_eq!(s.rq.get(2).unwrap().sleep_until, None);
}

#[test]
fn waitpid_reaps_zombie_child() {
    let mut s = booted();
    let mut tm = TaskManager::new();
    let parent = tm.spawn_user(&mut s, Some(0x9000_0000), 5, Priority::Normal, None).unwrap();
    let child = tm.spawn_user(&mut s, Some(0x9100_0000), 6, Priority::Normal, Some(parent.id)).unwrap();
    yield_now(&mut s).unwrap();
    assert_eq!(sys_getpid(&s), 2);
    assert_eq!(sys_getppid(&s), 0);
    assert_eq!(sys_waitpid(&s, child.id, 1), WaitOutcome::Return(0));
    assert_eq!(sys_waitpid(&s, child.id, 0), WaitOutcome::Block(child.id));
    assert_eq!(sys_waitpid(&s, 77, 0), WaitOutcome::Return(EINVAL));
    yield_now(&mut s).unwrap();
    assert_eq!(current_thread_id(&s), 3);
    assert_eq!(sys_getppid(&s), parent.id);
    thread_exit(&mut s, 7).unwrap();
    while current_thread_id(&s) != 2 {
        yield_now(&mut s).unwrap();
    }
    assert_eq!(sys_waitpid(&s, 0, 0), WaitOutcome::Reap { child: child.id, status: 7 * 256 });
}

#[test]
fn in_place_updates() {
    let mut s = booted();
    let mut tm = TaskManager::new();
    tm.spawn_kernel(&mut s, 0x1234, 0xA000_0000, 0, Priority::Normal, None).unwrap();
    s.rq.get_mut(2).unwrap().priority = Priority::High;
    assert_eq!(s.rq.get(2).unwrap().priority, Priority::High);
    assert!(s.rq.get_mut(99).is_none());
    s.pt.lookup_mut(1).unwrap().exit_code = Some(5);
    assert_eq!(s.pt.lookup(1).unwrap().exit_code, Some(5));
    assert!(s.pt.lookup_mut(42).is_none());
}

#[test]
fn reaped_handle_goes_stale() {
    let mut s = booted();
    let mut tm = TaskManager::new();
    let h = tm.spawn_kernel(&mut s, 0x1234, 0xA000_0000, 0, Priority::Normal, None).unwrap();
    assert!(tm.get_handle(&s, h).is_some());
    s.pt.exit_task(h.id, 1);
    tm.reap_zombie(&mut s, h.id).unwrap();
    assert!(tm.get_handle(&s, h).is_none());
    let h2 = tm.spawn_kernel(&mut s, 0x1234, 0xB000_0000, 0, Priority::Normal, None).unwrap();
    assert_ne!(h2.id, h.id);
    assert!(tm.get_handle(&s, h).is_none());
    assert!(tm.get_handle(&s, h2).is_some());
}

#[test]
fn kernel_thread_start_marks_task_running() {
    let mut s = booted();
    let mut tm = TaskManager::new();
    let h = tm.spawn_kernel(&mut s, 0x1234, 0xA000_0000, 0, Priority::Normal, None).unwrap();
    assert_eq!(tm.get(&s, h.id).unwrap().state, TaskState::Created);
    yield_now(&mut s).unwrap();
    assert_eq!(vivanta::scheduler::thread_start(&mut s), 0x1234);
    assert_eq!(tm.get(&s, h.id).unwrap().state, TaskState::Running);
    assert_eq!(s.rq.get(2).unwrap().state, ThreadState::Running);
    assert_eq!(tm.running_count(&s), 1);
}

#[test]
fn fork_registers_a_child_task() {
    let mut s = booted();
    let mut tm = TaskManager::new();
    let parent = tm.spawn_user(&mut s, Some(0x9000_0000), 5, Priority::Normal, None).unwrap();
    yield_now(&mut s).unwrap();
    let r = sys_fork(&mut s, None, None, None);
    assert_eq!(r.value, ENOMEM);
    assert!(r.free_frames.is_empty());
    let r = sys_fork(&mut s, Some(0x9100_0000), None, None);
    assert_eq!(r.value, ENOMEM);
    assert_eq!(r.free_frames, vec![0x9100_0000, 0x9100_1000, 0x9100_2000, 0x9100_3000]);
    let r = sys_fork(&mut s, Some(0x9100_0000), Some(0x7000), None);
    assert_eq!(r.free_frames.len(), 5);
    let r = sys_fork(&mut s, Some(0x9100_0000), Some(0x7000), Some(9));
    assert_eq!(r.value, 2);
    assert!(r.free_frames.is_empty());
    let child = tm.get(&s, 2).unwrap();
    assert_eq!(child.parent, Some(parent.id));
    assert_eq!(child.threads, vec![3]);
    assert_eq!(child.address_space, 9);
    assert_eq!(child.state, TaskState::Created);
    assert_eq!(s.rq.get(3).unwrap().state, ThreadState::Ready);
    assert_eq!(s.rq.get(3).unwrap().address_space, 9);
}

#[test]
fn spawning_a_child_records_it_with_its_parent() {
    let mut s = booted();
    let mut tm = TaskManager::new();
    let other = tm.spawn_user(&mut s, Some(0x8000_0000), 4, Priority::Normal, None).unwrap();
    let parent = tm.spawn_user(&mut s, Some(0x9000_0000), 5, Priority::Normal, None).unwrap();
    let c1 = tm.spawn_user(&mut s, Some(0x9100_0000), 6, Priority::Normal, Some(parent.id)).unwrap();
    let c2 = tm.spawn_kernel(&mut s, 0x1234, 0xA000_0000, 0, Priority::Normal, Some(parent.id)).unwrap();
    let p = tm.get(&s, parent.id).unwrap();
    assert_eq!(p.children, vec![c1.id, c2.id]);
    assert_eq!(p.state, TaskState::Created);
    assert!(tm.get(&s, other.id).unwrap().children.is_empty());
    assert_eq!(tm.get(&s, c1.id).unwrap().parent, Some(parent.id));
    assert_eq!(tm.get(&s, c2.id).unwrap().parent, Some(parent.id));
}

#[test]
fn waitpid_any_child_reaps_a_later_zombie() {
    let mut s = booted();
    let mut tm = TaskManager::new();
    let parent = tm.spawn_user(&mut s, Some(0x9000_0000), 5, Priority::Normal, None).unwrap();
    let c1 = tm.spawn_user(&mut s, Some(0x9100_0000), 6, Priority::Normal, Some(parent.id)).unwrap();
    let c2 = tm.spawn_user(&mut s, Some(0x9200_0000), 7, Priority::Normal, Some(parent.id)).unwrap();
    while current_thread_id(&s) != 2 {
        yield_now(&mut s).unwrap();
    }
    assert_eq!(sys_waitpid(&s, 0, 1), WaitOutcome::Return(0));
    assert_eq!(sys_waitpid(&s, 0, 0), WaitOutcome::Block(c1.id));
    assert!(s.pt.exit_task(c2.id, 3));
    assert_eq!(sys_waitpid(&s, 0, 1), WaitOutcome::Reap { child: c2.id, status: 3 * 256 });
}

#[test]
fn fork_precheck_refuses_an_unknown_address_space() {
    let s = booted();
    let mut spaces = AddressSpaces::new();
    assert_eq!(spaces.register(0x9000_0000, AddressSpaceFlags::User), Some(1));
    assert_eq!(fork_precheck(&s, &spaces, 0x9000_0000), None);
    assert_eq!(fork_precheck(&s, &spaces, 0x9100_0000), Some(EFAULT));
    let mut none_running = Scheduler::new();
    none_running.current = 77;
    assert_eq!(fork_precheck(&none_running, &spaces, 0x9000_0000), Some(EFAULT));
}
