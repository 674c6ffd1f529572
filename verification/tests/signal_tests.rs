use vivanta::signal::{SigAction, Signal, SignalState, SIGKILL, SIG_DFL, SIG_IGN};

#[test]
fn signal_numbers_round_trip() {
    for s in [Signal::Hup, Signal::Int, Signal::Kill, Signal::Term, Signal::Segv, Signal::Chld] {
        assert_eq!(Signal::from_num(s.num()), Some(s));
    }
    assert_eq!(Signal::Kill.num(), 9);
    assert_eq!(Signal::Chld.num(), 17);
    assert_eq!(Signal::from_num(3), None);
}

#[test]
fn kill_cannot_be_blocked() {
    let mut st = SignalState::new();
    st.block(Signal::Kill);
    assert!(!st.is_blocked(Signal::Kill));
    assert!(!st.is_blocked_num(SIGKILL));
    st.block(Signal::Term);
    assert!(st.is_blocked(Signal::Term));
    assert!(st.is_blocked_num(15));
    st.unblock(Signal::Term);
    assert!(!st.is_blocked(Signal::Term));
}

#[test]
fn ignored_signal_is_not_pending() {
    let mut st = SignalState::new();
    let prev = st.set_action(15, SigAction { handler: SIG_IGN, mask: 0, flags: 0 });
    assert_eq!(prev, Some(SigAction::default()));
    st.send(Signal::Term);
    assert_eq!(st.take(), None);
    st.send(Signal::Int);
    assert_eq!(st.take(), Some(Signal::Int));
    assert_eq!(st.take(), None);
}

#[test]
fn action_table_bounds() {
    let mut st = SignalState::new();
    assert_eq!(st.get_action(2), Some(SigAction { handler: SIG_DFL, mask: 0, flags: 0 }));
    assert_eq!(st.get_action(32), None);
    assert_eq!(st.set_action(40, SigAction { handler: 0x4000, mask: 0, flags: 0 }), None);
    st.set_action(2, SigAction { handler: 0x4000, mask: 1, flags: 2 });
    assert_eq!(st.get_action(2).unwrap().handler, 0x4000);
}
