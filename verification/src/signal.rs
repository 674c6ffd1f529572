//! Minimal signal model with sigaction-style dispositions.
use vstd::prelude::*;

verus! {

pub const SIGHUP: u8 = 1;
pub const SIGINT: u8 = 2;
pub const SIGKILL: u8 = 9;
pub const SIGTERM: u8 = 15;
pub const SIGSEGV: u8 = 11;
pub const SIGCHLD: u8 = 17;

/// sigaction handler sentinel (POSIX): default disposition.
pub const SIG_DFL: u64 = 0;

/// sigaction handler sentinel (POSIX): ignore.
pub const SIG_IGN: u64 = 1;

/// Size of the disposition table; index 0 is unused.
pub const MAX_SIG: usize = 32;

#[derive(Debug, Clone, Copy, PartialEq, Eq, Structural)]
pub enum Signal {
    Hup,
    Int,
    Kill,
    Term,
    Segv,
    Chld,
}

/// POSIX number of a signal.
pub open spec fn signal_number(sig: Signal) -> u8 {
    match sig {
        Signal::Hup => SIGHUP,
        Signal::Int => SIGINT,
        Signal::Kill => SIGKILL,
        Signal::Term => SIGTERM,
        Signal::Segv => SIGSEGV,
        Signal::Chld => SIGCHLD,
    }
}

/// Bit `n` of `mask` is set.
pub open spec fn mask_has(mask: u64, n: u8) -> bool {
    mask & (1u64 << n) != 0
}

impl Signal {
    /// The signal with POSIX number `num`, if modelled.
    pub fn from_num(num: u8) -> (r: Option<Signal>)
        ensures
            r matches Some(s) ==> signal_number(s) == num,
            r is None <==> !(num == SIGHUP || num == SIGINT || num == SIGKILL || num == SIGSEGV
                || num == SIGTERM || num == SIGCHLD),
    {
        match num {
            1 => Some(Signal::Hup),
            2 => Some(Signal::Int),
            9 => Some(Signal::Kill),
            11 => Some(Signal::Segv),
            15 => Some(Signal::Term),
            17 => Some(Signal::Chld),
            _ => None,
        }
    }

    /// POSIX number of this signal.
    pub fn num(self) -> (r: u8)
        ensures
            r == signal_number(self),
    {
        match self {
            Signal::Hup => SIGHUP,
            Signal::Int => SIGINT,
            Signal::Kill => SIGKILL,
            Signal::Term => SIGTERM,
            Signal::Segv => SIGSEGV,
            Signal::Chld => SIGCHLD,
        }
    }
}

/// Minimal sigaction-like descriptor.
///
/// `handler` encodes the user handler VA: 0 = SIG_DFL, 1 = SIG_IGN, otherwise
/// the user VA to invoke on delivery.
#[derive(Debug, Clone, Copy, PartialEq, Eq, Structural)]
pub struct SigAction {
    /// User handler VA (0 = default, 1 = ignore).
    pub handler: u64,
    /// Additional signals to block during handler execution.
    pub mask: u64,
    /// Flags (e.g. SA_RESTART); stored verbatim, not interpreted.
    pub flags: u32,
}

impl Default for SigAction {
    fn default() -> (r: Self)
        ensures
            r == (SigAction { handler: SIG_DFL, mask: 0, flags: 0 }),
    {
        SigAction { handler: SIG_DFL, mask: 0, flags: 0 }
    }
}

/// Per-task signal state: one pending slot, a blocked mask and the
/// disposition table.
pub struct SignalState {
    pub pending: Option<Signal>,
    /// Bitmask, bit n = signal n.
    pub blocked: u64,
    /// Per-signal disposition table (index = signal number). Entry 0 unused.
    pub handlers: [SigAction; 32],
}

impl SignalState {
    pub fn new() -> (r: Self)
        ensures
            r.pending is None,
            r.blocked == 0,
            forall|i: int| 0 <= i < MAX_SIG ==> #[trigger] r.handlers@[i] == (SigAction {
                handler: SIG_DFL,
                mask: 0,
                flags: 0,
            }),
    {
        SignalState {
            pending: None,
            blocked: 0,
            handlers: [SigAction { handler: SIG_DFL, mask: 0, flags: 0 }; 32],
        }
    }

    /// `sig` is held back: never for SIGKILL, else when its mask bit is set.
    pub open spec fn spec_is_blocked(&self, sig: Signal) -> bool {
        sig != Signal::Kill && mask_has(self.blocked, signal_number(sig))
    }

    /// Queue `sig` unless it is blocked or its disposition is SIG_IGN.
    pub fn send(&mut self, sig: Signal)
        ensures
            final(self).blocked == old(self).blocked,
            final(self).handlers == old(self).handlers,
            (old(self).spec_is_blocked(sig) || old(self).handlers@[signal_number(sig) as int].handler
                == SIG_IGN) ==> final(self).pending == old(self).pending,
            !(old(self).spec_is_blocked(sig) || old(self).handlers@[signal_number(sig) as int].handler
                == SIG_IGN) ==> final(self).pending == Some(sig),
    {
        if !self.is_blocked(sig) {
            let idx = sig.num() as usize;
            if idx < MAX_SIG && self.handlers[idx].handler == SIG_IGN {
                return;
            }
            self.pending = Some(sig);
        }
    }

    pub fn is_blocked(&self, sig: Signal) -> (r: bool)
        ensures
            r == self.spec_is_blocked(sig),
    {
        if sig == Signal::Kill {
            return false;
        }
        (self.blocked & (1u64 << sig.num())) != 0
    }

    /// Raw signal-number check for the sigaction path.
    pub fn is_blocked_num(&self, sig: u8) -> (r: bool)
        requires
            sig < 64,
        ensures
            r == (sig != SIGKILL && mask_has(self.blocked, sig)),
    {
        if sig == SIGKILL {
            return false;
        }
        (self.blocked & (1u64 << sig)) != 0
    }

    /// Set the mask bit of `sig`; SIGKILL cannot be blocked.
    pub fn block(&mut self, sig: Signal)
        ensures
            final(self).pending == old(self).pending,
            final(self).handlers == old(self).handlers,
            sig == Signal::Kill ==> final(self).blocked == old(self).blocked,
            sig != Signal::Kill ==> final(self).blocked == old(self).blocked | (1u64
                << signal_number(sig)),
    {
        if sig == Signal::Kill {
            return;
        }
        self.blocked = self.blocked | (1u64 << sig.num());
    }

    /// Clear the mask bit of `sig`.
    pub fn unblock(&mut self, sig: Signal)
        ensures
            final(self).pending == old(self).pending,
            final(self).handlers == old(self).handlers,
            final(self).blocked == old(self).blocked & !(1u64 << signal_number(sig)),
    {
        self.blocked = self.blocked & !(1u64 << sig.num());
    }

    /// Take the pending signal, leaving none.
    pub fn take(&mut self) -> (r: Option<Signal>)
        ensures
            r == old(self).pending,
            final(self).pending is None,
            final(self).blocked == old(self).blocked,
            final(self).handlers == old(self).handlers,
    {
        self.pending.take()
    }

    /// The disposition of raw signal number `sig`; `None` out of range.
    pub fn get_action(&self, sig: u8) -> (r: Option<SigAction>)
        ensures
            (sig as usize) < MAX_SIG ==> r == Some(self.handlers@[sig as int]),
            (sig as usize) >= MAX_SIG ==> r is None,
    {
        if (sig as usize) < MAX_SIG {
            Some(self.handlers[sig as usize])
        } else {
            None
        }
    }

    /// Install a disposition for raw signal number `sig`, returning the
    /// previous one; `None` (and no change) out of range. Callers validate
    /// that `sig` is not SIGKILL.
    pub fn set_action(&mut self, sig: u8, act: SigAction) -> (r: Option<SigAction>)
        ensures
            final(self).pending == old(self).pending,
            final(self).blocked == old(self).blocked,
            (sig as usize) < MAX_SIG ==> r == Some(old(self).handlers@[sig as int])
                && final(self).handlers@ == old(self).handlers@.update(sig as int, act),
            (sig as usize) >= MAX_SIG ==> r is None && final(self).handlers == old(self).handlers,
    {
        if (sig as usize) < MAX_SIG {
            let prev = self.handlers[sig as usize];
            self.handlers[sig as usize] = act;
            Some(prev)
        } else {
            None
        }
    }
}

// ---------------------------------------------------------------------------
// Laws
// ---------------------------------------------------------------------------

/// SIGKILL can never be blocked, whatever the mask.
pub proof fn law_kill_unblockable(blocked: u64)
    ensures
        !(SignalState { pending: None, blocked, handlers: arbitrary() }).spec_is_blocked(
            Signal::Kill,
        ),
{
}

/// After blocking a signal other than SIGKILL it is blocked; after unblocking
/// any signal it is not; other signals keep their state.
pub proof fn law_block_unblock(blocked: u64, sig: Signal, other: Signal)
    requires
        sig != other,
    ensures
        sig != Signal::Kill ==> mask_has(blocked | (1u64 << signal_number(sig)), signal_number(sig)),
        !mask_has(blocked & !(1u64 << signal_number(sig)), signal_number(sig)),
        mask_has(blocked | (1u64 << signal_number(sig)), signal_number(other)) == mask_has(
            blocked,
            signal_number(other),
        ),
        mask_has(blocked & !(1u64 << signal_number(sig)), signal_number(other)) == mask_has(
            blocked,
            signal_number(other),
        ),
{
    let n = signal_number(sig);
    let m = signal_number(other);
    assert(n != m);
    assert(n < 64 && m < 64);
    assert((blocked | (1u64 << n)) & (1u64 << n) != 0) by (bit_vector)
        requires
            n < 64,
    ;
    assert((blocked & !(1u64 << n)) & (1u64 << n) == 0) by (bit_vector)
        requires
            n < 64,
    ;
    assert(((blocked | (1u64 << n)) & (1u64 << m) != 0) == (blocked & (1u64 << m) != 0))
        by (bit_vector)
        requires
            n < 64,
            m < 64,
            n != m,
    ;
    assert(((blocked & !(1u64 << n)) & (1u64 << m) != 0) == (blocked & (1u64 << m) != 0))
        by (bit_vector)
        requires
            n < 64,
            m < 64,
            n != m,
    ;
}

} // verus!
