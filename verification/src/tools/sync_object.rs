//! Decision logic of a waitable synchronization object: signals are counted
//! as tokens, so a signal sent before anyone waits is not lost, and each
//! woken waiter consumes exactly one token. The blocking itself (a mutex
//! and a condition variable) is up to the caller, which feeds the waiting
//! thread's events in and performs the returned actions.

use vstd::prelude::*;

verus! {

/// What happened to a waiting thread.
#[derive(Debug, Clone, Copy, PartialEq, Eq, Structural)]
pub enum WaitEvent {
    /// The thread starts waiting for a signal.
    Begin,
    /// The thread was woken up (possibly spuriously).
    Woken,
    /// The thread's deadline passed.
    TimedOut,
}

/// What the waiting thread does next.
#[derive(Debug, Clone, Copy, PartialEq, Eq, Structural)]
pub enum WaitAction {
    /// A signal was consumed: the wait is over.
    Proceed,
    /// No signal is available: keep waiting.
    Block,
    /// The deadline passed without a signal: stop waiting.
    GiveUp,
}

/// `a + b`, saturating at `usize::MAX`.
pub open spec fn saturating_sum(a: nat, b: nat) -> nat {
    if a + b > usize::MAX {
        usize::MAX as nat
    } else {
        a + b
    }
}

/// Tokens after one signal.
pub open spec fn signal_tokens(tokens: nat) -> nat {
    saturating_sum(tokens, 1)
}

/// Tokens after a signal to all waiters: one per waiter, at least one.
pub open spec fn signal_all_tokens(tokens: nat, waiters: nat) -> nat {
    saturating_sum(tokens, if waiters > 1 { waiters } else { 1 })
}

/// Next (tokens, waiters) and action for an event of a waiting thread.
pub open spec fn wait_step(tokens: nat, waiters: nat, event: WaitEvent) -> (nat, nat, WaitAction) {
    match event {
        WaitEvent::Begin => if tokens > 0 {
            ((tokens - 1) as nat, waiters, WaitAction::Proceed)
        } else {
            (tokens, waiters + 1, WaitAction::Block)
        },
        WaitEvent::Woken => if tokens > 0 {
            ((tokens - 1) as nat, (waiters - 1) as nat, WaitAction::Proceed)
        } else {
            (tokens, waiters, WaitAction::Block)
        },
        WaitEvent::TimedOut => if tokens > 0 {
            ((tokens - 1) as nat, (waiters - 1) as nat, WaitAction::Proceed)
        } else {
            (tokens, (waiters - 1) as nat, WaitAction::GiveUp)
        },
    }
}

/// Token-counting state of a waitable object: pending signals and threads
/// blocked waiting for one.
#[derive(Debug)]
pub struct SyncState {
    tokens: usize,
    waiters: usize,
}

impl SyncState {
    /// Signals sent and not yet consumed.
    pub closed spec fn tokens(&self) -> nat {
        self.tokens as nat
    }

    /// Threads blocked waiting for a signal.
    pub closed spec fn waiters(&self) -> nat {
        self.waiters as nat
    }

    /// Creates a state with no pending signal and no waiter.
    pub fn new() -> (r: Self)
        ensures
            r.tokens() == 0,
            r.waiters() == 0,
    {
        SyncState { tokens: 0, waiters: 0 }
    }

    /// Number of signals sent and not yet consumed.
    pub fn pending_signals(&self) -> (r: usize)
        ensures
            r == self.tokens(),
    {
        self.tokens
    }

    /// Number of threads blocked waiting for a signal.
    pub fn waiting_threads(&self) -> (r: usize)
        ensures
            r == self.waiters(),
    {
        self.waiters
    }

    /// Records a signal that wakes up one waiting thread.
    pub fn signal(&mut self)
        ensures
            final(self).tokens() == signal_tokens(old(self).tokens()),
            final(self).waiters() == old(self).waiters(),
    {
        self.tokens = self.tokens.saturating_add(1);
    }

    /// Records a signal that wakes up all waiting threads (one token per
    /// waiter, at least one).
    pub fn signal_all(&mut self)
        ensures
            final(self).tokens() == signal_all_tokens(old(self).tokens(), old(self).waiters()),
            final(self).waiters() == old(self).waiters(),
    {
        let wake_count = if self.waiters > 1 {
            self.waiters
        } else {
            1
        };
        self.tokens = self.tokens.saturating_add(wake_count);
    }

    /// Applies an event of a waiting thread and returns what it does next.
    /// `Begin` registers the thread as a waiter unless a signal is pending;
    /// `Woken` and `TimedOut` come from a registered waiter.
    pub fn on_wait_event(&mut self, event: WaitEvent) -> (action: WaitAction)
        requires
            event == WaitEvent::Begin ==> old(self).tokens() > 0 || old(self).waiters()
                < usize::MAX,
            event != WaitEvent::Begin ==> old(self).waiters() > 0,
        ensures
            (final(self).tokens(), final(self).waiters(), action) == wait_step(
                old(self).tokens(),
                old(self).waiters(),
                event,
            ),
    {
        match event {
            WaitEvent::Begin => {
                if self.tokens > 0 {
                    self.tokens = self.tokens - 1;
                    WaitAction::Proceed
                } else {
                    self.waiters = self.waiters + 1;
                    WaitAction::Block
                }
            },
            WaitEvent::Woken => {
                if self.tokens > 0 {
                    self.tokens = self.tokens - 1;
                    self.waiters = self.waiters - 1;
                    WaitAction::Proceed
                } else {
                    WaitAction::Block
                }
            },
            WaitEvent::TimedOut => {
                if self.tokens > 0 {
                    self.tokens = self.tokens - 1;
                    self.waiters = self.waiters - 1;
                    WaitAction::Proceed
                } else {
                    self.waiters = self.waiters - 1;
                    WaitAction::GiveUp
                }
            },
        }
    }
}

impl Default for SyncState {
    fn default() -> (r: Self)
        ensures
            r.tokens() == 0,
            r.waiters() == 0,
    {
        Self::new()
    }
}

/// A signal sent before anyone waits is not lost: the next thread that
/// begins waiting proceeds at once, consuming it.
pub proof fn law_signal_before_wait_is_kept(tokens: nat, waiters: nat)
    ensures
        wait_step(signal_tokens(tokens), waiters, WaitEvent::Begin).2 == WaitAction::Proceed,
        tokens < usize::MAX ==> wait_step(signal_tokens(tokens), waiters, WaitEvent::Begin).0
            == tokens,
{
}

/// After a signal to all, every registered waiter that wakes up proceeds:
/// there are at least as many tokens as waiters (unless the count saturates).
pub proof fn law_signal_all_wakes_every_waiter(tokens: nat, waiters: nat)
    requires
        tokens + waiters <= usize::MAX,
    ensures
        signal_all_tokens(tokens, waiters) >= waiters,
        signal_all_tokens(tokens, waiters) >= 1,
{
}

/// Each waiter that proceeds consumes exactly one token: tokens never
/// increase through waiting, and a proceeding thread took one.
pub proof fn law_waiting_consumes_one_token(tokens: nat, waiters: nat, event: WaitEvent)
    requires
        event != WaitEvent::Begin ==> waiters > 0,
    ensures
        wait_step(tokens, waiters, event).2 == WaitAction::Proceed ==> wait_step(
            tokens,
            waiters,
            event,
        ).0 + 1 == tokens,
        wait_step(tokens, waiters, event).2 != WaitAction::Proceed ==> wait_step(
            tokens,
            waiters,
            event,
        ).0 == tokens,
{
}

/// The waiter count tracks the threads blocked on a signal: a thread that
/// begins waiting is counted only if it blocks, a registered waiter that
/// keeps blocking stays counted, and one that stops waiting (proceeds or
/// gives up) is counted no more.
pub proof fn law_waiter_count_tracks_blocked_threads(tokens: nat, waiters: nat, event: WaitEvent)
    requires
        event != WaitEvent::Begin ==> waiters > 0,
    ensures
        event == WaitEvent::Begin ==> {
            &&& wait_step(tokens, waiters, event).2 == WaitAction::Block
                ==> wait_step(tokens, waiters, event).1 == waiters + 1
            &&& wait_step(tokens, waiters, event).2 != WaitAction::Block
                ==> wait_step(tokens, waiters, event).1 == waiters
        },
        event != WaitEvent::Begin ==> {
            &&& wait_step(tokens, waiters, event).2 == WaitAction::Block
                ==> wait_step(tokens, waiters, event).1 == waiters
            &&& wait_step(tokens, waiters, event).2 != WaitAction::Block
                ==> wait_step(tokens, waiters, event).1 + 1 == waiters
        },
{
}

/// A thread that begins waiting with no signal pending blocks, and once it
/// stops waiting (woken or timed out, whatever signals came meanwhile) the
/// waiter count is back to what it was before it began.
pub proof fn law_finished_wait_leaves_no_waiter(
    waiters: nat,
    tokens_at_end: nat,
    end: WaitEvent,
)
    requires
        end != WaitEvent::Begin,
    ensures
        wait_step(0, waiters, WaitEvent::Begin).2 == WaitAction::Block,
        wait_step(tokens_at_end, wait_step(0, waiters, WaitEvent::Begin).1, end).2
            != WaitAction::Block ==> wait_step(
            tokens_at_end,
            wait_step(0, waiters, WaitEvent::Begin).1,
            end,
        ).1 == waiters,
{
}

/// A signal to all never loses a pending signal: it adds one token per
/// waiter, at least one, to those already pending (saturating at
/// `usize::MAX`), and with at most one waiter it is a single signal.
pub proof fn law_signal_all_adds_to_pending(tokens: nat, waiters: nat)
    requires
        tokens <= usize::MAX,
    ensures
        signal_all_tokens(tokens, waiters) >= tokens,
        signal_all_tokens(tokens, waiters) <= usize::MAX,
        tokens + waiters <= usize::MAX && waiters >= 1 ==> signal_all_tokens(tokens, waiters)
            == tokens + waiters,
        tokens < usize::MAX && waiters == 0 ==> signal_all_tokens(tokens, waiters) == tokens + 1,
        waiters <= 1 ==> signal_all_tokens(tokens, waiters) == signal_tokens(tokens),
        signal_tokens(tokens) >= tokens,
        tokens < usize::MAX ==> signal_tokens(tokens) == tokens + 1,
{
}

} // verus!
