//! The bridge's accept loop as a state machine: the loop tells the caller
//! which step to perform next, and the caller reports how it went, how many
//! sessions are running, and whether a shutdown was requested.

use vstd::prelude::*;

verus! {

/// Milliseconds the loop sleeps when no connection is pending.
pub const POLL_INTERVAL_MS: u64 = 10;

/// The step the loop asks for next.
#[derive(Debug, Clone, Copy, PartialEq, Eq, Structural)]
pub enum LoopAction {
    /// Accept a pending connection on the listening socket, if any.
    Accept,
    /// Connect the accepted application to the compositor and run its
    /// session.
    StartSession,
    /// Close the accepted connection: the bridge is at its client limit.
    Refuse,
    /// Sleep for `POLL_INTERVAL_MS`.
    Sleep,
    /// Leave the loop.
    Exit,
}

/// How the step the loop asked for went.
#[derive(Debug, Clone, Copy, PartialEq, Eq, Structural)]
pub enum StepOutcome {
    /// The step succeeded (for `Accept`: no connection was pending).
    Done,
    /// `Accept` returned a new connection.
    NewClient,
    /// The step failed.
    Failed,
}

/// Whether a new application may connect while `active` sessions run;
/// a limit of 0 means no limit.
pub open spec fn admits(max_clients: u32, active: nat) -> bool {
    max_clients == 0 || active < max_clients
}

/// The step after `a`, given its outcome, the number of running sessions and
/// whether a shutdown was requested.
pub open spec fn next_action(
    max_clients: u32,
    a: LoopAction,
    o: StepOutcome,
    active: nat,
    shutdown: bool,
) -> LoopAction {
    if shutdown {
        LoopAction::Exit
    } else {
        match a {
            LoopAction::Accept => if o == StepOutcome::NewClient {
                if admits(max_clients, active) {
                    LoopAction::StartSession
                } else {
                    LoopAction::Refuse
                }
            } else {
                LoopAction::Sleep
            },
            LoopAction::StartSession => LoopAction::Accept,
            LoopAction::Refuse => LoopAction::Accept,
            LoopAction::Sleep => LoopAction::Accept,
            LoopAction::Exit => LoopAction::Exit,
        }
    }
}

/// One report of the caller: outcome, running sessions, shutdown requested.
pub type Report = (StepOutcome, nat, bool);

/// The step reached from `a` after the reports `rs`.
pub open spec fn run_loop(max_clients: u32, a: LoopAction, rs: Seq<Report>) -> LoopAction
    decreases rs.len(),
{
    if rs.len() == 0 {
        a
    } else {
        run_loop(
            max_clients,
            next_action(max_clients, a, rs[0].0, rs[0].1, rs[0].2),
            rs.drop_first(),
        )
    }
}

/// Whether any of the reports requests a shutdown.
pub open spec fn shutdown_in(rs: Seq<Report>) -> bool {
    exists|i: int| 0 <= i < rs.len() && (#[trigger] rs[i]).2
}

/// The accept loop of the bridge.
pub struct EventLoop {
    /// Most applications served at once; 0 for no limit.
    pub max_clients: u32,
    /// The step to perform now.
    pub action: LoopAction,
}

impl EventLoop {
    /// A loop about to accept its first connection.
    pub fn new(max_clients: u32) -> (l: EventLoop)
        ensures
            l.max_clients == max_clients,
            l.action == LoopAction::Accept,
    {
        EventLoop { max_clients, action: LoopAction::Accept }
    }

    /// Moves on after the current step went as `outcome` says, with `active`
    /// sessions running: a requested shutdown ends the loop at once; a new
    /// connection starts a session, or is refused at the client limit; when
    /// nothing is pending, or accepting failed, the loop sleeps; after that,
    /// it accepts again.
    pub fn advance(&mut self, outcome: StepOutcome, active: usize, shutdown_requested: bool)
        ensures
            final(self).max_clients == old(self).max_clients,
            final(self).action == next_action(
                old(self).max_clients,
                old(self).action,
                outcome,
                active as nat,
                shutdown_requested,
            ),
            shutdown_requested ==> final(self).action == LoopAction::Exit,
    {
        if shutdown_requested {
            self.action = LoopAction::Exit;
            return;
        }
        let next = match self.action {
            LoopAction::Accept => match outcome {
                StepOutcome::NewClient => {
                    if self.max_clients == 0 || (active as u64) < (self.max_clients as u64) {
                        LoopAction::StartSession
                    } else {
                        LoopAction::Refuse
                    }
                },
                _ => LoopAction::Sleep,
            },
            LoopAction::StartSession => LoopAction::Accept,
            LoopAction::Refuse => LoopAction::Accept,
            LoopAction::Sleep => LoopAction::Accept,
            LoopAction::Exit => LoopAction::Exit,
        };
        self.action = next;
    }

    /// Whether the loop has ended.
    pub fn is_done(&self) -> (b: bool)
        ensures
            b == (self.action == LoopAction::Exit),
    {
        match self.action {
            LoopAction::Exit => true,
            _ => false,
        }
    }
}

/// Whether a session goes on: until either side closes its connection or a
/// shutdown is requested.
pub fn session_continues(client_open: bool, compositor_open: bool, shutdown_requested: bool) -> (b:
    bool)
    ensures
        b == (client_open && compositor_open && !shutdown_requested),
{
    client_open && compositor_open && !shutdown_requested
}

/// The loop ends exactly when a shutdown is requested: from a running loop,
/// the reports lead to `Exit` if and only if one of them requests a
/// shutdown; failed accepts, refused clients and idle rounds never end it.
pub proof fn lemma_exit_iff_shutdown(max_clients: u32, a: LoopAction, rs: Seq<Report>)
    requires
        a != LoopAction::Exit,
    ensures
        (run_loop(max_clients, a, rs) == LoopAction::Exit) <==> shutdown_in(rs),
    decreases rs.len(),
{
    if rs.len() > 0 {
        let n = next_action(max_clients, a, rs[0].0, rs[0].1, rs[0].2);
        if rs[0].2 {
            lemma_exit_stays(max_clients, rs.drop_first());
            assert(shutdown_in(rs)) by {
                assert(rs[0].2);
            }
        } else {
            lemma_exit_iff_shutdown(max_clients, n, rs.drop_first());
            assert(shutdown_in(rs) <==> shutdown_in(rs.drop_first())) by {
                if shutdown_in(rs) {
                    let i = choose|i: int| 0 <= i < rs.len() && (#[trigger] rs[i]).2;
                    assert(i > 0);
                    assert(rs.drop_first()[i - 1] == rs[i]);
                }
                if shutdown_in(rs.drop_first()) {
                    let i = choose|i: int| 0 <= i < rs.drop_first().len() && (#[trigger] rs.drop_first()[i]).2;
                    assert(rs[i + 1] == rs.drop_first()[i]);
                }
            }
        }
    } else {
        assert(!shutdown_in(rs));
    }
}

/// Once ended, the loop stays ended.
pub proof fn lemma_exit_stays(max_clients: u32, rs: Seq<Report>)
    ensures
        run_loop(max_clients, LoopAction::Exit, rs) == LoopAction::Exit,
    decreases rs.len(),
{
    if rs.len() > 0 {
        lemma_exit_stays(max_clients, rs.drop_first());
    }
}

/// Below the limit every new application gets a session; at the limit it is
/// refused.
pub proof fn lemma_client_limit(max_clients: u32, active: nat)
    ensures
        next_action(max_clients, LoopAction::Accept, StepOutcome::NewClient, active, false)
            == if max_clients == 0 || active < max_clients {
            LoopAction::StartSession
        } else {
            LoopAction::Refuse
        },
{
}

} // verus!
