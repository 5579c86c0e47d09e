use vstd::prelude::*;

verus! {

/// Why a brokered session failed before or around the wrapped action.
#[derive(Clone, Copy, PartialEq, Eq, Structural, Debug)]
pub enum BrokerError {
    /// The login exchange was refused or never answered; the action never
    /// ran.
    AuthenticationFailed,
    /// The network failed while the action ran.
    NetworkError,
}

/// Where a brokered session stands.
#[derive(Clone, Copy, PartialEq, Eq, Structural, Debug)]
pub enum BrokerPhase {
    /// No session yet: the login exchange is owed.
    Idle,
    /// Logged in: the wrapped action runs now, exactly once.
    Active,
    /// The action has finished: the logout attempt is owed, whatever the
    /// action returned.
    Closing,
    /// Nothing more to do; the captured outcome may be taken.
    Finished,
}

/// What the driver of a brokered session must do next.
#[derive(Clone, Copy, PartialEq, Eq, Structural, Debug)]
pub enum BrokerStep {
    DoLogin,
    RunAction,
    DoLogout,
    Done,
}

/// The session bracket: acquire, use exactly once, always release.
///
/// The broker is the decision core of `with_session`: the surrounding driver
/// performs the outside work (login exchange, the action's own calls, the
/// logout) and reports each outcome back. The broker dictates the order,
/// guarantees that the action never runs without a login, that exactly one
/// logout attempt follows the action whatever it returned, and that the
/// logout's own outcome never displaces the action's.
pub struct SessionBroker<T> {
    phase: BrokerPhase,
    login_succeeded: bool,
    captured: Option<Result<T, BrokerError>>,
    logout_attempts: u64,
}

impl<T> SessionBroker<T> {
    pub closed spec fn phase(self) -> BrokerPhase {
        self.phase
    }

    pub closed spec fn login_ok(self) -> bool {
        self.login_succeeded
    }

    pub closed spec fn captured_result(self) -> Option<Result<T, BrokerError>> {
        self.captured
    }

    pub closed spec fn logout_attempts(self) -> nat {
        self.logout_attempts as nat
    }

    /// The bracket discipline, as an invariant every run satisfies: before
    /// the action finishes nothing is captured and no logout has happened; a
    /// failed login finishes the run at once, with no logout and the
    /// authentication failure captured; a finished run after a successful
    /// login has attempted the logout exactly once.
    pub open spec fn wf(self) -> bool {
        match self.phase() {
            BrokerPhase::Idle => !self.login_ok() && self.captured_result() is None
                && self.logout_attempts() == 0,
            BrokerPhase::Active => self.login_ok() && self.captured_result() is None
                && self.logout_attempts() == 0,
            BrokerPhase::Closing => self.login_ok() && self.captured_result() is Some
                && self.logout_attempts() == 0,
            BrokerPhase::Finished => self.captured_result() is Some && (if self.login_ok() {
                self.logout_attempts() == 1
            } else {
                self.logout_attempts() == 0 && self.captured_result() == Some(
                    Err::<T, BrokerError>(BrokerError::AuthenticationFailed),
                )
            }),
        }
    }

    pub fn new() -> (b: Self)
        ensures
            b.wf(),
            b.phase() is Idle,
    {
        SessionBroker { phase: BrokerPhase::Idle, login_succeeded: false, captured: None, logout_attempts: 0 }
    }

    /// What the driver must do next.
    pub fn next_step(&self) -> (s: BrokerStep)
        ensures
            s == match self.phase() {
                BrokerPhase::Idle => BrokerStep::DoLogin,
                BrokerPhase::Active => BrokerStep::RunAction,
                BrokerPhase::Closing => BrokerStep::DoLogout,
                BrokerPhase::Finished => BrokerStep::Done,
            },
    {
        match self.phase {
            BrokerPhase::Idle => BrokerStep::DoLogin,
            BrokerPhase::Active => BrokerStep::RunAction,
            BrokerPhase::Closing => BrokerStep::DoLogout,
            BrokerPhase::Finished => BrokerStep::Done,
        }
    }

    /// Reports how the login exchange went. On failure the run is over: the
    /// action never runs and no logout is attempted, since no session exists.
    pub fn login_result(&mut self, ok: bool)
        requires
            old(self).wf(),
            old(self).phase() is Idle,
        ensures
            final(self).wf(),
            ok ==> final(self).phase() is Active,
            !ok ==> final(self).phase() is Finished && final(self).captured_result() == Some(
                Err::<T, BrokerError>(BrokerError::AuthenticationFailed),
            ),
            final(self).login_ok() == ok,
            final(self).logout_attempts() == 0,
    {
        if ok {
            self.phase = BrokerPhase::Active;
            self.login_succeeded = true;
        } else {
            self.phase = BrokerPhase::Finished;
            self.captured = Some(Err(BrokerError::AuthenticationFailed));
        }
    }

    /// Captures what the wrapped action returned — success or error alike —
    /// without yet handing it back: the logout attempt is owed first.
    pub fn action_result(&mut self, result: Result<T, BrokerError>)
        requires
            old(self).wf(),
            old(self).phase() is Active,
        ensures
            final(self).wf(),
            final(self).phase() is Closing,
            final(self).captured_result() == Some(result),
            final(self).login_ok(),
            final(self).logout_attempts() == 0,
    {
        self.phase = BrokerPhase::Closing;
        self.captured = Some(result);
    }

    /// Records the one logout attempt. Its outcome is noted nowhere: a logout
    /// failure is logged by the driver and never overrides the captured
    /// result.
    pub fn logout_attempted(&mut self, ok: bool)
        requires
            old(self).wf(),
            old(self).phase() is Closing,
        ensures
            final(self).wf(),
            final(self).phase() is Finished,
            final(self).captured_result() == old(self).captured_result(),
            final(self).login_ok(),
            final(self).logout_attempts() == 1,
    {
        let _ = ok;
        self.phase = BrokerPhase::Finished;
        self.logout_attempts = 1;
    }

    /// Hands back the wrapped action's own outcome, only once the run is
    /// over.
    pub fn take_result(self) -> (r: Result<T, BrokerError>)
        requires
            self.wf(),
            self.phase() is Finished,
        ensures
            Some(r) == self.captured_result(),
    {
        match self.captured {
            Some(r) => r,
            None => unreached(),
        }
    }
}

/// Session bracket: in every finished run, a logout was attempted exactly
/// once if the login succeeded — whether the action returned a value or an
/// error — and never if the login failed (no session existed, and the
/// captured outcome is the authentication failure itself).
pub proof fn lemma_session_bracket<T>(b: SessionBroker<T>)
    requires
        b.wf(),
        b.phase() is Finished,
    ensures
        b.login_ok() ==> b.logout_attempts() == 1,
        !b.login_ok() ==> b.logout_attempts() == 0 && b.captured_result() == Some(
            Err::<T, BrokerError>(BrokerError::AuthenticationFailed),
        ),
{
}

} // verus!
