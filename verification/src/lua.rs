//! Meta state of a Lua script execution.

use vstd::prelude::*;

verus! {

#[verifier::external_type_specification]
#[verifier::external_body]
pub struct ExLuaError(mlua::Error);

#[verifier::external_type_specification]
#[verifier::external_body]
pub struct ExInstant(std::time::Instant);

/// Calls `std::time::Instant::now`: the current instant of the monotonic clock. Nothing is
/// stated of it.
#[verifier::external_body]
fn now() -> std::time::Instant {
    std::time::Instant::now()
}

/// Calls `<mlua::Error as Clone>::clone`, which the crate derives for the enum: the copy
/// has the same variant and equal fields (shared `Arc`s point to the same errors), so it
/// is stated equal to the original.
#[verifier::external_body]
fn clone_error(e: &mlua::Error) -> (r: mlua::Error)
    ensures
        r == *e,
{
    e.clone()
}

/// The outcome of a Lua execution.
enum ExecState {
    Failed(mlua::Error),
    Succeeded,
}

/// Meta state of a Lua execution: its outcome and the instant it was recorded.
pub struct State {
    state: ExecState,
    time_since: std::time::Instant,
}

impl State {
    /// Whether the execution succeeded.
    pub closed spec fn succeeded(&self) -> bool {
        self.state is Succeeded
    }

    /// The error the execution failed with, if it failed.
    pub closed spec fn failure(&self) -> Option<mlua::Error> {
        match self.state {
            ExecState::Failed(e) => Some(e),
            ExecState::Succeeded => None,
        }
    }

    /// An execution succeeded exactly when it holds no error.
    pub proof fn lemma_succeeded_iff_no_failure(&self)
        ensures
            self.succeeded() <==> self.failure() is None,
    {
    }

    /// The instant the state was recorded.
    pub closed spec fn recorded_at(&self) -> std::time::Instant {
        self.time_since
    }

    /// A failed execution with `err`, recorded now.
    pub fn err(err: mlua::Error) -> (r: Self)
        ensures
            !r.succeeded(),
            r.failure() == Some(err),
    {
        State { state: ExecState::Failed(err), time_since: now() }
    }

    /// A successful execution, recorded now.
    pub fn ok() -> (r: Self)
        ensures
            r.succeeded(),
            r.failure() is None,
    {
        State { state: ExecState::Succeeded, time_since: now() }
    }

    /// The instant the execution was recorded.
    pub fn time_since(&self) -> (r: std::time::Instant)
        ensures
            r == self.recorded_at(),
    {
        self.time_since
    }

    /// A copy of the error, if the execution failed.
    pub fn error(&self) -> (r: Option<mlua::Error>)
        ensures
            r == self.failure(),
    {
        match &self.state {
            ExecState::Failed(e) => Some(clone_error(e)),
            ExecState::Succeeded => None,
        }
    }

    /// Whether the execution succeeded.
    pub fn is_ok(&self) -> (r: bool)
        ensures
            r == self.succeeded(),
            r == self.failure() is None,
    {
        match self.state {
            ExecState::Succeeded => true,
            ExecState::Failed(_) => false,
        }
    }
}

} // verus!
