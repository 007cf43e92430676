//! The request side of the worker boundary.
//!
//! A learner runs on a worker that owns its state outright; another
//! thread asks for a point-in-time copy or replaces the state through a
//! small request channel.  The decision of what a request does to the
//! state is pure and lives here; the channels and the thread are the
//! caller's.

use vstd::prelude::*;

verus! {

/// What a peer may ask of the worker holding a learner state.
pub enum Req<S> {
    /// Send back a point-in-time copy of the current state.
    GetState,
    /// Replace the current state.
    SetState { state: S },
}

/// What one request does to the worker's state: `GetState` keeps it and
/// asks for a reply, `SetState` installs the carried state and does
/// not.  Returns the state to keep and whether to respond with a copy.
pub fn apply_req<S>(state: S, req: Req<S>) -> (r: (S, bool))
    ensures
        match req {
            Req::GetState => r.1 && r.0 == state,
            Req::SetState { state: ns } => !r.1 && r.0 == ns,
        },
{
    match req {
        Req::GetState => (state, true),
        Req::SetState { state: ns } => (ns, false),
    }
}

} // verus!
