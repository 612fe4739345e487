//! The Viewer Session's policy, one receive outcome at a time: forward a
//! delivered message verbatim as one outbound frame; treat a gap as
//! tolerable and keep going (viewers favour freshness over completeness);
//! wait when nothing new has been published; stop only when the stream has
//! permanently ended. The embedding program owns the connection, performs
//! the sends, and releases the subscription on every exit path.

use vstd::prelude::*;
use crate::hub::RecvOutcome;

verus! {

/// What the session does next.
#[derive(Debug, Clone, PartialEq, Eq)]
pub enum SessionAct {
    /// Send these bytes as one outbound frame, then receive again.
    Forward(Vec<u8>),
    /// Messages were missed; not fatal: receive again at once.
    SkipGap,
    /// Nothing new yet: wait for the next message.
    Wait,
    /// The stream has ended: release the subscription and finish.
    Stop,
}

/// Maps one receive outcome to the session's next action. A delivered
/// message is forwarded unmodified; a gap and an idle hub keep the session
/// alive; only the end of the stream stops it.
pub fn session_step(o: RecvOutcome) -> (a: SessionAct)
    ensures
        match o {
            RecvOutcome::Delivered(m) => a == SessionAct::Forward(m),
            RecvOutcome::Lagged(_) => a == SessionAct::SkipGap,
            RecvOutcome::Pending => a == SessionAct::Wait,
            RecvOutcome::Ended => a == SessionAct::Stop,
        },
{
    match o {
        RecvOutcome::Delivered(m) => SessionAct::Forward(m),
        RecvOutcome::Lagged(_) => SessionAct::SkipGap,
        RecvOutcome::Pending => SessionAct::Wait,
        RecvOutcome::Ended => SessionAct::Stop,
    }
}

} // verus!
