//! The Ingest Loop's decisions, one inbound transport message at a time:
//! the raw payload always reaches the Broadcast Hub, verbatim and in
//! arrival order; decoding is attempted afterwards, a failure is dropped
//! silently, a success yields the record handed to the Persistence Writer;
//! and a failed store attempt is followed by a bounded pause, never by a
//! retry and never by the end of the loop. The embedding program supplies
//! the transport, the store and the pauses; everything it must decide is
//! decided here.

use vstd::prelude::*;
use crate::codec;
use crate::codec::decode_spec;
use crate::hub::{Hub, HubModel, RecvEvent, publish_model, publish_seq, recv_event};
use crate::lex;
use crate::models::{PayloadModel, SensorPayload};

verus! {

/// Result of the store's single attempt to append one record.
#[derive(Debug, Clone, PartialEq, Eq)]
pub enum StoreOutcome {
    Stored,
    Failed,
}

/// Milliseconds the loop pauses after a failed store attempt, so an
/// unavailable store is not hammered in a hot loop.
pub const STORE_RETRY_DELAY_MS: u64 = 200;

/// One step of the Ingest Loop, up to the persistence attempt: the raw
/// payload joins the hub's history whatever it holds, and the decoded
/// record comes back exactly when the payload decodes. No record is ever
/// produced from a malformed payload, and a malformed payload is still
/// broadcast.
pub fn ingest_step(h: &mut Hub, payload: &Vec<u8>) -> (rec: Option<SensorPayload>)
    requires
        old(h).wf(),
        old(h)@.msgs.len() < u64::MAX,
    ensures
        final(h).wf(),
        final(h)@ == publish_model(old(h)@, payload@),
        match rec {
            Some(r) => decode_spec(payload@) == Some(r@) && r.wf(),
            None => decode_spec(payload@) is None,
        },
{
    let msg = lex::copy_bytes(payload);
    h.publish(msg);
    match codec::decode(payload) {
        Ok(r) => Some(r),
        Err(_) => None,
    }
}

/// The loop's reaction to the store's single attempt: nothing after a
/// success, a bounded pause after a failure — logged by the caller, never
/// retried for the same record, never fatal to the loop.
pub fn after_persist(outcome: &StoreOutcome) -> (pause_ms: u64)
    ensures
        *outcome is Failed ==> pause_ms == STORE_RETRY_DELAY_MS,
        *outcome is Stored ==> pause_ms == 0,
{
    match outcome {
        StoreOutcome::Stored => 0,
        StoreOutcome::Failed => STORE_RETRY_DELAY_MS,
    }
}

/// Milliseconds the loop waits before reconnecting a lost transport
/// session.
pub const RECONNECT_DELAY_MS: u64 = 2000;

/// Decision after the transport session ends or a connection attempt
/// fails: the connection is always tried again, after a fixed backoff, and
/// the topic subscription is established anew on the fresh session.
/// Transport loss never terminates the process.
#[derive(Debug, Clone, PartialEq, Eq)]
pub struct Reconnect {
    pub delay_ms: u64,
    pub resubscribe: bool,
}

/// The loop's reaction to transport loss, fixed whatever went wrong:
/// retry after `RECONNECT_DELAY_MS`, resubscribing on the new session.
pub fn on_transport_loss() -> (r: Reconnect)
    ensures
        r.delay_ms == RECONNECT_DELAY_MS,
        r.resubscribe,
{
    Reconnect { delay_ms: RECONNECT_DELAY_MS, resubscribe: true }
}

/// The records persisted over a run: those payloads that decode and whose
/// single store attempt succeeded, in arrival order. A failed attempt
/// removes only its own record, nothing after it.
pub open spec fn persisted_after(ps: Seq<Seq<u8>>, oks: Seq<bool>) -> Seq<PayloadModel>
    decreases ps.len(),
{
    if ps.len() == 0 {
        Seq::empty()
    } else {
        let rest = persisted_after(ps.drop_first(), oks.drop_first());
        match decode_spec(ps.first()) {
            Some(r) => if oks.first() {
                seq![r] + rest
            } else {
                rest
            },
            None => rest,
        }
    }
}

/// A malformed payload is never persisted — whatever the store would have
/// answered — yet it still reaches the hub, and a subscriber that was keeping
/// up receives exactly those raw bytes next.
#[verifier::rlimit(100)]
pub proof fn lemma_malformed_broadcast_only(h: HubModel, p: Seq<u8>, ok: bool)
    requires
        decode_spec(p) is None,
    ensures
        persisted_after(seq![p], seq![ok]) == Seq::<PayloadModel>::empty(),
        publish_model(h, p).msgs == h.msgs.push(p),
        h.cap >= 1 ==> recv_event(publish_model(h, p), h.msgs.len()) == RecvEvent::Delivery(p),
{
    assert(seq![p].drop_first() =~= Seq::<Seq<u8>>::empty());
    assert(seq![ok].drop_first() =~= Seq::<bool>::empty());
    assert(persisted_after(Seq::<Seq<u8>>::empty(), Seq::<bool>::empty())
        =~= Seq::<PayloadModel>::empty());
    assert(persisted_after(seq![p], seq![ok]) =~= Seq::<PayloadModel>::empty());
}

/// Over a whole run, every payload is broadcast, in arrival order,
/// whatever the store answered for any of them: the broadcast path does not
/// depend on the persistence path.
pub proof fn lemma_run_ingest(h: HubModel, ps: Seq<Seq<u8>>, oks: Seq<bool>)
    ensures
        publish_seq(h, ps).msgs == h.msgs + ps,
        publish_seq(h, ps).cap == h.cap,
        publish_seq(h, ps).closed == h.closed,
{
    crate::hub::lemma_publish_seq(h, ps);
}

/// A store failure for one record does not prevent the next record from
/// being persisted: with two decodable payloads, a failed attempt for the
/// first and a successful one for the second, exactly the second record is
/// persisted.
#[verifier::rlimit(100)]
pub proof fn lemma_store_failure_isolated(p1: Seq<u8>, p2: Seq<u8>, r1: PayloadModel, r2: PayloadModel)
    requires
        decode_spec(p1) == Some(r1),
        decode_spec(p2) == Some(r2),
    ensures
        persisted_after(seq![p1, p2], seq![false, true]) == seq![r2],
{
    let ps = seq![p1, p2];
    let oks = seq![false, true];
    assert(ps.drop_first() =~= seq![p2]);
    assert(oks.drop_first() =~= seq![true]);
    assert(seq![p2].drop_first() =~= Seq::<Seq<u8>>::empty());
    assert(seq![true].drop_first() =~= Seq::<bool>::empty());
    assert(persisted_after(Seq::<Seq<u8>>::empty(), Seq::<bool>::empty())
        =~= Seq::<PayloadModel>::empty());
    assert(seq![r2] + Seq::<PayloadModel>::empty() =~= seq![r2]);
    assert(persisted_after(seq![p2], seq![true]) =~= seq![r2]);
}

/// A run whose store attempts all fail persists nothing, while every
/// payload is still broadcast in order; the loop itself never ends on that
/// account.
pub proof fn lemma_store_outage(ps: Seq<Seq<u8>>, oks: Seq<bool>)
    requires
        forall|k: int| 0 <= k < oks.len() ==> !oks[k],
        ps.len() == oks.len(),
    ensures
        persisted_after(ps, oks) == Seq::<PayloadModel>::empty(),
    decreases ps.len(),
{
    if ps.len() > 0 {
        assert(!oks.first());
        assert(forall|k: int|
            0 <= k < oks.drop_first().len() ==> !(#[trigger] oks.drop_first()[k]));
        lemma_store_outage(ps.drop_first(), oks.drop_first());
    }
}

} // verus!
