//! The broadcast hub: one producer, any number of subscribers, bounded and
//! lossy. The hub keeps the most recent `cap` published messages in a
//! sliding window over a monotonically growing message history; a
//! subscription is a cursor into that history. Publishing never waits for
//! anyone: a subscriber whose cursor has fallen out of the window observes a
//! gap and is moved to the oldest retained message. Subscribing never
//! delivers anything published earlier.

use vstd::prelude::*;
use crate::lex;

verus! {

/// Mathematical state of the hub: its capacity, every message ever
/// published (in publish order), and whether the stream has ended.
pub ghost struct HubModel {
    pub cap: nat,
    pub msgs: Seq<Seq<u8>>,
    pub closed: bool,
}

/// Index of the oldest message still retained.
pub open spec fn hub_oldest(m: HubModel) -> nat {
    if m.msgs.len() <= m.cap {
        0
    } else {
        (m.msgs.len() - m.cap) as nat
    }
}

/// What publishing one message does to the hub state.
pub open spec fn publish_model(m: HubModel, x: Seq<u8>) -> HubModel {
    HubModel { cap: m.cap, msgs: m.msgs.push(x), closed: m.closed }
}

/// What publishing a whole sequence of messages does.
pub open spec fn publish_seq(m: HubModel, xs: Seq<Seq<u8>>) -> HubModel
    decreases xs.len(),
{
    if xs.len() == 0 {
        m
    } else {
        publish_seq(publish_model(m, xs.first()), xs.drop_first())
    }
}

/// What one receive attempt yields for a subscriber at cursor `cur`.
pub ghost enum RecvEvent {
    /// The message at the cursor; the cursor advances past it.
    Delivery(Seq<u8>),
    /// The cursor had fallen behind the retained window: this many messages
    /// were lost, and the cursor jumps to the oldest retained one.
    Gap(nat),
    /// Nothing published yet beyond the cursor; the stream is still open.
    Idle,
    /// Nothing left and the stream has permanently ended.
    End,
}

pub open spec fn recv_event(m: HubModel, cur: nat) -> RecvEvent {
    if cur < hub_oldest(m) {
        RecvEvent::Gap((hub_oldest(m) - cur) as nat)
    } else if cur < m.msgs.len() {
        RecvEvent::Delivery(m.msgs[cur as int])
    } else if m.closed {
        RecvEvent::End
    } else {
        RecvEvent::Idle
    }
}

pub open spec fn recv_cursor(m: HubModel, cur: nat) -> nat {
    if cur < hub_oldest(m) {
        hub_oldest(m)
    } else if cur < m.msgs.len() {
        cur + 1
    } else {
        cur
    }
}

/// Everything a subscriber at cursor `cur` can still drain, in order, if it
/// keeps receiving until the hub runs dry.
pub open spec fn drain(m: HubModel, cur: nat) -> Seq<Seq<u8>>
    decreases m.msgs.len() - cur,
{
    if cur >= m.msgs.len() {
        Seq::empty()
    } else if cur < hub_oldest(m) {
        drain(m, hub_oldest(m))
    } else {
        seq![m.msgs[cur as int]] + drain(m, (cur + 1) as nat)
    }
}

/// The in-process fan-out point. One `Hub` value models the shared state;
/// the embedding program guards it with whatever synchronization its
/// scheduler needs and hands each viewer session its own `Subscription`.
pub struct Hub {
    cap: usize,
    published: u64,
    buf: Vec<Vec<u8>>,
    closed: bool,
    hist: Ghost<Seq<Seq<u8>>>,
}

/// A subscriber's cursor into the hub's message history.
pub struct Subscription {
    pub cursor: u64,
}

/// What one receive attempt hands a viewer session.
#[derive(Debug, Clone, PartialEq, Eq)]
pub enum RecvOutcome {
    /// The next retained message, verbatim.
    Delivered(Vec<u8>),
    /// This many messages were dropped for this subscriber; not fatal.
    Lagged(u64),
    /// Nothing new yet; try again later.
    Pending,
    /// The stream has permanently ended.
    Ended,
}

impl View for RecvOutcome {
    type V = RecvEvent;

    open spec fn view(&self) -> RecvEvent {
        match self {
            RecvOutcome::Delivered(v) => RecvEvent::Delivery(v@),
            RecvOutcome::Lagged(n) => RecvEvent::Gap(*n as nat),
            RecvOutcome::Pending => RecvEvent::Idle,
            RecvOutcome::Ended => RecvEvent::End,
        }
    }
}

impl View for Hub {
    type V = HubModel;

    closed spec fn view(&self) -> HubModel {
        HubModel { cap: self.cap as nat, msgs: self.hist@, closed: self.closed }
    }
}

impl Hub {
    pub closed spec fn wf(&self) -> bool {
        &&& self.cap >= 1
        &&& self.hist@.len() == self.published as nat
        &&& self.buf@.len() + hub_oldest(self@) == self.hist@.len()
        &&& forall|k: int|
            0 <= k < self.buf@.len() ==> (#[trigger] self.buf@[k])@ == self.hist@[
                hub_oldest(self@) + k]
    }

    /// A fresh hub that retains at most `cap` messages per subscriber.
    pub fn with_capacity(cap: usize) -> (h: Hub)
        requires
            cap >= 1,
        ensures
            h.wf(),
            h@.cap == cap as nat,
            h@.msgs == Seq::<Seq<u8>>::empty(),
            !h@.closed,
    {
        Hub { cap, published: 0, buf: Vec::new(), closed: false, hist: Ghost(Seq::empty()) }
    }

    /// Publishes one message: it joins the history, and if the window was
    /// full the oldest retained message is dropped. Never waits for a
    /// subscriber, never fails with zero subscribers.
    pub fn publish(&mut self, msg: Vec<u8>)
        requires
            old(self).wf(),
            old(self)@.msgs.len() < u64::MAX,
        ensures
            final(self).wf(),
            final(self)@ == publish_model(old(self)@, msg@),
    {
        if self.buf.len() == self.cap {
            self.buf.remove(0);
        }
        let ghost m = msg@;
        self.buf.push(msg);
        self.published = self.published + 1;
        proof {
            self.hist@ = self.hist@.push(m);
        }
        proof {
            assert(self@.msgs == old(self)@.msgs.push(m));
            assert forall|k: int| 0 <= k < self.buf@.len() implies (#[trigger] self.buf@[k])@
                == self.hist@[hub_oldest(self@) + k] by {
                if k < self.buf@.len() - 1 {
                    if old(self).buf@.len() == old(self).cap {
                        assert(self.buf@[k] == old(self).buf@[k + 1]);
                    } else {
                        assert(self.buf@[k] == old(self).buf@[k]);
                    }
                }
            }
        }
    }

    /// Marks the stream as permanently ended.
    pub fn close(&mut self)
        requires
            old(self).wf(),
        ensures
            final(self).wf(),
            final(self)@ == (HubModel { closed: true, ..old(self)@ }),
    {
        self.closed = true;
    }

    /// How many messages have ever been published.
    pub fn total_published(&self) -> (n: u64)
        requires
            self.wf(),
        ensures
            n as nat == self@.msgs.len(),
    {
        self.published
    }

    /// A new subscription. Its cursor sits at the end of the history, so
    /// nothing published before this call is ever delivered to it.
    pub fn subscribe(&self) -> (sub: Subscription)
        requires
            self.wf(),
        ensures
            sub.cursor as nat == self@.msgs.len(),
    {
        Subscription { cursor: self.published }
    }

    /// One receive attempt for `sub`, exactly as `recv_event` and
    /// `recv_cursor` describe: a missed-window cursor yields the gap size
    /// and jumps forward, otherwise the message at the cursor is delivered,
    /// otherwise the caller learns whether the stream is merely idle or has
    /// ended.
    pub fn recv(&self, sub: &mut Subscription) -> (out: RecvOutcome)
        requires
            self.wf(),
            old(sub).cursor as nat <= self@.msgs.len(),
        ensures
            final(sub).cursor as nat == recv_cursor(self@, old(sub).cursor as nat),
            out@ == recv_event(self@, old(sub).cursor as nat),
    {
        let oldest: u64 = self.published - self.buf.len() as u64;
        if sub.cursor < oldest {
            let missed: u64 = oldest - sub.cursor;
            sub.cursor = oldest;
            RecvOutcome::Lagged(missed)
        } else if sub.cursor < self.published {
            let idx: usize = (sub.cursor - oldest) as usize;
            let m = lex::copy_bytes(&self.buf[idx]);
            sub.cursor = sub.cursor + 1;
            RecvOutcome::Delivered(m)
        } else if self.closed {
            RecvOutcome::Ended
        } else {
            RecvOutcome::Pending
        }
    }
}

// ------------------------------------------------------------- the laws

/// Publishing a sequence appends it to the history, in order, and touches
/// neither the capacity nor the closed flag. In particular the producer is
/// never blocked: the resulting state is defined whatever the subscribers
/// do.
pub proof fn lemma_publish_seq(m: HubModel, xs: Seq<Seq<u8>>)
    ensures
        publish_seq(m, xs).msgs == m.msgs + xs,
        publish_seq(m, xs).cap == m.cap,
        publish_seq(m, xs).closed == m.closed,
    decreases xs.len(),
{
    if xs.len() == 0 {
        assert(m.msgs + xs =~= m.msgs);
    } else {
        lemma_publish_seq(publish_model(m, xs.first()), xs.drop_first());
        assert(m.msgs.push(xs.first()) + xs.drop_first() =~= m.msgs + xs);
    }
}

/// A subscriber whose cursor is inside the retained window drains exactly
/// the history from its cursor on.
pub proof fn lemma_drain_suffix(m: HubModel, cur: nat)
    requires
        hub_oldest(m) <= cur <= m.msgs.len(),
    ensures
        drain(m, cur) == m.msgs.skip(cur as int),
    decreases m.msgs.len() - cur,
{
    if cur >= m.msgs.len() {
        assert(m.msgs.skip(cur as int) =~= Seq::<Seq<u8>>::empty());
    } else {
        lemma_drain_suffix(m, (cur + 1) as nat);
        assert(seq![m.msgs[cur as int]] + m.msgs.skip(cur as int + 1) =~= m.msgs.skip(
            cur as int));
    }
}

/// Whatever the cursor, what is drained is a suffix of the history starting
/// no earlier than the cursor: no message below the cursor — in particular
/// none published before the subscription was created — is ever delivered.
pub proof fn lemma_drain_no_replay(m: HubModel, cur: nat)
    requires
        cur <= m.msgs.len(),
    ensures
        cur < hub_oldest(m) ==> drain(m, cur) == m.msgs.skip(hub_oldest(m) as int),
        cur >= hub_oldest(m) ==> drain(m, cur) == m.msgs.skip(cur as int),
{
    if cur < hub_oldest(m) {
        lemma_drain_suffix(m, hub_oldest(m));
    } else {
        lemma_drain_suffix(m, cur);
    }
}

/// A subscriber created after message `x1` and before message `x2` never
/// receives `x1` and, reading promptly, receives exactly `x2`: the first
/// receive after `x2` is published delivers `x2` itself, and a full drain
/// yields `x2` and nothing else.
pub proof fn lemma_subscribe_between(m0: HubModel, x1: Seq<u8>, x2: Seq<u8>)
    requires
        m0.cap >= 1,
    ensures
        ({
            let after_first = publish_model(m0, x1);
            let cur = after_first.msgs.len();
            let after_second = publish_model(after_first, x2);
            &&& recv_event(after_second, cur) == RecvEvent::Delivery(x2)
            &&& recv_cursor(after_second, cur) == cur + 1
            &&& drain(after_second, cur) == seq![x2]
        }),
{
    let after_first = publish_model(m0, x1);
    let cur = after_first.msgs.len();
    let after_second = publish_model(after_first, x2);
    lemma_drain_suffix(after_second, cur);
    assert(after_second.msgs.skip(cur as int) =~= seq![x2]);
}

/// With buffer capacity `C`, publishing `C + 1` messages to a subscriber
/// that is not reading makes its next receive report a gap of exactly one
/// message, after which it drains exactly the most recent `C` messages, in
/// publish order. The publisher is never blocked: `publish_seq` is total.
pub proof fn lemma_overflow_gap(m: HubModel, xs: Seq<Seq<u8>>)
    requires
        m.cap >= 1,
        xs.len() == m.cap + 1,
    ensures
        ({
            let cur = m.msgs.len();
            let after = publish_seq(m, xs);
            &&& recv_event(after, cur) == RecvEvent::Gap(1)
            &&& recv_cursor(after, cur) == cur + 1
            &&& drain(after, recv_cursor(after, cur)) == xs.skip(1)
        }),
{
    let cur = m.msgs.len();
    let after = publish_seq(m, xs);
    lemma_publish_seq(m, xs);
    assert(hub_oldest(after) == cur + 1);
    lemma_drain_suffix(after, (cur + 1) as nat);
    assert(after.msgs.skip(cur as int + 1) =~= xs.skip(1));
}

} // verus!
