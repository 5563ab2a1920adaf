//! The message-queue core: strict, gapless ingress admission of signed
//! off-chain messages, and dispatch of outbound messages to subscribers.
//!
//! Each distinct sender owns a monotonically increasing sequence counter,
//! starting at 0.  An incoming signed message is admitted only when its
//! sender is off-chain, its destination topic is valid, its sequence
//! number equals the sender's expected next value, and its signature
//! verifies over the canonical encoding of exactly the message and the
//! sequence; the counter then advances by one.  Any rejection leaves
//! every counter untouched: out-of-order and replayed messages are
//! permanently refused, giving exactly-once admission per sender.

use vstd::prelude::*;

use crate::alist::{lemma_lookup_at, lemma_lookup_none, lemma_lookup_push, lemma_lookup_update,
    lookup};
use crate::channel::{spec_sig_verifies, verify_signature, SignatureType};
use crate::codec::enc_signed_data;
use crate::types::{BindTopic, Message, MessageOrigin, MessageView, OriginView, SignedMessage,
    SignedMessageView, spec_topic_offchain, spec_topic_valid};

verus! {

/// Why an incoming signed message was refused.
#[derive(Clone, Copy, PartialEq, Eq, Structural, Debug)]
pub enum MqError {
    /// The sender is not an off-chain origin.
    BadSender,
    /// The destination topic is invalid.
    BadDestination,
    /// The sequence number is not the sender's expected next value, or the
    /// sender's stream is exhausted.
    BadSequence,
    /// The signature does not verify over the message and sequence.
    BadSignature,
}

/// The expected next sequence number of a sender: the stored counter, or 0
/// for a sender never seen.
pub open spec fn spec_expected(s: Seq<(OriginView, u64)>, o: OriginView) -> u64 {
    match lookup(s, o) {
        Some(v) => v,
        None => 0u64,
    }
}

/// A sender never seen expects sequence number 0.
pub proof fn lemma_fresh_sender_expects_zero(o: OriginView)
    ensures
        spec_expected(Seq::<(OriginView, u64)>::empty(), o) == 0,
{
}

/// Whether the signature of a signed message verifies: the sender must be
/// a worker, whose embedded ECDSA public key checks the signature over
/// the canonical encoding of exactly the message and the sequence.  No
/// other origin declares a verifying key, so no other sender passes.
pub open spec fn spec_signature_ok(m: SignedMessageView) -> bool {
    match m.message.sender {
        OriginView::Worker(pk) => spec_sig_verifies(
            SignatureType::Ecdsa,
            m.signature,
            enc_signed_data(m.message, m.sequence),
            pk,
        ),
        _ => false,
    }
}

/// Checks the signature of a signed message against the embedded key of
/// its worker sender.
pub fn check_signature(signed: &SignedMessage) -> (r: bool)
    ensures
        r == spec_signature_ok(signed@),
{
    let data = signed.data_be_signed();
    match &signed.message.sender {
        MessageOrigin::Worker(pk) => verify_signature(
            SignatureType::Ecdsa,
            &signed.signature,
            &data,
            pk,
        ),
        _ => false,
    }
}

/// The per-sender expected-sequence counters of the ingress validator.
pub struct IngressState {
    entries: Vec<(MessageOrigin, u64)>,
}

impl View for IngressState {
    type V = Seq<(OriginView, u64)>;

    closed spec fn view(&self) -> Seq<(OriginView, u64)> {
        Seq::new(self.entries@.len(), |i: int| (self.entries@[i].0@, self.entries@[i].1))
    }
}

impl IngressState {
    /// A fresh validator: no sender has a stored counter, so every sender
    /// expects sequence number 0.
    pub fn new() -> (r: Self)
        ensures
            r@ == Seq::<(OriginView, u64)>::empty(),
    {
        let r = IngressState { entries: Vec::new() };
        proof {
            assert(r@ =~= Seq::<(OriginView, u64)>::empty());
        }
        r
    }

    /// The index of the first counter entry of `o`, if any.
    fn find(&self, o: &MessageOrigin) -> (r: Option<usize>)
        ensures
            match r {
                Some(i) => i < self@.len() && self@[i as int].0 == o@ && (forall|j: int|
                    0 <= j < i ==> self@[j].0 != o@),
                None => forall|j: int| 0 <= j < self@.len() ==> self@[j].0 != o@,
            },
    {
        let n: usize = self.entries.len();
        let mut i: usize = 0;
        while i < n
            invariant
                n == self.entries@.len(),
                self@.len() == n,
                0 <= i <= n,
                forall|j: int| 0 <= j < i ==> self@[j].0 != o@,
            decreases n - i,
        {
            if self.entries[i].0.origin_eq(o) {
                assert(self@[i as int].0 == o@);
                return Some(i);
            }
            assert(self@[i as int].0 != o@);
            i += 1;
        }
        None
    }

    /// The expected next sequence number of `o`: the stored counter, or 0
    /// if none is stored.
    pub fn get_expected_sequence(&self, o: &MessageOrigin) -> (r: u64)
        ensures
            r == spec_expected(self@, o@),
    {
        match self.find(o) {
            Some(i) => {
                proof {
                    lemma_lookup_at(self@, o@, i as int);
                }
                self.entries[i].1
            },
            None => {
                proof {
                    lemma_lookup_none(self@, o@);
                }
                0
            },
        }
    }

    /// Stores `v` as the expected next sequence number of `o`, leaving
    /// every other sender's counter unchanged.
    pub fn set_expected_sequence(&mut self, o: &MessageOrigin, v: u64)
        ensures
            spec_expected(final(self)@, o@) == v,
            forall|k: OriginView|
                k != o@ ==> #[trigger] spec_expected(final(self)@, k) == spec_expected(
                    old(self)@,
                    k,
                ),
    {
        match self.find(o) {
            Some(i) => {
                let key = self.entries[i].0.duplicate();
                self.entries[i] = (key, v);
                proof {
                    assert(self@ =~= old(self)@.update(i as int, (old(self)@[i as int].0, v)));
                    assert forall|k: OriginView| true implies #[trigger] lookup(self@, k) == (
                    if k == o@ {
                        Some(v)
                    } else {
                        lookup(old(self)@, k)
                    }) by {
                        lemma_lookup_update(old(self)@, i as int, v, k);
                    }
                }
            },
            None => {
                proof {
                    lemma_lookup_none(old(self)@, o@);
                }
                let key = o.duplicate();
                self.entries.push((key, v));
                proof {
                    assert(self@ =~= old(self)@.push((o@, v)));
                    assert forall|k: OriginView| true implies #[trigger] lookup(self@, k) == (
                    if k == o@ {
                        Some(v)
                    } else {
                        lookup(old(self)@, k)
                    }) by {
                        lemma_lookup_push(old(self)@, (o@, v), k);
                        if k != o@ && lookup(old(self)@, k) is None {
                        }
                    }
                }
            },
        }
    }

    /// Admits or refuses a signed message, in the order the checks are
    /// owed: the sender must be off-chain (`BadSender`), the destination
    /// valid (`BadDestination`), the sequence exactly the sender's
    /// expected next value (`BadSequence`, which also refuses the final,
    /// exhausted value of a stream), and the signature must verify over
    /// the canonical encoding of the message and sequence
    /// (`BadSignature`).  Only an admitted message advances its sender's
    /// counter, by exactly one; every refusal leaves all counters as they
    /// were.
    pub fn accept(&mut self, signed: &SignedMessage) -> (r: Result<(), MqError>)
        ensures
            ({
                let m = signed@;
                let sender = m.message.sender;
                let was = spec_expected(old(self)@, sender);
                match r {
                    Ok(()) => sender.spec_is_offchain() && spec_topic_valid(m.message.destination)
                        && m.sequence == was && m.sequence < u64::MAX && spec_signature_ok(m)
                        && spec_expected(final(self)@, sender) == m.sequence + 1 && (forall|
                        k: OriginView,
                    |
                        k != sender ==> #[trigger] spec_expected(final(self)@, k) == spec_expected(
                            old(self)@,
                            k,
                        )),
                    Err(MqError::BadSender) => !sender.spec_is_offchain() && final(self)@ == old(
                        self,
                    )@,
                    Err(MqError::BadDestination) => sender.spec_is_offchain()
                        && !spec_topic_valid(m.message.destination) && final(self)@ == old(self)@,
                    Err(MqError::BadSequence) => sender.spec_is_offchain() && spec_topic_valid(
                        m.message.destination,
                    ) && (m.sequence != was || m.sequence == u64::MAX) && final(self)@ == old(
                        self,
                    )@,
                    Err(MqError::BadSignature) => sender.spec_is_offchain() && spec_topic_valid(
                        m.message.destination,
                    ) && m.sequence == was && m.sequence < u64::MAX && !spec_signature_ok(m)
                        && final(self)@ == old(self)@,
                }
            }),
    {
        if !signed.message.sender.is_offchain() {
            return Err(MqError::BadSender);
        }
        if !signed.message.destination.is_valid() {
            return Err(MqError::BadDestination);
        }
        let expected = self.get_expected_sequence(&signed.message.sender);
        if signed.sequence != expected {
            return Err(MqError::BadSequence);
        }
        if signed.sequence == u64::MAX {
            return Err(MqError::BadSequence);
        }
        if !check_signature(signed) {
            return Err(MqError::BadSignature);
        }
        self.set_expected_sequence(&signed.message.sender, expected + 1);
        Ok(())
    }
}

/// Whether dispatching a message pushes an outbound event for off-chain
/// subscribers: exactly when its destination topic is off-chain visible.
pub fn should_push_event(message: &Message) -> (r: bool)
    ensures
        r == spec_topic_offchain(message@.destination),
{
    message.destination.is_offchain()
}

/// The off-chain visible messages of a batch, in order.
pub open spec fn offchain_filter(s: Seq<MessageView>) -> Seq<MessageView>
    decreases s.len(),
{
    if s.len() == 0 {
        Seq::empty()
    } else if spec_topic_offchain(s[0].destination) {
        seq![s[0]] + offchain_filter(s.skip(1))
    } else {
        offchain_filter(s.skip(1))
    }
}

/// Appending a message to a batch appends its event, if it has one.
pub proof fn lemma_offchain_filter_push(s: Seq<MessageView>, m: MessageView)
    ensures
        offchain_filter(s.push(m)) == (if spec_topic_offchain(m.destination) {
            offchain_filter(s).push(m)
        } else {
            offchain_filter(s)
        }),
    decreases s.len(),
{
    if s.len() == 0 {
        assert(s.push(m)[0] == m);
        assert(s.push(m).skip(1) =~= Seq::<MessageView>::empty());
        assert(offchain_filter(Seq::<MessageView>::empty()) == Seq::<MessageView>::empty());
        assert(offchain_filter(s) == Seq::<MessageView>::empty());
        if spec_topic_offchain(m.destination) {
            assert(offchain_filter(s.push(m)) == seq![m] + offchain_filter(s.push(m).skip(1)));
            assert(seq![m] + Seq::<MessageView>::empty() =~= offchain_filter(s).push(m));
        } else {
            assert(offchain_filter(s.push(m)) == offchain_filter(s.push(m).skip(1)));
        }
    } else {
        assert(s.push(m)[0] == s[0]);
        assert(s.push(m).skip(1) =~= s.skip(1).push(m));
        lemma_offchain_filter_push(s.skip(1), m);
        if spec_topic_offchain(s[0].destination) {
            assert(offchain_filter(s.push(m)) == seq![s[0]] + offchain_filter(s.skip(1).push(m)));
            assert(offchain_filter(s) == seq![s[0]] + offchain_filter(s.skip(1)));
            if spec_topic_offchain(m.destination) {
                assert(seq![s[0]] + offchain_filter(s.skip(1)).push(m) =~= (seq![s[0]]
                    + offchain_filter(s.skip(1))).push(m));
            }
        } else {
            assert(offchain_filter(s.push(m)) == offchain_filter(s.skip(1).push(m)));
            assert(offchain_filter(s) == offchain_filter(s.skip(1)));
        }
    }
}

/// The mathematical value of a message queue.
pub struct QueueView {
    /// Events already emitted to off-chain subscribers.
    pub events: Seq<MessageView>,
    /// Messages queued to be dispatched at the start of the next block.
    pub queued: Seq<MessageView>,
}

/// The outbound side of the message queue: events emitted for off-chain
/// subscribers, and messages queued for dispatch at the next block.
pub struct OutboundQueue {
    events: Vec<Message>,
    queued: Vec<Message>,
}

impl View for OutboundQueue {
    type V = QueueView;

    closed spec fn view(&self) -> QueueView {
        QueueView {
            events: Seq::new(self.events@.len(), |i: int| self.events@[i]@),
            queued: Seq::new(self.queued@.len(), |i: int| self.queued@[i]@),
        }
    }
}

impl OutboundQueue {
    /// A fresh queue: nothing emitted, nothing queued.
    pub fn new() -> (r: Self)
        ensures
            r@.events == Seq::<MessageView>::empty(),
            r@.queued == Seq::<MessageView>::empty(),
    {
        let r = OutboundQueue { events: Vec::new(), queued: Vec::new() };
        proof {
            assert(r@.events =~= Seq::<MessageView>::empty());
            assert(r@.queued =~= Seq::<MessageView>::empty());
        }
        r
    }

    /// Dispatches a validated message: subscribers are notified, and an
    /// outbound event is emitted exactly when the destination topic is
    /// off-chain visible.
    pub fn dispatch_message(&mut self, message: Message)
        ensures
            final(self)@.events == (if spec_topic_offchain(message@.destination) {
                old(self)@.events.push(message@)
            } else {
                old(self)@.events
            }),
            final(self)@.queued == old(self)@.queued,
    {
        if should_push_event(&message) {
            self.events.push(message);
            proof {
                assert(self@.events =~= old(self)@.events.push(message@));
                assert(self@.queued =~= old(self)@.queued);
            }
        }
    }

    /// Builds a message to the fixed topic of its payload type and
    /// dispatches it at once.
    pub fn push_bound_message<M: BindTopic>(&mut self, sender: MessageOrigin, payload: Vec<u8>)
        ensures
            ({
                let m = MessageView { sender: sender@, destination: M::spec_topic(), payload: payload@ };
                &&& final(self)@.events == (if spec_topic_offchain(M::spec_topic()) {
                    old(self)@.events.push(m)
                } else {
                    old(self)@.events
                })
                &&& final(self)@.queued == old(self)@.queued
            }),
    {
        let message = Message::new(sender, M::topic(), payload);
        self.dispatch_message(message);
    }

    /// Queues a message for dispatch at the start of the next block.
    pub fn enqueue(&mut self, message: Message)
        ensures
            final(self)@.queued == old(self)@.queued.push(message@),
            final(self)@.events == old(self)@.events,
    {
        self.queued.push(message);
        proof {
            assert(self@.queued =~= old(self)@.queued.push(message@));
            assert(self@.events =~= old(self)@.events);
        }
    }

    /// Builds a message to the fixed topic of its payload type and queues
    /// it for dispatch at the start of the next block.
    pub fn queue_bound_message<M: BindTopic>(&mut self, sender: MessageOrigin, payload: Vec<u8>)
        ensures
            final(self)@.queued == old(self)@.queued.push(
                MessageView { sender: sender@, destination: M::spec_topic(), payload: payload@ },
            ),
            final(self)@.events == old(self)@.events,
    {
        let message = Message::new(sender, M::topic(), payload);
        self.queued.push(message);
        proof {
            assert(self@.queued =~= old(self)@.queued.push(
                MessageView { sender: sender@, destination: M::spec_topic(), payload: payload@ },
            ));
            assert(self@.events =~= old(self)@.events);
        }
    }

    /// Block initialization: dispatches every message queued during the
    /// previous block, in order, emptying the queue.  The events grow by
    /// exactly the off-chain visible ones.
    pub fn on_initialize(&mut self)
        ensures
            final(self)@.queued == Seq::<MessageView>::empty(),
            final(self)@.events == old(self)@.events + offchain_filter(old(self)@.queued),
    {
        let mut pending: Vec<Message> = Vec::new();
        core::mem::swap(&mut pending, &mut self.queued);
        proof {
            assert(self@.queued =~= Seq::<MessageView>::empty());
            assert(Seq::new(pending@.len(), |i: int| pending@[i]@) =~= old(self)@.queued);
        }
        let ghost all = Seq::new(pending@.len(), |i: int| pending@[i]@);
        let n: usize = pending.len();
        let mut i: usize = 0;
        while i < n
            invariant
                n == pending@.len(),
                all == Seq::new(pending@.len(), |j: int| pending@[j]@),
                0 <= i <= n,
                self@.queued == Seq::<MessageView>::empty(),
                self@.events == old(self)@.events + offchain_filter(all.subrange(0, i as int)),
            decreases n - i,
        {
            let m = pending[i].duplicate();
            assert(m@ == all[i as int]);
            proof {
                assert(all.subrange(0, i + 1) =~= all.subrange(0, i as int).push(all[i as int]));
                lemma_offchain_filter_push(all.subrange(0, i as int), all[i as int]);
            }
            self.dispatch_message(m);
            i += 1;
        }
        proof {
            assert(all.subrange(0, n as int) =~= all);
        }
    }

    /// How many events have been emitted.
    pub fn event_count(&self) -> (r: usize)
        ensures
            r == self@.events.len(),
    {
        self.events.len()
    }

    /// The `i`-th emitted event.
    pub fn event_at(&self, i: usize) -> (r: &Message)
        requires
            i < self@.events.len(),
        ensures
            r@ == self@.events[i as int],
    {
        &self.events[i]
    }

    /// How many messages wait for the next block.
    pub fn queued_count(&self) -> (r: usize)
        ensures
            r == self@.queued.len(),
    {
        self.queued.len()
    }
}

/// The whole message-queue state: ingress counters and the outbound side.
pub struct MessageQueue {
    /// The per-sender ingress counters.
    pub ingress: IngressState,
    /// The outbound events and the next-block queue.
    pub outbound: OutboundQueue,
}

impl MessageQueue {
    /// A fresh queue.
    pub fn new() -> (r: Self)
        ensures
            r.ingress@ == Seq::<(OriginView, u64)>::empty(),
            r.outbound@.events == Seq::<MessageView>::empty(),
            r.outbound@.queued == Seq::<MessageView>::empty(),
    {
        MessageQueue { ingress: IngressState::new(), outbound: OutboundQueue::new() }
    }

    /// The messaging door for an end user: wraps a signed account's call
    /// as a message from its account origin and dispatches it at once.
    pub fn push_message(&mut self, account: Vec<u8>, destination: Vec<u8>, payload: Vec<u8>)
        ensures
            ({
                let m = MessageView {
                    sender: OriginView::AccountId(account@),
                    destination: destination@,
                    payload: payload@,
                };
                &&& final(self).outbound@.events == (if spec_topic_offchain(destination@) {
                    old(self).outbound@.events.push(m)
                } else {
                    old(self).outbound@.events
                })
                &&& final(self).outbound@.queued == old(self).outbound@.queued
                &&& final(self).ingress@ == old(self).ingress@
            }),
    {
        let message = Message::new(MessageOrigin::AccountId(account), destination, payload);
        self.outbound.dispatch_message(message);
    }

    /// Syncs an unverified off-chain message into the queue: admits it
    /// against the sender's counter and signature, and on admission
    /// dispatches the unwrapped message, emitting an outbound event
    /// exactly when its topic is off-chain visible.  A refused message
    /// changes nothing.
    pub fn sync_offchain_message(&mut self, signed: &SignedMessage) -> (r: Result<(), MqError>)
        ensures
            ({
                let m = signed@;
                let sender = m.message.sender;
                match r {
                    Ok(()) => {
                        &&& sender.spec_is_offchain()
                        &&& spec_topic_valid(m.message.destination)
                        &&& m.sequence == spec_expected(old(self).ingress@, sender)
                        &&& m.sequence < u64::MAX
                        &&& spec_signature_ok(m)
                        &&& spec_expected(final(self).ingress@, sender) == m.sequence + 1
                        &&& forall|k: OriginView|
                            k != sender ==> #[trigger] spec_expected(final(self).ingress@, k)
                                == spec_expected(old(self).ingress@, k)
                        &&& final(self).outbound@.events == (if spec_topic_offchain(
                            m.message.destination,
                        ) {
                            old(self).outbound@.events.push(m.message)
                        } else {
                            old(self).outbound@.events
                        })
                        &&& final(self).outbound@.queued == old(self).outbound@.queued
                    },
                    Err(MqError::BadSender) => !sender.spec_is_offchain() && final(self).ingress@
                        == old(self).ingress@ && final(self).outbound@ == old(self).outbound@,
                    Err(MqError::BadDestination) => sender.spec_is_offchain() && !spec_topic_valid(
                        m.message.destination,
                    ) && final(self).ingress@ == old(self).ingress@ && final(self).outbound@ == old(self).outbound@,
                    Err(MqError::BadSequence) => sender.spec_is_offchain() && spec_topic_valid(
                        m.message.destination,
                    ) && (m.sequence != spec_expected(old(self).ingress@, sender) || m.sequence
                        == u64::MAX) && final(self).ingress@ == old(self).ingress@ && final(self).outbound@ == old(self).outbound@,
                    Err(MqError::BadSignature) => sender.spec_is_offchain() && spec_topic_valid(
                        m.message.destination,
                    ) && m.sequence == spec_expected(old(self).ingress@, sender) && m.sequence
                        < u64::MAX && !spec_signature_ok(m) && final(self).ingress@ == old(self).ingress@ && final(self).outbound@ == old(self).outbound@,
                }
            }),
    {
        match self.ingress.accept(signed) {
            Ok(()) => {
                let m = signed.message.duplicate();
                self.outbound.dispatch_message(m);
                Ok(())
            },
            Err(e) => Err(e),
        }
    }
}

} // verus!
