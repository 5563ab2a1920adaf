//! Message addressing model: sender identities and destination topics.
//!
//! A `MessageOrigin` names the sender of a message (an on-chain pallet, a
//! confidential contract, an enclave worker, a user account, a remote
//! location, or the gatekeeper group).  A `Topic` is a non-empty byte string
//! naming a destination group; a fixed set of bytes is reserved and may not
//! start a topic, and a topic starting with `^` is visible on chain only.

use vstd::prelude::*;

verus! {

/// The identity of a message sender.
///
/// 256-bit identities (contracts and accounts) and worker public keys are
/// carried as plain byte vectors: a contract or account id is 32 bytes, a
/// worker's compressed ECDSA public key is 33 bytes.
pub enum MessageOrigin {
    /// A runtime pallet, identified by its name.
    Pallet(Vec<u8>),
    /// A confidential contract, identified by a 256-bit id.
    Contract(Vec<u8>),
    /// An enclave worker, identified by its compressed ECDSA public key.
    Worker(Vec<u8>),
    /// A user account, identified by a 256-bit id.
    AccountId(Vec<u8>),
    /// A remote location (a parachain or similar).
    MultiLocation(Vec<u8>),
    /// All gatekeepers share one origin.
    Gatekeeper,
}

/// The mathematical value of a `MessageOrigin`: the same variants over `Seq<u8>`.
pub enum OriginView {
    Pallet(Seq<u8>),
    Contract(Seq<u8>),
    Worker(Seq<u8>),
    AccountId(Seq<u8>),
    MultiLocation(Seq<u8>),
    Gatekeeper,
}

impl View for MessageOrigin {
    type V = OriginView;

    open spec fn view(&self) -> OriginView {
        match self {
            MessageOrigin::Pallet(b) => OriginView::Pallet(b@),
            MessageOrigin::Contract(b) => OriginView::Contract(b@),
            MessageOrigin::Worker(b) => OriginView::Worker(b@),
            MessageOrigin::AccountId(b) => OriginView::AccountId(b@),
            MessageOrigin::MultiLocation(b) => OriginView::MultiLocation(b@),
            MessageOrigin::Gatekeeper => OriginView::Gatekeeper,
        }
    }
}

impl OriginView {
    /// Whether this origin lives off chain: only contracts and workers do.
    pub open spec fn spec_is_offchain(self) -> bool {
        match self {
            OriginView::Contract(_) => true,
            OriginView::Worker(_) => true,
            _ => false,
        }
    }

    /// Whether this origin is a runtime pallet.
    pub open spec fn spec_is_pallet(self) -> bool {
        self is Pallet
    }
}

/// Byte-for-byte equality of two vectors.
pub fn bytes_eq(a: &Vec<u8>, b: &Vec<u8>) -> (r: bool)
    ensures
        r == (a@ == b@),
{
    if a.len() != b.len() {
        assert(a@ != b@) by {
            assert(a@.len() != b@.len());
        }
        return false;
    }
    let n: usize = a.len();
    let mut i: usize = 0;
    while i < n
        invariant
            n == a@.len() && n == b@.len(),
            0 <= i <= n,
            forall|j: int| 0 <= j < i ==> a@[j] == b@[j],
        decreases n - i,
    {
        if a[i] != b[i] {
            return false;
        }
        i += 1;
    }
    proof {
        assert(a@ =~= b@);
    }
    true
}

impl MessageOrigin {
    /// Builds the origin of a native confidential contract: a 256-bit id
    /// whose last four bytes hold `id` in big-endian order.
    pub fn native_contract(id: u32) -> (r: Self)
        ensures
            r@ == OriginView::Contract(native_contract_id(id)),
    {
        let mut bytes: Vec<u8> = Vec::new();
        let mut i: usize = 0;
        while i < 28
            invariant
                0 <= i <= 28,
                bytes@.len() == i,
                forall|j: int| 0 <= j < i ==> bytes@[j] == 0u8,
            decreases 28 - i,
        {
            bytes.push(0u8);
            i += 1;
        }
        bytes.push((id >> 24) as u8);
        bytes.push((id >> 16) as u8);
        bytes.push((id >> 8) as u8);
        bytes.push(id as u8);
        proof {
            assert(bytes@ =~= native_contract_id(id));
        }
        MessageOrigin::Contract(bytes)
    }

    /// Whether the origin lives off chain.
    pub fn is_offchain(&self) -> (r: bool)
        ensures
            r == self@.spec_is_offchain(),
    {
        match self {
            MessageOrigin::Contract(_) => true,
            MessageOrigin::Worker(_) => true,
            _ => false,
        }
    }

    /// Whether the origin is a runtime pallet.
    pub fn is_pallet(&self) -> (r: bool)
        ensures
            r == self@.spec_is_pallet(),
    {
        matches!(self, MessageOrigin::Pallet(_))
    }

    /// Structural equality: same variant, same payload bytes.
    pub fn origin_eq(&self, other: &Self) -> (r: bool)
        ensures
            r == (self@ == other@),
    {
        match (self, other) {
            (MessageOrigin::Pallet(a), MessageOrigin::Pallet(b)) => bytes_eq(a, b),
            (MessageOrigin::Contract(a), MessageOrigin::Contract(b)) => bytes_eq(a, b),
            (MessageOrigin::Worker(a), MessageOrigin::Worker(b)) => bytes_eq(a, b),
            (MessageOrigin::AccountId(a), MessageOrigin::AccountId(b)) => bytes_eq(a, b),
            (MessageOrigin::MultiLocation(a), MessageOrigin::MultiLocation(b)) => bytes_eq(a, b),
            (MessageOrigin::Gatekeeper, MessageOrigin::Gatekeeper) => true,
            _ => false,
        }
    }

    /// Deep copy of the origin.
    pub fn duplicate(&self) -> (r: Self)
        ensures
            r@ == self@,
    {
        match self {
            MessageOrigin::Pallet(b) => MessageOrigin::Pallet(copy_bytes(b)),
            MessageOrigin::Contract(b) => MessageOrigin::Contract(copy_bytes(b)),
            MessageOrigin::Worker(b) => MessageOrigin::Worker(copy_bytes(b)),
            MessageOrigin::AccountId(b) => MessageOrigin::AccountId(copy_bytes(b)),
            MessageOrigin::MultiLocation(b) => MessageOrigin::MultiLocation(copy_bytes(b)),
            MessageOrigin::Gatekeeper => MessageOrigin::Gatekeeper,
        }
    }
}

/// The 32-byte id of a native contract: 28 zero bytes, then `id` big-endian.
pub open spec fn native_contract_id(id: u32) -> Seq<u8> {
    Seq::new(28, |j: int| 0u8) + seq![
        (id >> 24) as u8,
        (id >> 16) as u8,
        (id >> 8) as u8,
        id as u8,
    ]
}

/// Byte-for-byte copy of a vector.
pub fn copy_bytes(a: &Vec<u8>) -> (r: Vec<u8>)
    ensures
        r@ == a@,
{
    let mut out: Vec<u8> = Vec::new();
    let n: usize = a.len();
    let mut i: usize = 0;
    while i < n
        invariant
            n == a@.len(),
            0 <= i <= n,
            out@ == a@.subrange(0, i as int),
        decreases n - i,
    {
        out.push(a[i]);
        i += 1;
    }
    proof {
        assert(out@ =~= a@);
    }
    out
}

/// A destination topic: a byte string naming a group of receivers.
///
/// A topic is valid when it is non-empty and its first byte is not reserved.
/// A valid topic is off-chain visible unless it starts with `^`.
pub struct Topic(Vec<u8>);

impl View for Topic {
    type V = Seq<u8>;

    closed spec fn view(&self) -> Seq<u8> {
        self.0@
    }
}

/// Whether `b` belongs to the reserved set of first bytes: `~!@#$%&*_+-=|<>?,./;:'`.
pub open spec fn spec_is_reserved_byte(b: u8) -> bool {
    ||| b == 126u8
    ||| b == 33u8
    ||| b == 64u8
    ||| b == 35u8
    ||| b == 36u8
    ||| b == 37u8
    ||| b == 38u8
    ||| b == 42u8
    ||| b == 95u8
    ||| b == 43u8
    ||| b == 45u8
    ||| b == 61u8
    ||| b == 124u8
    ||| b == 60u8
    ||| b == 62u8
    ||| b == 63u8
    ||| b == 44u8
    ||| b == 46u8
    ||| b == 47u8
    ||| b == 59u8
    ||| b == 58u8
    ||| b == 39u8
}

/// Whether the byte string `t` is a valid topic.
pub open spec fn spec_topic_valid(t: Seq<u8>) -> bool {
    t.len() > 0 && !spec_is_reserved_byte(t[0])
}

/// Whether the byte string `t` names an off-chain visible topic.
pub open spec fn spec_topic_offchain(t: Seq<u8>) -> bool {
    spec_topic_valid(t) && t[0] != 94u8
}

/// Whether `b` belongs to the reserved set of first bytes.
pub fn is_reserved_byte(b: u8) -> (r: bool)
    ensures
        r == spec_is_reserved_byte(b),
{
    b == 126u8 || b == 33u8 || b == 64u8 || b == 35u8 || b == 36u8 || b == 37u8 || b == 38u8
        || b == 42u8 || b == 95u8 || b == 43u8 || b == 45u8 || b == 61u8 || b == 124u8 || b == 60u8
        || b == 62u8 || b == 63u8 || b == 44u8 || b == 46u8 || b == 47u8 || b == 59u8 || b == 58u8
        || b == 39u8
}

impl Topic {
    /// Wraps a byte path as a topic; no validation happens here.
    pub fn new(path: Vec<u8>) -> (r: Self)
        ensures
            r@ == path@,
    {
        Topic(path)
    }

    /// The raw byte path of the topic.
    pub fn path(&self) -> (r: &Vec<u8>)
        ensures
            r@ == self@,
    {
        &self.0
    }

    /// Whether the topic is valid: non-empty and its first byte not reserved.
    pub fn is_valid(&self) -> (r: bool)
        ensures
            r == spec_topic_valid(self@),
    {
        if self.0.len() == 0 {
            return false;
        }
        !is_reserved_byte(self.0[0])
    }

    /// Whether messages to this topic are dispatched off chain.  Invalid
    /// topics are never off-chain visible; a valid topic is off-chain
    /// visible exactly when it does not start with `^`.
    pub fn is_offchain(&self) -> (r: bool)
        ensures
            r == spec_topic_offchain(self@),
    {
        if !self.is_valid() {
            return false;
        }
        self.0[0] != 94u8
    }

    /// Deep copy of the topic.
    pub fn duplicate(&self) -> (r: Self)
        ensures
            r@ == self@,
    {
        Topic(copy_bytes(&self.0))
    }
}

impl Topic {
    /// Unwraps the topic into its raw byte path.
    pub fn into_path(self) -> (r: Vec<u8>)
        ensures
            r@ == self@,
    {
        self.0
    }
}

/// Topic validity and off-chain visibility, stated for every byte string:
/// a topic is invalid exactly when it is empty or starts with a reserved
/// byte; an invalid topic is never off-chain visible; a valid one is
/// off-chain visible exactly when its first byte is not `^`.
pub proof fn lemma_topic_classification(t: Seq<u8>)
    ensures
        !spec_topic_valid(t) <==> (t.len() == 0 || spec_is_reserved_byte(t[0])),
        !spec_topic_valid(t) ==> !spec_topic_offchain(t),
        spec_topic_valid(t) ==> (spec_topic_offchain(t) <==> t[0] != 94u8),
{
}

/// Types implementing `BindTopic` carry their own destination topic, so a
/// message holding them can be sent without naming a destination.
pub trait BindTopic {
    /// The fixed topic path bound to this payload type.
    spec fn spec_topic() -> Seq<u8>;

    /// The fixed topic path bound to this payload type.
    fn topic() -> (t: Vec<u8>)
        ensures
            t@ == Self::spec_topic(),
    ;
}

impl BindTopic for () {
    open spec fn spec_topic() -> Seq<u8> {
        Seq::empty()
    }

    fn topic() -> (t: Vec<u8>) {
        let t: Vec<u8> = Vec::new();
        proof {
            assert(t@ =~= Seq::<u8>::empty());
        }
        t
    }
}

/// A message envelope: a sender, a destination topic, and an opaque payload.
pub struct Message {
    pub sender: MessageOrigin,
    pub destination: Topic,
    pub payload: Vec<u8>,
}

/// The mathematical value of a `Message`.
pub struct MessageView {
    pub sender: OriginView,
    pub destination: Seq<u8>,
    pub payload: Seq<u8>,
}

impl View for Message {
    type V = MessageView;

    open spec fn view(&self) -> MessageView {
        MessageView {
            sender: self.sender@,
            destination: self.destination@,
            payload: self.payload@,
        }
    }
}

impl Message {
    /// Builds a message from a sender, a raw destination path, and a payload.
    /// No validation happens here: consumers check validity before acting.
    pub fn new(sender: MessageOrigin, destination: Vec<u8>, payload: Vec<u8>) -> (r: Self)
        ensures
            r@.sender == sender@,
            r@.destination == destination@,
            r@.payload == payload@,
    {
        Message { sender, destination: Topic::new(destination), payload }
    }

    /// Deep copy of the message.
    pub fn duplicate(&self) -> (r: Self)
        ensures
            r@ == self@,
    {
        let r = Message {
            sender: self.sender.duplicate(),
            destination: self.destination.duplicate(),
            payload: copy_bytes(&self.payload),
        };
        proof {
            assert(r@ == self@);
        }
        r
    }
}

/// A message with a typed, already decoded payload.
pub struct DecodedMessage<T> {
    pub sender: MessageOrigin,
    pub destination: Topic,
    pub payload: T,
}

/// A message together with its per-sender sequence number and a signature
/// over the canonical encoding of exactly the message and the sequence.
pub struct SignedMessage {
    pub message: Message,
    pub sequence: u64,
    pub signature: Vec<u8>,
}

/// The mathematical value of a `SignedMessage`.
pub struct SignedMessageView {
    pub message: MessageView,
    pub sequence: u64,
    pub signature: Seq<u8>,
}

impl View for SignedMessage {
    type V = SignedMessageView;

    open spec fn view(&self) -> SignedMessageView {
        SignedMessageView {
            message: self.message@,
            sequence: self.sequence,
            signature: self.signature@,
        }
    }
}

} // verus!
