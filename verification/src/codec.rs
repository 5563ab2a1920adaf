//! Canonical binary encoding of the envelope.
//!
//! The signed digest of a message is the encoding of exactly the message
//! and its sequence number, so a signature can never cover itself.  The
//! encoding is deterministic and order preserving: fixed-width integers in
//! little-endian order, byte strings prefixed with their 64-bit length,
//! and enum variants prefixed with a tag byte.

use vstd::prelude::*;

use crate::types::{Message, MessageOrigin, MessageView, OriginView, SignedMessage, SignedMessageView};

verus! {

/// The eight little-endian bytes of `n`.
pub open spec fn enc_u64(n: u64) -> Seq<u8> {
    seq![
        n as u8,
        (n >> 8) as u8,
        (n >> 16) as u8,
        (n >> 24) as u8,
        (n >> 32) as u8,
        (n >> 40) as u8,
        (n >> 48) as u8,
        (n >> 56) as u8,
    ]
}

/// A byte string, prefixed with its length as a 64-bit integer.
pub open spec fn enc_bytes(b: Seq<u8>) -> Seq<u8> {
    enc_u64(b.len() as u64) + b
}

/// An origin: a tag byte naming the variant, then its payload.
pub open spec fn enc_origin(o: OriginView) -> Seq<u8> {
    match o {
        OriginView::Pallet(b) => seq![0u8] + enc_bytes(b),
        OriginView::Contract(b) => seq![1u8] + enc_bytes(b),
        OriginView::Worker(b) => seq![2u8] + enc_bytes(b),
        OriginView::AccountId(b) => seq![3u8] + enc_bytes(b),
        OriginView::MultiLocation(b) => seq![4u8] + enc_bytes(b),
        OriginView::Gatekeeper => seq![5u8],
    }
}

/// A message: sender, then destination, then payload.
pub open spec fn enc_message(m: MessageView) -> Seq<u8> {
    enc_origin(m.sender) + enc_bytes(m.destination) + enc_bytes(m.payload)
}

/// The digest to be signed: the message, then the sequence number.
pub open spec fn enc_signed_data(m: MessageView, sequence: u64) -> Seq<u8> {
    enc_message(m) + enc_u64(sequence)
}

/// Appends the eight little-endian bytes of `n`.
pub fn put_u64(out: &mut Vec<u8>, n: u64)
    ensures
        final(out)@ == old(out)@ + enc_u64(n),
{
    out.push(n as u8);
    out.push((n >> 8) as u8);
    out.push((n >> 16) as u8);
    out.push((n >> 24) as u8);
    out.push((n >> 32) as u8);
    out.push((n >> 40) as u8);
    out.push((n >> 48) as u8);
    out.push((n >> 56) as u8);
    proof {
        assert(out@ =~= old(out)@ + enc_u64(n));
    }
}

/// Appends a byte string with its 64-bit length prefix.
pub fn put_bytes(out: &mut Vec<u8>, b: &Vec<u8>)
    ensures
        final(out)@ == old(out)@ + enc_bytes(b@),
{
    put_u64(out, b.len() as u64);
    let ghost mid = out@;
    let n: usize = b.len();
    let mut i: usize = 0;
    while i < n
        invariant
            n == b@.len(),
            0 <= i <= n,
            out@ == mid + b@.subrange(0, i as int),
        decreases n - i,
    {
        out.push(b[i]);
        proof {
            assert(out@ =~= mid + b@.subrange(0, i + 1));
        }
        i += 1;
    }
    proof {
        assert(b@.subrange(0, n as int) =~= b@);
        assert(out@ =~= old(out)@ + enc_bytes(b@));
    }
}

/// Appends the tagged encoding of an origin.
pub fn put_origin(out: &mut Vec<u8>, o: &MessageOrigin)
    ensures
        final(out)@ == old(out)@ + enc_origin(o@),
{
    match o {
        MessageOrigin::Pallet(b) => {
            out.push(0u8);
            put_bytes(out, b);
        },
        MessageOrigin::Contract(b) => {
            out.push(1u8);
            put_bytes(out, b);
        },
        MessageOrigin::Worker(b) => {
            out.push(2u8);
            put_bytes(out, b);
        },
        MessageOrigin::AccountId(b) => {
            out.push(3u8);
            put_bytes(out, b);
        },
        MessageOrigin::MultiLocation(b) => {
            out.push(4u8);
            put_bytes(out, b);
        },
        MessageOrigin::Gatekeeper => {
            out.push(5u8);
        },
    }
    proof {
        assert(out@ =~= old(out)@ + enc_origin(o@));
    }
}

impl MessageOrigin {
    /// The canonical encoding of the origin, the input of any hash of it.
    pub fn encoded(&self) -> (r: Vec<u8>)
        ensures
            r@ == enc_origin(self@),
    {
        let mut out: Vec<u8> = Vec::new();
        put_origin(&mut out, self);
        out
    }
}

impl Message {
    /// The canonical encoding of the message.
    pub fn encoded(&self) -> (r: Vec<u8>)
        ensures
            r@ == enc_message(self@),
    {
        let mut out: Vec<u8> = Vec::new();
        put_origin(&mut out, &self.sender);
        put_bytes(&mut out, self.destination.path());
        put_bytes(&mut out, &self.payload);
        out
    }
}

impl SignedMessage {
    /// The digest the signature covers: the canonical encoding of exactly
    /// the message and the sequence number, never the signature itself.
    pub fn data_be_signed(&self) -> (r: Vec<u8>)
        ensures
            r@ == enc_signed_data(self.message@, self.sequence),
    {
        let mut out: Vec<u8> = self.message.encoded();
        put_u64(&mut out, self.sequence);
        out
    }
}


/// The transport encoding of a signed message: the message, the
/// sequence, then the signature — self-delimiting, since every byte
/// string carries its length.
pub open spec fn enc_signed_message(m: SignedMessageView) -> Seq<u8> {
    enc_message(m.message) + enc_u64(m.sequence) + enc_bytes(m.signature)
}

/// The little-endian 64-bit value of the eight bytes at `pos`.
pub open spec fn u64_at(b: Seq<u8>, pos: int) -> u64 {
    (b[pos] as u64) | ((b[pos + 1] as u64) << 8) | ((b[pos + 2] as u64) << 16) | ((b[pos + 3]
        as u64) << 24) | ((b[pos + 4] as u64) << 32) | ((b[pos + 5] as u64) << 40) | ((b[pos + 6]
        as u64) << 48) | ((b[pos + 7] as u64) << 56)
}

/// Reading back the eight little-endian bytes of `n` gives `n`.
pub proof fn lemma_u64_at_enc(n: u64, b: Seq<u8>, pos: int)
    requires
        0 <= pos,
        pos + 8 <= b.len(),
        b.subrange(pos, pos + 8) == enc_u64(n),
    ensures
        u64_at(b, pos) == n,
{
    let w = b.subrange(pos, pos + 8);
    assert(b[pos] == w[0] && w[0] == n as u8);
    assert(b[pos + 1] == w[1] && w[1] == (n >> 8) as u8);
    assert(b[pos + 2] == w[2] && w[2] == (n >> 16) as u8);
    assert(b[pos + 3] == w[3] && w[3] == (n >> 24) as u8);
    assert(b[pos + 4] == w[4] && w[4] == (n >> 32) as u8);
    assert(b[pos + 5] == w[5] && w[5] == (n >> 40) as u8);
    assert(b[pos + 6] == w[6] && w[6] == (n >> 48) as u8);
    assert(b[pos + 7] == w[7] && w[7] == (n >> 56) as u8);
    assert(((n as u8) as u64) | ((((n >> 8) as u8) as u64) << 8) | ((((n >> 16) as u8) as u64)
        << 16) | ((((n >> 24) as u8) as u64) << 24) | ((((n >> 32) as u8) as u64) << 32) | ((((n
        >> 40) as u8) as u64) << 40) | ((((n >> 48) as u8) as u64) << 48) | ((((n >> 56) as u8)
        as u64) << 56) == n) by (bit_vector);
}

/// Parses a length-prefixed byte string at `pos`: the string and the
/// position after it, or nothing when the input is too short.
pub open spec fn dec_bytes(b: Seq<u8>, pos: int) -> Option<(Seq<u8>, int)> {
    if pos + 8 <= b.len() {
        let n = u64_at(b, pos) as int;
        if pos + 8 + n <= b.len() {
            Some((b.subrange(pos + 8, pos + 8 + n), pos + 8 + n))
        } else {
            None
        }
    } else {
        None
    }
}

/// Parses a tagged origin at `pos`.
pub open spec fn dec_origin(b: Seq<u8>, pos: int) -> Option<(OriginView, int)> {
    if 0 <= pos < b.len() {
        let tag = b[pos];
        if tag == 5 {
            Some((OriginView::Gatekeeper, pos + 1))
        } else if tag <= 4 {
            match dec_bytes(b, pos + 1) {
                Some((payload, p2)) => Some(
                    (
                        if tag == 0 {
                            OriginView::Pallet(payload)
                        } else if tag == 1 {
                            OriginView::Contract(payload)
                        } else if tag == 2 {
                            OriginView::Worker(payload)
                        } else if tag == 3 {
                            OriginView::AccountId(payload)
                        } else {
                            OriginView::MultiLocation(payload)
                        },
                        p2,
                    ),
                ),
                None => None,
            }
        } else {
            None
        }
    } else {
        None
    }
}

/// Parses a message at `pos`: sender, destination, payload.
pub open spec fn dec_message_at(b: Seq<u8>, pos: int) -> Option<(MessageView, int)> {
    match dec_origin(b, pos) {
        Some((sender, p1)) => match dec_bytes(b, p1) {
            Some((destination, p2)) => match dec_bytes(b, p2) {
                Some((payload, p3)) => Some((MessageView { sender, destination, payload }, p3)),
                None => None,
            },
            None => None,
        },
        None => None,
    }
}

/// Parses a whole transport record, demanding that it is consumed
/// exactly: a message, a sequence, a signature, and nothing after.
pub open spec fn dec_signed_message(b: Seq<u8>) -> Option<SignedMessageView> {
    match dec_message_at(b, 0) {
        Some((message, p1)) => if p1 + 8 <= b.len() {
            match dec_bytes(b, p1 + 8) {
                Some((signature, p2)) => if p2 == b.len() {
                    Some(SignedMessageView { message, sequence: u64_at(b, p1), signature })
                } else {
                    None
                },
                None => None,
            }
        } else {
            None
        },
        None => None,
    }
}

/// Whether a signed message's variable parts are small enough for their
/// 64-bit length prefixes; true of every value that exists at run time.
pub open spec fn fits_transport(m: SignedMessageView) -> bool {
    &&& (match m.message.sender {
        OriginView::Pallet(p) => p.len() < 0x1_0000_0000_0000_0000,
        OriginView::Contract(p) => p.len() < 0x1_0000_0000_0000_0000,
        OriginView::Worker(p) => p.len() < 0x1_0000_0000_0000_0000,
        OriginView::AccountId(p) => p.len() < 0x1_0000_0000_0000_0000,
        OriginView::MultiLocation(p) => p.len() < 0x1_0000_0000_0000_0000,
        OriginView::Gatekeeper => true,
    })
    &&& m.message.destination.len() < 0x1_0000_0000_0000_0000
    &&& m.message.payload.len() < 0x1_0000_0000_0000_0000
    &&& m.signature.len() < 0x1_0000_0000_0000_0000
}

/// A length-prefixed byte string parses back to itself, wherever it
/// stands in a larger record.
pub proof fn lemma_dec_bytes_of_enc(prefix: Seq<u8>, x: Seq<u8>, suffix: Seq<u8>)
    requires
        x.len() < 0x1_0000_0000_0000_0000,
    ensures
        dec_bytes(prefix + enc_bytes(x) + suffix, prefix.len() as int) == Some(
            (x, (prefix.len() + 8 + x.len()) as int),
        ),
{
    let b = prefix + enc_bytes(x) + suffix;
    let pos = prefix.len() as int;
    let n = x.len() as u64;
    assert forall|i: int| 0 <= i < 8 implies b.subrange(pos, pos + 8)[i] == enc_u64(n)[i] by {
        assert(b[pos + i] == enc_bytes(x)[i]);
    }
    assert(b.subrange(pos, pos + 8) =~= enc_u64(n));
    lemma_u64_at_enc(n, b, pos);
    assert(u64_at(b, pos) as int == x.len());
    assert(pos + 8 + x.len() <= b.len());
    assert(b.subrange(pos + 8, pos + 8 + x.len()) =~= x);
}

/// A tagged origin parses back to itself, wherever it stands.
#[verifier::rlimit(100)]
#[verifier::spinoff_prover]
pub proof fn lemma_dec_origin_of_enc(prefix: Seq<u8>, o: OriginView, suffix: Seq<u8>)
    requires
        (match o {
            OriginView::Pallet(p) => p.len() < 0x1_0000_0000_0000_0000,
            OriginView::Contract(p) => p.len() < 0x1_0000_0000_0000_0000,
            OriginView::Worker(p) => p.len() < 0x1_0000_0000_0000_0000,
            OriginView::AccountId(p) => p.len() < 0x1_0000_0000_0000_0000,
            OriginView::MultiLocation(p) => p.len() < 0x1_0000_0000_0000_0000,
            OriginView::Gatekeeper => true,
        }),
    ensures
        dec_origin(prefix + enc_origin(o) + suffix, prefix.len() as int) == Some(
            (o, (prefix.len() + enc_origin(o).len()) as int),
        ),
{
    let b = prefix + enc_origin(o) + suffix;
    let pos = prefix.len() as int;
    match o {
        OriginView::Gatekeeper => {
            assert(b[pos] == 5);
        },
        OriginView::Pallet(p) => {
            assert(b[pos] == 0);
            assert((prefix + seq![0u8]) + enc_bytes(p) + suffix =~= b);
            lemma_dec_bytes_of_enc(prefix + seq![0u8], p, suffix);
        },
        OriginView::Contract(p) => {
            assert(b[pos] == 1);
            assert((prefix + seq![1u8]) + enc_bytes(p) + suffix =~= b);
            lemma_dec_bytes_of_enc(prefix + seq![1u8], p, suffix);
        },
        OriginView::Worker(p) => {
            assert(b[pos] == 2);
            assert((prefix + seq![2u8]) + enc_bytes(p) + suffix =~= b);
            lemma_dec_bytes_of_enc(prefix + seq![2u8], p, suffix);
        },
        OriginView::AccountId(p) => {
            assert(b[pos] == 3);
            assert((prefix + seq![3u8]) + enc_bytes(p) + suffix =~= b);
            lemma_dec_bytes_of_enc(prefix + seq![3u8], p, suffix);
        },
        OriginView::MultiLocation(p) => {
            assert(b[pos] == 4);
            assert((prefix + seq![4u8]) + enc_bytes(p) + suffix =~= b);
            lemma_dec_bytes_of_enc(prefix + seq![4u8], p, suffix);
        },
    }
}

/// A whole message parses back to itself ahead of any suffix.
#[verifier::rlimit(100)]
#[verifier::spinoff_prover]
pub proof fn lemma_dec_message_of_enc(mv: MessageView, suffix: Seq<u8>)
    requires
        (match mv.sender {
            OriginView::Pallet(p) => p.len() < 0x1_0000_0000_0000_0000,
            OriginView::Contract(p) => p.len() < 0x1_0000_0000_0000_0000,
            OriginView::Worker(p) => p.len() < 0x1_0000_0000_0000_0000,
            OriginView::AccountId(p) => p.len() < 0x1_0000_0000_0000_0000,
            OriginView::MultiLocation(p) => p.len() < 0x1_0000_0000_0000_0000,
            OriginView::Gatekeeper => true,
        }),
        mv.destination.len() < 0x1_0000_0000_0000_0000,
        mv.payload.len() < 0x1_0000_0000_0000_0000,
    ensures
        dec_message_at(enc_message(mv) + suffix, 0) == Some(
            (mv, enc_message(mv).len() as int),
        ),
{
    let b = enc_message(mv) + suffix;
    let e_or = enc_origin(mv.sender);
    let e_dest = enc_bytes(mv.destination);
    let e_pay = enc_bytes(mv.payload);
    assert(Seq::<u8>::empty() + e_or + (e_dest + e_pay + suffix) =~= b);
    lemma_dec_origin_of_enc(Seq::<u8>::empty(), mv.sender, e_dest + e_pay + suffix);
    let p1 = e_or.len() as int;
    assert(dec_origin(b, 0) == Some((mv.sender, p1)));
    assert(e_or + e_dest + (e_pay + suffix) =~= b);
    lemma_dec_bytes_of_enc(e_or, mv.destination, e_pay + suffix);
    let p2 = p1 + 8 + mv.destination.len() as int;
    assert(dec_bytes(b, p1) == Some((mv.destination, p2)));
    assert((e_or + e_dest) + e_pay + suffix =~= b);
    lemma_dec_bytes_of_enc(e_or + e_dest, mv.payload, suffix);
    let p3 = p2 + 8 + mv.payload.len() as int;
    assert(dec_bytes(b, p2) == Some((mv.payload, p3)));
    assert(p3 == enc_message(mv).len());
}

/// The sequence and signature tail of a transport record parses back to
/// itself after any prefix.
#[verifier::rlimit(100)]
#[verifier::spinoff_prover]
pub proof fn lemma_dec_tail_of_enc(prefix: Seq<u8>, sequence: u64, signature: Seq<u8>)
    requires
        signature.len() < 0x1_0000_0000_0000_0000,
    ensures
        ({
            let b = prefix + enc_u64(sequence) + enc_bytes(signature);
            &&& prefix.len() + 8 <= b.len()
            &&& u64_at(b, prefix.len() as int) == sequence
            &&& dec_bytes(b, (prefix.len() + 8) as int) == Some((signature, b.len() as int))
        }),
{
    let b = prefix + enc_u64(sequence) + enc_bytes(signature);
    let p3 = prefix.len() as int;
    assert forall|i: int| 0 <= i < 8 implies b.subrange(p3, p3 + 8)[i] == enc_u64(sequence)[i] by {
        assert(b[p3 + i] == (prefix + enc_u64(sequence))[p3 + i]);
    }
    assert(b.subrange(p3, p3 + 8) =~= enc_u64(sequence));
    lemma_u64_at_enc(sequence, b, p3);
    assert((prefix + enc_u64(sequence)) + enc_bytes(signature) + Seq::<u8>::empty() =~= b);
    lemma_dec_bytes_of_enc(prefix + enc_u64(sequence), signature, Seq::<u8>::empty());
    assert(p3 + 16 + signature.len() == b.len());
}

/// The transport encoding round-trips: parsing the encoding of any
/// signed message gives back exactly that message.
#[verifier::rlimit(100)]
#[verifier::spinoff_prover]
pub proof fn lemma_transport_round_trip(m: SignedMessageView)
    requires
        fits_transport(m),
    ensures
        dec_signed_message(enc_signed_message(m)) == Some(m),
{
    let b = enc_signed_message(m);
    let e_m = enc_message(m.message);
    let e_seq = enc_u64(m.sequence);
    let e_sig = enc_bytes(m.signature);
    assert(e_m + (e_seq + e_sig) =~= b);
    lemma_dec_message_of_enc(m.message, e_seq + e_sig);
    let p3 = e_m.len() as int;
    assert(dec_message_at(b, 0) == Some((m.message, p3)));
    lemma_dec_tail_of_enc(e_m, m.sequence, m.signature);
    assert(u64_at(b, p3) == m.sequence);
    assert(dec_bytes(b, p3 + 8) == Some((m.signature, b.len() as int)));
}


/// Reads the little-endian 64-bit value at `pos`, if eight bytes remain.
fn read_u64(b: &Vec<u8>, pos: usize) -> (r: Option<(u64, usize)>)
    ensures
        match r {
            Some((n, p2)) => pos + 8 <= b@.len() && p2 == pos + 8 && n == u64_at(b@, pos as int),
            None => pos + 8 > b@.len(),
        },
{
    if pos > b.len() || b.len() - pos < 8 {
        return None;
    }
    let n = (b[pos] as u64) | ((b[pos + 1] as u64) << 8) | ((b[pos + 2] as u64) << 16) | ((b[pos
        + 3] as u64) << 24) | ((b[pos + 4] as u64) << 32) | ((b[pos + 5] as u64) << 40) | ((b[pos
        + 6] as u64) << 48) | ((b[pos + 7] as u64) << 56);
    Some((n, pos + 8))
}

/// Reads a length-prefixed byte string at `pos`.
fn read_bytes(b: &Vec<u8>, pos: usize) -> (r: Option<(Vec<u8>, usize)>)
    ensures
        match r {
            Some((x, p2)) => dec_bytes(b@, pos as int) == Some((x@, p2 as int)),
            None => dec_bytes(b@, pos as int) is None,
        },
{
    let (n, p1) = match read_u64(b, pos) {
        Some(t) => t,
        None => {
            return None;
        },
    };
    let rem: usize = b.len() - p1;
    if n > rem as u64 {
        return None;
    }
    let len = n as usize;
    let total: usize = b.len();
    proof {
        assert(total == b@.len());
        assert(rem <= usize::MAX);
        assert(n <= rem as u64);
        assert(len as int == n as int);
        assert(p1 + len <= b@.len());
    }
    let mut out: Vec<u8> = Vec::new();
    let mut i: usize = 0;
    while i < len
        invariant
            total == b@.len(),
            p1 + len <= total,
            0 <= i <= len,
            out@ == b@.subrange(p1 as int, p1 + i),
        decreases len - i,
    {
        out.push(b[p1 + i]);
        proof {
            assert(out@ =~= b@.subrange(p1 as int, p1 + i + 1));
        }
        i += 1;
    }
    Some((out, p1 + len))
}

/// Reads a tagged origin at `pos`.
fn read_origin(b: &Vec<u8>, pos: usize) -> (r: Option<(MessageOrigin, usize)>)
    ensures
        match r {
            Some((o, p2)) => dec_origin(b@, pos as int) == Some((o@, p2 as int)),
            None => dec_origin(b@, pos as int) is None,
        },
{
    if pos >= b.len() {
        return None;
    }
    let tag = b[pos];
    if tag == 5 {
        return Some((MessageOrigin::Gatekeeper, pos + 1));
    }
    if tag > 4 {
        return None;
    }
    let (payload, p2) = match read_bytes(b, pos + 1) {
        Some(t) => t,
        None => {
            return None;
        },
    };
    let origin = if tag == 0 {
        MessageOrigin::Pallet(payload)
    } else if tag == 1 {
        MessageOrigin::Contract(payload)
    } else if tag == 2 {
        MessageOrigin::Worker(payload)
    } else if tag == 3 {
        MessageOrigin::AccountId(payload)
    } else {
        MessageOrigin::MultiLocation(payload)
    };
    Some((origin, p2))
}

impl SignedMessage {
    /// The transport encoding of the signed message: the message, the
    /// sequence, then the signature.
    pub fn encoded(&self) -> (r: Vec<u8>)
        ensures
            r@ == enc_signed_message(self@),
    {
        let mut out: Vec<u8> = self.message.encoded();
        put_u64(&mut out, self.sequence);
        put_bytes(&mut out, &self.signature);
        out
    }

    /// Parses a transport record, demanding exact consumption.  Together
    /// with `lemma_transport_round_trip` this inverts `encoded`: the
    /// encoding of any signed message decodes back to the same value.
    pub fn decode(bytes: &Vec<u8>) -> (r: Option<SignedMessage>)
        ensures
            match r {
                Some(m) => dec_signed_message(bytes@) == Some(m@),
                None => dec_signed_message(bytes@) is None,
            },
    {
        let (sender, p0) = match read_origin(bytes, 0) {
            Some(t) => t,
            None => {
                return None;
            },
        };
        let (destination, p1) = match read_bytes(bytes, p0) {
            Some(t) => t,
            None => {
                return None;
            },
        };
        let (payload, p2) = match read_bytes(bytes, p1) {
            Some(t) => t,
            None => {
                return None;
            },
        };
        let (sequence, p3) = match read_u64(bytes, p2) {
            Some(t) => t,
            None => {
                return None;
            },
        };
        let (signature, p4) = match read_bytes(bytes, p3) {
            Some(t) => t,
            None => {
                return None;
            },
        };
        if p4 != bytes.len() {
            return None;
        }
        Some(
            SignedMessage {
                message: Message::new(sender, destination, payload),
                sequence,
                signature,
            },
        )
    }
}

} // verus!
