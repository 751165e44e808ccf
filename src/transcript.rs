//! The Fiat-Shamir transcript: an append-only log from which every challenge is derived.
use crate::point::CompressedPoint;
use crate::scalar::{group_order, le_value, Scalar};
use merlin::Transcript;
use vstd::prelude::*;
use vstd::string::StringSliceAdditionalSpecFns;

verus! {

#[verifier::external_type_specification]
#[verifier::external_body]
pub struct ExTranscript(merlin::Transcript);

/// One operation on a transcript: `(false, label, message)` for an appended message,
/// `(true, label, output)` for a drawn challenge.
pub type TranscriptEntry = (bool, Seq<u8>, Seq<u8>);

/// What a transcript has received, in order.
pub uninterp spec fn transcript_log(t: Transcript) -> Seq<TranscriptEntry>;

/// The bytes that a transcript with this log hands out for a challenge with this label and
/// length.
pub uninterp spec fn challenge_of(log: Seq<TranscriptEntry>, label: Seq<u8>, len: nat) -> Seq<u8>;

/// `256^i`.
pub open spec fn pow256(i: nat) -> nat
    decreases i,
{
    if i == 0 {
        1
    } else {
        256 * pow256((i - 1) as nat)
    }
}

/// The 8-byte little-endian encoding of `x`.
pub open spec fn u64_le_bytes(x: u64) -> Seq<u8> {
    Seq::new(8, |i: int| ((x as nat / pow256(i as nat)) % 256) as u8)
}

/// The log after a message.
pub open spec fn with_message(log: Seq<TranscriptEntry>, label: Seq<u8>, msg: Seq<u8>) -> Seq<TranscriptEntry> {
    log.push((false, label, msg))
}

/// The 64 bytes that a challenge scalar is reduced from.
pub open spec fn challenge_bytes_of(log: Seq<TranscriptEntry>, label: Seq<u8>) -> Seq<u8> {
    challenge_of(log, label, 64)
}

/// The log after a challenge scalar is drawn.
pub open spec fn with_challenge(log: Seq<TranscriptEntry>, label: Seq<u8>) -> Seq<TranscriptEntry> {
    log.push((true, label, challenge_bytes_of(log, label)))
}

/// The challenge scalar that a transcript with this log gives for this label.
pub open spec fn challenge_value(log: Seq<TranscriptEntry>, label: Seq<u8>) -> int {
    le_value(challenge_bytes_of(log, label)) as int % group_order()
}

/// Appends a labelled message.
///
/// Relies on `merlin::Transcript::append_message`, which feeds label and message into the
/// transcript's state, and which panics on a message longer than `u32::MAX` bytes.
#[verifier::external_body]
pub fn append_message(t: &mut Transcript, label: &'static [u8], message: &[u8])
    requires
        message@.len() <= u32::MAX,
    ensures
        transcript_log(*final(t)) == with_message(transcript_log(*old(t)), label@, message@),
{
    t.append_message(label, message)
}

/// Appends a labelled integer.
///
/// Relies on `merlin::Transcript::append_u64`, which appends the integer's 8-byte
/// little-endian encoding as a message.
#[verifier::external_body]
pub fn append_u64(t: &mut Transcript, label: &'static [u8], x: u64)
    ensures
        transcript_log(*final(t)) == with_message(transcript_log(*old(t)), label@, u64_le_bytes(x)),
{
    t.append_u64(label, x)
}

/// Draws 64 challenge bytes.
///
/// Relies on `merlin::Transcript::challenge_bytes`, whose output is a function of what the
/// transcript received, the label and the length, and which is then fed into the state.
#[verifier::external_body]
fn challenge_bytes(t: &mut Transcript, label: &'static [u8]) -> (r: [u8; 64])
    ensures
        r@ == challenge_of(transcript_log(*old(t)), label@, 64),
        transcript_log(*final(t)) == transcript_log(*old(t)).push((true, label@, r@)),
{
    let mut buf = [0u8; 64];
    t.challenge_bytes(label, &mut buf);
    buf
}

/// Appends a labelled point in compressed form.
pub fn append_point(t: &mut Transcript, label: &'static [u8], p: &CompressedPoint)
    ensures
        transcript_log(*final(t)) == with_message(transcript_log(*old(t)), label@, p@),
{
    append_message(t, label, &p.bytes);
}

/// Appends a labelled scalar in its canonical encoding.
pub fn append_scalar(t: &mut Transcript, label: &'static [u8], s: &Scalar)
    ensures
        transcript_log(*final(t)) == with_message(transcript_log(*old(t)), label@, s.encoding()),
{
    let b = s.to_bytes();
    append_message(t, label, &b);
}

/// Draws a challenge scalar: 64 challenge bytes reduced modulo the group order.
pub fn challenge_scalar(t: &mut Transcript, label: &'static [u8]) -> (r: Scalar)
    ensures
        r@ == challenge_value(transcript_log(*old(t)), label@),
        transcript_log(*final(t)) == with_challenge(transcript_log(*old(t)), label@),
{
    let b = challenge_bytes(t, label);
    Scalar::from_bytes_mod_order_wide(&b)
}

/// The log after the domain separator of an aggregated range proof of `m` values of `n` bits.
pub open spec fn rangeproof_domain_log(log: Seq<TranscriptEntry>, n: u64, m: u64) -> Seq<TranscriptEntry> {
    with_message(
        with_message(
            with_message(log, "dom-sep".spec_bytes(), "rangeproof v1".spec_bytes()),
            "n".spec_bytes(),
            u64_le_bytes(n),
        ),
        "m".spec_bytes(),
        u64_le_bytes(m),
    )
}

/// Starts a range proof of `m` values of `n` bits.
pub fn rangeproof_domain_sep(t: &mut Transcript, n: u64, m: u64)
    ensures
        transcript_log(*final(t)) == rangeproof_domain_log(transcript_log(*old(t)), n, m),
{
    proof {
        reveal_strlit("rangeproof v1");
        vstd::string::is_ascii_spec_bytes("rangeproof v1");
    }
    append_message(t, "dom-sep".as_bytes(), "rangeproof v1".as_bytes());
    append_u64(t, "n".as_bytes(), n);
    append_u64(t, "m".as_bytes(), m);
}

/// Two transcripts that have received the same messages and challenges, in the same order,
/// give the same challenge for the same label.
pub proof fn lemma_challenge_determined(t1: Transcript, t2: Transcript, label: Seq<u8>)
    requires
        transcript_log(t1) == transcript_log(t2),
    ensures
        challenge_value(transcript_log(t1), label) == challenge_value(transcript_log(t2), label),
        with_challenge(transcript_log(t1), label) == with_challenge(transcript_log(t2), label),
{
}

} // verus!
