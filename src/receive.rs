//! Receive handler: opening an inbound envelope, materializing the received
//! mail and its acknowledgment, and recording inbound acknowledgments.
//!
//! Decryption and signature checks are done by the host; their outcomes are
//! arguments here, so every outcome is covered.
use vstd::prelude::*;
use crate::chain::{
    entry_wf, has_key, outmail_names, record_key, Chain, KIND_IN_ACK, KIND_IN_MAIL, KIND_OUT_ACK,
};
use crate::codec::{decode_ack, decode_mail, enc_mail, enc_u64};
use crate::model::{copy_vec, AgentKey, DeliveryUnit, SnapmailEntry, InAck, InMail, MailView, OutAck, RecordId};
use crate::send::{appended_one, DeliveryOutcome};
use crate::state::acknowledged;

verus! {

/// Why an inbound payload was refused. Nothing is recorded for it.
#[derive(PartialEq, Eq, Structural, Clone, Copy, Debug)]
pub enum RejectReason {
    /// The ciphertext did not open under the claimed sender's key and ours.
    DecryptionFailed,
    /// The sender's signature does not match the plaintext.
    BadSignature,
    /// The plaintext is not a canonical encoding.
    Malformed,
    /// An acknowledgment for a mail that we did not send to its sender.
    UnknownMail,
}

#[derive(PartialEq, Eq, Structural, Clone, Copy, Debug)]
pub enum ReceiveOutcome {
    /// A new received mail and its acknowledgment were recorded.
    Accepted { inmail: RecordId, outack: RecordId },
    /// This envelope was already received; nothing new was recorded.
    Duplicate { inmail: RecordId },
    Rejected(RejectReason),
}

#[derive(PartialEq, Eq, Structural, Clone, Copy, Debug)]
pub enum AckOutcome {
    /// A new inbound acknowledgment was recorded at this position.
    Accepted(RecordId),
    /// The acknowledgment was already recorded there.
    Duplicate(RecordId),
    Rejected(RejectReason),
}

impl ReceiveOutcome {
    /// The answer to the direct call that brought the envelope.
    pub fn response(&self) -> (r: DeliveryOutcome)
        ensures
            r == (if *self is Rejected { DeliveryOutcome::Failure } else { DeliveryOutcome::Success }),
    {
        match self {
            ReceiveOutcome::Rejected(_) => DeliveryOutcome::Failure,
            _ => DeliveryOutcome::Success,
        }
    }
}

impl AckOutcome {
    /// The answer to the direct call that brought the acknowledgment.
    pub fn response(&self) -> (r: DeliveryOutcome)
        ensures
            r == (if *self is Rejected { DeliveryOutcome::Failure } else { DeliveryOutcome::Success }),
    {
        match self {
            AckOutcome::Rejected(_) => DeliveryOutcome::Failure,
            _ => DeliveryOutcome::Success,
        }
    }
}

/// The host opened the envelope and the signature checks: its plaintext is
/// the canonical encoding of `m`.
pub open spec fn opens_to(decrypted: Option<Vec<u8>>, signature_valid: bool, m: MailView) -> bool {
    decrypted matches Some(d) && signature_valid && enc_mail(m) == d@
}

/// The host opened the acknowledgment and the signature checks: its
/// plaintext encodes the number `x`.
pub open spec fn ack_opens_to(decrypted: Option<Vec<u8>>, signature_valid: bool, x: u64) -> bool {
    decrypted matches Some(d) && signature_valid && enc_u64(x) == d@
}

/// Neither records nor their times changed.
pub open spec fn unchanged(old: Chain, new: Chain) -> bool {
    new@ == old@ && new.times() == old.times()
}

/// Handles an envelope that `from` delivered: if it opened and its
/// signature holds, records the received mail once, with its
/// acknowledgment right after it.
pub fn receive_mail(
    chain: &mut Chain,
    from: AgentKey,
    unit: &DeliveryUnit,
    decrypted: Option<Vec<u8>>,
    signature_valid: bool,
    now: u64,
) -> (r: ReceiveOutcome)
    requires
        old(chain).wf(),
        old(chain)@.len() + 2 < usize::MAX,
    ensures
        final(chain).wf(),
        r is Rejected ==> unchanged(*old(chain), *final(chain)),
        decrypted is None ==> r == ReceiveOutcome::Rejected(RejectReason::DecryptionFailed),
        decrypted is Some && !signature_valid ==> r == ReceiveOutcome::Rejected(RejectReason::BadSignature),
        decrypted is Some && signature_valid && !(exists|m: MailView| opens_to(decrypted, signature_valid, m))
            ==> r == ReceiveOutcome::Rejected(RejectReason::Malformed),
        forall|m: MailView|
            #[trigger] opens_to(decrypted, signature_valid, m) ==> if has_key(
                old(chain)@,
                (KIND_IN_MAIL, unit.outmail_ref, from),
            ) {
                &&& r matches ReceiveOutcome::Duplicate { inmail } && inmail < old(chain)@.len()
                    && record_key(old(chain)@[inmail as int]) == Some((KIND_IN_MAIL, unit.outmail_ref, from))
                &&& unchanged(*old(chain), *final(chain))
            } else {
                let n = old(chain)@.len() as int;
                &&& r == ReceiveOutcome::Accepted { inmail: n as RecordId, outack: (n + 1) as RecordId }
                &&& final(chain)@.len() == n + 2
                &&& final(chain)@.subrange(0, n) == old(chain)@
                &&& final(chain).times() == old(chain).times().push(now).push(now)
                &&& final(chain)@[n] matches SnapmailEntry::InMail(im) && {
                    &&& im.mail@ == m
                    &&& im.from == from
                    &&& im.received_at == now
                    &&& im.outmail_ref == unit.outmail_ref
                    &&& im.signature@ == unit.signature@
                }
                &&& final(chain)@[n + 1] == SnapmailEntry::OutAck(OutAck { inmail_ref: n as RecordId })
            },
{
    let d = match &decrypted {
        Some(d) => d,
        None => return ReceiveOutcome::Rejected(RejectReason::DecryptionFailed),
    };
    if !signature_valid {
        return ReceiveOutcome::Rejected(RejectReason::BadSignature);
    }
    let mail = match decode_mail(d) {
        Some(m) => m,
        None => return ReceiveOutcome::Rejected(RejectReason::Malformed),
    };
    assert(opens_to(decrypted, signature_valid, mail@));
    if let Some(i) = chain.find_key((KIND_IN_MAIL, unit.outmail_ref, from)) {
        return ReceiveOutcome::Duplicate { inmail: i };
    }
    let ghost c0 = chain@;
    let inmail = InMail {
        mail,
        from,
        received_at: now,
        outmail_ref: unit.outmail_ref,
        signature: copy_vec(&unit.signature),
    };
    proof {
        assert(entry_wf(c0.push(SnapmailEntry::InMail(inmail)), c0.len() as int));
    }
    let inmail_id = chain.push(SnapmailEntry::InMail(inmail), now);
    let ghost c1 = chain@;
    let ack = SnapmailEntry::OutAck(OutAck { inmail_ref: inmail_id });
    proof {
        assert(c1.push(ack)[inmail_id as int] == c1[inmail_id as int]);
        assert(entry_wf(c1.push(ack), c1.len() as int));
        if has_key(c1, (KIND_OUT_ACK, inmail_id, 0)) {
            let k = choose|k: int| 0 <= k < c1.len() && #[trigger] record_key(c1[k]) == Some((KIND_OUT_ACK, inmail_id, 0 as AgentKey));
            assert(entry_wf(c1, k));
        }
    }
    let outack_id = chain.push(ack, now);
    assert(chain@.subrange(0, c0.len() as int) =~= c0);
    ReceiveOutcome::Accepted { inmail: inmail_id, outack: outack_id }
}

/// Handles an acknowledgment envelope that `from` delivered: if it opened,
/// its signature holds, and its plaintext names the mail the envelope is
/// addressed to, which we sent to `from`, records the acknowledgment once.
pub fn receive_ack(
    chain: &mut Chain,
    from: AgentKey,
    unit: &DeliveryUnit,
    decrypted: Option<Vec<u8>>,
    signature_valid: bool,
    now: u64,
) -> (r: AckOutcome)
    requires
        old(chain).wf(),
        old(chain)@.len() + 1 < usize::MAX,
    ensures
        final(chain).wf(),
        r is Rejected ==> unchanged(*old(chain), *final(chain)),
        decrypted is None ==> r == AckOutcome::Rejected(RejectReason::DecryptionFailed),
        decrypted is Some && !signature_valid ==> r == AckOutcome::Rejected(RejectReason::BadSignature),
        decrypted is Some && signature_valid && !(exists|x: u64| ack_opens_to(decrypted, signature_valid, x))
            ==> r == AckOutcome::Rejected(RejectReason::Malformed),
        forall|x: u64|
            #[trigger] ack_opens_to(decrypted, signature_valid, x) ==> if x != unit.outmail_ref as u64 {
                r == AckOutcome::Rejected(RejectReason::Malformed)
            } else if !outmail_names(old(chain)@, unit.outmail_ref as int, from) {
                r == AckOutcome::Rejected(RejectReason::UnknownMail)
            } else if has_key(old(chain)@, (KIND_IN_ACK, unit.outmail_ref, from)) {
                &&& r matches AckOutcome::Duplicate(i) && i < old(chain)@.len() && record_key(
                    old(chain)@[i as int],
                ) == Some((KIND_IN_ACK, unit.outmail_ref, from))
                &&& unchanged(*old(chain), *final(chain))
            } else {
                &&& r == AckOutcome::Accepted(old(chain)@.len() as RecordId)
                &&& appended_one(old(chain)@, final(chain)@)
                &&& final(chain).times() == old(chain).times().push(now)
                &&& final(chain)@.last() == SnapmailEntry::InAck(InAck { outmail_ref: unit.outmail_ref, from })
            },
        !(r is Rejected) ==> acknowledged(final(chain)@, unit.outmail_ref, from),
{
    let d = match &decrypted {
        Some(d) => d,
        None => return AckOutcome::Rejected(RejectReason::DecryptionFailed),
    };
    if !signature_valid {
        return AckOutcome::Rejected(RejectReason::BadSignature);
    }
    let x = match decode_ack(d) {
        Some(x) => x,
        None => return AckOutcome::Rejected(RejectReason::Malformed),
    };
    assert(ack_opens_to(decrypted, signature_valid, x));
    if x != unit.outmail_ref as u64 {
        return AckOutcome::Rejected(RejectReason::Malformed);
    }
    let outmail_id = unit.outmail_ref;
    match chain.get(outmail_id) {
        Some(SnapmailEntry::OutMail(o)) => {
            let all = crate::state::outmail_recipients(o);
            if !crate::compose::contains_key(&all, from) {
                return AckOutcome::Rejected(RejectReason::UnknownMail);
            }
        },
        _ => return AckOutcome::Rejected(RejectReason::UnknownMail),
    }
    if let Some(i) = chain.find_key((KIND_IN_ACK, outmail_id, from)) {
        return AckOutcome::Duplicate(i);
    }
    let ghost c0 = chain@;
    let e = SnapmailEntry::InAck(InAck { outmail_ref: outmail_id, from });
    proof {
        assert(c0.push(e)[outmail_id as int] == c0[outmail_id as int]);
        assert(entry_wf(c0.push(e), c0.len() as int));
    }
    let i = chain.push(e, now);
    proof {
        assert(chain@.subrange(0, c0.len() as int) =~= c0);
        assert(record_key(chain@[i as int]) == Some((KIND_IN_ACK, outmail_id, from)));
    }
    AckOutcome::Accepted(i)
}

} // verus!
