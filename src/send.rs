//! Send pipeline: per-recipient envelopes for an outbound mail, envelopes for
//! acknowledgments, and the messages handed to the peer transport.
//!
//! Encryption, signing and the direct call itself are done by the host; these
//! functions fix what is handed to it and record what came back.
use vstd::prelude::*;
use crate::chain::{
    entry_wf, has_key, is_outmail_at, outmail_names, record_key, Chain, KIND_CONFIRMATION,
    KIND_PENDING_ACK, KIND_PENDING_MAIL,
};
use crate::codec::{enc_mail, enc_u64, encode_mail};
use crate::compose::contains_key;
use crate::model::{
    recipients, AgentKey, DeliveryConfirmation, DeliveryUnit, SnapmailEntry, PendingAck,
    PendingMail, RecordId,
};
use crate::state::{outmail_at, outmail_recipients};

verus! {

/// A payload for a direct call to a peer.
pub enum DirectMessage {
    Mail(DeliveryUnit),
    Ack(DeliveryUnit),
}

/// How a direct call ended.
#[derive(PartialEq, Eq, Structural, Clone, Copy, Debug)]
pub enum DeliveryOutcome {
    /// The peer accepted the payload.
    Success,
    /// The peer answered but refused the payload.
    Failure,
    Timeout,
    Unreachable,
}

#[derive(PartialEq, Eq, Structural, Clone, Copy, Debug)]
pub enum SendError {
    NotAnOutMail,
    NotARecipient,
    NotAnOutAck,
    NotAnEnvelope,
}

/// `new` is `old` with exactly one more record at its end.
pub open spec fn appended_one(old: Seq<SnapmailEntry>, new: Seq<SnapmailEntry>) -> bool {
    new.len() == old.len() + 1 && new.subrange(0, old.len() as int) == old
}

/// `u` holds these fields.
pub open spec fn unit_is(u: DeliveryUnit, outmail_ref: RecordId, ciphertext: Seq<u8>, signature: Seq<u8>) -> bool {
    u.outmail_ref == outmail_ref && u.ciphertext@ == ciphertext && u.signature@ == signature
}

/// The log holds an envelope of the outbound mail at `outmail` for `r`.
pub open spec fn has_unit(c: Seq<SnapmailEntry>, outmail: RecordId, r: AgentKey) -> bool {
    has_key(c, (KIND_PENDING_MAIL, outmail, r))
}

/// The plaintext signed once and encrypted for each recipient: the canonical
/// encoding of the mail. Blind recipients are not part of it.
pub fn mail_plaintext(chain: &Chain, outmail_id: RecordId) -> (r: Result<Vec<u8>, SendError>)
    ensures
        r matches Ok(b) ==> is_outmail_at(chain@, outmail_id as int) && b@ == enc_mail(
            chain@[outmail_id as int]->OutMail_0.mail@,
        ),
        r matches Err(e) ==> !is_outmail_at(chain@, outmail_id as int) && e == SendError::NotAnOutMail,
{
    match outmail_at(chain, outmail_id) {
        Some(o) => Ok(encode_mail(&o.mail)),
        None => Err(SendError::NotAnOutMail),
    }
}

/// The first `i + 1` elements hold `a` exactly when the first `i` do or
/// element `i` is `a`.
proof fn lemma_prefix_contains(s: Seq<AgentKey>, i: int, a: AgentKey)
    requires
        0 <= i < s.len(),
    ensures
        s.subrange(0, i + 1).contains(a) <==> (s.subrange(0, i).contains(a) || a == s[i]),
{
    let p = s.subrange(0, i);
    let q = s.subrange(0, i + 1);
    if p.contains(a) {
        let j = choose|j: int| 0 <= j < p.len() && p[j] == a;
        assert(q[j] == a);
    }
    if a == s[i] {
        assert(q[i] == a);
    }
    if q.contains(a) {
        let j = choose|j: int| 0 <= j < q.len() && q[j] == a;
        if j < i {
            assert(p[j] == a);
        }
    }
}

/// The members of `src` that are also in `allowed`, each once.
fn distinct_members(src: &Vec<AgentKey>, allowed: &Vec<AgentKey>) -> (v: Vec<AgentKey>)
    ensures
        v@.no_duplicates(),
        forall|a: AgentKey| v@.contains(a) <==> (src@.contains(a) && allowed@.contains(a)),
{
    let mut v: Vec<AgentKey> = Vec::new();
    let mut i: usize = 0;
    while i < src.len()
        invariant
            i <= src@.len(),
            v@.no_duplicates(),
            forall|a: AgentKey| v@.contains(a) <==> (src@.subrange(0, i as int).contains(a) && allowed@.contains(a)),
        decreases src@.len() - i,
    {
        let x = src[i];
        let ghost before = v@;
        if contains_key(allowed, x) && !contains_key(&v, x) {
            v.push(x);
            proof {
                assert forall|a: AgentKey| v@.contains(a) <==> (before.contains(a) || a == x) by {
                    if before.contains(a) {
                        let j = choose|j: int| 0 <= j < before.len() && before[j] == a;
                        assert(v@[j] == a);
                    }
                    if a == x {
                        assert(v@[before.len() as int] == a);
                    }
                    if v@.contains(a) {
                        let j = choose|j: int| 0 <= j < v@.len() && v@[j] == a;
                        if j < before.len() {
                            assert(before[j] == a);
                        }
                    }
                }
                assert forall|j: int, k: int| 0 <= j < v@.len() && 0 <= k < v@.len() && j != k implies v@[j] != v@[k] by {
                    if j < before.len() && k < before.len() {
                    } else if j < before.len() {
                        assert(before.contains(v@[j]));
                    } else if k < before.len() {
                        assert(before.contains(v@[k]));
                    }
                }
            }
        }
        assert forall|a: AgentKey| v@.contains(a) <==> (src@.subrange(0, i + 1).contains(a) && allowed@.contains(a)) by {
            lemma_prefix_contains(src@, i as int, a);
            assert(before.contains(a) <==> (src@.subrange(0, i as int).contains(a) && allowed@.contains(a)));
        }
        i += 1;
    }
    assert(src@.subrange(0, src@.len() as int) =~= src@);
    v
}

/// The recipients to deliver the outbound mail at `outmail_id` to, each
/// once: every recipient of `to`, `cc` and `bcc`, or those of `only` that it
/// names.
pub fn send_targets(chain: &Chain, outmail_id: RecordId, only: Option<&Vec<AgentKey>>) -> (r: Result<
    Vec<AgentKey>,
    SendError,
>)
    ensures
        r matches Ok(v) ==> {
            &&& is_outmail_at(chain@, outmail_id as int)
            &&& v@.no_duplicates()
            &&& forall|a: AgentKey|
                v@.contains(a) <==> (recipients(chain@[outmail_id as int]->OutMail_0).contains(a) && match only {
                    None => true,
                    Some(w) => w@.contains(a),
                })
        },
        r matches Err(e) ==> !is_outmail_at(chain@, outmail_id as int) && e == SendError::NotAnOutMail,
{
    let o = match outmail_at(chain, outmail_id) {
        Some(o) => o,
        None => return Err(SendError::NotAnOutMail),
    };
    let all = outmail_recipients(o);
    match only {
        None => Ok(distinct_members(&all, &all)),
        Some(w) => Ok(distinct_members(w, &all)),
    }
}

/// The stored envelope of the outbound mail at `outmail_id` for `recipient`, if any.
pub fn find_delivery_unit(chain: &Chain, outmail_id: RecordId, recipient: AgentKey) -> (r: Option<RecordId>)
    ensures
        r matches Some(i) ==> i < chain@.len() && record_key(chain@[i as int]) == Some(
            (KIND_PENDING_MAIL, outmail_id, recipient),
        ),
        r is None <==> !has_unit(chain@, outmail_id, recipient),
{
    chain.find_key((KIND_PENDING_MAIL, outmail_id, recipient))
}

/// Stores the envelope made for `recipient` of the outbound mail at
/// `outmail_id`, unless one is already stored: a recipient never has two.
/// Returns the position of the envelope in either case.
pub fn store_delivery_unit(
    chain: &mut Chain,
    outmail_id: RecordId,
    recipient: AgentKey,
    ciphertext: Vec<u8>,
    signature: Vec<u8>,
    now: u64,
) -> (r: Result<RecordId, SendError>)
    requires
        old(chain).wf(),
        old(chain)@.len() + 1 < usize::MAX,
    ensures
        final(chain).wf(),
        r == Err::<RecordId, SendError>(SendError::NotAnOutMail) <==> !is_outmail_at(
            old(chain)@,
            outmail_id as int,
        ),
        r == Err::<RecordId, SendError>(SendError::NotARecipient) <==> is_outmail_at(
            old(chain)@,
            outmail_id as int,
        ) && !outmail_names(old(chain)@, outmail_id as int, recipient),
        outmail_names(old(chain)@, outmail_id as int, recipient) ==> r is Ok,
        r is Ok ==> has_unit(final(chain)@, outmail_id, recipient),
        r is Err || has_unit(old(chain)@, outmail_id, recipient) ==> final(chain)@ == old(chain)@
            && final(chain).times() == old(chain).times(),
        r matches Ok(i) ==> {
            &&& outmail_names(old(chain)@, outmail_id as int, recipient)
            &&& record_key(final(chain)@[i as int]) == Some((KIND_PENDING_MAIL, outmail_id, recipient))
            &&& i < final(chain)@.len()
            &&& !has_unit(old(chain)@, outmail_id, recipient) ==> {
                &&& i == old(chain)@.len()
                &&& appended_one(old(chain)@, final(chain)@)
                &&& final(chain).times() == old(chain).times().push(now)
                &&& unit_is(
                    final(chain)@[i as int]->PendingMail_0.unit,
                    outmail_id,
                    ciphertext@,
                    signature@,
                )
            }
        },
{
    let o = match outmail_at(chain, outmail_id) {
        Some(o) => o,
        None => return Err(SendError::NotAnOutMail),
    };
    let all = outmail_recipients(o);
    if !contains_key(&all, recipient) {
        return Err(SendError::NotARecipient);
    }
    if let Some(i) = chain.find_key((KIND_PENDING_MAIL, outmail_id, recipient)) {
        return Ok(i);
    }
    let e = SnapmailEntry::PendingMail(
        PendingMail { unit: DeliveryUnit { outmail_ref: outmail_id, ciphertext, signature }, recipient },
    );
    let ghost c0 = chain@;
    proof {
        let c = c0.push(e);
        assert(c[outmail_id as int] == c0[outmail_id as int]);
        assert(entry_wf(c, c0.len() as int));
    }
    let i = chain.push(e, now);
    assert(chain@.subrange(0, c0.len() as int) =~= c0);
    Ok(i)
}

/// The message that carries the stored envelope at `unit_id` and the peer
/// it is for: the recipient of a mail envelope, or the sender of the
/// acknowledged mail for an acknowledgment envelope.
pub fn delivery_message(chain: &Chain, unit_id: RecordId) -> (r: Result<(AgentKey, DirectMessage), SendError>)
    requires
        chain.wf(),
    ensures
        r matches Ok((peer, msg)) ==> unit_id < chain@.len() && match chain@[unit_id as int] {
            SnapmailEntry::PendingMail(p) => {
                &&& peer == p.recipient
                &&& msg matches DirectMessage::Mail(u) && unit_is(
                    u,
                    p.unit.outmail_ref,
                    p.unit.ciphertext@,
                    p.unit.signature@,
                )
            },
            SnapmailEntry::PendingAck(p) => {
                &&& peer == chain@[chain@[p.outack_ref as int]->OutAck_0.inmail_ref as int]->InMail_0.from
                &&& msg matches DirectMessage::Ack(u) && unit_is(
                    u,
                    p.unit.outmail_ref,
                    p.unit.ciphertext@,
                    p.unit.signature@,
                )
            },
            _ => false,
        },
        r matches Err(e) ==> e == SendError::NotAnEnvelope && !(unit_id < chain@.len() && (
        chain@[unit_id as int] is PendingMail || chain@[unit_id as int] is PendingAck)),
{
    match chain.get(unit_id) {
        Some(SnapmailEntry::PendingMail(p)) => Ok((p.recipient, DirectMessage::Mail(p.unit.copy()))),
        Some(SnapmailEntry::PendingAck(p)) => {
            proof {
                assert(entry_wf(chain@, unit_id as int));
                assert(entry_wf(chain@, p.outack_ref as int));
            }
            let peer = match chain.get(p.outack_ref) {
                Some(SnapmailEntry::OutAck(a)) => match chain.get(a.inmail_ref) {
                    Some(SnapmailEntry::InMail(m)) => m.from,
                    _ => return Err(SendError::NotAnEnvelope),
                },
                _ => return Err(SendError::NotAnEnvelope),
            };
            Ok((peer, DirectMessage::Ack(p.unit.copy())))
        },
        _ => Err(SendError::NotAnEnvelope),
    }
}

/// The sender's record of the mail that the acknowledgment at `outack_id`
/// answers, and that sender.
pub open spec fn acked_mail_ref(c: Seq<SnapmailEntry>, outack_id: RecordId) -> RecordId {
    c[c[outack_id as int]->OutAck_0.inmail_ref as int]->InMail_0.outmail_ref
}

pub open spec fn acked_mail_sender(c: Seq<SnapmailEntry>, outack_id: RecordId) -> AgentKey {
    c[c[outack_id as int]->OutAck_0.inmail_ref as int]->InMail_0.from
}

/// Whether record `i` of `c` is an acknowledgment of a received mail.
pub open spec fn is_outack_at(c: Seq<SnapmailEntry>, i: int) -> bool {
    0 <= i < c.len() && c[i] is OutAck
}

/// Looks up the received mail behind the acknowledgment at `outack_id`:
/// its sender's reference to it, and that sender.
pub fn outack_target(chain: &Chain, outack_id: RecordId) -> (r: Result<(RecordId, AgentKey), SendError>)
    requires
        chain.wf(),
    ensures
        r matches Ok((o, s)) ==> is_outack_at(chain@, outack_id as int) && o == acked_mail_ref(chain@, outack_id)
            && s == acked_mail_sender(chain@, outack_id),
        r matches Err(e) ==> !is_outack_at(chain@, outack_id as int) && e == SendError::NotAnOutAck,
{
    match chain.get(outack_id) {
        Some(SnapmailEntry::OutAck(a)) => {
            proof {
                assert(entry_wf(chain@, outack_id as int));
            }
            match chain.get(a.inmail_ref) {
                Some(SnapmailEntry::InMail(m)) => Ok((m.outmail_ref, m.from)),
                _ => Err(SendError::NotAnOutAck),
            }
        },
        _ => Err(SendError::NotAnOutAck),
    }
}

/// The plaintext of the acknowledgment at `outack_id`: the sender's
/// reference to the acknowledged mail.
pub fn ack_plaintext(chain: &Chain, outack_id: RecordId) -> (r: Result<Vec<u8>, SendError>)
    requires
        chain.wf(),
    ensures
        r matches Ok(b) ==> is_outack_at(chain@, outack_id as int) && b@ == enc_u64(
            acked_mail_ref(chain@, outack_id) as u64,
        ),
        r matches Err(e) ==> !is_outack_at(chain@, outack_id as int) && e == SendError::NotAnOutAck,
{
    let (outmail_ref, _) = outack_target(chain, outack_id)?;
    Ok(vstd::bytes::u64_to_le_bytes(outmail_ref as u64))
}

/// The stored envelope of the acknowledgment at `outack_id`, if any.
pub fn find_ack_unit(chain: &Chain, outack_id: RecordId) -> (r: Option<RecordId>)
    ensures
        r matches Some(i) ==> i < chain@.len() && record_key(chain@[i as int]) == Some(
            (KIND_PENDING_ACK, outack_id, 0 as AgentKey),
        ),
        r is None <==> !has_key(chain@, (KIND_PENDING_ACK, outack_id, 0)),
{
    chain.find_key((KIND_PENDING_ACK, outack_id, 0))
}

/// Stores the envelope of the acknowledgment at `outack_id`, unless one is
/// already stored. Returns the envelope's position in either case.
pub fn store_ack_unit(
    chain: &mut Chain,
    outack_id: RecordId,
    ciphertext: Vec<u8>,
    signature: Vec<u8>,
    now: u64,
) -> (r: Result<RecordId, SendError>)
    requires
        old(chain).wf(),
        old(chain)@.len() + 1 < usize::MAX,
    ensures
        final(chain).wf(),
        r matches Err(e) ==> e == SendError::NotAnOutAck && !is_outack_at(old(chain)@, outack_id as int),
        r is Err || has_key(old(chain)@, (KIND_PENDING_ACK, outack_id, 0)) ==> final(chain)@ == old(
            chain,
        )@ && final(chain).times() == old(chain).times(),
        r matches Ok(i) ==> {
            &&& is_outack_at(old(chain)@, outack_id as int)
            &&& i < final(chain)@.len()
            &&& record_key(final(chain)@[i as int]) == Some((KIND_PENDING_ACK, outack_id, 0 as AgentKey))
            &&& !has_key(old(chain)@, (KIND_PENDING_ACK, outack_id, 0)) ==> {
                &&& i == old(chain)@.len()
                &&& appended_one(old(chain)@, final(chain)@)
                &&& final(chain).times() == old(chain).times().push(now)
                &&& unit_is(
                    final(chain)@[i as int]->PendingAck_0.unit,
                    acked_mail_ref(old(chain)@, outack_id),
                    ciphertext@,
                    signature@,
                )
            }
        },
{
    let (outmail_ref, _) = outack_target(chain, outack_id)?;
    if let Some(i) = chain.find_key((KIND_PENDING_ACK, outack_id, 0)) {
        return Ok(i);
    }
    let e = SnapmailEntry::PendingAck(
        PendingAck { outack_ref: outack_id, unit: DeliveryUnit { outmail_ref, ciphertext, signature } },
    );
    let ghost c0 = chain@;
    proof {
        let c = c0.push(e);
        assert(c[outack_id as int] == c0[outack_id as int]);
        assert(entry_wf(c, c0.len() as int));
    }
    let i = chain.push(e, now);
    assert(chain@.subrange(0, c0.len() as int) =~= c0);
    Ok(i)
}

/// Records how the delivery of the acknowledgment at `outack_id` ended. A
/// success is confirmed once, by a confirmation from the acknowledged
/// mail's sender; any other outcome records nothing. Returns the
/// confirmation's position after a success.
pub fn record_ack_outcome(chain: &mut Chain, outack_id: RecordId, outcome: DeliveryOutcome, now: u64) -> (r:
    Result<Option<RecordId>, SendError>)
    requires
        old(chain).wf(),
        old(chain)@.len() + 1 < usize::MAX,
    ensures
        final(chain).wf(),
        r matches Err(e) ==> e == SendError::NotAnOutAck && !is_outack_at(old(chain)@, outack_id as int),
        r is Ok ==> is_outack_at(old(chain)@, outack_id as int),
        r is Ok && outcome != DeliveryOutcome::Success ==> r == Ok::<Option<RecordId>, SendError>(None),
        r is Ok && outcome == DeliveryOutcome::Success ==> (r matches Ok(Some(i)) && i < final(chain)@.len()
            && record_key(final(chain)@[i as int]) == Some(
            (KIND_CONFIRMATION, outack_id, acked_mail_sender(old(chain)@, outack_id)),
        )),
        r is Err || outcome != DeliveryOutcome::Success || has_key(
            old(chain)@,
            (KIND_CONFIRMATION, outack_id, acked_mail_sender(old(chain)@, outack_id)),
        ) ==> final(chain)@ == old(chain)@ && final(chain).times() == old(chain).times(),
        r is Ok && outcome == DeliveryOutcome::Success && !has_key(
            old(chain)@,
            (KIND_CONFIRMATION, outack_id, acked_mail_sender(old(chain)@, outack_id)),
        ) ==> appended_one(old(chain)@, final(chain)@) && final(chain).times() == old(chain).times().push(
            now,
        ),
{
    let (_, sender) = outack_target(chain, outack_id)?;
    if outcome != DeliveryOutcome::Success {
        return Ok(None);
    }
    if let Some(i) = chain.find_key((KIND_CONFIRMATION, outack_id, sender)) {
        return Ok(Some(i));
    }
    let e = SnapmailEntry::DeliveryConfirmation(DeliveryConfirmation { package_ref: outack_id, recipient: sender });
    let ghost c0 = chain@;
    proof {
        let c = c0.push(e);
        assert(c[outack_id as int] == c0[outack_id as int]);
        assert(entry_wf(c, c0.len() as int));
    }
    let i = chain.push(e, now);
    assert(chain@.subrange(0, c0.len() as int) =~= c0);
    Ok(Some(i))
}

} // verus!
