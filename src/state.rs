//! Delivery state, derived from the records of the local log on every query.
use vstd::prelude::*;
use crate::chain::{
    has_key, is_outmail_at, Chain, KIND_CONFIRMATION, KIND_IN_ACK, KIND_OUT_ACK,
    record_key,
};
use crate::model::{
    recipients, AgentKey, DeliveryState, SnapmailEntry, InMailState, Mail, MailState, OutMail,
    OutMailState, RecordId,
};

verus! {

/// Why a lookup by record position failed.
#[derive(PartialEq, Eq, Structural, Clone, Copy, Debug)]
pub enum LookupError {
    /// The position holds no outbound mail.
    NotAnOutMail,
    /// The position holds no received mail.
    NotAnInMail,
}

/// `r` has acknowledged the outbound mail at `outmail`: its acknowledgment
/// was received and recorded.
pub open spec fn acknowledged(c: Seq<SnapmailEntry>, outmail: RecordId, r: AgentKey) -> bool {
    has_key(c, (KIND_IN_ACK, outmail, r))
}

/// Delivery state of the outbound mail at `outmail` towards `r`.
pub open spec fn delivery_state_of(c: Seq<SnapmailEntry>, outmail: RecordId, r: AgentKey) -> DeliveryState {
    if acknowledged(c, outmail, r) {
        DeliveryState::Acknowledged
    } else {
        DeliveryState::Unsent
    }
}

/// `r` confirmed the delivery of the acknowledgment at `outack`.
pub open spec fn ack_confirmed(c: Seq<SnapmailEntry>, outack: RecordId, r: AgentKey) -> bool {
    has_key(c, (KIND_CONFIRMATION, outack, r))
}

/// Delivery state of the acknowledgment at `outack` towards `r`.
pub open spec fn ack_delivery_state_of(c: Seq<SnapmailEntry>, outack: RecordId, r: AgentKey) -> DeliveryState {
    if ack_confirmed(c, outack, r) {
        DeliveryState::Acknowledged
    } else {
        DeliveryState::Unsent
    }
}

/// Each recipient of the outbound mail at `id`, paired with its delivery state.
pub open spec fn recipient_states(c: Seq<SnapmailEntry>, id: RecordId) -> Seq<(AgentKey, DeliveryState)> {
    recipients(c[id as int]->OutMail_0).map_values(|a: AgentKey| (a, delivery_state_of(c, id, a)))
}

/// Every recipient of the outbound mail at `id` acknowledged it.
pub open spec fn fully_acknowledged(c: Seq<SnapmailEntry>, id: RecordId) -> bool {
    forall|k: int|
        0 <= k < recipients(c[id as int]->OutMail_0).len() ==> acknowledged(
            c,
            id,
            #[trigger] recipients(c[id as int]->OutMail_0)[k],
        )
}

/// State of the outbound mail at `id` as a whole.
pub open spec fn outmail_state_of(c: Seq<SnapmailEntry>, id: RecordId) -> OutMailState {
    if fully_acknowledged(c, id) {
        OutMailState::FullyAcknowledged
    } else {
        OutMailState::Unacknowledged
    }
}

/// Whether record `i` of `c` is a received mail.
pub open spec fn is_inmail_at(c: Seq<SnapmailEntry>, i: int) -> bool {
    0 <= i < c.len() && c[i] is InMail
}

/// The received mail at `inmail` has been acknowledged.
pub open spec fn has_outack(c: Seq<SnapmailEntry>, inmail: RecordId) -> bool {
    has_key(c, (KIND_OUT_ACK, inmail, 0))
}

/// Some confirmation refers to the record at `package`.
pub open spec fn has_confirmation(c: Seq<SnapmailEntry>, package: RecordId) -> bool {
    exists|i: int|
        0 <= i < c.len() && #[trigger] c[i] is DeliveryConfirmation && c[i]->DeliveryConfirmation_0.package_ref
            == package
}

/// The acknowledgment of the received mail at `inmail` is known to have
/// reached the mail's sender.
pub open spec fn ack_delivered(c: Seq<SnapmailEntry>, inmail: RecordId) -> bool {
    exists|k: int|
        0 <= k < c.len() && #[trigger] record_key(c[k]) == Some((KIND_OUT_ACK, inmail, 0 as AgentKey))
            && has_confirmation(c, k as RecordId)
}

/// State of the received mail at `inmail` from its recipient's side.
pub open spec fn inmail_state_of(c: Seq<SnapmailEntry>, inmail: RecordId) -> InMailState {
    if !has_outack(c, inmail) {
        InMailState::Unacknowledged
    } else if ack_delivered(c, inmail) {
        InMailState::AckDelivered
    } else {
        InMailState::AckUnconfirmed
    }
}

/// Appends `v` to `r`.
pub fn extend_keys(r: &mut Vec<AgentKey>, v: &Vec<AgentKey>)
    ensures
        final(r)@ == old(r)@ + v@,
{
    let mut i: usize = 0;
    while i < v.len()
        invariant
            i <= v@.len(),
            r@ == old(r)@ + v@.subrange(0, i as int),
        decreases v@.len() - i,
    {
        r.push(v[i]);
        i += 1;
        assert(r@ =~= old(r)@ + v@.subrange(0, i as int));
    }
    assert(v@.subrange(0, v@.len() as int) =~= v@);
}

/// All recipients of `o`: `to`, then `cc`, then `bcc`.
pub fn outmail_recipients(o: &OutMail) -> (r: Vec<AgentKey>)
    ensures
        r@ == recipients(*o),
{
    let mut r: Vec<AgentKey> = Vec::new();
    extend_keys(&mut r, &o.mail.to);
    extend_keys(&mut r, &o.mail.cc);
    extend_keys(&mut r, &o.bcc);
    assert(r@ =~= recipients(*o));
    r
}

/// Delivery state of the outbound mail at `outmail_id` towards `recipient`:
/// acknowledged once an acknowledgment from them is recorded, unsent otherwise.
pub fn get_delivery_state(chain: &Chain, outmail_id: RecordId, recipient: AgentKey) -> (r: DeliveryState)
    ensures
        r == delivery_state_of(chain@, outmail_id, recipient),
{
    match chain.find_key((KIND_IN_ACK, outmail_id, recipient)) {
        Some(_) => DeliveryState::Acknowledged,
        None => DeliveryState::Unsent,
    }
}

/// Delivery state of the acknowledgment at `outack_id` towards `recipient`
/// (the sender of the acknowledged mail): acknowledged once its delivery was
/// confirmed.
pub fn get_ack_delivery_state(chain: &Chain, outack_id: RecordId, recipient: AgentKey) -> (r: DeliveryState)
    ensures
        r == ack_delivery_state_of(chain@, outack_id, recipient),
{
    match chain.find_key((KIND_CONFIRMATION, outack_id, recipient)) {
        Some(_) => DeliveryState::Acknowledged,
        None => DeliveryState::Unsent,
    }
}

/// The outbound mail at `id`, if that is what the log holds there.
pub fn outmail_at(chain: &Chain, id: RecordId) -> (r: Option<&OutMail>)
    ensures
        r matches Some(o) ==> is_outmail_at(chain@, id as int) && *o == chain@[id as int]->OutMail_0,
        r is None ==> !is_outmail_at(chain@, id as int),
{
    match chain.get(id) {
        Some(SnapmailEntry::OutMail(o)) => Some(o),
        _ => None,
    }
}

/// Delivery state of each recipient of the outbound mail at `outmail_id`, in
/// recipient order.
pub fn get_outmail_delivery_state(chain: &Chain, outmail_id: RecordId) -> (r: Result<
    Vec<(AgentKey, DeliveryState)>,
    LookupError,
>)
    ensures
        r matches Ok(v) ==> is_outmail_at(chain@, outmail_id as int) && v@ == recipient_states(
            chain@,
            outmail_id,
        ),
        r matches Err(e) ==> !is_outmail_at(chain@, outmail_id as int) && e == LookupError::NotAnOutMail,
{
    let o = match outmail_at(chain, outmail_id) {
        Some(o) => o,
        None => return Err(LookupError::NotAnOutMail),
    };
    let all = outmail_recipients(o);
    let mut v: Vec<(AgentKey, DeliveryState)> = Vec::new();
    let mut i: usize = 0;
    while i < all.len()
        invariant
            i <= all@.len(),
            all@ == recipients(chain@[outmail_id as int]->OutMail_0),
            v@ == recipient_states(chain@, outmail_id).subrange(0, i as int),
        decreases all@.len() - i,
    {
        let st = get_delivery_state(chain, outmail_id, all[i]);
        v.push((all[i], st));
        i += 1;
        assert(v@ =~= recipient_states(chain@, outmail_id).subrange(0, i as int));
    }
    assert(recipient_states(chain@, outmail_id).subrange(0, i as int) =~= recipient_states(chain@, outmail_id));
    Ok(v)
}

/// Whether every recipient of the outbound mail at `outmail_id` acknowledged it.
pub fn get_outmail_state(chain: &Chain, outmail_id: RecordId) -> (r: Result<OutMailState, LookupError>)
    ensures
        r matches Ok(s) ==> is_outmail_at(chain@, outmail_id as int) && s == outmail_state_of(chain@, outmail_id),
        r matches Err(e) ==> !is_outmail_at(chain@, outmail_id as int) && e == LookupError::NotAnOutMail,
{
    let o = match outmail_at(chain, outmail_id) {
        Some(o) => o,
        None => return Err(LookupError::NotAnOutMail),
    };
    let all = outmail_recipients(o);
    let mut i: usize = 0;
    while i < all.len()
        invariant
            i <= all@.len(),
            is_outmail_at(chain@, outmail_id as int),
            all@ == recipients(chain@[outmail_id as int]->OutMail_0),
            forall|k: int| 0 <= k < i ==> acknowledged(chain@, outmail_id, #[trigger] all@[k]),
        decreases all@.len() - i,
    {
        if get_delivery_state(chain, outmail_id, all[i]) == DeliveryState::Unsent {
            assert(!acknowledged(chain@, outmail_id, recipients(chain@[outmail_id as int]->OutMail_0)[i as int]));
            return Ok(OutMailState::Unacknowledged);
        }
        i += 1;
    }
    Ok(OutMailState::FullyAcknowledged)
}

/// Whether some confirmation refers to the record at `package`.
fn find_confirmation(chain: &Chain, package: RecordId) -> (r: bool)
    ensures
        r == has_confirmation(chain@, package),
{
    let mut i: usize = 0;
    while i < chain.len()
        invariant
            i <= chain@.len(),
            forall|j: int|
                0 <= j < i ==> !(#[trigger] chain@[j] is DeliveryConfirmation
                    && chain@[j]->DeliveryConfirmation_0.package_ref == package),
        decreases chain@.len() - i,
    {
        if let Some(SnapmailEntry::DeliveryConfirmation(d)) = chain.get(i) {
            if d.package_ref == package {
                return true;
            }
        }
        i += 1;
    }
    false
}

/// Whether the acknowledgment of the received mail at `inmail_id` is known to
/// have reached the mail's sender. Fails when no received mail is there.
pub fn has_ack_been_delivered(chain: &Chain, inmail_id: RecordId) -> (r: Result<bool, LookupError>)
    requires
        chain.wf(),
    ensures
        r matches Ok(b) ==> is_inmail_at(chain@, inmail_id as int) && b == ack_delivered(chain@, inmail_id),
        r matches Err(e) ==> !is_inmail_at(chain@, inmail_id as int) && e == LookupError::NotAnInMail,
{
    match chain.get(inmail_id) {
        Some(SnapmailEntry::InMail(_)) => {},
        _ => return Err(LookupError::NotAnInMail),
    }
    match chain.find_key((KIND_OUT_ACK, inmail_id, 0)) {
        None => {
            assert(!ack_delivered(chain@, inmail_id));
            Ok(false)
        },
        Some(k) => {
            let b = find_confirmation(chain, k);
            proof {
                assert forall|k2: int|
                    0 <= k2 < chain@.len() && #[trigger] record_key(chain@[k2]) == Some(
                        (KIND_OUT_ACK, inmail_id, 0 as AgentKey),
                    ) implies k2 == k by {
                    if k2 < k {
                        assert(record_key(chain@[k2]) != record_key(chain@[k as int]));
                    } else if k2 > k {
                        assert(record_key(chain@[k as int]) != record_key(chain@[k2]));
                    }
                }
            }
            Ok(b)
        },
    }
}

/// State of the received mail at `inmail_id` from its recipient's side.
pub fn get_inmail_state(chain: &Chain, inmail_id: RecordId) -> (r: Result<InMailState, LookupError>)
    requires
        chain.wf(),
    ensures
        r matches Ok(s) ==> is_inmail_at(chain@, inmail_id as int) && s == inmail_state_of(chain@, inmail_id),
        r matches Err(e) ==> !is_inmail_at(chain@, inmail_id as int) && e == LookupError::NotAnInMail,
{
    let delivered = has_ack_been_delivered(chain, inmail_id)?;
    if delivered {
        Ok(InMailState::AckDelivered)
    } else if chain.find_key((KIND_OUT_ACK, inmail_id, 0)).is_some() {
        Ok(InMailState::AckUnconfirmed)
    } else {
        Ok(InMailState::Unacknowledged)
    }
}

/// Positions of the received mails in the first `n` records that have no
/// acknowledgment yet, in log order.
pub open spec fn unacknowledged_inmails(c: Seq<SnapmailEntry>, n: int) -> Seq<RecordId>
    decreases n,
{
    if n <= 0 {
        Seq::empty()
    } else {
        let p = unacknowledged_inmails(c, n - 1);
        if c[n - 1] is InMail && !has_outack(c, (n - 1) as RecordId) {
            p.push((n - 1) as RecordId)
        } else {
            p
        }
    }
}

/// Positions of all received mails that this agent did not acknowledge, in
/// log order.
pub fn get_all_unacknowledged_inmails(chain: &Chain) -> (r: Vec<RecordId>)
    ensures
        r@ == unacknowledged_inmails(chain@, chain@.len() as int),
{
    let mut r: Vec<RecordId> = Vec::new();
    let mut i: usize = 0;
    while i < chain.len()
        invariant
            i <= chain@.len(),
            r@ == unacknowledged_inmails(chain@, i as int),
        decreases chain@.len() - i,
    {
        if let Some(SnapmailEntry::InMail(_)) = chain.get(i) {
            if chain.find_key((KIND_OUT_ACK, i, 0)).is_none() {
                r.push(i);
            }
        }
        i += 1;
    }
    r
}

/// A mail of the local log as shown to the user: joined with its derived
/// state, never stored.
pub struct MailItem {
    pub id: RecordId,
    pub author: AgentKey,
    pub mail: Mail,
    pub state: MailState,
    pub bcc: Vec<AgentKey>,
    pub date: u64,
    /// For a received mail, the latest outbound mail that replies to it.
    pub reply: Option<RecordId>,
    /// For an outbound mail, the record it replies to.
    pub reply_of: Option<RecordId>,
}

/// Positions of the outbound mails among the first `n` records, in log order.
pub open spec fn outmail_ids(c: Seq<SnapmailEntry>, n: int) -> Seq<RecordId>
    decreases n,
{
    if n <= 0 {
        Seq::empty()
    } else if c[n - 1] is OutMail {
        outmail_ids(c, n - 1).push((n - 1) as RecordId)
    } else {
        outmail_ids(c, n - 1)
    }
}

/// Positions of the received mails among the first `n` records, in log order.
pub open spec fn inmail_ids(c: Seq<SnapmailEntry>, n: int) -> Seq<RecordId>
    decreases n,
{
    if n <= 0 {
        Seq::empty()
    } else if c[n - 1] is InMail {
        inmail_ids(c, n - 1).push((n - 1) as RecordId)
    } else {
        inmail_ids(c, n - 1)
    }
}

/// The last outbound mail among the first `n` records that replies to the
/// record at `id`.
pub open spec fn latest_reply(c: Seq<SnapmailEntry>, id: RecordId, n: int) -> Option<RecordId>
    decreases n,
{
    if n <= 0 {
        None
    } else if c[n - 1] is OutMail && c[n - 1]->OutMail_0.reply_of == Some(id) {
        Some((n - 1) as RecordId)
    } else {
        latest_reply(c, id, n - 1)
    }
}

/// `item` shows the outbound mail at `id`, written by `me`.
pub open spec fn is_out_item(chain: Chain, me: AgentKey, id: RecordId, item: MailItem) -> bool {
    let o = chain@[id as int]->OutMail_0;
    &&& item.id == id
    &&& item.author == me
    &&& item.mail@ == o.mail@
    &&& item.state == MailState::Out(outmail_state_of(chain@, id))
    &&& item.bcc@ == o.bcc@
    &&& item.date == chain.times()[id as int]
    &&& item.reply is None
    &&& item.reply_of == o.reply_of
}

/// `item` shows the received mail at `id`.
pub open spec fn is_in_item(chain: Chain, id: RecordId, item: MailItem) -> bool {
    let m = chain@[id as int]->InMail_0;
    &&& item.id == id
    &&& item.author == m.from
    &&& item.mail@ == m.mail@
    &&& item.state == MailState::In(inmail_state_of(chain@, id))
    &&& item.bcc@.len() == 0
    &&& item.date == chain.times()[id as int]
    &&& item.reply == latest_reply(chain@, id, chain@.len() as int)
    &&& item.reply_of is None
}

/// The last outbound mail of the log that replies to the record at `id`.
fn find_reply(chain: &Chain, id: RecordId) -> (r: Option<RecordId>)
    ensures
        r == latest_reply(chain@, id, chain@.len() as int),
{
    let mut n: usize = chain.len();
    while n > 0
        invariant
            n <= chain@.len(),
            latest_reply(chain@, id, chain@.len() as int) == latest_reply(chain@, id, n as int),
        decreases n,
    {
        if let Some(SnapmailEntry::OutMail(o)) = chain.get(n - 1) {
            if let Some(j) = o.reply_of {
                if j == id {
                    return Some(n - 1);
                }
            }
        }
        n -= 1;
    }
    None
}

/// Every mail of the local log as a [`MailItem`]: first the outbound mails
/// (authored by `me`), then the received ones, each group in log order.
pub fn get_all_mails(chain: &Chain, me: AgentKey) -> (r: Vec<MailItem>)
    requires
        chain.wf(),
    ensures
        ({
            let outs = outmail_ids(chain@, chain@.len() as int);
            let ins = inmail_ids(chain@, chain@.len() as int);
            &&& r@.len() == outs.len() + ins.len()
            &&& forall|k: int| 0 <= k < outs.len() ==> is_out_item(*chain, me, outs[k], #[trigger] r@[k])
            &&& forall|k: int|
                0 <= k < ins.len() ==> is_in_item(*chain, ins[k], #[trigger] r@[outs.len() + k])
        }),
{
    let mut items: Vec<MailItem> = Vec::new();
    let mut i: usize = 0;
    while i < chain.len()
        invariant
            chain.wf(),
            i <= chain@.len(),
            items@.len() == outmail_ids(chain@, i as int).len(),
            forall|k: int|
                0 <= k < items@.len() ==> is_out_item(*chain, me, outmail_ids(chain@, i as int)[k], #[trigger] items@[k]),
        decreases chain@.len() - i,
    {
        if let Some(SnapmailEntry::OutMail(o)) = chain.get(i) {
            let state = get_outmail_state(chain, i);
            let st = match state {
                Ok(s) => s,
                Err(_) => OutMailState::Unacknowledged,
            };
            let item = MailItem {
                id: i,
                author: me,
                mail: o.mail.copy(),
                state: MailState::Out(st),
                bcc: crate::model::copy_vec(&o.bcc),
                date: chain.time_of(i),
                reply: None,
                reply_of: o.reply_of,
            };
            items.push(item);
        }
        i += 1;
    }
    let n_out: usize = items.len();
    let ghost outs = outmail_ids(chain@, chain@.len() as int);
    let mut j: usize = 0;
    while j < chain.len()
        invariant
            chain.wf(),
            j <= chain@.len(),
            outs == outmail_ids(chain@, chain@.len() as int),
            n_out == outs.len(),
            items@.len() == n_out + inmail_ids(chain@, j as int).len(),
            forall|k: int| 0 <= k < n_out ==> is_out_item(*chain, me, outs[k], #[trigger] items@[k]),
            forall|k: int|
                0 <= k < inmail_ids(chain@, j as int).len() ==> is_in_item(
                    *chain,
                    inmail_ids(chain@, j as int)[k],
                    #[trigger] items@[n_out + k],
                ),
        decreases chain@.len() - j,
    {
        if let Some(SnapmailEntry::InMail(m)) = chain.get(j) {
            let state = get_inmail_state(chain, j);
            let st = match state {
                Ok(s) => s,
                Err(_) => InMailState::Unacknowledged,
            };
            let item = MailItem {
                id: j,
                author: m.from,
                mail: m.mail.copy(),
                state: MailState::In(st),
                bcc: Vec::new(),
                date: chain.time_of(j),
                reply: find_reply(chain, j),
                reply_of: None,
            };
            items.push(item);
        }
        j += 1;
    }
    items
}

} // verus!
