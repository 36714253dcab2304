//! Retry scanner: which outbound mails and acknowledgments still need a
//! delivery attempt. Both scans read the log only; re-delivery reuses the
//! stored envelopes.
use vstd::prelude::*;
use crate::chain::Chain;
use crate::model::{recipients, AgentKey, DeliveryState, SnapmailEntry, RecordId};
use crate::send::{acked_mail_sender, outack_target};
use crate::state::{
    ack_confirmed, acknowledged, get_ack_delivery_state, get_delivery_state, outmail_recipients,
};

verus! {

/// An outbound mail to deliver again, and to whom.
pub struct RetryItem {
    pub outmail_id: RecordId,
    pub recipients: Vec<AgentKey>,
}

/// Keeps the recipients that have not acknowledged the mail at `id`.
pub open spec fn unacked(c: Seq<SnapmailEntry>, id: RecordId) -> spec_fn(AgentKey) -> bool {
    |a: AgentKey| !acknowledged(c, id, a)
}

/// Recipients of the outbound mail at `id` still in the unsent state, in
/// recipient order.
pub open spec fn unsent_recipients(c: Seq<SnapmailEntry>, id: RecordId) -> Seq<AgentKey> {
    recipients(c[id as int]->OutMail_0).filter(unacked(c, id))
}

/// The outbound mails among the first `n` records with an unsent recipient,
/// in log order, each with those recipients.
pub open spec fn mail_retry_plan(c: Seq<SnapmailEntry>, n: int) -> Seq<(RecordId, Seq<AgentKey>)>
    decreases n,
{
    if n <= 0 {
        Seq::empty()
    } else {
        let p = mail_retry_plan(c, n - 1);
        let id = (n - 1) as RecordId;
        if c[n - 1] is OutMail && unsent_recipients(c, id).len() > 0 {
            p.push((id, unsent_recipients(c, id)))
        } else {
            p
        }
    }
}

/// The acknowledgments among the first `n` records whose delivery is not
/// confirmed, in log order.
pub open spec fn ack_retry_plan(c: Seq<SnapmailEntry>, n: int) -> Seq<RecordId>
    decreases n,
{
    if n <= 0 {
        Seq::empty()
    } else {
        let p = ack_retry_plan(c, n - 1);
        let id = (n - 1) as RecordId;
        if c[n - 1] is OutAck && !ack_confirmed(c, id, acked_mail_sender(c, id)) {
            p.push(id)
        } else {
            p
        }
    }
}

/// Every outbound mail with a recipient still unsent, with those
/// recipients, in log order.
pub fn resend_outmails(chain: &Chain) -> (r: Vec<RetryItem>)
    ensures
        r@.len() == mail_retry_plan(chain@, chain@.len() as int).len(),
        forall|k: int|
            0 <= k < r@.len() ==> (#[trigger] r@[k]).outmail_id == mail_retry_plan(chain@, chain@.len() as int)[k].0
                && r@[k].recipients@ == mail_retry_plan(chain@, chain@.len() as int)[k].1,
{
    let mut items: Vec<RetryItem> = Vec::new();
    let mut i: usize = 0;
    while i < chain.len()
        invariant
            i <= chain@.len(),
            items@.len() == mail_retry_plan(chain@, i as int).len(),
            forall|k: int|
                0 <= k < items@.len() ==> (#[trigger] items@[k]).outmail_id == mail_retry_plan(chain@, i as int)[k].0
                    && items@[k].recipients@ == mail_retry_plan(chain@, i as int)[k].1,
        decreases chain@.len() - i,
    {
        if let Some(SnapmailEntry::OutMail(o)) = chain.get(i) {
            let all = outmail_recipients(o);
            let mut unsent: Vec<AgentKey> = Vec::new();
            let mut j: usize = 0;
            while j < all.len()
                invariant
                    i < chain@.len(),
                    chain@[i as int] is OutMail,
                    j <= all@.len(),
                    all@ == recipients(chain@[i as int]->OutMail_0),
                    unsent@ == all@.subrange(0, j as int).filter(unacked(chain@, i)),
                decreases all@.len() - j,
            {
                proof {
                    reveal(Seq::filter);
                    assert(all@.subrange(0, j + 1).drop_last() =~= all@.subrange(0, j as int));
                }
                if get_delivery_state(chain, i, all[j]) == DeliveryState::Unsent {
                    unsent.push(all[j]);
                }
                j += 1;
            }
            assert(all@.subrange(0, all@.len() as int) =~= all@);
            if unsent.len() > 0 {
                items.push(RetryItem { outmail_id: i, recipients: unsent });
            }
        }
        i += 1;
    }
    items
}

/// Every acknowledgment whose delivery is not confirmed, in log order.
pub fn resend_outacks(chain: &Chain) -> (r: Vec<RecordId>)
    requires
        chain.wf(),
    ensures
        r@ == ack_retry_plan(chain@, chain@.len() as int),
{
    let mut ids: Vec<RecordId> = Vec::new();
    let mut i: usize = 0;
    while i < chain.len()
        invariant
            chain.wf(),
            i <= chain@.len(),
            ids@ == ack_retry_plan(chain@, i as int),
        decreases chain@.len() - i,
    {
        if let Ok((_, sender)) = outack_target(chain, i) {
            if get_ack_delivery_state(chain, i, sender) == DeliveryState::Unsent {
                ids.push(i);
            }
        }
        i += 1;
    }
    ids
}

} // verus!
