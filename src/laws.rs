//! Properties of the protocol that relate several of its operations.
use vstd::prelude::*;
use crate::chain::{entry_wf, extends, has_key, log_wf, record_key, KIND_CONFIRMATION, KIND_IN_ACK};
use crate::codec::{enc_mail, lemma_enc_mail_injective};
use crate::compose::{composed, not_in, FileManifest};
use crate::model::{AgentKey, DeliveryState, SnapmailEntry, MailView, OutMail, RecordId};
use crate::retry::{ack_retry_plan, mail_retry_plan, unacked, unsent_recipients};
use crate::state::{acknowledged, delivery_state_of, ack_confirmed};

verus! {

/// Opening returns what was sealed: the only mail whose canonical encoding
/// equals the plaintext sealed for `m` is `m` itself, so a recipient that
/// opens the envelope materializes exactly `m`.
pub proof fn law_seal_open_round_trip(m: MailView, opened: MailView)
    requires
        enc_mail(opened) == enc_mail(m),
        enc_mail(m).len() <= u64::MAX,
    ensures
        opened == m,
{
    lemma_enc_mail_injective(opened, m);
}

/// An outbound mail that was just appended is unsent to every recipient:
/// no acknowledgment can refer to a record that comes after it.
pub proof fn law_new_outmail_is_unsent(c: Seq<SnapmailEntry>, id: RecordId, r: AgentKey)
    requires
        log_wf(c),
        c.len() > 0,
        id == c.len() - 1,
    ensures
        delivery_state_of(c, id, r) == DeliveryState::Unsent,
{
    if has_key(c, (KIND_IN_ACK, id, r)) {
        let k = choose|k: int| 0 <= k < c.len() && #[trigger] record_key(c[k]) == Some((KIND_IN_ACK, id, r));
        assert(entry_wf(c, k));
    }
}

/// Once acknowledged, always acknowledged: the log only grows.
pub proof fn law_acknowledged_persists(c1: Seq<SnapmailEntry>, c2: Seq<SnapmailEntry>, outmail: RecordId, r: AgentKey)
    requires
        extends(c1, c2),
        acknowledged(c1, outmail, r),
    ensures
        acknowledged(c2, outmail, r),
{
    let k = choose|k: int| 0 <= k < c1.len() && #[trigger] record_key(c1[k]) == Some((KIND_IN_ACK, outmail, r));
    assert(c2[k] == c2.subrange(0, c1.len() as int)[k]);
}

/// Every entry of the mail retry plan lists exactly the unsent recipients of
/// an outbound mail of the scanned records.
proof fn lemma_plan_entries(c: Seq<SnapmailEntry>, n: int, k: int)
    requires
        0 <= n <= c.len(),
        0 <= k < mail_retry_plan(c, n).len(),
    ensures
        mail_retry_plan(c, n)[k].0 < n,
        mail_retry_plan(c, n)[k].1 == unsent_recipients(c, mail_retry_plan(c, n)[k].0),
    decreases n,
{
    if k < mail_retry_plan(c, n - 1).len() {
        lemma_plan_entries(c, n - 1, k);
    }
}

/// A recipient that acknowledged a mail is never among those the retry
/// scanner re-delivers it to.
pub proof fn law_acknowledged_not_retried(c: Seq<SnapmailEntry>, outmail: RecordId, r: AgentKey, k: int)
    requires
        acknowledged(c, outmail, r),
        0 <= k < mail_retry_plan(c, c.len() as int).len(),
        mail_retry_plan(c, c.len() as int)[k].0 == outmail,
    ensures
        !mail_retry_plan(c, c.len() as int)[k].1.contains(r),
{
    lemma_plan_entries(c, c.len() as int, k);
    let u = unsent_recipients(c, outmail);
    if u.contains(r) {
        let j = choose|j: int| 0 <= j < u.len() && u[j] == r;
        let all = crate::model::recipients(c[outmail as int]->OutMail_0);
        all.lemma_filter_pred(unacked(c, outmail), j);
    }
}

/// A recipient never has two envelopes for the same outbound mail.
pub proof fn law_single_envelope(c: Seq<SnapmailEntry>, i: int, j: int)
    requires
        log_wf(c),
        0 <= i < c.len(),
        0 <= j < c.len(),
        c[i] is PendingMail,
        c[j] is PendingMail,
        c[i]->PendingMail_0.unit.outmail_ref == c[j]->PendingMail_0.unit.outmail_ref,
        c[i]->PendingMail_0.recipient == c[j]->PendingMail_0.recipient,
    ensures
        i == j,
{
    if i < j {
        assert(record_key(c[i]) != record_key(c[j]));
    } else if j < i {
        assert(record_key(c[j]) != record_key(c[i]));
    }
}

proof fn lemma_has_key_push(c: Seq<SnapmailEntry>, e: SnapmailEntry, k: (u8, RecordId, AgentKey))
    ensures
        has_key(c.push(e), k) <==> has_key(c, k) || record_key(e) == Some(k),
{
    let d = c.push(e);
    if has_key(c, k) {
        let i = choose|i: int| 0 <= i < c.len() && #[trigger] record_key(c[i]) == Some(k);
        assert(d[i] == c[i]);
    }
    if record_key(e) == Some(k) {
        assert(d[c.len() as int] == e);
    }
    if has_key(d, k) {
        let i = choose|i: int| 0 <= i < d.len() && #[trigger] record_key(d[i]) == Some(k);
        if i < c.len() {
            assert(d[i] == c[i]);
        }
    }
}

/// Storing an envelope (what a delivery attempt itself adds to the log)
/// changes neither retry plan: a second scan right after retries the same
/// mails, for the same recipients, and the same acknowledgments.
pub proof fn law_retry_stable_under_envelopes(c: Seq<SnapmailEntry>, e: SnapmailEntry)
    requires
        log_wf(c),
        e is PendingMail || e is PendingAck,
    ensures
        mail_retry_plan(c.push(e), c.len() + 1 as int) == mail_retry_plan(c, c.len() as int),
        ack_retry_plan(c.push(e), c.len() + 1 as int) == ack_retry_plan(c, c.len() as int),
{
    let d = c.push(e);
    assert forall|id: RecordId, a: AgentKey| acknowledged(d, id, a) == acknowledged(c, id, a) by {
        lemma_has_key_push(c, e, (KIND_IN_ACK, id, a));
    }
    assert forall|id: RecordId, a: AgentKey| ack_confirmed(d, id, a) == ack_confirmed(c, id, a) by {
        lemma_has_key_push(c, e, (KIND_CONFIRMATION, id, a));
    }
    lemma_plans_agree(c, e, c.len() as int);
    assert(d[c.len() as int] == e);
}

proof fn lemma_plans_agree(c: Seq<SnapmailEntry>, e: SnapmailEntry, n: int)
    requires
        log_wf(c),
        0 <= n <= c.len(),
        e is PendingMail || e is PendingAck,
        forall|id: RecordId, a: AgentKey| acknowledged(c.push(e), id, a) == acknowledged(c, id, a),
        forall|id: RecordId, a: AgentKey| ack_confirmed(c.push(e), id, a) == ack_confirmed(c, id, a),
    ensures
        mail_retry_plan(c.push(e), n) == mail_retry_plan(c, n),
        ack_retry_plan(c.push(e), n) == ack_retry_plan(c, n),
    decreases n,
{
    let d = c.push(e);
    if n > 0 {
        lemma_plans_agree(c, e, n - 1);
        let id = (n - 1) as RecordId;
        assert(d[n - 1] == c[n - 1]);
        assert(unacked(d, id) =~= unacked(c, id));
        if c[n - 1] is OutAck {
            assert(entry_wf(c, n - 1));
            let m = c[n - 1]->OutAck_0.inmail_ref as int;
            assert(d[m] == c[m]);
        }
    }
}

/// Dropping the last record of a well-formed log leaves it well formed.
proof fn lemma_wf_drop_last(c: Seq<SnapmailEntry>, e: SnapmailEntry)
    requires
        log_wf(c.push(e)),
    ensures
        log_wf(c),
{
    let d = c.push(e);
    assert forall|i: int| 0 <= i < c.len() implies #[trigger] entry_wf(c, i) by {
        assert(entry_wf(d, i));
        assert(d[i] == c[i]);
        match c[i] {
            SnapmailEntry::OutMail(o) => {
                if let Some(j) = o.reply_of {
                    assert(d[j as int] == c[j as int]);
                }
            },
            SnapmailEntry::PendingMail(p) => assert(d[p.unit.outmail_ref as int] == c[p.unit.outmail_ref as int]),
            SnapmailEntry::InMail(_) => {},
            SnapmailEntry::OutAck(a) => assert(d[a.inmail_ref as int] == c[a.inmail_ref as int]),
            SnapmailEntry::PendingAck(p) => assert(d[p.outack_ref as int] == c[p.outack_ref as int]),
            SnapmailEntry::InAck(a) => assert(d[a.outmail_ref as int] == c[a.outmail_ref as int]),
            SnapmailEntry::DeliveryConfirmation(x) => assert(d[x.package_ref as int] == c[x.package_ref as int]),
        }
    }
    assert forall|i: int, j: int|
        0 <= i < j < c.len() && (#[trigger] record_key(c[i])) is Some implies record_key(c[i]) != #[trigger] record_key(c[j]) by {
        assert(d[i] == c[i] && d[j] == c[j]);
    }
}

/// Any number of delivery attempts, which only store envelopes, leave every
/// recipient's delivery state and both retry plans as they were: a recipient
/// that never answers stays unsent and is retried by every scan, with its one
/// stored envelope.
pub proof fn law_retry_runs_change_no_state(c: Seq<SnapmailEntry>, extra: Seq<SnapmailEntry>)
    requires
        log_wf(c + extra),
        forall|k: int| 0 <= k < extra.len() ==> #[trigger] extra[k] is PendingMail || extra[k] is PendingAck,
    ensures
        forall|o: RecordId, r: AgentKey| acknowledged(c + extra, o, r) == acknowledged(c, o, r),
        mail_retry_plan(c + extra, (c + extra).len() as int) == mail_retry_plan(c, c.len() as int),
        ack_retry_plan(c + extra, (c + extra).len() as int) == ack_retry_plan(c, c.len() as int),
    decreases extra.len(),
{
    if extra.len() == 0 {
        assert(c + extra =~= c);
    } else {
        let rest = extra.drop_last();
        let e = extra.last();
        let d = c + rest;
        assert(c + extra =~= d.push(e));
        lemma_wf_drop_last(d, e);
        assert forall|k: int| 0 <= k < rest.len() implies #[trigger] rest[k] is PendingMail || rest[k] is PendingAck by {
            assert(rest[k] == extra[k]);
        }
        law_retry_runs_change_no_state(c, rest);
        law_retry_stable_under_envelopes(d, e);
        assert forall|o: RecordId, r: AgentKey| acknowledged(d.push(e), o, r) == acknowledged(d, o, r) by {
            lemma_has_key_push(d, e, (KIND_IN_ACK, o, r));
        }
    }
}

/// Blind recipients stay blind: none of them is named in the visible
/// recipient lists of the mail, and the payload every recipient receives is
/// the encoding of that mail alone.
pub proof fn law_bcc_not_in_payload(
    o: OutMail,
    subject: Seq<char>,
    body: Seq<char>,
    reply_of: Option<RecordId>,
    to: Seq<AgentKey>,
    cc: Seq<AgentKey>,
    bcc: Seq<AgentKey>,
    files: Seq<(u64, FileManifest)>,
    k: int,
)
    requires
        composed(o, subject, body, reply_of, to, cc, bcc, files),
        0 <= k < o.bcc@.len(),
    ensures
        !o.mail.to@.contains(o.bcc@[k]),
        !o.mail.cc@.contains(o.bcc@[k]),
{
    let b1 = bcc.filter(not_in(to));
    let x = o.bcc@[k];
    b1.lemma_filter_pred(not_in(cc), k);
    b1.lemma_filter_contains_rev(not_in(cc), x);
    let j = choose|j: int| 0 <= j < b1.len() && b1[j] == x;
    bcc.lemma_filter_pred(not_in(to), j);
}

} // verus!
