use snapmail::chain::Chain;
use snapmail::compose::{compose_mail, create_outmail, filter_up, ComposeError, FileManifest};
use snapmail::model::{
    DeliveryState, DeliveryUnit, SnapmailEntry, InMailState, MailState, OutMailState,
};
use snapmail::receive::{receive_ack, receive_mail, AckOutcome, ReceiveOutcome, RejectReason};
use snapmail::retry::{resend_outacks, resend_outmails};
use snapmail::send::{
    ack_plaintext, delivery_message, find_delivery_unit, mail_plaintext, record_ack_outcome,
    send_targets, store_ack_unit, store_delivery_unit, DeliveryOutcome, DirectMessage, SendError,
};
use snapmail::state::{
    get_all_mails, get_all_unacknowledged_inmails, get_delivery_state, get_inmail_state,
    get_outmail_delivery_state, get_outmail_state, has_ack_been_delivered, LookupError,
};

const A: u64 = 0xA;
const B: u64 = 0xB;
const C: u64 = 0xC;
const D: u64 = 0xD;

// A stand-in for the host's authenticated encryption: the envelope only opens
// for the exact (sender, recipient) pair it was sealed for.
fn seal(pt: &[u8], sender: u64, recipient: u64) -> Vec<u8> {
    let mut v = sender.to_le_bytes().to_vec();
    v.extend_from_slice(&recipient.to_le_bytes());
    v.extend_from_slice(pt);
    v
}

fn open(ct: &[u8], sender: u64, recipient: u64) -> Option<Vec<u8>> {
    if ct.len() >= 16 && ct[0..8] == sender.to_le_bytes() && ct[8..16] == recipient.to_le_bytes() {
        Some(ct[16..].to_vec())
    } else {
        None
    }
}

fn sign(pt: &[u8], who: u64) -> Vec<u8> {
    let mut v = who.to_le_bytes().to_vec();
    let sum: u64 = pt.iter().map(|b| *b as u64).sum();
    v.extend_from_slice(&sum.to_le_bytes());
    v.extend_from_slice(&(pt.len() as u64).to_le_bytes());
    v
}

fn verify(sig: &[u8], pt: &[u8], who: u64) -> bool {
    sign(pt, who) == sig
}

fn compose(chain: &mut Chain, to: Vec<u64>, cc: Vec<u64>, bcc: Vec<u64>) -> usize {
    compose_mail(
        chain,
        "hello".to_string(),
        "body text".to_string(),
        None,
        to,
        cc,
        bcc,
        &Vec::new(),
        100,
    )
    .unwrap()
}

// Runs the send pipeline of `sender` for the outbound mail at `id`, towards
// `targets` (all recipients when None): reuses stored envelopes, seals the
// missing ones, and returns the messages to deliver.
fn send(chain: &mut Chain, sender: u64, id: usize, targets: Option<&Vec<u64>>) -> Vec<(u64, DeliveryUnit)> {
    let pt = mail_plaintext(chain, id).unwrap();
    let sig = sign(&pt, sender);
    let mut out = Vec::new();
    for r in send_targets(chain, id, targets).unwrap() {
        let unit_id = match find_delivery_unit(chain, id, r) {
            Some(u) => u,
            None => store_delivery_unit(chain, id, r, seal(&pt, sender, r), sig.clone(), 200).unwrap(),
        };
        match delivery_message(chain, unit_id).unwrap() {
            (peer, DirectMessage::Mail(u)) => out.push((peer, u)),
            _ => panic!("expected a mail envelope"),
        }
    }
    out
}

fn deliver_mail(chain: &mut Chain, me: u64, from: u64, unit: &DeliveryUnit) -> ReceiveOutcome {
    let d = open(&unit.ciphertext, from, me);
    let ok = d.as_ref().map(|p| verify(&unit.signature, p, from)).unwrap_or(false);
    receive_mail(chain, from, unit, d, ok, 300)
}

fn make_ack(chain: &mut Chain, me: u64, outack: usize) -> (u64, DeliveryUnit) {
    let pt = ack_plaintext(chain, outack).unwrap();
    let inmail_sender = match chain.get(match chain.get(outack) {
        Some(SnapmailEntry::OutAck(a)) => a.inmail_ref,
        _ => panic!("expected an acknowledgment"),
    }) {
        Some(SnapmailEntry::InMail(m)) => m.from,
        _ => panic!("expected a received mail"),
    };
    let uid = store_ack_unit(chain, outack, seal(&pt, me, inmail_sender), sign(&pt, me), 400).unwrap();
    match delivery_message(chain, uid).unwrap() {
        (peer, DirectMessage::Ack(u)) => (peer, u),
        _ => panic!("expected an acknowledgment envelope"),
    }
}

fn deliver_ack(chain: &mut Chain, me: u64, from: u64, unit: &DeliveryUnit) -> AckOutcome {
    let d = open(&unit.ciphertext, from, me);
    let ok = d.as_ref().map(|p| verify(&unit.signature, p, from)).unwrap_or(false);
    receive_ack(chain, from, unit, d, ok, 500)
}

fn count_units(chain: &Chain, outmail: usize, recipient: u64) -> usize {
    (0..chain.len())
        .filter(|i| match chain.get(*i) {
            Some(SnapmailEntry::PendingMail(p)) => p.unit.outmail_ref == outmail && p.recipient == recipient,
            _ => false,
        })
        .count()
}

#[test]
fn filter_up_keeps_order_and_drops_visible() {
    assert_eq!(filter_up(&vec![2, 4], &vec![1, 2, 3, 4, 5, 1]), vec![1, 3, 5, 1]);
    assert_eq!(filter_up(&vec![], &vec![7, 8]), vec![7, 8]);
    assert_eq!(filter_up(&vec![7, 8], &vec![]), Vec::<u64>::new());
}

#[test]
fn compose_rejects_empty_recipients() {
    let mut a = Chain::new();
    let r = compose_mail(&mut a, "s".to_string(), "b".to_string(), None, vec![], vec![], vec![], &Vec::new(), 1);
    assert_eq!(r, Err(ComposeError::NoRecipients));
    assert_eq!(a.len(), 0);
}

#[test]
fn compose_rejects_unknown_reply_target() {
    let mut a = Chain::new();
    let r = compose_mail(&mut a, "s".to_string(), "b".to_string(), Some(0), vec![B], vec![], vec![], &Vec::new(), 1);
    assert_eq!(r, Err(ComposeError::UnknownReplyTarget));
    assert_eq!(a.len(), 0);
    let first = compose(&mut a, vec![B], vec![], vec![]);
    let units = send(&mut a, A, first, None);
    assert_eq!(units.len(), 1);
    // a delivery envelope is no valid reply target
    let r = compose_mail(&mut a, "s".to_string(), "b".to_string(), Some(1), vec![B], vec![], vec![], &Vec::new(), 1);
    assert_eq!(r, Err(ComposeError::UnknownReplyTarget));
    let r = compose_mail(&mut a, "re".to_string(), "b".to_string(), Some(first), vec![B], vec![], vec![], &Vec::new(), 1);
    assert_eq!(r, Ok(2));
}

#[test]
fn compose_builds_attachments_and_dedups_bcc() {
    let a = Chain::new();
    let files = vec![(
        42u64,
        FileManifest {
            data_hash: "h1".to_string(),
            filename: "a.txt".to_string(),
            filetype: "text".to_string(),
            orig_filesize: 12,
            chunks: vec![1, 2],
        },
    )];
    let o = create_outmail(&a, "s".to_string(), "b".to_string(), None, vec![B], vec![C], vec![B, C, D, D], &files)
        .unwrap();
    assert_eq!(o.bcc, vec![D, D]);
    assert_eq!(o.mail.to, vec![B]);
    assert_eq!(o.mail.cc, vec![C]);
    assert_eq!(o.mail.attachments.len(), 1);
    assert_eq!(o.mail.attachments[0].manifest_ref, 42);
    assert_eq!(o.mail.attachments[0].filename, "a.txt");
    assert_eq!(o.mail.attachments[0].data_hash, "h1");
    assert_eq!(o.mail.attachments[0].filetype, "text");
    assert_eq!(o.mail.attachments[0].size, 12);
}

#[test]
fn new_outmail_is_unsent_for_every_recipient() {
    let mut a = Chain::new();
    let id = compose(&mut a, vec![B], vec![C], vec![D]);
    assert_eq!(
        get_outmail_delivery_state(&a, id).unwrap(),
        vec![(B, DeliveryState::Unsent), (C, DeliveryState::Unsent), (D, DeliveryState::Unsent)]
    );
    assert_eq!(get_outmail_state(&a, id), Ok(OutMailState::Unacknowledged));
}

#[test]
fn bcc_duplicate_of_to_gets_one_envelope() {
    let mut a = Chain::new();
    let id = compose(&mut a, vec![B], vec![], vec![B]);
    match a.get(id) {
        Some(SnapmailEntry::OutMail(o)) => assert!(o.bcc.is_empty()),
        _ => panic!("expected an outbound mail"),
    }
    let units = send(&mut a, A, id, None);
    assert_eq!(units.len(), 1);
    assert_eq!(units[0].0, B);
    assert_eq!(count_units(&a, id, B), 1);
}

#[test]
fn round_trip_reaches_acknowledged_and_stays() {
    let mut a = Chain::new();
    let mut b = Chain::new();
    let id = compose(&mut a, vec![B], vec![], vec![]);
    let units = send(&mut a, A, id, None);
    let (peer, unit) = &units[0];
    assert_eq!(*peer, B);
    let outcome = deliver_mail(&mut b, B, A, unit);
    assert_eq!(outcome, ReceiveOutcome::Accepted { inmail: 0, outack: 1 });
    assert_eq!(outcome.response(), DeliveryOutcome::Success);
    match b.get(0) {
        Some(SnapmailEntry::InMail(m)) => {
            assert_eq!(m.from, A);
            assert_eq!(m.mail.subject, "hello");
            assert_eq!(m.mail.body, "body text");
            assert_eq!(m.mail.to, vec![B]);
            assert_eq!(m.received_at, 300);
            assert_eq!(m.outmail_ref, id);
        }
        _ => panic!("expected a received mail"),
    }
    assert_eq!(get_inmail_state(&b, 0), Ok(InMailState::AckUnconfirmed));
    let (ack_peer, ack_unit) = make_ack(&mut b, B, 1);
    assert_eq!(ack_peer, A);
    let ack = deliver_ack(&mut a, A, B, &ack_unit);
    assert!(matches!(ack, AckOutcome::Accepted(_)));
    assert_eq!(get_delivery_state(&a, id, B), DeliveryState::Acknowledged);
    assert_eq!(get_outmail_state(&a, id), Ok(OutMailState::FullyAcknowledged));
    for _ in 0..3 {
        assert!(resend_outmails(&a).is_empty());
        assert_eq!(get_delivery_state(&a, id, B), DeliveryState::Acknowledged);
    }
    // the ack's own delivery is confirmed once the call succeeded
    assert_eq!(has_ack_been_delivered(&b, 0), Ok(false));
    assert_eq!(resend_outacks(&b), vec![1]);
    let conf = record_ack_outcome(&mut b, 1, ack.response(), 600).unwrap();
    assert!(conf.is_some());
    assert_eq!(has_ack_been_delivered(&b, 0), Ok(true));
    assert_eq!(get_inmail_state(&b, 0), Ok(InMailState::AckDelivered));
    assert!(resend_outacks(&b).is_empty());
    // a second success keeps the single confirmation
    let len = b.len();
    assert_eq!(record_ack_outcome(&mut b, 1, DeliveryOutcome::Success, 700).unwrap(), conf);
    assert_eq!(b.len(), len);
}

#[test]
fn unreachable_recipient_stays_unsent_with_one_envelope() {
    let mut a = Chain::new();
    let id = compose(&mut a, vec![B], vec![], vec![]);
    let _ = send(&mut a, A, id, None); // the transport times out: nothing comes back
    assert_eq!(get_delivery_state(&a, id, B), DeliveryState::Unsent);
    let first: Vec<(usize, Vec<u64>)> =
        resend_outmails(&a).into_iter().map(|r| (r.outmail_id, r.recipients)).collect();
    assert_eq!(first, vec![(id, vec![B])]);
    for _ in 0..5 {
        let plan = resend_outmails(&a);
        let again: Vec<(usize, Vec<u64>)> =
            plan.iter().map(|r| (r.outmail_id, r.recipients.clone())).collect();
        assert_eq!(again, first);
        for item in &plan {
            let _ = send(&mut a, A, item.outmail_id, Some(&item.recipients));
        }
        assert_eq!(get_delivery_state(&a, id, B), DeliveryState::Unsent);
        assert_eq!(count_units(&a, id, B), 1);
    }
}

#[test]
fn retry_only_targets_unsent_recipients() {
    let mut a = Chain::new();
    let mut b = Chain::new();
    let id = compose(&mut a, vec![B], vec![C], vec![]);
    let units = send(&mut a, A, id, None);
    assert_eq!(units.len(), 2);
    let _ = deliver_mail(&mut b, B, A, &units[0].1);
    let (_, ack_unit) = make_ack(&mut b, B, 1);
    assert!(matches!(deliver_ack(&mut a, A, B, &ack_unit), AckOutcome::Accepted(_)));
    let plan = resend_outmails(&a);
    assert_eq!(plan.len(), 1);
    assert_eq!(plan[0].outmail_id, id);
    assert_eq!(plan[0].recipients, vec![C]);
    let before = a.len();
    let again = send(&mut a, A, id, Some(&plan[0].recipients));
    assert_eq!(again.len(), 1);
    assert_eq!(again[0].0, C);
    assert_eq!(a.len(), before);
}

#[test]
fn tampered_ciphertext_creates_nothing() {
    let mut a = Chain::new();
    let mut b = Chain::new();
    let id = compose(&mut a, vec![B], vec![], vec![]);
    let mut unit = send(&mut a, A, id, None).remove(0).1;
    unit.ciphertext[3] ^= 1;
    let outcome = deliver_mail(&mut b, B, A, &unit);
    assert_eq!(outcome, ReceiveOutcome::Rejected(RejectReason::DecryptionFailed));
    assert_eq!(outcome.response(), DeliveryOutcome::Failure);
    assert_eq!(b.len(), 0);
    assert!(get_all_unacknowledged_inmails(&b).is_empty());
}

#[test]
fn swapped_roles_do_not_open() {
    let mut a = Chain::new();
    let id = compose(&mut a, vec![B], vec![], vec![]);
    let unit = send(&mut a, A, id, None).remove(0).1;
    // B's envelope handed to A as if B had sent it
    let mut other = Chain::new();
    let outcome = deliver_mail(&mut other, A, B, &unit);
    assert_eq!(outcome, ReceiveOutcome::Rejected(RejectReason::DecryptionFailed));
    assert_eq!(other.len(), 0);
}

#[test]
fn bad_signature_and_bad_plaintext_are_rejected() {
    let mut b = Chain::new();
    let unit = DeliveryUnit { outmail_ref: 0, ciphertext: vec![], signature: vec![] };
    let r = receive_mail(&mut b, A, &unit, Some(vec![1, 2, 3]), false, 1);
    assert_eq!(r, ReceiveOutcome::Rejected(RejectReason::BadSignature));
    let r = receive_mail(&mut b, A, &unit, Some(vec![1, 2, 3]), true, 1);
    assert_eq!(r, ReceiveOutcome::Rejected(RejectReason::Malformed));
    let r = receive_mail(&mut b, A, &unit, None, true, 1);
    assert_eq!(r, ReceiveOutcome::Rejected(RejectReason::DecryptionFailed));
    assert_eq!(b.len(), 0);
}

#[test]
fn duplicate_delivery_is_recorded_once() {
    let mut a = Chain::new();
    let mut b = Chain::new();
    let id = compose(&mut a, vec![B], vec![], vec![]);
    let unit = send(&mut a, A, id, None).remove(0).1;
    assert_eq!(deliver_mail(&mut b, B, A, &unit), ReceiveOutcome::Accepted { inmail: 0, outack: 1 });
    let second = deliver_mail(&mut b, B, A, &unit);
    assert_eq!(second, ReceiveOutcome::Duplicate { inmail: 0 });
    assert_eq!(second.response(), DeliveryOutcome::Success);
    assert_eq!(b.len(), 2);
}

#[test]
fn ack_checks() {
    let mut a = Chain::new();
    let id = compose(&mut a, vec![B], vec![], vec![]);
    let pt = (id as u64).to_le_bytes().to_vec();
    // from someone who is not a recipient
    let unit = DeliveryUnit { outmail_ref: id, ciphertext: vec![], signature: vec![] };
    assert_eq!(
        receive_ack(&mut a, C, &unit, Some(pt.clone()), true, 1),
        AckOutcome::Rejected(RejectReason::UnknownMail)
    );
    // plaintext naming another mail than the envelope
    let other = DeliveryUnit { outmail_ref: id + 1, ciphertext: vec![], signature: vec![] };
    assert_eq!(
        receive_ack(&mut a, B, &other, Some(pt.clone()), true, 1),
        AckOutcome::Rejected(RejectReason::Malformed)
    );
    assert_eq!(
        receive_ack(&mut a, B, &unit, Some(vec![1, 2]), true, 1),
        AckOutcome::Rejected(RejectReason::Malformed)
    );
    assert_eq!(
        receive_ack(&mut a, B, &unit, Some(pt.clone()), false, 1),
        AckOutcome::Rejected(RejectReason::BadSignature)
    );
    assert_eq!(receive_ack(&mut a, B, &unit, None, true, 1), AckOutcome::Rejected(RejectReason::DecryptionFailed));
    assert_eq!(a.len(), 1);
    let first = receive_ack(&mut a, B, &unit, Some(pt.clone()), true, 1);
    assert_eq!(first, AckOutcome::Accepted(1));
    assert_eq!(receive_ack(&mut a, B, &unit, Some(pt), true, 1), AckOutcome::Duplicate(1));
    assert_eq!(first.response(), DeliveryOutcome::Success);
    assert_eq!(a.len(), 2);
}

#[test]
fn lookup_and_send_errors() {
    let mut a = Chain::new();
    let id = compose(&mut a, vec![B], vec![], vec![]);
    assert_eq!(get_outmail_state(&a, 5), Err(LookupError::NotAnOutMail));
    assert_eq!(get_outmail_delivery_state(&a, 5), Err(LookupError::NotAnOutMail));
    assert_eq!(has_ack_been_delivered(&a, id), Err(LookupError::NotAnInMail));
    assert_eq!(get_inmail_state(&a, id), Err(LookupError::NotAnInMail));
    assert_eq!(mail_plaintext(&a, 3), Err(SendError::NotAnOutMail));
    assert_eq!(store_delivery_unit(&mut a, 3, B, vec![], vec![], 1), Err(SendError::NotAnOutMail));
    assert_eq!(store_delivery_unit(&mut a, id, C, vec![], vec![], 1), Err(SendError::NotARecipient));
    assert!(matches!(delivery_message(&a, id), Err(SendError::NotAnEnvelope)));
    assert_eq!(ack_plaintext(&a, id), Err(SendError::NotAnOutAck));
    assert_eq!(store_ack_unit(&mut a, id, vec![], vec![], 1), Err(SendError::NotAnOutAck));
    assert_eq!(record_ack_outcome(&mut a, id, DeliveryOutcome::Success, 1), Err(SendError::NotAnOutAck));
    assert_eq!(a.len(), 1);
}

#[test]
fn failed_ack_delivery_records_nothing() {
    let mut a = Chain::new();
    let mut b = Chain::new();
    let id = compose(&mut a, vec![B], vec![], vec![]);
    let unit = send(&mut a, A, id, None).remove(0).1;
    let _ = deliver_mail(&mut b, B, A, &unit);
    let _ = make_ack(&mut b, B, 1);
    let len = b.len();
    for outcome in [DeliveryOutcome::Failure, DeliveryOutcome::Timeout, DeliveryOutcome::Unreachable] {
        assert_eq!(record_ack_outcome(&mut b, 1, outcome, 9), Ok(None));
    }
    assert_eq!(b.len(), len);
    assert_eq!(resend_outacks(&b), vec![1]);
    // storing the ack envelope again reuses it
    let again = store_ack_unit(&mut b, 1, vec![9], vec![9], 10).unwrap();
    assert_eq!(again, 2);
    assert_eq!(b.len(), len);
}

#[test]
fn mail_list_joins_state_and_replies() {
    let mut a = Chain::new();
    let mut b = Chain::new();
    let id = compose(&mut a, vec![B], vec![], vec![C]);
    let units = send(&mut a, A, id, None);
    let to_b = units.iter().find(|(p, _)| *p == B).unwrap().1.copy();
    let _ = deliver_mail(&mut b, B, A, &to_b);
    assert_eq!(get_all_unacknowledged_inmails(&b), Vec::<usize>::new());
    let reply = compose_mail(&mut b, "re".to_string(), "ok".to_string(), Some(0), vec![A], vec![], vec![], &Vec::new(), 900)
        .unwrap();
    let items = get_all_mails(&b, B);
    assert_eq!(items.len(), 2);
    assert_eq!(items[0].id, reply);
    assert_eq!(items[0].author, B);
    assert_eq!(items[0].reply_of, Some(0));
    assert_eq!(items[0].date, 900);
    assert_eq!(items[0].state, MailState::Out(OutMailState::Unacknowledged));
    assert_eq!(items[1].id, 0);
    assert_eq!(items[1].author, A);
    assert_eq!(items[1].reply, Some(reply));
    assert_eq!(items[1].date, 300);
    assert!(items[1].bcc.is_empty());
    assert_eq!(items[1].state, MailState::In(InMailState::AckUnconfirmed));
    // the blind recipient is not named in what B received
    assert_eq!(items[1].mail.to, vec![B]);
    assert!(items[1].mail.cc.is_empty());
    let sender_items = get_all_mails(&a, A);
    assert_eq!(sender_items.len(), 1);
    assert_eq!(sender_items[0].bcc, vec![C]);
    assert_eq!(sender_items[0].date, 100);
}

#[test]
fn send_targets_lists_each_recipient_once() {
    let mut a = Chain::new();
    let id = compose(&mut a, vec![B, B, C], vec![C, D], vec![D, B]);
    let mut t = send_targets(&a, id, None).unwrap();
    t.sort();
    assert_eq!(t, vec![B, C, D]);
    let only = vec![D, D, 0x99, B];
    let mut t = send_targets(&a, id, Some(&only)).unwrap();
    t.sort();
    assert_eq!(t, vec![B, D]);
    let units = send(&mut a, A, id, None);
    assert_eq!(units.len(), 3);
    for r in [B, C, D] {
        assert_eq!(count_units(&a, id, r), 1);
        assert_eq!(units.iter().filter(|(p, _)| *p == r).count(), 1);
    }
}

#[test]
fn store_delivery_unit_stores_for_a_named_recipient() {
    let mut a = Chain::new();
    let id = compose(&mut a, vec![B], vec![], vec![C]);
    let first = store_delivery_unit(&mut a, id, C, vec![1, 2], vec![3], 7);
    assert_eq!(first, Ok(1));
    assert_eq!(a.len(), 2);
    match a.get(1) {
        Some(SnapmailEntry::PendingMail(p)) => {
            assert_eq!(p.recipient, C);
            assert_eq!(p.unit.outmail_ref, id);
            assert_eq!(p.unit.ciphertext, vec![1, 2]);
            assert_eq!(p.unit.signature, vec![3]);
        }
        _ => panic!("expected an envelope"),
    }
    assert_eq!(store_delivery_unit(&mut a, id, C, vec![9], vec![9], 8), Ok(1));
    assert_eq!(a.len(), 2);
    assert_eq!(find_delivery_unit(&a, id, C), Some(1));
}
