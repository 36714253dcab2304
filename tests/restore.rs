use snapmail::chain::{Chain, RestoreError};
use snapmail::compose::compose_mail;
use snapmail::model::{
    DeliveryConfirmation, DeliveryUnit, SnapmailEntry, InAck, InMail, Mail, OutAck, OutMail, PendingAck,
    PendingMail,
};
use snapmail::send::{find_ack_unit, store_ack_unit};
use snapmail::receive::{receive_mail, ReceiveOutcome};
use snapmail::codec::encode_mail;

fn mail(to: Vec<u64>) -> Mail {
    Mail { subject: "s".to_string(), body: "b".to_string(), to, cc: vec![], attachments: vec![] }
}

fn unit(outmail_ref: usize) -> DeliveryUnit {
    DeliveryUnit { outmail_ref, ciphertext: vec![1], signature: vec![2] }
}

#[test]
fn restore_accepts_a_well_formed_history() {
    let mut c = Chain::new();
    assert_eq!(c.append_checked(SnapmailEntry::OutMail(OutMail { mail: mail(vec![5]), bcc: vec![], reply_of: None }), 1), Ok(0));
    assert_eq!(c.append_checked(SnapmailEntry::PendingMail(PendingMail { unit: unit(0), recipient: 5 }), 2), Ok(1));
    assert_eq!(c.append_checked(SnapmailEntry::InAck(InAck { outmail_ref: 0, from: 5 }), 3), Ok(2));
    assert_eq!(
        c.append_checked(SnapmailEntry::InMail(InMail { mail: mail(vec![1]), from: 9, received_at: 4, outmail_ref: 7, signature: vec![] }), 4),
        Ok(3)
    );
    assert_eq!(c.append_checked(SnapmailEntry::OutAck(OutAck { inmail_ref: 3 }), 5), Ok(4));
    assert_eq!(c.append_checked(SnapmailEntry::PendingAck(PendingAck { outack_ref: 4, unit: unit(7) }), 6), Ok(5));
    assert_eq!(c.append_checked(SnapmailEntry::DeliveryConfirmation(DeliveryConfirmation { package_ref: 4, recipient: 9 }), 7), Ok(6));
    assert_eq!(c.len(), 7);
    assert_eq!(c.time_of(6), 7);
    assert_eq!(find_ack_unit(&c, 4), Some(5));
    assert_eq!(find_ack_unit(&c, 3), None);
}

#[test]
fn restore_refuses_dangling_and_duplicate_records() {
    let mut c = Chain::new();
    // refers forward
    assert_eq!(c.append_checked(SnapmailEntry::PendingMail(PendingMail { unit: unit(0), recipient: 5 }), 1), Err(RestoreError::Invalid));
    // no recipient at all
    assert_eq!(c.append_checked(SnapmailEntry::OutMail(OutMail { mail: mail(vec![]), bcc: vec![], reply_of: None }), 1), Err(RestoreError::Invalid));
    assert_eq!(c.append_checked(SnapmailEntry::OutMail(OutMail { mail: mail(vec![5]), bcc: vec![], reply_of: None }), 1), Ok(0));
    // not a recipient of that mail
    assert_eq!(c.append_checked(SnapmailEntry::InAck(InAck { outmail_ref: 0, from: 6 }), 2), Err(RestoreError::Invalid));
    // wrong kind of target
    assert_eq!(c.append_checked(SnapmailEntry::OutAck(OutAck { inmail_ref: 0 }), 2), Err(RestoreError::Invalid));
    assert_eq!(c.append_checked(SnapmailEntry::InAck(InAck { outmail_ref: 0, from: 5 }), 2), Ok(1));
    assert_eq!(c.append_checked(SnapmailEntry::InAck(InAck { outmail_ref: 0, from: 5 }), 3), Err(RestoreError::Duplicate));
    assert_eq!(c.len(), 2);
}

#[test]
fn restored_log_behaves_like_the_original() {
    let mut b = Chain::new();
    let m = mail(vec![2]);
    let pt = encode_mail(&m);
    let u = unit(0);
    assert_eq!(receive_mail(&mut b, 1, &u, Some(pt), true, 10), ReceiveOutcome::Accepted { inmail: 0, outack: 1 });
    assert_eq!(store_ack_unit(&mut b, 1, vec![3], vec![4], 11), Ok(2));
    let _ = compose_mail(&mut b, "re".to_string(), "x".to_string(), Some(0), vec![1], vec![], vec![], &Vec::new(), 12);
    let mut copy = Chain::new();
    for i in 0..b.len() {
        let e = match b.get(i).unwrap() {
            SnapmailEntry::InMail(x) => SnapmailEntry::InMail(InMail {
                mail: x.mail.copy(),
                from: x.from,
                received_at: x.received_at,
                outmail_ref: x.outmail_ref,
                signature: x.signature.clone(),
            }),
            SnapmailEntry::OutAck(x) => SnapmailEntry::OutAck(OutAck { inmail_ref: x.inmail_ref }),
            SnapmailEntry::PendingAck(x) => SnapmailEntry::PendingAck(PendingAck { outack_ref: x.outack_ref, unit: x.unit.copy() }),
            SnapmailEntry::OutMail(x) => SnapmailEntry::OutMail(OutMail { mail: x.mail.copy(), bcc: x.bcc.clone(), reply_of: x.reply_of }),
            _ => panic!("unexpected record"),
        };
        assert_eq!(copy.append_checked(e, b.time_of(i)), Ok(i));
    }
    assert_eq!(copy.len(), 4);
    // the same envelope again is still a duplicate in the restored log
    let m2 = mail(vec![2]);
    assert_eq!(receive_mail(&mut copy, 1, &unit(0), Some(encode_mail(&m2)), true, 20), ReceiveOutcome::Duplicate { inmail: 0 });
}
