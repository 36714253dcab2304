//! Records of the mail protocol, as they stand in an agent's local log.
use vstd::prelude::*;

verus! {

/// A participant's stable public identity key, as a plain number.
pub type AgentKey = u64;

/// Position of a record in the local log that holds it.
pub type RecordId = usize;

/// A file attached to a mail: a reference to its stored manifest plus metadata.
pub struct Attachment {
    pub manifest_ref: u64,
    pub data_hash: String,
    pub filename: String,
    pub filetype: String,
    pub size: u64,
}

/// The payload every recipient sees: visible recipients, text and attachments.
/// Blind recipients are never part of it.
pub struct Mail {
    pub subject: String,
    pub body: String,
    pub to: Vec<AgentKey>,
    pub cc: Vec<AgentKey>,
    pub attachments: Vec<Attachment>,
}

/// A mail as the sender keeps it: the payload, the blind recipients and
/// the optional record it replies to.
pub struct OutMail {
    pub mail: Mail,
    pub bcc: Vec<AgentKey>,
    pub reply_of: Option<RecordId>,
}

/// An encrypted, signed envelope for one recipient. `outmail_ref` names the
/// sender's record of the outbound mail or acknowledgment it carries.
pub struct DeliveryUnit {
    pub outmail_ref: RecordId,
    pub ciphertext: Vec<u8>,
    pub signature: Vec<u8>,
}

/// The sender's stored copy of the envelope made for `recipient`.
pub struct PendingMail {
    pub unit: DeliveryUnit,
    pub recipient: AgentKey,
}

/// A received mail, materialized by its recipient after decryption and
/// signature check.
pub struct InMail {
    pub mail: Mail,
    pub from: AgentKey,
    pub received_at: u64,
    pub outmail_ref: RecordId,
    pub signature: Vec<u8>,
}

/// The recipient's acknowledgment of one received mail.
pub struct OutAck {
    pub inmail_ref: RecordId,
}

/// The stored envelope that carries an acknowledgment back to the mail's sender.
pub struct PendingAck {
    pub outack_ref: RecordId,
    pub unit: DeliveryUnit,
}

/// An acknowledgment received by the mail's sender from one recipient.
pub struct InAck {
    pub outmail_ref: RecordId,
    pub from: AgentKey,
}

/// Proof, held by an acknowledgment's sender, that `recipient` accepted the
/// acknowledgment recorded at `package_ref`.
pub struct DeliveryConfirmation {
    pub package_ref: RecordId,
    pub recipient: AgentKey,
}

/// One record of the local log.
pub enum SnapmailEntry {
    OutMail(OutMail),
    PendingMail(PendingMail),
    InMail(InMail),
    OutAck(OutAck),
    PendingAck(PendingAck),
    InAck(InAck),
    DeliveryConfirmation(DeliveryConfirmation),
}

/// Derived delivery status of a message towards one recipient.
#[derive(PartialEq, Eq, Structural, Clone, Copy, Debug)]
pub enum DeliveryState {
    Unsent,
    Acknowledged,
}

/// Status of an outbound mail as a whole.
#[derive(PartialEq, Eq, Structural, Clone, Copy, Debug)]
pub enum OutMailState {
    /// At least one recipient has not acknowledged.
    Unacknowledged,
    /// Every recipient has acknowledged.
    FullyAcknowledged,
}

/// Status of a received mail from its recipient's side.
#[derive(PartialEq, Eq, Structural, Clone, Copy, Debug)]
pub enum InMailState {
    /// No acknowledgment was made yet.
    Unacknowledged,
    /// An acknowledgment exists but its delivery is not confirmed.
    AckUnconfirmed,
    /// The acknowledgment reached the mail's sender.
    AckDelivered,
}

/// Status of a mail as shown in a listing, by direction.
#[derive(PartialEq, Eq, Structural, Clone, Copy, Debug)]
pub enum MailState {
    Out(OutMailState),
    In(InMailState),
}

/// Abstract content of an [`Attachment`].
pub struct AttachmentView {
    pub manifest_ref: u64,
    pub data_hash: Seq<char>,
    pub filename: Seq<char>,
    pub filetype: Seq<char>,
    pub size: u64,
}

impl View for Attachment {
    type V = AttachmentView;

    open spec fn view(&self) -> AttachmentView {
        AttachmentView {
            manifest_ref: self.manifest_ref,
            data_hash: self.data_hash@,
            filename: self.filename@,
            filetype: self.filetype@,
            size: self.size,
        }
    }
}

/// Abstract content of a [`Mail`].
pub struct MailView {
    pub subject: Seq<char>,
    pub body: Seq<char>,
    pub to: Seq<AgentKey>,
    pub cc: Seq<AgentKey>,
    pub attachments: Seq<AttachmentView>,
}

/// The abstract content of each attachment.
pub open spec fn attachments_view(a: Seq<Attachment>) -> Seq<AttachmentView> {
    a.map_values(|x: Attachment| x@)
}

impl View for Mail {
    type V = MailView;

    open spec fn view(&self) -> MailView {
        MailView {
            subject: self.subject@,
            body: self.body@,
            to: self.to@,
            cc: self.cc@,
            attachments: attachments_view(self.attachments@),
        }
    }
}

/// A fresh vector with the same elements.
pub fn copy_vec<T: Copy>(v: &Vec<T>) -> (r: Vec<T>)
    ensures
        r@ == v@,
{
    let mut r: Vec<T> = Vec::new();
    let mut i: usize = 0;
    while i < v.len()
        invariant
            i <= v@.len(),
            r@ == v@.subrange(0, i as int),
        decreases v@.len() - i,
    {
        r.push(v[i]);
        i += 1;
        assert(r@ == v@.subrange(0, i as int));
    }
    assert(v@.subrange(0, v@.len() as int) == v@);
    r
}

impl Attachment {
    pub fn copy(&self) -> (r: Attachment)
        ensures
            r@ == self@,
    {
        Attachment {
            manifest_ref: self.manifest_ref,
            data_hash: self.data_hash.clone(),
            filename: self.filename.clone(),
            filetype: self.filetype.clone(),
            size: self.size,
        }
    }
}

impl Mail {
    pub fn copy(&self) -> (r: Mail)
        ensures
            r@ == self@,
    {
        let mut attachments: Vec<Attachment> = Vec::new();
        let mut i: usize = 0;
        while i < self.attachments.len()
            invariant
                i <= self.attachments@.len(),
                attachments@.len() == i,
                forall|j: int| 0 <= j < i ==> #[trigger] attachments@[j]@ == self.attachments@[j]@,
            decreases self.attachments@.len() - i,
        {
            attachments.push(self.attachments[i].copy());
            i += 1;
        }
        assert(attachments_view(attachments@) =~= attachments_view(self.attachments@));
        Mail {
            subject: self.subject.clone(),
            body: self.body.clone(),
            to: copy_vec(&self.to),
            cc: copy_vec(&self.cc),
            attachments,
        }
    }
}

impl DeliveryUnit {
    pub fn copy(&self) -> (r: DeliveryUnit)
        ensures
            r.outmail_ref == self.outmail_ref,
            r.ciphertext@ == self.ciphertext@,
            r.signature@ == self.signature@,
    {
        DeliveryUnit {
            outmail_ref: self.outmail_ref,
            ciphertext: copy_vec(&self.ciphertext),
            signature: copy_vec(&self.signature),
        }
    }
}

/// All recipients of an outbound mail, in order: `to`, then `cc`, then `bcc`.
pub open spec fn recipients(o: OutMail) -> Seq<AgentKey> {
    o.mail.to@ + o.mail.cc@ + o.bcc@
}

} // verus!
