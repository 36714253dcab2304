//! Building an outbound mail from a compose request.
use vstd::prelude::*;
use crate::chain::{entry_wf, Chain};
use crate::laws::law_new_outmail_is_unsent;
use crate::model::{
    attachments_view, recipients, AgentKey, Attachment, AttachmentView, DeliveryState, SnapmailEntry, Mail,
    OutMail, RecordId,
};
use crate::state::delivery_state_of;

verus! {

/// A stored file, described by its chunks.
pub struct FileManifest {
    pub data_hash: String,
    pub filename: String,
    pub filetype: String,
    pub orig_filesize: u64,
    pub chunks: Vec<u64>,
}

/// Why a compose request was rejected. No record is made in either case.
#[derive(PartialEq, Eq, Structural, Clone, Copy, Debug)]
pub enum ComposeError {
    /// `to`, `cc` and `bcc` are all empty.
    NoRecipients,
    /// `reply_of` names no received or outbound mail of the local log.
    UnknownReplyTarget,
}

/// The attachment that refers to the manifest stored at `manifest_ref`.
pub open spec fn attachment_of(manifest_ref: u64, m: FileManifest) -> AttachmentView {
    AttachmentView {
        manifest_ref,
        data_hash: m.data_hash@,
        filename: m.filename@,
        filetype: m.filetype@,
        size: m.orig_filesize,
    }
}

impl Attachment {
    pub fn from_manifest(manifest_ref: u64, manifest: &FileManifest) -> (r: Attachment)
        ensures
            r@ == attachment_of(manifest_ref, *manifest),
    {
        Attachment {
            manifest_ref,
            data_hash: manifest.data_hash.clone(),
            filename: manifest.filename.clone(),
            filetype: manifest.filetype.clone(),
            size: manifest.orig_filesize,
        }
    }
}

/// Keeps the members of a list that are not in `visible`.
pub open spec fn not_in(visible: Seq<AgentKey>) -> spec_fn(AgentKey) -> bool {
    |x: AgentKey| !visible.contains(x)
}

/// The blind recipients that remain once those already named in `to` or
/// `cc` are taken out.
pub open spec fn effective_bcc(to: Seq<AgentKey>, cc: Seq<AgentKey>, bcc: Seq<AgentKey>) -> Seq<AgentKey> {
    bcc.filter(not_in(to)).filter(not_in(cc))
}

/// `reply_of` names a received or outbound mail of `c`, if anything.
pub open spec fn valid_reply_target(c: Seq<SnapmailEntry>, reply_of: Option<RecordId>) -> bool {
    reply_of matches Some(j) ==> j < c.len() && (c[j as int] is InMail || c[j as int] is OutMail)
}

/// The outbound mail that a valid compose request describes.
pub open spec fn composed(
    o: OutMail,
    subject: Seq<char>,
    body: Seq<char>,
    reply_of: Option<RecordId>,
    to: Seq<AgentKey>,
    cc: Seq<AgentKey>,
    bcc: Seq<AgentKey>,
    files: Seq<(u64, FileManifest)>,
) -> bool {
    &&& o.mail.subject@ == subject
    &&& o.mail.body@ == body
    &&& o.mail.to@ == to
    &&& o.mail.cc@ == cc
    &&& attachments_view(o.mail.attachments@) == files.map_values(
        |f: (u64, FileManifest)| attachment_of(f.0, f.1),
    )
    &&& o.bcc@ == effective_bcc(to, cc, bcc)
    &&& o.reply_of == reply_of
}

/// Whether `x` is in `v`.
pub fn contains_key(v: &Vec<AgentKey>, x: AgentKey) -> (r: bool)
    ensures
        r == v@.contains(x),
{
    let mut i: usize = 0;
    while i < v.len()
        invariant
            i <= v@.len(),
            forall|j: int| 0 <= j < i ==> v@[j] != x,
        decreases v@.len() - i,
    {
        if v[i] == x {
            return true;
        }
        i += 1;
    }
    false
}

/// The members of `list` that are not in `visible`, in order.
pub fn filter_up(visible: &Vec<AgentKey>, list: &Vec<AgentKey>) -> (r: Vec<AgentKey>)
    ensures
        r@ == list@.filter(not_in(visible@)),
{
    let mut r: Vec<AgentKey> = Vec::new();
    let mut i: usize = 0;
    while i < list.len()
        invariant
            i <= list@.len(),
            r@ == list@.subrange(0, i as int).filter(not_in(visible@)),
        decreases list@.len() - i,
    {
        proof {
            reveal(Seq::filter);
            assert(list@.subrange(0, i + 1).drop_last() =~= list@.subrange(0, i as int));
        }
        if !contains_key(visible, list[i]) {
            r.push(list[i]);
        }
        i += 1;
    }
    assert(list@.subrange(0, list@.len() as int) =~= list@);
    r
}

/// Builds the outbound mail for a compose request. Blind recipients already
/// named in `to` or `cc` are dropped from `bcc`.
pub fn create_outmail(
    chain: &Chain,
    subject: String,
    body: String,
    reply_of: Option<RecordId>,
    to: Vec<AgentKey>,
    cc: Vec<AgentKey>,
    bcc: Vec<AgentKey>,
    file_manifest_list: &Vec<(u64, FileManifest)>,
) -> (r: Result<OutMail, ComposeError>)
    ensures
        r matches Ok(o) ==> composed(o, subject@, body@, reply_of, to@, cc@, bcc@, file_manifest_list@)
            && valid_reply_target(chain@, reply_of) && to@.len() + cc@.len() + bcc@.len() > 0,
        r == Err::<OutMail, ComposeError>(ComposeError::NoRecipients) <==> to@.len() + cc@.len()
            + bcc@.len() == 0,
        r == Err::<OutMail, ComposeError>(ComposeError::UnknownReplyTarget) <==> (to@.len()
            + cc@.len() + bcc@.len() > 0 && !valid_reply_target(chain@, reply_of)),
{
    if to.len() == 0 && cc.len() == 0 && bcc.len() == 0 {
        return Err(ComposeError::NoRecipients);
    }
    if let Some(j) = reply_of {
        match chain.get(j) {
            Some(SnapmailEntry::InMail(_)) => {},
            Some(SnapmailEntry::OutMail(_)) => {},
            _ => return Err(ComposeError::UnknownReplyTarget),
        }
    }
    let bcc1 = filter_up(&to, &bcc);
    let bcc2 = filter_up(&cc, &bcc1);
    let mut attachments: Vec<Attachment> = Vec::new();
    let mut i: usize = 0;
    while i < file_manifest_list.len()
        invariant
            i <= file_manifest_list@.len(),
            attachments@.len() == i,
            forall|k: int|
                0 <= k < i ==> #[trigger] attachments@[k]@ == attachment_of(
                    file_manifest_list@[k].0,
                    file_manifest_list@[k].1,
                ),
        decreases file_manifest_list@.len() - i,
    {
        let f = &file_manifest_list[i];
        attachments.push(Attachment::from_manifest(f.0, &f.1));
        i += 1;
    }
    assert(attachments_view(attachments@) =~= file_manifest_list@.map_values(
        |f: (u64, FileManifest)| attachment_of(f.0, f.1),
    ));
    let mail = Mail { subject, body, to, cc, attachments };
    Ok(OutMail { mail, bcc: bcc2, reply_of })
}

/// A composed mail has at least one recipient.
pub proof fn lemma_composed_has_recipient(
    o: OutMail,
    to: Seq<AgentKey>,
    cc: Seq<AgentKey>,
    bcc: Seq<AgentKey>,
)
    requires
        o.mail.to@ == to,
        o.mail.cc@ == cc,
        o.bcc@ == effective_bcc(to, cc, bcc),
        to.len() + cc.len() + bcc.len() > 0,
    ensures
        recipients(o).len() > 0,
{
    if to.len() == 0 && cc.len() == 0 {
        assert(not_in(to)(bcc[0]));
        bcc.lemma_filter_contains(not_in(to), 0);
        let b1 = bcc.filter(not_in(to));
        let k = choose|k: int| 0 <= k < b1.len() && b1[k] == bcc[0];
        assert(not_in(cc)(b1[k]));
        b1.lemma_filter_contains(not_in(cc), k);
    }
}

/// Validates a compose request and appends the resulting outbound mail to
/// the log at time `now`; returns its position. A rejected request appends
/// nothing.
pub fn compose_mail(
    chain: &mut Chain,
    subject: String,
    body: String,
    reply_of: Option<RecordId>,
    to: Vec<AgentKey>,
    cc: Vec<AgentKey>,
    bcc: Vec<AgentKey>,
    file_manifest_list: &Vec<(u64, FileManifest)>,
    now: u64,
) -> (r: Result<RecordId, ComposeError>)
    requires
        old(chain).wf(),
        old(chain)@.len() + 1 < usize::MAX,
    ensures
        final(chain).wf(),
        r matches Ok(id) ==> {
            &&& id == old(chain)@.len()
            &&& final(chain)@.len() == old(chain)@.len() + 1
            &&& final(chain)@.subrange(0, id as int) == old(chain)@
            &&& final(chain)@[id as int] is OutMail
            &&& composed(
                final(chain)@[id as int]->OutMail_0,
                subject@,
                body@,
                reply_of,
                to@,
                cc@,
                bcc@,
                file_manifest_list@,
            )
            &&& final(chain).times() == old(chain).times().push(now)
            &&& forall|a: AgentKey| #[trigger] delivery_state_of(final(chain)@, id, a) == DeliveryState::Unsent
        },
        r is Err ==> final(chain)@ == old(chain)@ && final(chain).times() == old(chain).times(),
        r == Err::<RecordId, ComposeError>(ComposeError::NoRecipients) <==> to@.len() + cc@.len()
            + bcc@.len() == 0,
        r == Err::<RecordId, ComposeError>(ComposeError::UnknownReplyTarget) <==> (to@.len()
            + cc@.len() + bcc@.len() > 0 && !valid_reply_target(old(chain)@, reply_of)),
{
    let ghost to0 = to@;
    let ghost cc0 = cc@;
    let ghost bcc0 = bcc@;
    let ghost c0 = chain@;
    let o = create_outmail(chain, subject, body, reply_of, to, cc, bcc, file_manifest_list)?;
    proof {
        lemma_composed_has_recipient(o, to0, cc0, bcc0);
        let c = chain@.push(SnapmailEntry::OutMail(o));
        assert(entry_wf(c, chain@.len() as int));
    }
    let id = chain.push(SnapmailEntry::OutMail(o), now);
    assert(chain@.subrange(0, id as int) =~= c0);
    proof {
        assert forall|a: AgentKey| #[trigger] delivery_state_of(chain@, id, a) == DeliveryState::Unsent by {
            law_new_outmail_is_unsent(chain@, id, a);
        }
    }
    Ok(id)
}

} // verus!
