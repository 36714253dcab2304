//! The agent's local append-only log and its well-formedness.
use vstd::prelude::*;
use crate::model::{AgentKey, SnapmailEntry, RecordId, recipients};

verus! {

/// The kinds of records that carry a deduplication key.
pub const KIND_PENDING_MAIL: u8 = 1;
pub const KIND_IN_MAIL: u8 = 2;
pub const KIND_OUT_ACK: u8 = 3;
pub const KIND_PENDING_ACK: u8 = 4;
pub const KIND_IN_ACK: u8 = 5;
pub const KIND_CONFIRMATION: u8 = 6;

/// Identity of a record for deduplication: the log never holds two records
/// with the same key.
pub open spec fn record_key(e: SnapmailEntry) -> Option<(u8, RecordId, AgentKey)> {
    match e {
        SnapmailEntry::OutMail(_) => None,
        SnapmailEntry::PendingMail(p) => Some((KIND_PENDING_MAIL, p.unit.outmail_ref, p.recipient)),
        SnapmailEntry::InMail(m) => Some((KIND_IN_MAIL, m.outmail_ref, m.from)),
        SnapmailEntry::OutAck(a) => Some((KIND_OUT_ACK, a.inmail_ref, 0)),
        SnapmailEntry::PendingAck(p) => Some((KIND_PENDING_ACK, p.outack_ref, 0)),
        SnapmailEntry::InAck(a) => Some((KIND_IN_ACK, a.outmail_ref, a.from)),
        SnapmailEntry::DeliveryConfirmation(d) => Some((KIND_CONFIRMATION, d.package_ref, d.recipient)),
    }
}

/// Whether record `i` of `c` is an outbound mail.
pub open spec fn is_outmail_at(c: Seq<SnapmailEntry>, i: int) -> bool {
    0 <= i < c.len() && c[i] is OutMail
}

/// Whether record `i` of `c` is an outbound mail that names `r` as a recipient.
pub open spec fn outmail_names(c: Seq<SnapmailEntry>, i: int, r: AgentKey) -> bool {
    is_outmail_at(c, i) && recipients(c[i]->OutMail_0).contains(r)
}

/// The references that the record at position `i` makes point backwards,
/// to records of the expected kinds.
pub open spec fn entry_wf(c: Seq<SnapmailEntry>, i: int) -> bool {
    match c[i] {
        SnapmailEntry::OutMail(o) => {
            &&& recipients(o).len() > 0
            &&& o.reply_of matches Some(j) ==> j < i && (c[j as int] is InMail || c[j as int] is OutMail)
        },
        SnapmailEntry::PendingMail(p) => p.unit.outmail_ref < i && outmail_names(c, p.unit.outmail_ref as int, p.recipient),
        SnapmailEntry::InMail(_) => true,
        SnapmailEntry::OutAck(a) => a.inmail_ref < i && c[a.inmail_ref as int] is InMail,
        SnapmailEntry::PendingAck(p) => p.outack_ref < i && c[p.outack_ref as int] is OutAck,
        SnapmailEntry::InAck(a) => a.outmail_ref < i && outmail_names(c, a.outmail_ref as int, a.from),
        SnapmailEntry::DeliveryConfirmation(d) => d.package_ref < i && c[d.package_ref as int] is OutAck,
    }
}

/// No two records share a deduplication key.
pub open spec fn keys_unique(c: Seq<SnapmailEntry>) -> bool {
    forall|i: int, j: int|
        0 <= i < j < c.len() && (#[trigger] record_key(c[i])) is Some ==> record_key(c[i]) != #[trigger] record_key(c[j])
}

/// The log's invariant: every record points backwards to records of the
/// expected kinds, and no deduplication key occurs twice.
pub open spec fn log_wf(c: Seq<SnapmailEntry>) -> bool {
    &&& c.len() < usize::MAX
    &&& forall|i: int| 0 <= i < c.len() ==> #[trigger] entry_wf(c, i)
    &&& keys_unique(c)
}

/// Whether some record of `c` has key `k`.
pub open spec fn has_key(c: Seq<SnapmailEntry>, k: (u8, RecordId, AgentKey)) -> bool {
    exists|i: int| 0 <= i < c.len() && #[trigger] record_key(c[i]) == Some(k)
}

/// `c2` holds every record of `c1`, in place, and maybe more after them.
pub open spec fn extends(c1: Seq<SnapmailEntry>, c2: Seq<SnapmailEntry>) -> bool {
    c1.len() <= c2.len() && c2.subrange(0, c1.len() as int) == c1
}

/// Appending a record that points backwards correctly keeps the log well formed.
pub proof fn lemma_push_wf(c: Seq<SnapmailEntry>, e: SnapmailEntry)
    requires
        log_wf(c),
        c.len() + 1 < usize::MAX,
        entry_wf(c.push(e), c.len() as int),
        record_key(e) is Some ==> !has_key(c, record_key(e)->0),
    ensures
        log_wf(c.push(e)),
{
    let d = c.push(e);
    assert forall|i: int| 0 <= i < d.len() implies #[trigger] entry_wf(d, i) by {
        if i < c.len() {
            assert(entry_wf(c, i));
            assert(d[i] == c[i]);
            match c[i] {
                SnapmailEntry::OutMail(o) => {
                    if let Some(j) = o.reply_of {
                        assert(d[j as int] == c[j as int]);
                    }
                },
                SnapmailEntry::PendingMail(p) => assert(d[p.unit.outmail_ref as int] == c[p.unit.outmail_ref as int]),
                SnapmailEntry::InMail(_) => {},
                SnapmailEntry::OutAck(a) => assert(d[a.inmail_ref as int] == c[a.inmail_ref as int]),
                SnapmailEntry::PendingAck(p) => assert(d[p.outack_ref as int] == c[p.outack_ref as int]),
                SnapmailEntry::InAck(a) => assert(d[a.outmail_ref as int] == c[a.outmail_ref as int]),
                SnapmailEntry::DeliveryConfirmation(x) => assert(d[x.package_ref as int] == c[x.package_ref as int]),
            }
        }
    }
    assert forall|i: int, j: int|
        0 <= i < j < d.len() && (#[trigger] record_key(d[i])) is Some implies record_key(d[i]) != #[trigger] record_key(d[j]) by {
        if j == c.len() {
            assert(d[i] == c[i]);
            if record_key(d[i]) == record_key(d[j]) {
                assert(record_key(c[i]) == Some(record_key(e)->0));
            }
        } else {
            assert(d[i] == c[i] && d[j] == c[j]);
        }
    }
}

/// Deduplication key of a record, computed.
pub fn key_of(e: &SnapmailEntry) -> (r: Option<(u8, RecordId, AgentKey)>)
    ensures
        r == record_key(*e),
{
    match e {
        SnapmailEntry::OutMail(_) => None,
        SnapmailEntry::PendingMail(p) => Some((KIND_PENDING_MAIL, p.unit.outmail_ref, p.recipient)),
        SnapmailEntry::InMail(m) => Some((KIND_IN_MAIL, m.outmail_ref, m.from)),
        SnapmailEntry::OutAck(a) => Some((KIND_OUT_ACK, a.inmail_ref, 0)),
        SnapmailEntry::PendingAck(p) => Some((KIND_PENDING_ACK, p.outack_ref, 0)),
        SnapmailEntry::InAck(a) => Some((KIND_IN_ACK, a.outmail_ref, a.from)),
        SnapmailEntry::DeliveryConfirmation(d) => Some((KIND_CONFIRMATION, d.package_ref, d.recipient)),
    }
}

/// Why a stored record could not be appended back to the log.
#[derive(PartialEq, Eq, Structural, Clone, Copy, Debug)]
pub enum RestoreError {
    /// It refers to a record that is missing or of the wrong kind, names no
    /// recipient, or the log is full.
    Invalid,
    /// The log already holds a record with its deduplication key.
    Duplicate,
}

/// An agent's local log: records are only ever appended, never changed.
/// Each record carries the time at which it was appended.
pub struct Chain {
    entries: Vec<SnapmailEntry>,
    times: Vec<u64>,
}

impl View for Chain {
    type V = Seq<SnapmailEntry>;

    closed spec fn view(&self) -> Seq<SnapmailEntry> {
        self.entries@
    }
}

impl Chain {
    /// Append time of each record, by position.
    pub closed spec fn times(&self) -> Seq<u64> {
        self.times@
    }

    pub open spec fn wf(&self) -> bool {
        &&& log_wf(self@)
        &&& self.times().len() == self@.len()
    }

    /// An empty log.
    pub fn new() -> (r: Chain)
        ensures
            r@ == Seq::<SnapmailEntry>::empty(),
            r.wf(),
    {
        Chain { entries: Vec::new(), times: Vec::new() }
    }

    pub fn len(&self) -> (r: usize)
        ensures
            r == self@.len(),
    {
        self.entries.len()
    }

    /// The record at `id`, if there is one.
    pub fn get(&self, id: RecordId) -> (r: Option<&SnapmailEntry>)
        ensures
            id < self@.len() ==> r == Some(&self@[id as int]),
            id >= self@.len() ==> r is None,
    {
        if id < self.entries.len() {
            Some(&self.entries[id])
        } else {
            None
        }
    }

    /// Time at which the record at `id` was appended.
    pub fn time_of(&self, id: RecordId) -> (r: u64)
        requires
            self.wf(),
            id < self@.len(),
        ensures
            r == self.times()[id as int],
    {
        self.times[id]
    }

    /// Position of the record with key `k`, if the log holds one.
    pub fn find_key(&self, k: (u8, RecordId, AgentKey)) -> (r: Option<RecordId>)
        ensures
            r matches Some(i) ==> i < self@.len() && record_key(self@[i as int]) == Some(k),
            r is None <==> !has_key(self@, k),
    {
        let mut i: usize = 0;
        while i < self.entries.len()
            invariant
                i <= self@.len(),
                forall|j: int| 0 <= j < i ==> #[trigger] record_key(self@[j]) != Some(k),
            decreases self@.len() - i,
        {
            let kk = key_of(&self.entries[i]);
            if let Some(x) = kk {
                if x.0 == k.0 && x.1 == k.1 && x.2 == k.2 {
                    return Some(i);
                }
            }
            i += 1;
        }
        None
    }

    /// Appends a record made at time `at`; returns its position.
    pub(crate) fn push(&mut self, e: SnapmailEntry, at: u64) -> (id: RecordId)
        requires
            old(self).wf(),
            old(self)@.len() + 1 < usize::MAX,
            entry_wf(old(self)@.push(e), old(self)@.len() as int),
            record_key(e) is Some ==> !has_key(old(self)@, record_key(e)->0),
        ensures
            final(self)@ == old(self)@.push(e),
            final(self).times() == old(self).times().push(at),
            id == old(self)@.len(),
            final(self).wf(),
    {
        proof {
            lemma_push_wf(self@, e);
        }
        let id = self.entries.len();
        self.entries.push(e);
        self.times.push(at);
        id
    }

    /// Whether `e`, appended now, would point backwards correctly.
    pub fn entry_fits(&self, e: &SnapmailEntry) -> (r: bool)
        ensures
            r == entry_wf(self@.push(*e), self@.len() as int),
    {
        let n = self.entries.len();
        let ghost c = self@.push(*e);
        proof {
            assert forall|j: int| 0 <= j < n implies c[j] == self@[j] by {}
        }
        match e {
            SnapmailEntry::OutMail(o) => {
                if o.mail.to.len() == 0 && o.mail.cc.len() == 0 && o.bcc.len() == 0 {
                    return false;
                }
                match o.reply_of {
                    Some(j) => j < n && (matches!(self.entries[j], SnapmailEntry::InMail(_)) || matches!(self.entries[j], SnapmailEntry::OutMail(_))),
                    None => true,
                }
            },
            SnapmailEntry::PendingMail(p) => self.names_recipient(p.unit.outmail_ref, p.recipient),
            SnapmailEntry::InMail(_) => true,
            SnapmailEntry::OutAck(a) => a.inmail_ref < n && matches!(self.entries[a.inmail_ref], SnapmailEntry::InMail(_)),
            SnapmailEntry::PendingAck(p) => p.outack_ref < n && matches!(self.entries[p.outack_ref], SnapmailEntry::OutAck(_)),
            SnapmailEntry::InAck(a) => self.names_recipient(a.outmail_ref, a.from),
            SnapmailEntry::DeliveryConfirmation(d) => d.package_ref < n && matches!(self.entries[d.package_ref], SnapmailEntry::OutAck(_)),
        }
    }

    /// Whether the record at `id` is an outbound mail naming `r`.
    fn names_recipient(&self, id: RecordId, r: AgentKey) -> (b: bool)
        ensures
            b == outmail_names(self@, id as int, r),
    {
        match self.get(id) {
            Some(SnapmailEntry::OutMail(o)) => {
                let all = crate::state::outmail_recipients(o);
                crate::compose::contains_key(&all, r)
            },
            _ => false,
        }
    }

    /// Appends a record read back from storage at time `at`, if it keeps the
    /// log well formed; otherwise leaves the log as it was.
    pub fn append_checked(&mut self, e: SnapmailEntry, at: u64) -> (r: Result<RecordId, RestoreError>)
        requires
            old(self).wf(),
        ensures
            final(self).wf(),
            r is Err ==> final(self)@ == old(self)@ && final(self).times() == old(self).times(),
            r == Err::<RecordId, RestoreError>(RestoreError::Invalid) <==> !(old(self)@.len() + 1 < usize::MAX
                && entry_wf(old(self)@.push(e), old(self)@.len() as int)),
            r == Err::<RecordId, RestoreError>(RestoreError::Duplicate) <==> old(self)@.len() + 1 < usize::MAX
                && entry_wf(old(self)@.push(e), old(self)@.len() as int) && record_key(e) is Some
                && has_key(old(self)@, record_key(e)->0),
            r matches Ok(i) ==> i == old(self)@.len() && final(self)@ == old(self)@.push(e)
                && final(self).times() == old(self).times().push(at),
    {
        if self.entries.len() >= usize::MAX - 1 || !self.entry_fits(&e) {
            return Err(RestoreError::Invalid);
        }
        if let Some(k) = key_of(&e) {
            if self.find_key(k).is_some() {
                return Err(RestoreError::Duplicate);
            }
        }
        Ok(self.push(e, at))
    }
}

} // verus!
