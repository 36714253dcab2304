//! Canonical byte encoding of a [`Mail`]: the plaintext that is encrypted for
//! each recipient and signed once by the sender.
//!
//! Layout: every number is 8 bytes little-endian; a text is its UTF-8 byte
//! length followed by the bytes; a list is its length followed by its items.
//! A mail is subject, body, `to`, `cc`, then the attachments.
use vstd::prelude::*;
use vstd::bytes::{
    lemma_auto_spec_u64_to_from_le_bytes, spec_u64_from_le_bytes, spec_u64_to_le_bytes,
    u64_from_le_bytes, u64_to_le_bytes,
};
use vstd::utf8::{decode_utf8, encode_utf8, encode_utf8_decode_utf8, encode_utf8_valid_utf8, decode_utf8_encode_utf8, valid_utf8};
use crate::model::{Attachment, AttachmentView, Mail, MailView, attachments_view};

verus! {

pub open spec fn enc_u64(x: u64) -> Seq<u8> {
    spec_u64_to_le_bytes(x)
}

pub open spec fn enc_text(s: Seq<char>) -> Seq<u8> {
    enc_u64(encode_utf8(s).len() as u64) + encode_utf8(s)
}

pub open spec fn enc_keys(v: Seq<u64>) -> Seq<u8>
    decreases v.len(),
{
    if v.len() == 0 {
        Seq::empty()
    } else {
        enc_keys(v.drop_last()) + enc_u64(v.last())
    }
}

pub open spec fn enc_key_list(v: Seq<u64>) -> Seq<u8> {
    enc_u64(v.len() as u64) + enc_keys(v)
}

pub open spec fn enc_attachment(a: AttachmentView) -> Seq<u8> {
    enc_u64(a.manifest_ref) + enc_text(a.data_hash) + enc_text(a.filename) + enc_text(a.filetype)
        + enc_u64(a.size)
}

pub open spec fn enc_attachments(v: Seq<AttachmentView>) -> Seq<u8>
    decreases v.len(),
{
    if v.len() == 0 {
        Seq::empty()
    } else {
        enc_attachments(v.drop_last()) + enc_attachment(v.last())
    }
}

/// The canonical encoding of a mail.
pub open spec fn enc_mail(m: MailView) -> Seq<u8> {
    enc_text(m.subject) + enc_text(m.body) + enc_key_list(m.to) + enc_key_list(m.cc) + enc_u64(
        m.attachments.len() as u64,
    ) + enc_attachments(m.attachments)
}

/// The bytes of `b` from `pos` on begin with `e`.
pub open spec fn starts_with_at(b: Seq<u8>, pos: int, e: Seq<u8>) -> bool {
    0 <= pos && pos + e.len() <= b.len() && b.subrange(pos, pos + e.len()) == e
}

proof fn lemma_enc_u64(x: u64)
    ensures
        enc_u64(x).len() == 8,
        spec_u64_from_le_bytes(enc_u64(x)) == x,
{
    lemma_auto_spec_u64_to_from_le_bytes();
}

proof fn lemma_enc_keys_len(v: Seq<u64>)
    ensures
        enc_keys(v).len() == 8 * v.len(),
    decreases v.len(),
{
    if v.len() > 0 {
        lemma_enc_keys_len(v.drop_last());
        lemma_enc_u64(v.last());
    }
}

/// The encoding of the first `j` keys begins the encoding of all of them.
proof fn lemma_enc_keys_prefix(v: Seq<u64>, j: int)
    requires
        0 <= j <= v.len(),
    ensures
        enc_keys(v.subrange(0, j)).len() <= enc_keys(v).len(),
        enc_keys(v).subrange(0, enc_keys(v.subrange(0, j)).len() as int) == enc_keys(v.subrange(0, j)),
    decreases v.len(),
{
    if j == v.len() {
        assert(v.subrange(0, j) =~= v);
    } else {
        let w = v.drop_last();
        assert(v.subrange(0, j) =~= w.subrange(0, j));
        lemma_enc_keys_prefix(w, j);
        let e = enc_keys(v.subrange(0, j));
        assert(enc_keys(v).subrange(0, e.len() as int) =~= enc_keys(w).subrange(0, e.len() as int));
    }
}

/// The encoding of the first `j` attachments begins the encoding of all of them.
proof fn lemma_enc_attachments_prefix(v: Seq<AttachmentView>, j: int)
    requires
        0 <= j <= v.len(),
    ensures
        enc_attachments(v.subrange(0, j)).len() <= enc_attachments(v).len(),
        enc_attachments(v).subrange(0, enc_attachments(v.subrange(0, j)).len() as int)
            == enc_attachments(v.subrange(0, j)),
    decreases v.len(),
{
    if j == v.len() {
        assert(v.subrange(0, j) =~= v);
    } else {
        let w = v.drop_last();
        assert(v.subrange(0, j) =~= w.subrange(0, j));
        lemma_enc_attachments_prefix(w, j);
        let e = enc_attachments(v.subrange(0, j));
        assert(enc_attachments(v).subrange(0, e.len() as int) =~= enc_attachments(w).subrange(
            0,
            e.len() as int,
        ));
    }
}

/// If `b` starts with `x + y` at `pos`, it starts with `x` there and with `y` right after.
proof fn lemma_split(b: Seq<u8>, pos: int, x: Seq<u8>, y: Seq<u8>)
    requires
        starts_with_at(b, pos, x + y),
    ensures
        starts_with_at(b, pos, x),
        starts_with_at(b, pos + x.len(), y),
{
    let whole = b.subrange(pos, pos + x.len() + y.len());
    assert(whole == x + y);
    assert(b.subrange(pos, pos + x.len()) =~= whole.subrange(0, x.len() as int));
    assert(x =~= (x + y).subrange(0, x.len() as int));
    assert(b.subrange(pos + x.len(), pos + x.len() + y.len()) =~= whole.subrange(
        x.len() as int,
        whole.len() as int,
    ));
    assert(y =~= (x + y).subrange(x.len() as int, (x + y).len() as int));
}

/// If `b` starts with `x` at `pos` and with `y` right after, it starts with `x + y` at `pos`.
proof fn lemma_join(b: Seq<u8>, pos: int, x: Seq<u8>, y: Seq<u8>)
    requires
        starts_with_at(b, pos, x),
        starts_with_at(b, pos + x.len(), y),
    ensures
        starts_with_at(b, pos, x + y),
{
    assert(b.subrange(pos, pos + x.len() + y.len()) =~= b.subrange(pos, pos + x.len()) + b.subrange(
        pos + x.len(),
        pos + x.len() + y.len(),
    ));
}

/// Appends the bytes of `s` to `out`.
fn push_bytes(out: &mut Vec<u8>, s: &[u8])
    ensures
        final(out)@ == old(out)@ + s@,
{
    let mut i: usize = 0;
    while i < s.len()
        invariant
            i <= s@.len(),
            out@ == old(out)@ + s@.subrange(0, i as int),
        decreases s@.len() - i,
    {
        out.push(s[i]);
        i += 1;
        assert(out@ =~= old(out)@ + s@.subrange(0, i as int));
    }
    assert(s@.subrange(0, s@.len() as int) =~= s@);
}

fn push_u64(out: &mut Vec<u8>, x: u64)
    ensures
        final(out)@ == old(out)@ + enc_u64(x),
{
    let b = u64_to_le_bytes(x);
    push_bytes(out, b.as_slice());
}

fn push_text(out: &mut Vec<u8>, s: &String)
    ensures
        final(out)@ == old(out)@ + enc_text(s@),
{
    let b = s.as_str().as_bytes();
    push_u64(out, b.len() as u64);
    push_bytes(out, b);
    assert(out@ =~= old(out)@ + enc_text(s@));
}

/// A prefix of what `b` starts with at `pos` is also there.
proof fn lemma_starts_prefix(b: Seq<u8>, pos: int, e: Seq<u8>, f: Seq<u8>)
    requires
        starts_with_at(b, pos, e),
        f.len() <= e.len(),
        e.subrange(0, f.len() as int) == f,
    ensures
        starts_with_at(b, pos, f),
{
    assert(b.subrange(pos, pos + f.len()) =~= b.subrange(pos, pos + e.len()).subrange(0, f.len() as int));
}

/// Relies on std's `String::from_utf8`: it succeeds exactly when the bytes are
/// valid UTF-8, and the string then holds the characters they encode.
#[verifier::external_body]
fn string_from_utf8(bytes: Vec<u8>) -> (r: Option<String>)
    ensures
        r is Some <==> valid_utf8(bytes@),
        r matches Some(s) ==> s@ == decode_utf8(bytes@),
{
    String::from_utf8(bytes).ok()
}

/// The `n` bytes of `b` that start at `pos`.
fn copy_range(b: &Vec<u8>, pos: usize, n: usize) -> (r: Vec<u8>)
    requires
        pos + n <= b@.len(),
    ensures
        r@ == b@.subrange(pos as int, pos + n),
{
    let blen = b.len();
    let mut r: Vec<u8> = Vec::new();
    let mut i: usize = 0;
    while i < n
        invariant
            i <= n,
            blen == b@.len(),
            pos + n <= b@.len(),
            r@ == b@.subrange(pos as int, pos + i),
        decreases n - i,
    {
        r.push(b[pos + i]);
        i += 1;
        assert(r@ =~= b@.subrange(pos as int, pos + i));
    }
    r
}

/// Reads the number encoded at `pos`; fails only when fewer than 8 bytes remain.
fn read_u64(b: &Vec<u8>, pos: usize) -> (r: Option<(u64, usize)>)
    ensures
        r matches Some((x, p)) ==> p == pos + 8 && starts_with_at(b@, pos as int, enc_u64(x)),
        r is None <==> pos + 8 > b@.len(),
        forall|x: u64|
            starts_with_at(b@, pos as int, #[trigger] enc_u64(x)) ==> r == Some((x, (pos + 8) as usize)),
{
    proof {
        lemma_auto_spec_u64_to_from_le_bytes();
    }
    if pos > b.len() || b.len() - pos < 8 {
        return None;
    }
    let tmp = copy_range(b, pos, 8);
    let x = u64_from_le_bytes(tmp.as_slice());
    proof {
        assert(spec_u64_to_le_bytes(spec_u64_from_le_bytes(tmp@)) == tmp@);
    }
    Some((x, pos + 8))
}

/// Reads the text encoded at `pos`.
fn read_text(b: &Vec<u8>, pos: usize) -> (r: Option<(String, usize)>)
    ensures
        r matches Some((s, p)) ==> p == pos + enc_text(s@).len() && starts_with_at(
            b@,
            pos as int,
            enc_text(s@),
        ),
        forall|t: Seq<char>|
            starts_with_at(b@, pos as int, #[trigger] enc_text(t)) ==> (r matches Some((s, p)) && s@
                == t),
{
    let len = b.len();
    proof {
        lemma_auto_spec_u64_to_from_le_bytes();
        assert forall|t: Seq<char>| starts_with_at(b@, pos as int, #[trigger] enc_text(t)) implies {
            &&& starts_with_at(b@, pos as int, enc_u64(encode_utf8(t).len() as u64))
            &&& starts_with_at(b@, pos + 8, encode_utf8(t))
            &&& encode_utf8(t).len() as u64 == encode_utf8(t).len()
        } by {
            lemma_split(b@, pos as int, enc_u64(encode_utf8(t).len() as u64), encode_utf8(t));
        }
    }
    let (n, p1) = match read_u64(b, pos) {
        Some(x) => x,
        None => return None,
    };
    if n > (len - p1) as u64 {
        return None;
    }
    let bytes = copy_range(b, p1, n as usize);
    let ghost bv = bytes@;
    let s = match string_from_utf8(bytes) {
        Some(s) => s,
        None => {
            proof {
                assert forall|t: Seq<char>| !starts_with_at(b@, pos as int, #[trigger] enc_text(t)) by {
                    if starts_with_at(b@, pos as int, enc_text(t)) {
                        encode_utf8_valid_utf8(t);
                        assert(bv == encode_utf8(t));
                    }
                }
            }
            return None;
        },
    };
    proof {
        decode_utf8_encode_utf8(bv);
        assert(encode_utf8(s@) == bv);
        lemma_join(b@, pos as int, enc_u64(n), bv);
        assert(enc_text(s@) =~= enc_u64(n) + bv);
        assert forall|t: Seq<char>| starts_with_at(b@, pos as int, #[trigger] enc_text(t)) implies s@ == t by {
            assert(bv == encode_utf8(t));
            encode_utf8_decode_utf8(t);
        }
    }
    Some((s, p1 + n as usize))
}

fn push_key_list(out: &mut Vec<u8>, v: &Vec<u64>)
    ensures
        final(out)@ == old(out)@ + enc_key_list(v@),
{
    push_u64(out, v.len() as u64);
    let ghost start = out@;
    let mut i: usize = 0;
    while i < v.len()
        invariant
            i <= v@.len(),
            out@ == start + enc_keys(v@.subrange(0, i as int)),
        decreases v@.len() - i,
    {
        push_u64(out, v[i]);
        assert(v@.subrange(0, i + 1).drop_last() =~= v@.subrange(0, i as int));
        i += 1;
        assert(out@ =~= start + enc_keys(v@.subrange(0, i as int)));
    }
    assert(v@.subrange(0, v@.len() as int) =~= v@);
    assert(out@ =~= old(out)@ + enc_key_list(v@));
}

fn push_attachment(out: &mut Vec<u8>, a: &Attachment)
    ensures
        final(out)@ == old(out)@ + enc_attachment(a@),
{
    push_u64(out, a.manifest_ref);
    push_text(out, &a.data_hash);
    push_text(out, &a.filename);
    push_text(out, &a.filetype);
    push_u64(out, a.size);
    assert(out@ =~= old(out)@ + enc_attachment(a@));
}

/// The canonical encoding of `m`.
pub fn encode_mail(m: &Mail) -> (r: Vec<u8>)
    ensures
        r@ == enc_mail(m@),
{
    let mut out: Vec<u8> = Vec::new();
    push_text(&mut out, &m.subject);
    push_text(&mut out, &m.body);
    push_key_list(&mut out, &m.to);
    push_key_list(&mut out, &m.cc);
    push_u64(&mut out, m.attachments.len() as u64);
    let ghost start = out@;
    let ghost av = m@.attachments;
    let mut i: usize = 0;
    while i < m.attachments.len()
        invariant
            i <= m.attachments@.len(),
            av == attachments_view(m.attachments@),
            out@ == start + enc_attachments(av.subrange(0, i as int)),
        decreases m.attachments@.len() - i,
    {
        push_attachment(&mut out, &m.attachments[i]);
        assert(av.subrange(0, i + 1).drop_last() =~= av.subrange(0, i as int));
        i += 1;
        assert(out@ =~= start + enc_attachments(av.subrange(0, i as int)));
    }
    assert(av.subrange(0, av.len() as int) =~= av);
    assert(out@ =~= enc_mail(m@));
    out
}

/// Reads `n` numbers from `pos` on.
fn read_keys(b: &Vec<u8>, pos: usize, n: u64) -> (r: Option<(Vec<u64>, usize)>)
    ensures
        r matches Some((v, p)) ==> v@.len() == n && p == pos + enc_keys(v@).len() && starts_with_at(
            b@,
            pos as int,
            enc_keys(v@),
        ),
        forall|w: Seq<u64>|
            w.len() == n && starts_with_at(b@, pos as int, #[trigger] enc_keys(w)) ==> (r matches Some((v, p))
                && v@ == w),
{
    let len = b.len();
    if pos > len || n > ((len - pos) / 8) as u64 {
        proof {
            assert forall|w: Seq<u64>|
                w.len() == n && starts_with_at(b@, pos as int, #[trigger] enc_keys(w)) implies false by {
                lemma_enc_keys_len(w);
            }
        }
        return None;
    }
    let mut v: Vec<u64> = Vec::new();
    let mut p: usize = pos;
    let mut i: u64 = 0;
    assert(b@.subrange(pos as int, pos as int) =~= enc_keys(v@));
    while i < n
        invariant
            i <= n,
            len == b@.len(),
            pos <= len,
            n <= (len - pos) / 8,
            v@.len() == i,
            p == pos + 8 * i,
            starts_with_at(b@, pos as int, enc_keys(v@)),
            forall|w: Seq<u64>|
                w.len() == n && starts_with_at(b@, pos as int, #[trigger] enc_keys(w)) ==> v@
                    == w.subrange(0, i as int),
        decreases n - i,
    {
        proof {
            lemma_enc_keys_len(v@);
        }
        let (x, p2) = match read_u64(b, p) {
            Some(r) => r,
            None => return None,
        };
        proof {
            lemma_join(b@, pos as int, enc_keys(v@), enc_u64(x));
            assert(v@.push(x).drop_last() =~= v@);
            assert forall|w: Seq<u64>|
                w.len() == n && starts_with_at(b@, pos as int, #[trigger] enc_keys(w)) implies v@.push(x)
                == w.subrange(0, i + 1) by {
                lemma_enc_keys_prefix(w, i + 1);
                let wi = w.subrange(0, i + 1);
                assert(wi.drop_last() =~= w.subrange(0, i as int));
                lemma_starts_prefix(b@, pos as int, enc_keys(w), enc_keys(wi));
                lemma_split(b@, pos as int, enc_keys(w.subrange(0, i as int)), enc_u64(w[i as int]));
                assert(v@.push(x) =~= wi);
            }
        }
        v.push(x);
        p = p2;
        i += 1;
    }
    proof {
        lemma_enc_keys_len(v@);
        assert forall|w: Seq<u64>|
            w.len() == n && starts_with_at(b@, pos as int, #[trigger] enc_keys(w)) implies v@ == w by {
            assert(w.subrange(0, n as int) =~= w);
        }
    }
    Some((v, p))
}

/// Reads a list of numbers: its length, then the numbers.
fn read_key_list(b: &Vec<u8>, pos: usize) -> (r: Option<(Vec<u64>, usize)>)
    ensures
        r matches Some((v, p)) ==> p == pos + enc_key_list(v@).len() && starts_with_at(
            b@,
            pos as int,
            enc_key_list(v@),
        ),
        forall|w: Seq<u64>|
            starts_with_at(b@, pos as int, #[trigger] enc_key_list(w)) ==> (r matches Some((v, p)) && v@
                == w),
{
    let len = b.len();
    proof {
        lemma_auto_spec_u64_to_from_le_bytes();
        assert forall|w: Seq<u64>| starts_with_at(b@, pos as int, #[trigger] enc_key_list(w)) implies {
            &&& starts_with_at(b@, pos as int, enc_u64(w.len() as u64))
            &&& starts_with_at(b@, pos + 8, enc_keys(w))
            &&& w.len() as u64 == w.len()
        } by {
            lemma_split(b@, pos as int, enc_u64(w.len() as u64), enc_keys(w));
            lemma_enc_keys_len(w);
        }
    }
    let (n, p1) = match read_u64(b, pos) {
        Some(x) => x,
        None => return None,
    };
    let (v, p2) = match read_keys(b, p1, n) {
        Some(x) => x,
        None => return None,
    };
    proof {
        lemma_enc_keys_len(v@);
        lemma_join(b@, pos as int, enc_u64(n), enc_keys(v@));
        assert(enc_key_list(v@) =~= enc_u64(n) + enc_keys(v@));
    }
    Some((v, p2))
}

proof fn lemma_enc_attachments_len(v: Seq<AttachmentView>)
    ensures
        enc_attachments(v).len() >= v.len(),
    decreases v.len(),
{
    if v.len() > 0 {
        lemma_enc_attachments_len(v.drop_last());
        lemma_enc_u64(v.last().manifest_ref);
    }
}

/// Reads the attachment encoded at `pos`.
fn read_attachment(b: &Vec<u8>, pos: usize) -> (r: Option<(Attachment, usize)>)
    ensures
        r matches Some((a, p)) ==> p == pos + enc_attachment(a@).len() && starts_with_at(
            b@,
            pos as int,
            enc_attachment(a@),
        ),
        forall|x: AttachmentView|
            starts_with_at(b@, pos as int, #[trigger] enc_attachment(x)) ==> (r matches Some((a, p)) && a@
                == x),
{
    proof {
        lemma_auto_spec_u64_to_from_le_bytes();
        assert forall|x: AttachmentView| starts_with_at(b@, pos as int, #[trigger] enc_attachment(x)) implies {
            let e1 = enc_u64(x.manifest_ref);
            let e2 = e1 + enc_text(x.data_hash);
            let e3 = e2 + enc_text(x.filename);
            let e4 = e3 + enc_text(x.filetype);
            &&& starts_with_at(b@, pos as int, e1)
            &&& starts_with_at(b@, pos + e1.len(), enc_text(x.data_hash))
            &&& starts_with_at(b@, pos + e2.len(), enc_text(x.filename))
            &&& starts_with_at(b@, pos + e3.len(), enc_text(x.filetype))
            &&& starts_with_at(b@, pos + e4.len(), enc_u64(x.size))
        } by {
            let e1 = enc_u64(x.manifest_ref);
            let e2 = e1 + enc_text(x.data_hash);
            let e3 = e2 + enc_text(x.filename);
            let e4 = e3 + enc_text(x.filetype);
            lemma_split(b@, pos as int, e4, enc_u64(x.size));
            lemma_split(b@, pos as int, e3, enc_text(x.filetype));
            lemma_split(b@, pos as int, e2, enc_text(x.filename));
            lemma_split(b@, pos as int, e1, enc_text(x.data_hash));
        }
    }
    let (manifest_ref, p1) = match read_u64(b, pos) {
        Some(x) => x,
        None => return None,
    };
    let (data_hash, p2) = match read_text(b, p1) {
        Some(x) => x,
        None => return None,
    };
    let (filename, p3) = match read_text(b, p2) {
        Some(x) => x,
        None => return None,
    };
    let (filetype, p4) = match read_text(b, p3) {
        Some(x) => x,
        None => return None,
    };
    let (size, p5) = match read_u64(b, p4) {
        Some(x) => x,
        None => return None,
    };
    let a = Attachment { manifest_ref, data_hash, filename, filetype, size };
    proof {
        let e1 = enc_u64(manifest_ref);
        let e2 = e1 + enc_text(a.data_hash@);
        let e3 = e2 + enc_text(a.filename@);
        let e4 = e3 + enc_text(a.filetype@);
        lemma_join(b@, pos as int, e1, enc_text(a.data_hash@));
        lemma_join(b@, pos as int, e2, enc_text(a.filename@));
        lemma_join(b@, pos as int, e3, enc_text(a.filetype@));
        lemma_join(b@, pos as int, e4, enc_u64(size));
    }
    Some((a, p5))
}

/// Reads `n` attachments from `pos` on.
fn read_attachments(b: &Vec<u8>, pos: usize, n: u64) -> (r: Option<(Vec<Attachment>, usize)>)
    ensures
        r matches Some((v, p)) ==> v@.len() == n && p == pos + enc_attachments(attachments_view(v@)).len()
            && starts_with_at(b@, pos as int, enc_attachments(attachments_view(v@))),
        forall|w: Seq<AttachmentView>|
            w.len() == n && starts_with_at(b@, pos as int, #[trigger] enc_attachments(w)) ==> (r matches Some(
                (v, p),
            ) && attachments_view(v@) == w),
{
    let len = b.len();
    if pos > len {
        return None;
    }
    let mut v: Vec<Attachment> = Vec::new();
    let mut p: usize = pos;
    let mut i: u64 = 0;
    assert(b@.subrange(pos as int, pos as int) =~= enc_attachments(attachments_view(v@)));
    while i < n
        invariant
            i <= n,
            len == b@.len(),
            pos <= len,
            v@.len() == i,
            p == pos + enc_attachments(attachments_view(v@)).len(),
            starts_with_at(b@, pos as int, enc_attachments(attachments_view(v@))),
            forall|w: Seq<AttachmentView>|
                w.len() == n && starts_with_at(b@, pos as int, #[trigger] enc_attachments(w))
                    ==> attachments_view(v@) == w.subrange(0, i as int),
        decreases n - i,
    {
        let ghost vv = attachments_view(v@);
        proof {
            assert forall|w: Seq<AttachmentView>|
                w.len() == n && starts_with_at(b@, pos as int, #[trigger] enc_attachments(w)) implies
                starts_with_at(b@, p as int, enc_attachment(w[i as int])) by {
                lemma_enc_attachments_prefix(w, i + 1);
                let wi = w.subrange(0, i + 1);
                assert(wi.drop_last() =~= w.subrange(0, i as int));
                lemma_starts_prefix(b@, pos as int, enc_attachments(w), enc_attachments(wi));
                lemma_split(b@, pos as int, enc_attachments(w.subrange(0, i as int)), enc_attachment(w[i as int]));
            }
        }
        let (a, p2) = match read_attachment(b, p) {
            Some(r) => r,
            None => return None,
        };
        proof {
            lemma_join(b@, pos as int, enc_attachments(vv), enc_attachment(a@));
            assert(attachments_view(v@.push(a)) =~= vv.push(a@));
            assert(vv.push(a@).drop_last() =~= vv);
            assert forall|w: Seq<AttachmentView>|
                w.len() == n && starts_with_at(b@, pos as int, #[trigger] enc_attachments(w)) implies vv.push(a@)
                == w.subrange(0, i + 1) by {
                assert(vv.push(a@) =~= w.subrange(0, i + 1));
            }
        }
        v.push(a);
        p = p2;
        i += 1;
    }
    proof {
        assert forall|w: Seq<AttachmentView>|
            w.len() == n && starts_with_at(b@, pos as int, #[trigger] enc_attachments(w)) implies attachments_view(v@) == w by {
            assert(w.subrange(0, n as int) =~= w);
        }
    }
    Some((v, p))
}

/// Decodes a mail; succeeds exactly on the canonical encodings.
pub fn decode_mail(b: &Vec<u8>) -> (r: Option<Mail>)
    ensures
        r matches Some(m) ==> enc_mail(m@) == b@,
        forall|x: MailView| #[trigger] enc_mail(x) == b@ ==> (r matches Some(m) && m@ == x),
{
    let len = b.len();
    proof {
        lemma_auto_spec_u64_to_from_le_bytes();
        assert forall|x: MailView| #[trigger] enc_mail(x) == b@ implies {
            let e1 = enc_text(x.subject);
            let e2 = e1 + enc_text(x.body);
            let e3 = e2 + enc_key_list(x.to);
            let e4 = e3 + enc_key_list(x.cc);
            let e5 = e4 + enc_u64(x.attachments.len() as u64);
            &&& starts_with_at(b@, 0, e1)
            &&& starts_with_at(b@, e1.len() as int, enc_text(x.body))
            &&& starts_with_at(b@, e2.len() as int, enc_key_list(x.to))
            &&& starts_with_at(b@, e3.len() as int, enc_key_list(x.cc))
            &&& starts_with_at(b@, e4.len() as int, enc_u64(x.attachments.len() as u64))
            &&& starts_with_at(b@, e5.len() as int, enc_attachments(x.attachments))
            &&& e5.len() + enc_attachments(x.attachments).len() == b@.len()
            &&& x.attachments.len() as u64 == x.attachments.len()
        } by {
            let e1 = enc_text(x.subject);
            let e2 = e1 + enc_text(x.body);
            let e3 = e2 + enc_key_list(x.to);
            let e4 = e3 + enc_key_list(x.cc);
            let e5 = e4 + enc_u64(x.attachments.len() as u64);
            assert(b@.subrange(0, b@.len() as int) =~= b@);
            lemma_split(b@, 0, e5, enc_attachments(x.attachments));
            lemma_split(b@, 0, e4, enc_u64(x.attachments.len() as u64));
            lemma_split(b@, 0, e3, enc_key_list(x.cc));
            lemma_split(b@, 0, e2, enc_key_list(x.to));
            lemma_split(b@, 0, e1, enc_text(x.body));
            lemma_enc_attachments_len(x.attachments);
        }
    }
    let (subject, p1) = match read_text(b, 0) {
        Some(x) => x,
        None => return None,
    };
    let (body, p2) = match read_text(b, p1) {
        Some(x) => x,
        None => return None,
    };
    let (to, p3) = match read_key_list(b, p2) {
        Some(x) => x,
        None => return None,
    };
    let (cc, p4) = match read_key_list(b, p3) {
        Some(x) => x,
        None => return None,
    };
    let (n, p5) = match read_u64(b, p4) {
        Some(x) => x,
        None => return None,
    };
    let (attachments, p6) = match read_attachments(b, p5, n) {
        Some(x) => x,
        None => return None,
    };
    if p6 != len {
        return None;
    }
    let m = Mail { subject, body, to, cc, attachments };
    proof {
        let e1 = enc_text(m.subject@);
        let e2 = e1 + enc_text(m.body@);
        let e3 = e2 + enc_key_list(m.to@);
        let e4 = e3 + enc_key_list(m.cc@);
        let e5 = e4 + enc_u64(n);
        lemma_join(b@, 0, e1, enc_text(m.body@));
        lemma_join(b@, 0, e2, enc_key_list(m.to@));
        lemma_join(b@, 0, e3, enc_key_list(m.cc@));
        lemma_join(b@, 0, e4, enc_u64(n));
        lemma_join(b@, 0, e5, enc_attachments(m@.attachments));
        assert(enc_mail(m@) =~= e5 + enc_attachments(m@.attachments));
        assert(b@.subrange(0, b@.len() as int) =~= b@);
    }
    Some(m)
}

/// Decodes an acknowledgment's plaintext; succeeds exactly on the encoding
/// of a number.
pub fn decode_ack(b: &Vec<u8>) -> (r: Option<u64>)
    ensures
        r matches Some(x) ==> b@ == enc_u64(x),
        forall|x: u64| #[trigger] enc_u64(x) == b@ ==> r == Some(x),
{
    let len = b.len();
    proof {
        lemma_auto_spec_u64_to_from_le_bytes();
        assert(b@.subrange(0, b@.len() as int) =~= b@);
    }
    match read_u64(b, 0) {
        Some((x, p)) => {
            if p == len {
                Some(x)
            } else {
                None
            }
        },
        None => None,
    }
}

proof fn lemma_u64_unique(b: Seq<u8>, pos: int, x1: u64, x2: u64)
    requires
        starts_with_at(b, pos, enc_u64(x1)),
        starts_with_at(b, pos, enc_u64(x2)),
    ensures
        x1 == x2,
{
    lemma_enc_u64(x1);
    lemma_enc_u64(x2);
}

proof fn lemma_text_unique(b: Seq<u8>, pos: int, s1: Seq<char>, s2: Seq<char>)
    requires
        b.len() <= u64::MAX,
        starts_with_at(b, pos, enc_text(s1)),
        starts_with_at(b, pos, enc_text(s2)),
    ensures
        s1 == s2,
{
    let l1 = encode_utf8(s1).len();
    let l2 = encode_utf8(s2).len();
    lemma_split(b, pos, enc_u64(l1 as u64), encode_utf8(s1));
    lemma_split(b, pos, enc_u64(l2 as u64), encode_utf8(s2));
    lemma_enc_u64(l1 as u64);
    lemma_u64_unique(b, pos, l1 as u64, l2 as u64);
    assert(encode_utf8(s1) == encode_utf8(s2));
    encode_utf8_decode_utf8(s1);
    encode_utf8_decode_utf8(s2);
}

proof fn lemma_keys_unique(b: Seq<u8>, pos: int, w1: Seq<u64>, w2: Seq<u64>)
    requires
        w1.len() == w2.len(),
        starts_with_at(b, pos, enc_keys(w1)),
        starts_with_at(b, pos, enc_keys(w2)),
    ensures
        w1 == w2,
    decreases w1.len(),
{
    if w1.len() > 0 {
        lemma_split(b, pos, enc_keys(w1.drop_last()), enc_u64(w1.last()));
        lemma_split(b, pos, enc_keys(w2.drop_last()), enc_u64(w2.last()));
        lemma_keys_unique(b, pos, w1.drop_last(), w2.drop_last());
        lemma_u64_unique(b, pos + enc_keys(w1.drop_last()).len(), w1.last(), w2.last());
        assert(w1 =~= w1.drop_last().push(w1.last()));
        assert(w2 =~= w2.drop_last().push(w2.last()));
    } else {
        assert(w1 =~= w2);
    }
}

proof fn lemma_key_list_unique(b: Seq<u8>, pos: int, w1: Seq<u64>, w2: Seq<u64>)
    requires
        b.len() <= u64::MAX,
        starts_with_at(b, pos, enc_key_list(w1)),
        starts_with_at(b, pos, enc_key_list(w2)),
    ensures
        w1 == w2,
{
    lemma_split(b, pos, enc_u64(w1.len() as u64), enc_keys(w1));
    lemma_split(b, pos, enc_u64(w2.len() as u64), enc_keys(w2));
    lemma_enc_keys_len(w1);
    lemma_enc_keys_len(w2);
    lemma_enc_u64(w1.len() as u64);
    lemma_enc_u64(w2.len() as u64);
    lemma_u64_unique(b, pos, w1.len() as u64, w2.len() as u64);
    lemma_keys_unique(b, pos + 8, w1, w2);
}

proof fn lemma_attachment_unique(b: Seq<u8>, pos: int, a1: AttachmentView, a2: AttachmentView)
    requires
        b.len() <= u64::MAX,
        starts_with_at(b, pos, enc_attachment(a1)),
        starts_with_at(b, pos, enc_attachment(a2)),
    ensures
        a1 == a2,
{
    let e1 = enc_u64(a1.manifest_ref);
    let e2 = e1 + enc_text(a1.data_hash);
    let e3 = e2 + enc_text(a1.filename);
    let e4 = e3 + enc_text(a1.filetype);
    lemma_split(b, pos, e4, enc_u64(a1.size));
    lemma_split(b, pos, e3, enc_text(a1.filetype));
    lemma_split(b, pos, e2, enc_text(a1.filename));
    lemma_split(b, pos, e1, enc_text(a1.data_hash));
    let f1 = enc_u64(a2.manifest_ref);
    let f2 = f1 + enc_text(a2.data_hash);
    let f3 = f2 + enc_text(a2.filename);
    let f4 = f3 + enc_text(a2.filetype);
    lemma_split(b, pos, f4, enc_u64(a2.size));
    lemma_split(b, pos, f3, enc_text(a2.filetype));
    lemma_split(b, pos, f2, enc_text(a2.filename));
    lemma_split(b, pos, f1, enc_text(a2.data_hash));
    lemma_enc_u64(a1.manifest_ref);
    lemma_enc_u64(a2.manifest_ref);
    lemma_u64_unique(b, pos, a1.manifest_ref, a2.manifest_ref);
    lemma_text_unique(b, pos + 8, a1.data_hash, a2.data_hash);
    lemma_text_unique(b, pos + e2.len(), a1.filename, a2.filename);
    lemma_text_unique(b, pos + e3.len(), a1.filetype, a2.filetype);
    lemma_u64_unique(b, pos + e4.len(), a1.size, a2.size);
}

proof fn lemma_attachments_unique(b: Seq<u8>, pos: int, w1: Seq<AttachmentView>, w2: Seq<AttachmentView>)
    requires
        b.len() <= u64::MAX,
        w1.len() == w2.len(),
        starts_with_at(b, pos, enc_attachments(w1)),
        starts_with_at(b, pos, enc_attachments(w2)),
    ensures
        w1 == w2,
    decreases w1.len(),
{
    if w1.len() > 0 {
        lemma_split(b, pos, enc_attachments(w1.drop_last()), enc_attachment(w1.last()));
        lemma_split(b, pos, enc_attachments(w2.drop_last()), enc_attachment(w2.last()));
        lemma_attachments_unique(b, pos, w1.drop_last(), w2.drop_last());
        lemma_attachment_unique(b, pos + enc_attachments(w1.drop_last()).len(), w1.last(), w2.last());
        assert(w1 =~= w1.drop_last().push(w1.last()));
        assert(w2 =~= w2.drop_last().push(w2.last()));
    } else {
        assert(w1 =~= w2);
    }
}

/// Two mails with the same canonical encoding are the same mail.
pub proof fn lemma_enc_mail_injective(m1: MailView, m2: MailView)
    requires
        enc_mail(m1) == enc_mail(m2),
        enc_mail(m1).len() <= u64::MAX,
    ensures
        m1 == m2,
{
    let b = enc_mail(m1);
    assert(b.subrange(0, b.len() as int) =~= b);
    let e1 = enc_text(m1.subject);
    let e2 = e1 + enc_text(m1.body);
    let e3 = e2 + enc_key_list(m1.to);
    let e4 = e3 + enc_key_list(m1.cc);
    let e5 = e4 + enc_u64(m1.attachments.len() as u64);
    lemma_split(b, 0, e5, enc_attachments(m1.attachments));
    lemma_split(b, 0, e4, enc_u64(m1.attachments.len() as u64));
    lemma_split(b, 0, e3, enc_key_list(m1.cc));
    lemma_split(b, 0, e2, enc_key_list(m1.to));
    lemma_split(b, 0, e1, enc_text(m1.body));
    let f1 = enc_text(m2.subject);
    let f2 = f1 + enc_text(m2.body);
    let f3 = f2 + enc_key_list(m2.to);
    let f4 = f3 + enc_key_list(m2.cc);
    let f5 = f4 + enc_u64(m2.attachments.len() as u64);
    lemma_split(b, 0, f5, enc_attachments(m2.attachments));
    lemma_split(b, 0, f4, enc_u64(m2.attachments.len() as u64));
    lemma_split(b, 0, f3, enc_key_list(m2.cc));
    lemma_split(b, 0, f2, enc_key_list(m2.to));
    lemma_split(b, 0, f1, enc_text(m2.body));
    lemma_text_unique(b, 0, m1.subject, m2.subject);
    lemma_text_unique(b, e1.len() as int, m1.body, m2.body);
    lemma_key_list_unique(b, e2.len() as int, m1.to, m2.to);
    lemma_key_list_unique(b, e3.len() as int, m1.cc, m2.cc);
    lemma_enc_attachments_len(m1.attachments);
    lemma_enc_attachments_len(m2.attachments);
    lemma_enc_u64(m1.attachments.len() as u64);
    lemma_enc_u64(m2.attachments.len() as u64);
    lemma_u64_unique(b, e4.len() as int, m1.attachments.len() as u64, m2.attachments.len() as u64);
    lemma_attachments_unique(b, e5.len() as int, m1.attachments, m2.attachments);
}

} // verus!
