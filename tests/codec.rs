use snapmail::codec::{decode_ack, decode_mail, encode_mail};
use snapmail::model::{Attachment, Mail};

fn le(x: u64) -> Vec<u8> {
    x.to_le_bytes().to_vec()
}

fn sample() -> Mail {
    Mail {
        subject: "Grüße".to_string(),
        body: "line one\nline two".to_string(),
        to: vec![7, 8],
        cc: vec![9],
        attachments: vec![Attachment {
            manifest_ref: 3,
            data_hash: "abc".to_string(),
            filename: "f.pdf".to_string(),
            filetype: "pdf".to_string(),
            size: 1234,
        }],
    }
}

fn same(a: &Mail, b: &Mail) -> bool {
    a.subject == b.subject
        && a.body == b.body
        && a.to == b.to
        && a.cc == b.cc
        && a.attachments.len() == b.attachments.len()
        && a.attachments.iter().zip(b.attachments.iter()).all(|(x, y)| {
            x.manifest_ref == y.manifest_ref
                && x.data_hash == y.data_hash
                && x.filename == y.filename
                && x.filetype == y.filetype
                && x.size == y.size
        })
}

#[test]
fn encoding_layout_is_exact() {
    let m = Mail { subject: "a".to_string(), body: String::new(), to: vec![1], cc: vec![], attachments: vec![] };
    let mut expected = Vec::new();
    expected.extend(le(1));
    expected.push(b'a');
    expected.extend(le(0));
    expected.extend(le(1));
    expected.extend(le(1));
    expected.extend(le(0));
    expected.extend(le(0));
    assert_eq!(encode_mail(&m), expected);
}

#[test]
fn decode_inverts_encode() {
    let m = sample();
    let bytes = encode_mail(&m);
    let back = decode_mail(&bytes).unwrap();
    assert!(same(&m, &back));
    assert_eq!(back.subject, "Grüße");
}

#[test]
fn decode_rejects_truncated_and_trailing_bytes() {
    let bytes = encode_mail(&sample());
    for cut in 0..bytes.len() {
        assert!(decode_mail(&bytes[..cut].to_vec()).is_none());
    }
    let mut longer = bytes.clone();
    longer.push(0);
    assert!(decode_mail(&longer).is_none());
}

#[test]
fn decode_rejects_invalid_utf8() {
    let mut bytes = Vec::new();
    bytes.extend(le(1));
    bytes.push(0xFF);
    bytes.extend(le(0));
    bytes.extend(le(0));
    bytes.extend(le(0));
    bytes.extend(le(0));
    assert!(decode_mail(&bytes).is_none());
    bytes[8] = b'z';
    let m = decode_mail(&bytes).unwrap();
    assert_eq!(m.subject, "z");
    assert!(m.to.is_empty());
}

#[test]
fn ack_plaintext_round_trip() {
    assert_eq!(decode_ack(&le(77)), Some(77));
    assert_eq!(decode_ack(&vec![1, 2, 3]), None);
    assert_eq!(decode_ack(&vec![0; 9]), None);
}
