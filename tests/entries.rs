use snapmail::compose::FileManifest;
use snapmail::entries::{FileChunk, Handle, Invalid, SnapmailProperties};

fn props() -> SnapmailProperties {
    SnapmailProperties { min_handle_length: 3, max_handle_length: 5, max_chunk_size: 2048, max_file_size: 4096 }
}

#[test]
fn handle_length_bounds() {
    assert_eq!(Handle::new("ab".to_string()).validate(&props()), Err(Invalid::UsernameTooShort));
    assert_eq!(Handle::new("abc".to_string()).validate(&props()), Ok(()));
    assert_eq!(Handle::new("abcde".to_string()).validate(&props()), Ok(()));
    assert_eq!(Handle::new("abcdef".to_string()).validate(&props()), Err(Invalid::UsernameTooLong));
    // the bound is on bytes, not characters
    assert_eq!(Handle::new("ééé".to_string()).validate(&props()), Err(Invalid::UsernameTooLong));
    assert_eq!(Handle::empty().username, "");
    assert_eq!(Handle::dummy().username, "dummy");
}

#[test]
fn chunk_size_bound() {
    let ok = FileChunk::new("h".to_string(), 0, "x".repeat(2048));
    assert_eq!(ok.validate(&props()), Ok(()));
    assert_eq!(ok.chunk_index, 0);
    let big = FileChunk::new("h".to_string(), 1, "x".repeat(2049));
    assert_eq!(big.validate(&props()), Err(Invalid::ChunkTooBig { max_chunk_kib: 2 }));
}

#[test]
fn manifest_rules() {
    let m = |size: u64, chunks: Vec<u64>| FileManifest {
        data_hash: "h".to_string(),
        filename: "f".to_string(),
        filetype: "t".to_string(),
        orig_filesize: size,
        chunks,
    };
    assert_eq!(m(4097, vec![1]).validate(&props()), Err(Invalid::FileTooBig { max_file_kib: 4 }));
    assert_eq!(m(0, vec![1]).validate(&props()), Err(Invalid::EmptyFile));
    assert_eq!(m(10, vec![]).validate(&props()), Err(Invalid::NoChunks));
    assert_eq!(m(4096, vec![1, 2]).validate(&props()), Ok(()));
}

#[test]
fn find_manifest_returns_first_match() {
    let m = |hash: &str, name: &str| FileManifest {
        data_hash: hash.to_string(),
        filename: name.to_string(),
        filetype: "t".to_string(),
        orig_filesize: 1,
        chunks: vec![1],
    };
    let list = vec![m("a", "one"), m("b", "two"), m("b", "three")];
    assert_eq!(snapmail::entries::find_manifest(&list, &"b".to_string()), Some(1));
    assert_eq!(snapmail::entries::find_manifest(&list, &"c".to_string()), None);
    assert_eq!(snapmail::entries::find_manifest(&Vec::new(), &"a".to_string()), None);
}
