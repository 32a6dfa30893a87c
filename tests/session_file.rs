use probe_extract::extract::{build_extraction, LineRequest};
use probe_extract::session::{decode_session, encode_session, SessionError};
use probe_extract::tokenize::{remove_stopwords, tokenize, tokenize_with_filename};

fn strs(v: &[&str]) -> Vec<String> {
    v.iter().map(|s| s.to_string()).collect()
}

#[test]
fn session_file_layout() {
    let bytes = encode_session(&b"s1".to_vec(), 0x0102, &vec![7u128]);
    let mut expected: Vec<u8> = b"PRBSESS1".to_vec();
    expected.extend_from_slice(&[1, 0, 0, 0]);
    expected.extend_from_slice(b"s1\0");
    expected.extend_from_slice(&0x0102u64.to_le_bytes());
    expected.extend_from_slice(&7u128.to_le_bytes());
    assert_eq!(bytes, expected);
}

#[test]
fn session_file_round_trip() {
    let fps = vec![u128::MAX, 0, 0x1234_5678_9abc_def0_1122_3344_5566_7788];
    let bytes = encode_session(&b"team-alpha".to_vec(), 1_700_000_000, &fps);
    let f = decode_session(&bytes).ok().unwrap();
    assert_eq!(f.session_id, b"team-alpha".to_vec());
    assert_eq!(f.created, 1_700_000_000);
    assert_eq!(f.fingerprints, fps);
}

#[test]
fn corrupt_session_files() {
    let good = encode_session(&b"x".to_vec(), 5, &vec![1u128]);
    let mut bad_magic = good.clone();
    bad_magic[0] = b'Q';
    assert_eq!(decode_session(&bad_magic).err(), Some(SessionError::Corrupt));
    let mut bad_version = good.clone();
    bad_version[8] = 2;
    assert_eq!(decode_session(&bad_version).err(), Some(SessionError::Corrupt));
    let truncated = good[..good.len() - 3].to_vec();
    assert_eq!(decode_session(&truncated).err(), Some(SessionError::Corrupt));
    let no_terminator = b"PRBSESS1\x01\x00\x00\x00abc".to_vec();
    assert_eq!(decode_session(&no_terminator).err(), Some(SessionError::Corrupt));
    assert_eq!(decode_session(&Vec::new()).err(), Some(SessionError::Corrupt));
}

#[test]
fn stopwords_are_removed() {
    assert_eq!(remove_stopwords(tokenize("open the file of a user")), strs(&["open", "file", "user"]));
}

#[test]
fn filename_terms_are_appended() {
    assert_eq!(tokenize_with_filename("def open():", "src/file_utils.py"), strs(&["def", "open", "file", "utils"]));
    assert_eq!(tokenize_with_filename("x", "Makefile"), strs(&["x", "makefile"]));
}

#[test]
fn extracted_block_carries_terms() {
    let lines: Vec<String> = vec!["def openFile():".to_string(), "    pass".to_string()];
    let b = build_extraction("io.py".to_string(), "def openFile():\n    pass\n", &lines, &LineRequest::WholeFile, &Vec::new(), &Vec::new(), 0).unwrap();
    assert_eq!(b.tokenized_content, strs(&["def", "open", "file", "pass", "io"]));
}
