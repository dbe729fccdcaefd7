use epic_mickey::dct::{DCTPatch, DialogEntry, FooterEntry, DCT};
use epic_mickey::error::Error;

fn entry(key: u32, text: &str) -> DialogEntry {
    DialogEntry::new(key, text.to_string())
}

#[test]
fn placeholder_keeps_its_place() {
    let dct = DCT::new("dct ".to_string(), 1, 0, 1, vec![entry(0, ""), entry(0xDEADBEEF, "hi")], vec![]);
    let bytes = dct.to_binary();
    let mut expected: Vec<u8> = Vec::new();
    expected.extend_from_slice(b"dct ");
    for v in [1u32, 0, 1, 2, 1, 23, 0] {
        expected.extend_from_slice(&v.to_le_bytes());
    }
    expected.extend_from_slice(&[0; 12]);
    expected.extend_from_slice(&0xDEADBEEFu32.to_le_bytes());
    expected.extend_from_slice(&24u32.to_le_bytes());
    expected.extend_from_slice(&0u32.to_le_bytes());
    expected.extend_from_slice(&[0; 17]);
    expected.extend_from_slice(b"hi\0");
    assert_eq!(bytes, expected);
    let back = DCT::from_binary(bytes).unwrap();
    assert_eq!(back, dct);
    assert_eq!(back.dialog_entries[0], entry(0, ""));
}

#[test]
fn table_with_footer_round_trips() {
    let dct = DCT::new(
        "dct ".to_string(),
        2,
        77,
        3,
        vec![entry(5, "five"), entry(0, ""), entry(6, ""), entry(7, "seven")],
        vec![FooterEntry::new(1, "one".to_string()), FooterEntry::new(2, "".to_string())],
    );
    let bytes = dct.pack();
    let records_end = 32 + 4 * 12 + 2 * 8;
    assert_eq!(&bytes[records_end..records_end + 16], &[0xDF, 0xFF, 0xFF, 0xFF, 11, 0, 0, 0, 12, 0, 0, 0, 0, 0, 0, 0]);
    assert_eq!(bytes[records_end + 16], 0);
    assert_eq!(&bytes[records_end + 17..records_end + 22], b"five\0");
    assert_eq!(u32::from_le_bytes([bytes[24], bytes[25], bytes[26], bytes[27]]), 63);
    assert_eq!(u32::from_le_bytes([bytes[28], bytes[29], bytes[30], bytes[31]]), 1);
    let back = DCT::from_binary(bytes).unwrap();
    assert_eq!(back, dct);
}

#[test]
fn empty_table_round_trips() {
    let dct = DCT::new("dct ".to_string(), 0, 0, 0, vec![], vec![]);
    let bytes = dct.pack();
    assert_eq!(bytes.len(), 32);
    assert_eq!(&bytes[24..28], &[0xFF, 0xFF, 0xFF, 0xFF]);
    assert_eq!(DCT::from_binary(bytes).unwrap(), dct);
}

#[test]
fn truncated_table_fails() {
    assert_eq!(DCT::from_binary(vec![1, 2, 3]), Err(Error::UnexpectedEof { at: 0, need: 4 }));
    let dct = DCT::new("dct ".to_string(), 1, 0, 1, vec![entry(9, "text")], vec![]);
    let mut bytes = dct.pack();
    bytes.truncate(40);
    assert_eq!(DCT::from_binary(bytes), Err(Error::UnexpectedEof { at: 40, need: 4 }));
    let mut bytes = dct.pack();
    let n = bytes.len();
    bytes.truncate(n - 1);
    assert_eq!(DCT::from_binary(bytes), Err(Error::UnexpectedEof { at: n - 1, need: 1 }));
    assert_eq!(DCT::from_binary(vec![0xFF; 40]), Err(Error::BadEncoding));
}

#[test]
fn set_line_updates_first_match_or_appends() {
    let mut dct = DCT::new("dct ".to_string(), 1, 0, 1, vec![entry(1, "a"), entry(2, "b"), entry(1, "c")], vec![]);
    dct.set_line_from_hash(1, "z".to_string());
    assert_eq!(dct.dialog_entries, vec![entry(1, "z"), entry(2, "b"), entry(1, "c")]);
    dct.set_line_from_hash(3, "n".to_string());
    assert_eq!(dct.dialog_entries.len(), 4);
    assert_eq!(dct.dialog_entries[3], entry(3, "n"));
    dct.set_line_from_hash(0, "ignored".to_string());
    assert_eq!(dct.dialog_entries.len(), 4);
}

#[test]
fn merge_sets_lines_and_appends_footers() {
    let mut dct = DCT::new(
        "dct ".to_string(),
        1,
        5,
        1,
        vec![entry(1, "a"), entry(0, "")],
        vec![FooterEntry::new(1, "f".to_string())],
    );
    let patch = DCTPatch {
        magic: None,
        version1: Some(4),
        hash_seed: None,
        version2: None,
        dialog_entries: vec![entry(0, "skip"), entry(1, "A"), entry(8, "new")],
        footer_entries: vec![FooterEntry::new(1, "again".to_string())],
    };
    dct.merge_in_dict(patch);
    assert_eq!(dct.magic, "dct ");
    assert_eq!(dct.version1, 4);
    assert_eq!(dct.hash_seed, 5);
    assert_eq!(dct.dialog_entries, vec![entry(1, "A"), entry(0, ""), entry(8, "new")]);
    assert_eq!(dct.footer_entries, vec![FooterEntry::new(1, "f".to_string()), FooterEntry::new(1, "again".to_string())]);
}
