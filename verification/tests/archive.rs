use epic_mickey::error::Error;
use epic_mickey::file_manipulator::{EndianType, FileManipulator, WriteMode};
use epic_mickey::packfile::{EndianDependentString, Packfile, VirtualFile};

fn tag(text: &str) -> EndianDependentString {
    EndianDependentString::new(text.to_string())
}

fn file(path: &str, data: &[u8], compress: bool) -> VirtualFile {
    VirtualFile::new(tag("BIN"), compress, 6, path.to_string(), data.to_vec())
}

fn archive(files: Vec<VirtualFile>) -> Packfile {
    Packfile::new(tag(" KAP"), 2, files)
}

#[test]
fn magic_tells_the_byte_order() {
    let empty = archive(vec![]);
    let big = empty.to_binary(EndianType::BIG).unwrap();
    assert_eq!(&big[0..4], &[0x20, 0x4B, 0x41, 0x50]);
    assert_eq!(&big[4..8], &[0, 0, 0, 2]);
    let little = empty.to_binary(EndianType::LITTLE).unwrap();
    assert_eq!(&little[0..4], &[0x50, 0x41, 0x4B, 0x20]);
    assert_eq!(&little[4..8], &[2, 0, 0, 0]);
    assert_eq!(Packfile::from_binary(big).unwrap(), empty);
    assert_eq!(Packfile::from_binary(little).unwrap(), empty);
    let mut bad = vec![0xDE, 0xAD, 0xBE, 0xEF];
    bad.extend_from_slice(&[0; 60]);
    assert_eq!(
        Packfile::from_binary(bad),
        Err(Error::BadMagic { got: vec![0xDE, 0xAD, 0xBE, 0xEF], expected: b" KAP".to_vec() })
    );
    assert_eq!(Packfile::from_binary(vec![0x20, 0x4B]), Err(Error::UnexpectedEof { at: 0, need: 4 }));
}

#[test]
fn folders_are_pooled_once() {
    let pack = archive(vec![file("folder/a.txt", b"one", false), file("folder/b.txt", b"two!", false)]);
    let bytes = pack.pack(EndianType::BIG).unwrap();
    assert_eq!(&bytes[12..16], &[0, 0, 0, 32]);
    assert_eq!(&bytes[16..20], &[0, 0, 0, 96]);
    assert_eq!(&bytes[20..32], &[0; 12]);
    assert_eq!(&bytes[32..36], &[0, 0, 0, 2]);
    assert_eq!(&bytes[84..103], b"folder\0a.txt\0b.txt\0");
    assert_eq!(&bytes[103..128], &[0; 25]);
    assert_eq!(&bytes[36..60], &[0, 0, 0, 3, 0, 0, 0, 3, 0, 0, 0, 32, 0, 0, 0, 0, 0x42, 0x49, 0x4E, 0, 0, 0, 0, 7]);
    assert_eq!(&bytes[60..84], &[0, 0, 0, 4, 0, 0, 0, 4, 0, 0, 0, 32, 0, 0, 0, 0, 0x42, 0x49, 0x4E, 0, 0, 0, 0, 13]);
    assert_eq!(&bytes[128..131], b"one");
    assert_eq!(&bytes[160..164], b"two!");
    assert_eq!(bytes.len(), 192);
}

#[test]
fn folder_and_name_of_the_same_text_stand_twice() {
    let pack = archive(vec![file("x/x", b"", false), file("x", b"", false)]);
    let bytes = pack.pack(EndianType::LITTLE).unwrap();
    assert_eq!(&bytes[84..89], b"x\0x\0\0");
    let back = Packfile::from_binary(bytes).unwrap();
    assert_eq!(back.files[0].path, "x/x");
    assert_eq!(back.files[1].path, "x");
}

#[test]
fn archive_round_trips_across_byte_orders() {
    let long: Vec<u8> = (0..2000u32).map(|i| (i % 7) as u8).collect();
    let pack = archive(vec![
        file("a/b/c.bin", &long, true),
        file("plain.txt", b"hello", false),
        file("a/b/d.bin", &[], false),
    ]);
    let big = pack.to_binary(EndianType::BIG).unwrap();
    let from_big = Packfile::from_binary(big).unwrap();
    assert_eq!(from_big, pack);
    let little = from_big.to_binary(EndianType::LITTLE).unwrap();
    assert_eq!(&little[0..4], b"PAK ");
    let from_little = Packfile::from_binary(little).unwrap();
    assert_eq!(from_little, pack);
    assert_eq!(from_little.files[0].type_.text, "BIN");
}

#[test]
fn compressed_data_is_a_zlib_stream() {
    let data = vec![7u8; 500];
    let f = file("z", &data, true);
    let stored = f.get_compressed_data().unwrap();
    assert_ne!(stored, data);
    assert!(stored.len() < data.len());
    assert_eq!(stored[0], 0x78);
    assert_eq!(f.get_real_data_size(), 500);
    assert_eq!(f.get_compressed_data_size().unwrap() as usize, stored.len());
    let assembled = f.get_assembled_data().unwrap();
    assert_eq!(assembled.len() % 32, 0);
    assert_eq!(&assembled[..stored.len()], &stored[..]);
    assert!(assembled[stored.len()..].iter().all(|b| *b == 0));
    assert_eq!(f.get_aligned_data_size().unwrap() as usize, assembled.len());
    let plain = file("p", &data, false);
    assert_eq!(plain.get_compressed_data().unwrap(), data);
    assert_eq!(plain.get_assembled_data().unwrap().len(), 512);
}

#[test]
fn corrupt_stream_and_bad_fields_are_refused() {
    let pack = archive(vec![file("f", &[1u8; 100], true)]);
    let good = pack.to_binary(EndianType::BIG).unwrap();
    let mut corrupt = good.clone();
    let n = corrupt.len();
    for b in corrupt[n - 32..].iter_mut() {
        *b = 0x55;
    }
    corrupt[n - 32] = 0x01;
    assert_eq!(Packfile::from_binary(corrupt), Err(Error::Io));
    let mut version = good.clone();
    version[7] = 3;
    assert_eq!(Packfile::from_binary(version), Err(Error::BadVersion { got: 3 }));
    let mut aligned = good.clone();
    aligned[36 + 11] = 33;
    assert_eq!(Packfile::from_binary(aligned), Err(Error::BadAlignment { got: 33 }));
    let mut short = good.clone();
    short.truncate(40);
    assert!(matches!(Packfile::from_binary(short), Err(Error::UnexpectedEof { .. })));
}

#[test]
fn unpack_checks_the_magic_in_the_cursor_order() {
    let bytes = archive(vec![]).to_binary(EndianType::LITTLE).unwrap();
    let mut fm = FileManipulator::new(bytes, EndianType::BIG, WriteMode::OVERWRITE);
    let mut target = archive(vec![]);
    assert_eq!(
        target.unpack(&mut fm),
        Err(Error::BadMagic { got: b"PAK ".to_vec(), expected: b" KAP".to_vec() })
    );
    assert_eq!(fm.tell(), 0);
}

#[test]
fn paths_split_at_the_last_slash() {
    assert_eq!(
        file("Environments/_Test/Scene.bin", &[], false).get_split_path(),
        vec!["Environments/_Test".to_string(), "Scene.bin".to_string()]
    );
    assert_eq!(file("Scene.bin", &[], false).get_split_path(), vec!["".to_string(), "Scene.bin".to_string()]);
    assert_eq!(file("a/", &[], false).get_split_path(), vec!["a".to_string(), "".to_string()]);
}

#[test]
fn lookup_ignores_case_and_backslashes() {
    let mut pack = archive(vec![file("Folder/A.txt", b"one", false), file("folder/a.TXT", b"two", false)]);
    assert_eq!(pack.get_data_from_path("folder\\a.txt".to_string()).unwrap(), b"one".to_vec());
    assert_eq!(pack.get_data_from_path("FOLDER/A.TXT".to_string()).unwrap(), b"one".to_vec());
    assert_eq!(
        pack.get_data_from_path("folder/b.txt".to_string()),
        Err(Error::NotFound { path: "folder/b.txt".to_string() })
    );
    pack.set_data_from_path("FOLDER\\a.txt".to_string(), vec![9, 9]).unwrap();
    assert_eq!(pack.files[0].data, vec![9, 9]);
    assert_eq!(pack.files[1].data, b"two".to_vec());
    assert_eq!(
        pack.set_data_from_path("nope".to_string(), vec![]),
        Err(Error::NotFound { path: "nope".to_string() })
    );
}

#[test]
fn tags_reverse_in_little_endian() {
    let t = tag("AB");
    assert_eq!(t.pack(EndianType::BIG), vec![0x41, 0x42, 0, 0]);
    assert_eq!(t.pack(EndianType::LITTLE), vec![0, 0, 0x42, 0x41]);
    let mut fm = FileManipulator::new(vec![0, 0, 0x42, 0x41], EndianType::LITTLE, WriteMode::OVERWRITE);
    let mut back = tag("");
    back.unpack(&mut fm).unwrap();
    assert_eq!(back.text, "AB");
    assert_eq!(back.clone().text, "AB");
    let mut fm = FileManipulator::new(vec![0xFF, 0x41, 0, 0], EndianType::BIG, WriteMode::OVERWRITE);
    assert_eq!(back.unpack(&mut fm), Err(Error::BadEncoding));
}
