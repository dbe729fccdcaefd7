use epic_mickey::collectible_database::{Collectible, CollectibleDatabase, Extra};
use epic_mickey::error::Error;
use epic_mickey::file_manipulator::{EndianType, FileManipulator, WriteMode};

fn sample() -> CollectibleDatabase {
    let mut db = CollectibleDatabase::new(3);
    db.add_collectible(Collectible::new("pin".to_string(), "gold".to_string(), "icons/gold".to_string()));
    db.add_collectible(Collectible::new("".to_string(), "x".to_string(), "".to_string()));
    db.add_extra(Extra::new("g".to_string(), "art".to_string(), "t/a".to_string(), "a/b".to_string()));
    db
}

#[test]
fn catalog_round_trips_in_both_byte_orders() {
    let db = sample();
    for endian in [EndianType::BIG, EndianType::LITTLE] {
        let bytes = db.to_binary(endian);
        let back = CollectibleDatabase::from_binary(bytes, endian).unwrap();
        assert_eq!(back, db);
    }
}

#[test]
fn catalog_exact_bytes() {
    let mut db = CollectibleDatabase::new(1);
    db.add_collectible(Collectible::new("a".to_string(), "".to_string(), "bc".to_string()));
    let bytes = db.pack(EndianType::BIG);
    assert_eq!(
        bytes,
        vec![0, 0, 0, 1, 0, 0, 0, 1, 4, 2, 0x61, 0, 4, 0, 0, 0, 8, 3, 0x62, 0x63, 0, 0, 0, 0, 0, 0, 0, 0]
    );
    assert_eq!(db.get_version(), 1);
    assert_eq!(db.get_collectibles().len(), 1);
    assert_eq!(db.get_extras().len(), 0);
}

#[test]
fn truncated_catalog_fails() {
    let db = sample();
    let mut bytes = db.to_binary(EndianType::BIG);
    bytes.truncate(bytes.len() - 4);
    assert!(matches!(
        CollectibleDatabase::from_binary(bytes, EndianType::BIG),
        Err(Error::UnexpectedEof { .. }) | Err(Error::BadPosition { .. })
    ));
    assert_eq!(
        CollectibleDatabase::from_binary(vec![0, 0], EndianType::BIG),
        Err(Error::UnexpectedEof { at: 0, need: 4 })
    );
}

#[test]
fn unpack_adds_to_what_is_there() {
    let db = sample();
    let bytes = db.to_binary(EndianType::LITTLE);
    let mut fm = FileManipulator::new(bytes, EndianType::LITTLE, WriteMode::OVERWRITE);
    let mut target = CollectibleDatabase::new(9);
    target.add_collectible(Collectible::new("old".to_string(), "o".to_string(), "p".to_string()));
    target.unpack(&mut fm).unwrap();
    assert_eq!(target.get_version(), 3);
    assert_eq!(target.get_collectibles().len(), 3);
    assert_eq!(target.get_collectibles()[0].type_, "old");
    assert_eq!(target.get_extras().len(), 1);
    target.set_version(4);
    assert_eq!(target.get_version(), 4);
}

#[test]
fn records_pack_and_unpack() {
    let c = Collectible::new("t".to_string(), "dev".to_string(), "icon".to_string());
    let bytes = c.pack(EndianType::BIG);
    assert_eq!(bytes.len(), 4 + 8 + 8);
    let mut fm = FileManipulator::new(bytes, EndianType::BIG, WriteMode::OVERWRITE);
    let mut back = Collectible::new(String::new(), String::new(), String::new());
    back.unpack(&mut fm).unwrap();
    assert_eq!(back, c);
    let x = Extra::new("a".to_string(), "b".to_string(), "c".to_string(), "d".to_string());
    let mut fm = FileManipulator::new(x.pack(EndianType::BIG), EndianType::BIG, WriteMode::OVERWRITE);
    let mut back = Extra::new(String::new(), String::new(), String::new(), String::new());
    back.unpack(&mut fm).unwrap();
    assert_eq!(back, x);
    assert_eq!(back.unpack(&mut fm), Err(Error::UnexpectedEof { at: 16, need: 1 }));
}
