use epic_mickey::error::Error;
use epic_mickey::file_manipulator::{EndianType, FileManipulator, WriteMode};
use epic_mickey::scene_file::{Component, Entity, Property, PropertyValue, SceneFile, SceneFileVersion};
use epic_mickey::scene_id::ID;
use epic_mickey::scene_merge::ScenePatch;
use epic_mickey::scene_value::{ColorRGB, ColorRGBA, EntityPointer, Matrix3, Point2, Point3, Value};

fn prop(class: &str, name: &str, flags: (bool, bool, bool), value: PropertyValue) -> Property {
    Property::new(class.to_string(), name.to_string(), flags.0, flags.1, flags.2, value)
}

fn component(class: &str, template: u128, properties: Vec<Property>) -> Component {
    Component::new(
        class.to_string(),
        Component::get_name_for_class_name(class),
        ID::new(template),
        ID::new(3),
        ID::new(0),
        properties,
    )
}

fn entity(name: &str, components: Vec<Component>) -> Entity {
    Entity::new("JPSGeneralEntity".to_string(), name.to_string(), ID::new(10), ID::new(11), 5, 0, components)
}

fn rich_scene(version: SceneFileVersion) -> SceneFile {
    let f = |x: f32| x.to_bits();
    let values = vec![
        prop("Boolean", "Active", (false, false, false), PropertyValue::Single(Value::Boolean(true))),
        prop("Integer", "Count", (false, false, false), PropertyValue::List(vec![Value::Integer(-4), Value::Integer(7)])),
        prop("Unsigned Integer", "Big", (true, false, false), PropertyValue::Single(Value::UnsignedInteger(4000000000))),
        prop("Short", "S", (true, false, false), PropertyValue::List(vec![Value::Short(-2)])),
        prop("Unsigned Short", "US", (false, true, false), PropertyValue::Single(Value::UnsignedShort(65535))),
        prop("Float", "F", (false, false, true), PropertyValue::List(vec![Value::Float(f(1.5))])),
        prop(
            "String",
            "Names",
            (false, false, false),
            PropertyValue::List(vec![Value::Text("one".to_string()), Value::Text("Active".to_string())]),
        ),
        prop("String", "Title", (false, false, false), PropertyValue::Single(Value::Text("".to_string()))),
        prop("Point2", "P2", (false, false, false), PropertyValue::Single(Value::Point2(Point2::new(f(1.0), f(2.0))))),
        prop("Point3", "P3", (false, false, false), PropertyValue::Single(Value::Point3(Point3::new(f(1.0), f(2.0), f(3.0))))),
        prop("Matrix3", "M", (false, false, false), PropertyValue::Single(Value::Matrix3(Matrix3::identity()))),
        prop("Color (RGB)", "C3", (false, false, false), PropertyValue::Single(Value::ColorRGB(ColorRGB::new(f(0.5), 0, 0)))),
        prop(
            "Color (RGBA)",
            "C4",
            (false, false, false),
            PropertyValue::Single(Value::ColorRGBA(ColorRGBA::new(f(0.5), 0, 0, f(1.0)))),
        ),
        prop(
            "Entity Pointer",
            "Ref",
            (false, false, false),
            PropertyValue::Single(Value::EntityPointer(EntityPointer::new(ID::new(77)))),
        ),
        prop("Mystery", "Nothing", (false, false, false), PropertyValue::List(vec![])),
    ];
    let mut e = entity("E", vec![component("JPSTransformationComponent", 0x0a1f, values), component("Other", 0xFFFFFFFF, vec![])]);
    let mut unique = ID::new(0x0102030405060708090a0b0c0d0e0f10);
    let mut extras = vec!["extra".to_string(), "".to_string()];
    match version {
        SceneFileVersion::Version1 => {
            extras = vec![];
        },
        SceneFileVersion::Version2Prototype => {
            e.unknown_em2 = 9;
        },
        SceneFileVersion::Version2 => {
            e.unknown_em2 = 9;
            unique = ID::new(0);
        },
    }
    SceneFile::new(vec![e, entity("Second", vec![])], vec![ID::new(1), ID::new(2)], extras, unique, version)
}

#[test]
fn scenes_round_trip_in_every_layout() {
    for version in [SceneFileVersion::Version1, SceneFileVersion::Version2Prototype, SceneFileVersion::Version2] {
        for endian in [EndianType::BIG, EndianType::LITTLE] {
            let scene = rich_scene(version);
            let bytes = scene.to_binary(endian).unwrap();
            let back = SceneFile::from_binary(&bytes, endian).unwrap();
            assert_eq!(back, scene);
            assert_eq!(back.to_binary(endian).unwrap(), bytes);
        }
    }
}

#[test]
fn sentinels_route_to_the_layouts() {
    let v1 = rich_scene(SceneFileVersion::Version1).pack(EndianType::BIG).unwrap();
    assert_ne!(&v1[0..4], &[1, 0, 0, 1]);
    assert_eq!(SceneFile::from_binary(&v1, EndianType::BIG).unwrap().version, SceneFileVersion::Version1);
    let proto = rich_scene(SceneFileVersion::Version2Prototype).pack(EndianType::BIG).unwrap();
    assert_eq!(&proto[0..4], &[1, 0, 0, 1]);
    let at = u32::from_be_bytes([proto[4], proto[5], proto[6], proto[7]]) as usize + 4;
    assert_eq!(&proto[at..at + 4], &[2, 0, 0, 1]);
    assert_eq!(
        SceneFile::from_binary(&proto, EndianType::BIG).unwrap().version,
        SceneFileVersion::Version2Prototype
    );
    let v2 = rich_scene(SceneFileVersion::Version2).pack(EndianType::BIG).unwrap();
    assert_eq!(&v2[at..at + 4], &[2, 0, 0, 2]);
    assert_eq!(SceneFile::from_binary(&v2, EndianType::BIG).unwrap().version, SceneFileVersion::Version2);
    let mut odd = v2.clone();
    odd[at + 3] = 9;
    assert_eq!(SceneFile::from_binary(&odd, EndianType::BIG), Err(Error::BadVersion { got: 0x02000009 }));
    assert_eq!(SceneFile::from_binary(&[1, 0], EndianType::BIG), Err(Error::UnexpectedEof { at: 0, need: 4 }));
}

#[test]
fn version_numbers() {
    assert_eq!(SceneFileVersion::from_u32(1), Ok(SceneFileVersion::Version1));
    assert_eq!(SceneFileVersion::from_u32(2), Ok(SceneFileVersion::Version2Prototype));
    assert_eq!(SceneFileVersion::from_u32(3), Ok(SceneFileVersion::Version2));
    assert_eq!(SceneFileVersion::from_u32(0), Err(Error::BadVersion { got: 0 }));
    assert_eq!(SceneFileVersion::Version2.to_u32(), 3);
}

#[test]
fn pool_holds_each_string_once_in_first_seen_order() {
    let scene = SceneFile::new(
        vec![entity(
            "E",
            vec![component(
                "JPSTransformationComponent",
                0x0a1f,
                vec![prop("Boolean", "Active", (false, false, false), PropertyValue::Single(Value::Boolean(true)))],
            )],
        )],
        vec![],
        vec![],
        ID::new(0),
        SceneFileVersion::Version2,
    );
    let (pool, map) = scene.build_strings_and_map();
    let names: Vec<&str> = map.entries.iter().map(|e| e.0.as_str()).collect();
    assert_eq!(names, vec!["E", "JPSTransformationComponent", "0,0,a,1f", "Boolean", "Active"]);
    let offsets: Vec<u32> = map.entries.iter().map(|e| e.1).collect();
    assert_eq!(offsets, vec![4, 8, 40, 52, 64]);
    assert_eq!(pool.len(), 72);
    assert_eq!(&pool[0..4], &[4, 2, 0x45, 0]);
    assert_eq!(map.get("Boolean"), Some(52));
    assert_eq!(map.get("boolean"), None);
    let mut fm = FileManipulator::new(pool, EndianType::BIG, WriteMode::OVERWRITE);
    let mut table = map;
    SceneFile::add_string(&mut fm, &mut table, 4, "E");
    assert_eq!(fm.size(), 72);
    fm.seek(72);
    SceneFile::add_string(&mut fm, &mut table, 4, "new");
    assert_eq!(fm.size(), 80);
    assert_eq!(table.get("new"), Some(76));
}

#[test]
fn storage_tags_round_trip_and_bad_flags_fail() {
    let combos = [
        (0u8, false, (false, false, false)),
        (1, true, (false, false, false)),
        (2, false, (true, false, false)),
        (3, true, (true, false, false)),
        (4, false, (false, true, false)),
        (5, true, (false, false, true)),
    ];
    for (tag, list, flags) in combos {
        let value = if list {
            PropertyValue::List(vec![Value::Integer(1), Value::Integer(2)])
        } else {
            PropertyValue::Single(Value::Integer(1))
        };
        let p = prop("Integer", "n", flags, value);
        let scene = SceneFile::new(
            vec![entity("e", vec![component("c", 1, vec![p])])],
            vec![],
            vec![],
            ID::new(0),
            SceneFileVersion::Version1,
        );
        let bytes = scene.pack(EndianType::BIG).unwrap();
        let back = SceneFile::from_binary(&bytes, EndianType::BIG).unwrap();
        assert_eq!(back, scene);
        let table = scene.build_strings_and_map().1;
        let record = scene.objects[0].components[0].properties[0].pack(EndianType::BIG, &table).unwrap();
        assert_eq!(&record[8..12], &[0, 0, 0, tag]);
        assert_eq!(&record[12..16], &[0, 0, 0, if list { 2 } else { 1 }]);
    }
    let table = rich_scene(SceneFileVersion::Version1).build_strings_and_map().1;
    let bad = prop("Integer", "Count", (false, true, false), PropertyValue::List(vec![Value::Integer(1)]));
    assert_eq!(bad.pack(EndianType::BIG, &table), Err(Error::BadStorageMode { got: 5 }));
    let both = prop("Integer", "Count", (true, true, false), PropertyValue::Single(Value::Integer(1)));
    assert_eq!(both.pack(EndianType::BIG, &table), Err(Error::BadStorageMode { got: 6 }));
    let mixed = prop(
        "Integer",
        "Count",
        (false, false, false),
        PropertyValue::List(vec![Value::Integer(1), Value::Boolean(true)]),
    );
    assert_eq!(mixed.pack(EndianType::BIG, &table), Err(Error::BadStorageMode { got: 1 }));
    let unknown = prop("Mystery", "Count", (false, false, false), PropertyValue::Single(Value::Integer(1)));
    assert_eq!(
        unknown.pack(EndianType::BIG, &table),
        Err(Error::UnknownPropertyType { name: "Mystery".to_string() })
    );
    let missing = prop("Integer", "absent", (false, false, false), PropertyValue::Single(Value::Integer(1)));
    assert_eq!(missing.pack(EndianType::BIG, &table), Err(Error::NotFound { path: "absent".to_string() }));
}

#[test]
fn bad_tag_in_a_file_is_refused() {
    let scene = SceneFile::new(
        vec![entity(
            "e",
            vec![component("c", 1, vec![prop("Integer", "n", (false, false, false), PropertyValue::Single(Value::Integer(1)))])],
        )],
        vec![],
        vec![],
        ID::new(0),
        SceneFileVersion::Version1,
    );
    let mut bytes = scene.pack(EndianType::BIG).unwrap();
    let n = bytes.len();
    bytes[n - 9] = 6;
    assert_eq!(SceneFile::from_binary(&bytes, EndianType::BIG), Err(Error::BadStorageMode { got: 6 }));
}

#[test]
fn link_ids_must_fit_32_bits() {
    let mut scene = rich_scene(SceneFileVersion::Version1);
    scene.objects[0].link_id = ID::new(1 << 32);
    assert_eq!(scene.pack(EndianType::BIG), Err(Error::IdOverflow));
    assert_eq!(EntityPointer::new(ID::new(u128::MAX)).pack(EndianType::BIG), Err(Error::IdOverflow));
    assert_eq!(EntityPointer::new(ID::new(258)).pack(EndianType::LITTLE), Ok(vec![2, 1, 0, 0]));
}

#[test]
fn display_names_follow_class_names() {
    assert_eq!(Component::get_name_for_class_name("NiTransformationComponent"), "Transformation");
    assert_eq!(Component::get_name_for_class_name("JPSSceneGraphComponent"), "Scene Graph");
    assert_eq!(Component::get_name_for_class_name("NiLightComponent"), "Light");
    assert_eq!(Component::get_name_for_class_name("JPSCameraComponent"), "Camera");
    assert_eq!(Component::get_name_for_class_name("Camera"), "Unknown");
}

#[test]
fn merging_a_list_appends() {
    let list = |v: &[i32]| PropertyValue::List(v.iter().map(|x| Value::Integer(*x)).collect());
    let mut scene = SceneFile::new(
        vec![entity(
            "Hero",
            vec![component(
                "c",
                1,
                vec![
                    prop("Integer", "n", (false, false, false), list(&[1, 2, 3])),
                    prop("Integer", "one", (false, false, false), PropertyValue::Single(Value::Integer(1))),
                ],
            )],
        )],
        vec![ID::new(1)],
        vec!["a".to_string()],
        ID::new(5),
        SceneFileVersion::Version1,
    );
    let patch = ScenePatch {
        objects: vec![
            entity(
                "hero",
                vec![
                    component(
                        "c",
                        9,
                        vec![
                            prop("Integer", "n", (true, false, false), list(&[4, 5])),
                            prop("Integer", "one", (false, false, false), PropertyValue::Single(Value::Integer(2))),
                            prop("Integer", "fresh", (false, false, false), PropertyValue::Single(Value::Integer(3))),
                        ],
                    ),
                    component("d", 2, vec![]),
                ],
            ),
            entity("Other", vec![]),
        ],
        scene: vec![ID::new(1), ID::new(2), ID::new(2)],
        em2_extra_strings: vec!["b".to_string(), "a".to_string()],
        unique_id: None,
        version: Some(SceneFileVersion::Version2),
    };
    scene.merge_in_dict(patch);
    assert_eq!(scene.objects.len(), 2);
    assert_eq!(scene.objects[0].name, "Hero");
    let c = &scene.objects[0].components[0];
    assert_eq!(c.template_id, ID::new(1));
    assert_eq!(c.properties[0].value, list(&[1, 2, 3, 4, 5]));
    assert!(!c.properties[0].asset);
    assert_eq!(c.properties[1].value, PropertyValue::Single(Value::Integer(2)));
    assert_eq!(c.properties[2].name, "fresh");
    assert_eq!(scene.objects[0].components[1].class_name, "d");
    assert_eq!(scene.objects[1].name, "Other");
    assert_eq!(scene.scene, vec![ID::new(1), ID::new(2)]);
    assert_eq!(scene.em2_extra_strings, vec!["a".to_string(), "b".to_string()]);
    assert_eq!(scene.unique_id, ID::new(5));
    assert_eq!(scene.version, SceneFileVersion::Version2);
}

#[test]
fn identifier_texts() {
    let id = ID::new(0x0a1f005b);
    assert_eq!(id.to_string(4), "0a,1f,00,5b");
    assert_eq!(id.to_string_no_leaders(4), "a,1f,0,5b");
    assert_eq!(ID::from_string("a,1f,0,5b"), Ok(id));
    assert_eq!(ID::from_string("0A,1F,00,5B"), Ok(id));
    assert_eq!(ID::new(0).to_string(0), "");
    assert_eq!(ID::new(0x12345).to_string(1), "12");
    assert_eq!(ID::from_string(""), Ok(ID::new(0)));
    assert_eq!(ID::from_string("1,,2"), Ok(ID::new(0x010002)));
    assert_eq!(ID::from_string("1g"), Err(Error::BadEncoding));
    assert_eq!(ID::from_string("123"), Err(Error::BadEncoding));
    assert_eq!(ID::from_string("1,0,0,0,0,0,0,0,0,0,0,0,0,0,0,0,0"), Err(Error::IdOverflow));
    let all = ID::new(u128::MAX);
    assert_eq!(all.to_string_no_leaders(16), "ff,ff,ff,ff,ff,ff,ff,ff,ff,ff,ff,ff,ff,ff,ff,ff");
    for raw in [0u128, 1, 0x0f, 0x10, 0x0102030405060708090a0b0c0d0e0f10, u128::MAX, 1 << 127] {
        let id = ID::from_u128(raw);
        assert_eq!(ID::from_string(&id.to_string_no_leaders(16)), Ok(id));
        assert_eq!(ID::from_string(&id.to_string(16)), Ok(id));
        assert_eq!(id.to_u128(), raw);
    }
    assert_eq!(ID::from_u32(7).to_u32(), Ok(7));
    assert_eq!(ID::new(1 << 40).to_u32(), Err(Error::IdOverflow));
}

#[test]
fn value_records() {
    let p = Point3::new(1, 2, 3);
    assert_eq!(p.pack(EndianType::BIG), vec![0, 0, 0, 1, 0, 0, 0, 2, 0, 0, 0, 3]);
    let mut fm = FileManipulator::new(p.pack(EndianType::LITTLE), EndianType::LITTLE, WriteMode::OVERWRITE);
    let mut back = Point3::new(0, 0, 0);
    back.unpack(&mut fm).unwrap();
    assert_eq!(back, p);
    assert_eq!(back.unpack(&mut fm), Err(Error::UnexpectedEof { at: 12, need: 4 }));
    assert_eq!(back, p);
    let m = Matrix3::identity();
    assert_eq!(f32::from_bits(m.m00), 1.0);
    assert_eq!(f32::from_bits(m.m01), 0.0);
    assert_eq!(f32::from_bits(m.m22), 1.0);
    let mut fm = FileManipulator::new(m.pack(EndianType::BIG), EndianType::BIG, WriteMode::OVERWRITE);
    let mut back = Matrix3::new(9, 9, 9, 9, 9, 9, 9, 9, 9);
    back.unpack(&mut fm).unwrap();
    assert_eq!(back, m);
    let mut fm = FileManipulator::new(vec![0, 0, 1, 0], EndianType::BIG, WriteMode::OVERWRITE);
    let mut ptr = EntityPointer::new(ID::new(0));
    ptr.unpack(&mut fm).unwrap();
    assert_eq!(ptr.id, ID::new(256));
}

#[test]
fn lookups_by_name() {
    let scene = rich_scene(SceneFileVersion::Version1);
    let e = &scene.objects[0];
    let c = e.get_component("JPSTransformationComponent").unwrap();
    assert_eq!(c.name, "Transformation");
    assert!(e.get_component("jpstransformationcomponent").is_none());
    assert_eq!(c.get_property("Active").unwrap().class_name, "Boolean");
    assert_eq!(c.get_property_value("Active"), Some(&PropertyValue::Single(Value::Boolean(true))));
    assert!(c.get_property("active").is_none());
    assert!(c.get_property_value("missing").is_none());
    let rgba = ColorRGBA::new(1, 2, 3, 4);
    assert_eq!(rgba.to_rgb(), ColorRGB::new(1, 2, 3));
    assert_eq!(ColorRGBA::from_rgb(&ColorRGB::new(1, 2, 3), 4), rgba);
}
