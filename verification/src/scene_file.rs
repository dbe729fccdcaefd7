use vstd::prelude::*;
use vstd::utf8::*;
use vstd::string::*;
use crate::byte_order::{encode_uint, signed, uint_bytes, unsigned};
use crate::collectible_database::{count32, len32};
use crate::error::{Error, Fault};
use crate::file_manipulator::{
    bool_bytes,
    jps_bytes,
    jps_frame,
    start_of,
    Cursor,
    EndianType,
    FileManipulator,
    WriteMode,
};
use crate::framing::{
    concat_map,
    lemma_concat_map_push,
    lemma_parse_many_fails,
    lemma_try_concat_map_fails,
    lemma_write_at_end,
    parse_many,
    try_concat_map,
};
use crate::scene_id::{id_of_text, short_id_text, ID};
use crate::scene_value::{
    kind_of,
    kind_of_class,
    parse_words,
    value_kind,
    words_bytes,
    ColorRGB,
    ColorRGBA,
    EntityPointer,
    Kind,
    Matrix3,
    Point2,
    Point3,
    Value,
    ValueModel,
};
use crate::string_table::StringOffsets;
use crate::text::{append_bytes, str_eq};

verus! {

broadcast use lemma_write_at_end;

/// The three layouts of a scene file.
#[derive(Debug, Clone, Copy, PartialEq, Eq, Structural)]
pub enum SceneFileVersion {
    Version1,
    Version2Prototype,
    Version2,
}

/// The value of a property: one value, or a list of values.
#[derive(Debug, Clone, PartialEq, Eq)]
pub enum PropertyValue {
    Single(Value),
    List(Vec<Value>),
}

/// A named, typed value of a component.
#[derive(Debug, Clone, PartialEq, Eq)]
pub struct Property {
    /// The name of the value type, such as `"Boolean"` or `"Point3"`.
    pub class_name: String,
    pub name: String,
    pub asset: bool,
    pub palette: bool,
    pub template: bool,
    pub value: PropertyValue,
}

/// A component of an entity.
#[derive(Debug, Clone, PartialEq, Eq)]
pub struct Component {
    pub class_name: String,
    /// The display name, which follows from the class name.
    pub name: String,
    pub template_id: ID,
    pub link_id: ID,
    pub master_link_id: ID,
    pub properties: Vec<Property>,
}

/// An entity of a scene.
#[derive(Debug, Clone, PartialEq, Eq)]
pub struct Entity {
    pub class_name: String,
    pub name: String,
    pub link_id: ID,
    pub master_link_id: ID,
    pub unknown: u32,
    pub unknown_em2: u32,
    pub components: Vec<Component>,
}

/// A scene: entities, references to other scenes, and what the later
/// layouts add.
#[derive(Debug, Clone, PartialEq, Eq)]
pub struct SceneFile {
    pub objects: Vec<Entity>,
    pub scene: Vec<ID>,
    pub em2_extra_strings: Vec<String>,
    pub unique_id: ID,
    pub version: SceneFileVersion,
}

/// The mathematical value of a [`PropertyValue`].
pub enum PropertyValueModel {
    Single(ValueModel),
    List(Seq<ValueModel>),
}

/// The mathematical value of a [`Property`].
pub struct PropertyModel {
    pub class_name: Seq<char>,
    pub name: Seq<char>,
    pub asset: bool,
    pub palette: bool,
    pub template: bool,
    pub value: PropertyValueModel,
}

/// The mathematical value of a [`Component`].
pub struct ComponentModel {
    pub class_name: Seq<char>,
    pub name: Seq<char>,
    pub template_id: ID,
    pub link_id: ID,
    pub master_link_id: ID,
    pub properties: Seq<PropertyModel>,
}

/// The mathematical value of an [`Entity`].
pub struct EntityModel {
    pub class_name: Seq<char>,
    pub name: Seq<char>,
    pub link_id: ID,
    pub master_link_id: ID,
    pub unknown: u32,
    pub unknown_em2: u32,
    pub components: Seq<ComponentModel>,
}

/// The mathematical value of a [`SceneFile`].
pub struct SceneModel {
    pub objects: Seq<EntityModel>,
    pub scene: Seq<ID>,
    pub em2_extra_strings: Seq<Seq<char>>,
    pub unique_id: ID,
    pub version: SceneFileVersion,
}

impl DeepView for PropertyValue {
    type V = PropertyValueModel;

    open spec fn deep_view(&self) -> PropertyValueModel {
        match self {
            PropertyValue::Single(v) => PropertyValueModel::Single(v.deep_view()),
            PropertyValue::List(vs) => PropertyValueModel::List(vs.deep_view()),
        }
    }
}

impl DeepView for Property {
    type V = PropertyModel;

    open spec fn deep_view(&self) -> PropertyModel {
        PropertyModel {
            class_name: self.class_name@,
            name: self.name@,
            asset: self.asset,
            palette: self.palette,
            template: self.template,
            value: self.value.deep_view(),
        }
    }
}

impl DeepView for Component {
    type V = ComponentModel;

    open spec fn deep_view(&self) -> ComponentModel {
        ComponentModel {
            class_name: self.class_name@,
            name: self.name@,
            template_id: self.template_id,
            link_id: self.link_id,
            master_link_id: self.master_link_id,
            properties: self.properties.deep_view(),
        }
    }
}

impl DeepView for Entity {
    type V = EntityModel;

    open spec fn deep_view(&self) -> EntityModel {
        EntityModel {
            class_name: self.class_name@,
            name: self.name@,
            link_id: self.link_id,
            master_link_id: self.master_link_id,
            unknown: self.unknown,
            unknown_em2: self.unknown_em2,
            components: self.components.deep_view(),
        }
    }
}

impl DeepView for SceneFile {
    type V = SceneModel;

    open spec fn deep_view(&self) -> SceneModel {
        SceneModel {
            objects: self.objects.deep_view(),
            scene: self.scene.deep_view(),
            em2_extra_strings: self.em2_extra_strings.deep_view(),
            unique_id: self.unique_id,
            version: self.version,
        }
    }
}

/// The sentinel that opens a file of the second layout family.
pub open spec fn family_sentinel() -> nat {
    0x0100_0001
}

/// The sentinel of the second layout.
pub open spec fn version2_sentinel() -> nat {
    0x0200_0002
}

/// The sentinel of the prototype of the second layout.
pub open spec fn prototype_sentinel() -> nat {
    0x0200_0001
}

/// What is added to a pool offset of a file to reach the string: 4 in the
/// second layout family, nothing in the first layout.
pub open spec fn pool_bias(version: SceneFileVersion) -> int {
    if version == SceneFileVersion::Version1 {
        0
    } else {
        4
    }
}

/// The flags that a storage tag stands for: list, asset, palette,
/// template.
pub open spec fn flags_of_tag(tag: nat) -> Option<(bool, bool, bool, bool)> {
    if tag == 0 {
        Some((false, false, false, false))
    } else if tag == 1 {
        Some((true, false, false, false))
    } else if tag == 2 {
        Some((false, true, false, false))
    } else if tag == 3 {
        Some((true, true, false, false))
    } else if tag == 4 {
        Some((false, false, true, false))
    } else if tag == 5 {
        Some((true, false, false, true))
    } else {
        None
    }
}

/// The storage tag of the flags, if they have one.
pub open spec fn tag_of_flags(list: bool, asset: bool, palette: bool, template: bool) -> Option<u32> {
    if !list && !asset && !palette && !template {
        Some(0u32)
    } else if list && !asset && !palette && !template {
        Some(1u32)
    } else if !list && asset && !palette && !template {
        Some(2u32)
    } else if list && asset && !palette && !template {
        Some(3u32)
    } else if !list && !asset && palette && !template {
        Some(4u32)
    } else if list && !asset && !palette && template {
        Some(5u32)
    } else {
        None
    }
}

/// The flags as one number, for the report of flags without a tag: list
/// counts 1, asset 2, palette 4, template 8.
pub open spec fn flags_code(list: bool, asset: bool, palette: bool, template: bool) -> u32 {
    ((if list { 1int } else { 0int }) + (if asset { 2int } else { 0int }) + (if palette { 4int } else { 0int })
        + (if template { 8int } else { 0int })) as u32
}

/// The display name of a component, which follows from its class name.
pub open spec fn display_name(class_name: Seq<char>) -> Seq<char> {
    if class_name == "NiTransformationComponent"@ || class_name == "JPSTransformationComponent"@ {
        "Transformation"@
    } else if class_name == "NiSceneGraphComponent"@ || class_name == "JPSSceneGraphComponent"@ {
        "Scene Graph"@
    } else if class_name == "NiLightComponent"@ || class_name == "JPSLightComponent"@ {
        "Light"@
    } else if class_name == "NiCameraComponent"@ || class_name == "JPSCameraComponent"@ {
        "Camera"@
    } else {
        "Unknown"@
    }
}

/// The class name that every entity read from a file gets.
pub open spec fn entity_class_name() -> Seq<char> {
    "JPSGeneralEntity"@
}

/// A value of the class read at the cursor. A string is read through its
/// pool offset, to which `bias` is added.
pub open spec fn parse_value(c: Cursor, class_name: Seq<char>, bias: int) -> Result<
    (ValueModel, Cursor),
    Fault,
> {
    match kind_of(class_name) {
        None => Err(Fault::UnknownPropertyType { name: class_name }),
        Some(k) => match k {
            Kind::Boolean => match c.r_bool() {
                Ok((v, c1)) => Ok((ValueModel::Boolean(v), c1)),
                Err(e) => Err(e),
            },
            Kind::Integer => match c.r_int(4) {
                Ok((v, c1)) => Ok((ValueModel::Integer(v as i32), c1)),
                Err(e) => Err(e),
            },
            Kind::UnsignedInteger => match c.r_uint(4) {
                Ok((v, c1)) => Ok((ValueModel::UnsignedInteger(v as u32), c1)),
                Err(e) => Err(e),
            },
            Kind::Short => match c.r_int_jps() {
                Ok((v, c1)) => Ok((ValueModel::Short(v as i16), c1)),
                Err(e) => Err(e),
            },
            Kind::UnsignedShort => match c.r_uint_jps() {
                Ok((v, c1)) => Ok((ValueModel::UnsignedShort(v as u16), c1)),
                Err(e) => Err(e),
            },
            Kind::Float => match c.r_uint(4) {
                Ok((v, c1)) => Ok((ValueModel::Float(v as u32), c1)),
                Err(e) => Err(e),
            },
            Kind::Text => match c.r_uint(4) {
                Ok((p, c1)) => match c1.str_jps_at(p + bias) {
                    Ok(s) => Ok((ValueModel::Text(s), c1)),
                    Err(e) => Err(e),
                },
                Err(e) => Err(e),
            },
            Kind::Point2 => match parse_words(c, 2) {
                Ok((w, c1)) => Ok((ValueModel::Point2(Point2::of_words(w)), c1)),
                Err(e) => Err(e),
            },
            Kind::Point3 => match parse_words(c, 3) {
                Ok((w, c1)) => Ok((ValueModel::Point3(Point3::of_words(w)), c1)),
                Err(e) => Err(e),
            },
            Kind::Matrix3 => match parse_words(c, 9) {
                Ok((w, c1)) => Ok((ValueModel::Matrix3(Matrix3::of_words(w)), c1)),
                Err(e) => Err(e),
            },
            Kind::ColorRGB => match parse_words(c, 3) {
                Ok((w, c1)) => Ok((ValueModel::ColorRGB(ColorRGB::of_words(w)), c1)),
                Err(e) => Err(e),
            },
            Kind::ColorRGBA => match parse_words(c, 4) {
                Ok((w, c1)) => Ok((ValueModel::ColorRGBA(ColorRGBA::of_words(w)), c1)),
                Err(e) => Err(e),
            },
            Kind::EntityPointer => match c.r_uint(4) {
                Ok((v, c1)) => Ok((ValueModel::EntityPointer(EntityPointer { id: ID { id: v as u128 } }), c1)),
                Err(e) => Err(e),
            },
        },
    }
}

/// [`parse_value`] as a function value.
pub open spec fn value_parser(class_name: Seq<char>, bias: int) -> spec_fn(Cursor) -> Result<
    (ValueModel, Cursor),
    Fault,
> {
    |c: Cursor| parse_value(c, class_name, bias)
}

/// A property record read at the cursor: the pool offsets of its name and
/// of its class name, the storage tag, a count, and the value or the
/// counted values. The count of a single value is passed over.
pub open spec fn parse_property(c: Cursor, bias: int) -> Result<(PropertyModel, Cursor), Fault> {
    match c.r_uint(4) {
        Err(e) => Err(e),
        Ok((name_offset, c1)) => match c1.r_uint(4) {
            Err(e) => Err(e),
            Ok((class_offset, c2)) => match c2.str_jps_at(class_offset + bias) {
                Err(e) => Err(e),
                Ok(class_name) => match c2.str_jps_at(name_offset + bias) {
                    Err(e) => Err(e),
                    Ok(name) => match c2.r_uint(4) {
                        Err(e) => Err(e),
                        Ok((tag, c3)) => match flags_of_tag(tag) {
                            None => Err(Fault::BadStorageMode { got: tag as u32 }),
                            Some(flags) => match c3.r_uint(4) {
                                Err(e) => Err(e),
                                Ok((amount, c4)) => if flags.0 {
                                    match parse_many(c4, amount, value_parser(class_name, bias)) {
                                        Err(e) => Err(e),
                                        Ok((values, c5)) => Ok(
                                            (
                                                PropertyModel {
                                                    class_name,
                                                    name,
                                                    asset: flags.1,
                                                    palette: flags.2,
                                                    template: flags.3,
                                                    value: PropertyValueModel::List(values),
                                                },
                                                c5,
                                            ),
                                        ),
                                    }
                                } else {
                                    match parse_value(c4, class_name, bias) {
                                        Err(e) => Err(e),
                                        Ok((value, c5)) => Ok(
                                            (
                                                PropertyModel {
                                                    class_name,
                                                    name,
                                                    asset: flags.1,
                                                    palette: flags.2,
                                                    template: flags.3,
                                                    value: PropertyValueModel::Single(value),
                                                },
                                                c5,
                                            ),
                                        ),
                                    }
                                },
                            },
                        },
                    },
                },
            },
        },
    }
}

/// [`parse_property`] as a function value.
pub open spec fn property_parser(bias: int) -> spec_fn(Cursor) -> Result<(PropertyModel, Cursor), Fault> {
    |c: Cursor| parse_property(c, bias)
}

/// A component record read at the cursor: the pool offsets of its class
/// name and of the text of its template id, two link ids, and its
/// properties behind their count.
pub open spec fn parse_component(c: Cursor, bias: int) -> Result<(ComponentModel, Cursor), Fault> {
    match c.r_uint(4) {
        Err(e) => Err(e),
        Ok((class_offset, c1)) => match c1.r_uint(4) {
            Err(e) => Err(e),
            Ok((template_offset, c2)) => match c2.str_jps_at(class_offset + bias) {
                Err(e) => Err(e),
                Ok(class_name) => match c2.str_jps_at(template_offset + bias) {
                    Err(e) => Err(e),
                    Ok(template_text) => match id_of_text(template_text) {
                        Err(e) => Err(e),
                        Ok(template_id) => match c2.r_uint(4) {
                            Err(e) => Err(e),
                            Ok((link_id, c3)) => match c3.r_uint(4) {
                                Err(e) => Err(e),
                                Ok((master_link_id, c4)) => match c4.r_uint(4) {
                                    Err(e) => Err(e),
                                    Ok((amount, c5)) => match parse_many(c5, amount, property_parser(bias)) {
                                        Err(e) => Err(e),
                                        Ok((properties, c6)) => Ok(
                                            (
                                                ComponentModel {
                                                    class_name,
                                                    name: display_name(class_name),
                                                    template_id: ID { id: template_id as u128 },
                                                    link_id: ID { id: link_id as u128 },
                                                    master_link_id: ID { id: master_link_id as u128 },
                                                    properties,
                                                },
                                                c6,
                                            ),
                                        ),
                                    },
                                },
                            },
                        },
                    },
                },
            },
        },
    }
}

/// [`parse_component`] as a function value.
pub open spec fn component_parser(bias: int) -> spec_fn(Cursor) -> Result<(ComponentModel, Cursor), Fault> {
    |c: Cursor| parse_component(c, bias)
}

/// The second unknown field of an entity, which only the second layout
/// family has; zero in the first layout.
pub open spec fn parse_unknown_em2(c: Cursor, version: SceneFileVersion) -> Result<(nat, Cursor), Fault> {
    if version == SceneFileVersion::Version1 {
        Ok((0, c))
    } else {
        c.r_uint(4)
    }
}

/// An entity record read at the cursor: the pool offset of its name, two
/// link ids, the unknown fields, and its components behind their count.
pub open spec fn parse_entity(c: Cursor, version: SceneFileVersion) -> Result<(EntityModel, Cursor), Fault> {
    match c.r_uint(4) {
        Err(e) => Err(e),
        Ok((name_offset, c1)) => match c1.str_jps_at(name_offset + pool_bias(version)) {
            Err(e) => Err(e),
            Ok(name) => match c1.r_uint(4) {
                Err(e) => Err(e),
                Ok((link_id, c2)) => match c2.r_uint(4) {
                    Err(e) => Err(e),
                    Ok((master_link_id, c3)) => match c3.r_uint(4) {
                        Err(e) => Err(e),
                        Ok((unknown, c4)) => match parse_unknown_em2(c4, version) {
                            Err(e) => Err(e),
                            Ok((unknown_em2, c5)) => match c5.r_uint(4) {
                                Err(e) => Err(e),
                                Ok((amount, c6)) => match parse_many(
                                    c6,
                                    amount,
                                    component_parser(pool_bias(version)),
                                ) {
                                    Err(e) => Err(e),
                                    Ok((components, c7)) => Ok(
                                        (
                                            EntityModel {
                                                class_name: entity_class_name(),
                                                name,
                                                link_id: ID { id: link_id as u128 },
                                                master_link_id: ID { id: master_link_id as u128 },
                                                unknown: unknown as u32,
                                                unknown_em2: unknown_em2 as u32,
                                                components,
                                            },
                                            c7,
                                        ),
                                    ),
                                },
                            },
                        },
                    },
                },
            },
        },
    }
}

/// [`parse_entity`] as a function value.
pub open spec fn entity_parser(version: SceneFileVersion) -> spec_fn(Cursor) -> Result<
    (EntityModel, Cursor),
    Fault,
> {
    |c: Cursor| parse_entity(c, version)
}

/// A framed string read at the cursor, as a function value.
pub open spec fn jps_parser() -> spec_fn(Cursor) -> Result<(Seq<char>, Cursor), Fault> {
    |c: Cursor| c.r_str_jps()
}

/// A 32-bit identifier read at the cursor.
pub open spec fn parse_id32(c: Cursor) -> Result<(ID, Cursor), Fault> {
    match c.r_uint(4) {
        Ok((v, c1)) => Ok((ID { id: v as u128 }, c1)),
        Err(e) => Err(e),
    }
}

/// [`parse_id32`] as a function value.
pub open spec fn id32_parser() -> spec_fn(Cursor) -> Result<(ID, Cursor), Fault> {
    |c: Cursor| parse_id32(c)
}

/// The start of the data region: in the first layout the first field of
/// the file; in the second family the second field and 8.
pub open spec fn parse_data_offset(c: Cursor, version: SceneFileVersion) -> Result<(int, Cursor), Fault> {
    if version == SceneFileVersion::Version1 {
        match c.r_uint(4) {
            Ok((v, c1)) => Ok((v as int, c1)),
            Err(e) => Err(e),
        }
    } else {
        match c.move_pos(4) {
            Err(e) => Err(e),
            Ok(c0) => match c0.r_uint(4) {
                Ok((v, c1)) => Ok(((v + 8) as int, c1)),
                Err(e) => Err(e),
            },
        }
    }
}

/// The unique id, which the second layout lacks: zero there.
pub open spec fn parse_unique_id(c: Cursor, version: SceneFileVersion) -> Result<(ID, Cursor), Fault> {
    if version == SceneFileVersion::Version2 {
        Ok((ID { id: 0 }, c))
    } else {
        match c.r_uint(16) {
            Ok((v, c1)) => Ok((ID { id: v as u128 }, c1)),
            Err(e) => Err(e),
        }
    }
}

/// The extra strings, which only the second layout family has: a count
/// and that many framed strings.
pub open spec fn parse_extra_strings(c: Cursor, version: SceneFileVersion) -> Result<
    (Seq<Seq<char>>, Cursor),
    Fault,
> {
    if version == SceneFileVersion::Version1 {
        Ok((Seq::<Seq<char>>::empty(), c))
    } else {
        match c.r_uint(4) {
            Err(e) => Err(e),
            Ok((n, c1)) => parse_many(c1, n, jps_parser()),
        }
    }
}

/// A scene of the given layout read at the cursor, which stands at the
/// start of the file: the offset of the data region and, there, the unique
/// id, the extra strings, the counts of entities and of scene references,
/// the entities and the references.
pub open spec fn parse_scene(c: Cursor, version: SceneFileVersion) -> Result<(SceneModel, Cursor), Fault> {
    match parse_data_offset(c, version) {
        Err(e) => Err(e),
        Ok((data_offset, c1)) => match c1.goto(data_offset) {
            Err(e) => Err(e),
            Ok(c2) => match parse_unique_id(c2, version) {
                Err(e) => Err(e),
                Ok((unique_id, c3)) => match parse_extra_strings(c3, version) {
                    Err(e) => Err(e),
                    Ok((em2_extra_strings, c4)) => match c4.r_uint(4) {
                        Err(e) => Err(e),
                        Ok((entity_amount, c5)) => match c5.r_uint(4) {
                            Err(e) => Err(e),
                            Ok((ref_amount, c6)) => match parse_many(c6, entity_amount, entity_parser(version)) {
                                Err(e) => Err(e),
                                Ok((objects, c7)) => match parse_many(c7, ref_amount, id32_parser()) {
                                    Err(e) => Err(e),
                                    Ok((scene, c8)) => Ok(
                                        (
                                            SceneModel { objects, scene, em2_extra_strings, unique_id, version },
                                            c8,
                                        ),
                                    ),
                                },
                            },
                        },
                    },
                },
            },
        },
    }
}

/// The layout of a file, told from its start: a first field that is the
/// family sentinel marks the second family, whose member the field at the
/// second field's value and 4 tells; any other first field marks the first
/// layout.
pub open spec fn detect_version(c: Cursor) -> Result<SceneFileVersion, Fault> {
    match c.r_uint(4) {
        Err(e) => Err(e),
        Ok((first, c1)) => if first != family_sentinel() {
            Ok(SceneFileVersion::Version1)
        } else {
            match c1.r_uint(4) {
                Err(e) => Err(e),
                Ok((offset, c2)) => match c2.goto((offset + 4) as int) {
                    Err(e) => Err(e),
                    Ok(c3) => match c3.r_uint(4) {
                        Err(e) => Err(e),
                        Ok((num, _)) => if num == version2_sentinel() {
                            Ok(SceneFileVersion::Version2)
                        } else if num == prototype_sentinel() {
                            Ok(SceneFileVersion::Version2Prototype)
                        } else {
                            Err(Fault::BadVersion { got: num as u32 })
                        },
                    },
                },
            }
        },
    }
}

/// The scene that a file holds: its layout told from its start, then the
/// scene of that layout.
pub open spec fn parse_scene_file(data: Seq<u8>, endian: EndianType) -> Result<SceneModel, Fault> {
    match detect_version(start_of(data, endian)) {
        Err(e) => Err(e),
        Ok(version) => match parse_scene(start_of(data, endian), version) {
            Err(e) => Err(e),
            Ok((m, _)) => Ok(m),
        },
    }
}

/// The first failure of the two, or the bytes of the first and the bytes
/// of the second behind them.
pub open spec fn chain(a: Result<Seq<u8>, Fault>, b: Result<Seq<u8>, Fault>) -> Result<Seq<u8>, Fault> {
    match a {
        Err(e) => Err(e),
        Ok(x) => match b {
            Err(e) => Err(e),
            Ok(y) => Ok(x + y),
        },
    }
}

/// The string of a value that is one.
pub open spec fn value_texts(v: ValueModel) -> Seq<Seq<char>> {
    match v {
        ValueModel::Text(s) => seq![s],
        _ => Seq::<Seq<char>>::empty(),
    }
}

/// [`value_texts`] as a function value.
pub open spec fn value_texts_fn() -> spec_fn(ValueModel) -> Seq<Seq<char>> {
    |v: ValueModel| value_texts(v)
}

/// The values of a property in their order: the one value, or those of
/// the list.
pub open spec fn property_values(v: PropertyValueModel) -> Seq<ValueModel> {
    match v {
        PropertyValueModel::Single(x) => seq![x],
        PropertyValueModel::List(xs) => xs,
    }
}

/// The strings that a property brings to the pool: its class name, its
/// name and, for the class of strings, its values.
pub open spec fn property_strings(p: PropertyModel) -> Seq<Seq<char>> {
    seq![p.class_name, p.name] + (if kind_of(p.class_name) == Some(Kind::Text) {
        concat_map(property_values(p.value), value_texts_fn())
    } else {
        Seq::<Seq<char>>::empty()
    })
}

/// [`property_strings`] as a function value.
pub open spec fn property_strings_fn() -> spec_fn(PropertyModel) -> Seq<Seq<char>> {
    |p: PropertyModel| property_strings(p)
}

/// The text under which the template id of a component stands in the
/// pool: four byte pairs without leading zeros.
pub open spec fn template_text(id: ID) -> Seq<char> {
    short_id_text(id.id as nat, 4, 4)
}

/// The strings that a component brings to the pool: its class name, the
/// text of its template id and the strings of its properties.
pub open spec fn component_strings(c: ComponentModel) -> Seq<Seq<char>> {
    seq![c.class_name, template_text(c.template_id)] + concat_map(c.properties, property_strings_fn())
}

/// [`component_strings`] as a function value.
pub open spec fn component_strings_fn() -> spec_fn(ComponentModel) -> Seq<Seq<char>> {
    |c: ComponentModel| component_strings(c)
}

/// The strings that an entity brings to the pool: its name and the
/// strings of its components.
pub open spec fn entity_strings(e: EntityModel) -> Seq<Seq<char>> {
    seq![e.name] + concat_map(e.components, component_strings_fn())
}

/// [`entity_strings`] as a function value.
pub open spec fn entity_strings_fn() -> spec_fn(EntityModel) -> Seq<Seq<char>> {
    |e: EntityModel| entity_strings(e)
}

/// The strings of a scene in the order of a walk through its entities,
/// their components and their properties, each as often as it occurs.
pub open spec fn scene_strings(s: SceneModel) -> Seq<Seq<char>> {
    concat_map(s.objects, entity_strings_fn())
}

/// The string pool of a scene while it is built: the framed strings, and
/// the file offset of each.
pub struct StringPoolModel {
    pub bytes: Seq<u8>,
    pub offsets: Map<Seq<char>, nat>,
}

/// The offset that the files hold for a string that stands `pos` bytes
/// into the pool.
pub open spec fn pool_offset(pos: nat, start_offset: nat) -> nat {
    count32(pos + start_offset)
}

/// A pool after the string was added, unless it holds it already.
pub open spec fn pool_with_string(p: StringPoolModel, s: Seq<char>, start_offset: nat) -> StringPoolModel {
    if p.offsets.contains_key(s) {
        p
    } else {
        StringPoolModel {
            bytes: p.bytes + jps_bytes(encode_utf8(s)),
            offsets: p.offsets.insert(s, pool_offset(p.bytes.len(), start_offset)),
        }
    }
}

/// The pool of the strings: each string stands in it once, where it first
/// occurs.
pub open spec fn string_pool(strings: Seq<Seq<char>>) -> StringPoolModel
    decreases strings.len(),
{
    if strings.len() == 0 {
        StringPoolModel { bytes: Seq::<u8>::empty(), offsets: Map::empty() }
    } else {
        pool_with_string(string_pool(strings.drop_last()), strings.last(), 4)
    }
}

/// The four bytes of the pool offset of a string. A string that the pool
/// lacks is refused as not found.
pub open spec fn offset_bytes(pool: Map<Seq<char>, nat>, s: Seq<char>, endian: EndianType) -> Result<
    Seq<u8>,
    Fault,
> {
    if pool.contains_key(s) {
        Ok(uint_bytes(endian, pool[s], 4))
    } else {
        Err(Fault::NotFound { path: s })
    }
}

/// The four bytes of an identifier that 32 bits can hold.
pub open spec fn id32_bytes(id: ID, endian: EndianType) -> Result<Seq<u8>, Fault> {
    if id.id <= u32::MAX {
        Ok(uint_bytes(endian, id.id as nat, 4))
    } else {
        Err(Fault::IdOverflow)
    }
}

/// [`id32_bytes`] as a function value.
pub open spec fn id32_encoder(endian: EndianType) -> spec_fn(ID) -> Result<Seq<u8>, Fault> {
    |id: ID| id32_bytes(id, endian)
}

/// The bytes of four bytes of a 32-bit number.
pub open spec fn u4(endian: EndianType, v: nat) -> Seq<u8> {
    uint_bytes(endian, v, 4)
}

/// The bytes of a value. The two short integers are followed by two
/// filler bytes `0xCD`; a string is its pool offset.
pub open spec fn value_bytes(v: ValueModel, endian: EndianType, pool: Map<Seq<char>, nat>) -> Result<
    Seq<u8>,
    Fault,
> {
    match v {
        ValueModel::Boolean(b) => Ok(bool_bytes(b)),
        ValueModel::Integer(i) => Ok(uint_bytes(endian, unsigned(i as int, 4), 4)),
        ValueModel::UnsignedInteger(u) => Ok(u4(endian, u as nat)),
        ValueModel::Short(i) => Ok(uint_bytes(endian, unsigned(i as int, 2), 2) + seq![0xCDu8, 0xCDu8]),
        ValueModel::UnsignedShort(u) => Ok(uint_bytes(endian, u as nat, 2) + seq![0xCDu8, 0xCDu8]),
        ValueModel::Float(bits) => Ok(u4(endian, bits as nat)),
        ValueModel::Text(s) => offset_bytes(pool, s, endian),
        ValueModel::Point2(p) => Ok(words_bytes(endian, p.words())),
        ValueModel::Point3(p) => Ok(words_bytes(endian, p.words())),
        ValueModel::Matrix3(p) => Ok(words_bytes(endian, p.words())),
        ValueModel::ColorRGB(p) => Ok(words_bytes(endian, p.words())),
        ValueModel::ColorRGBA(p) => Ok(words_bytes(endian, p.words())),
        ValueModel::EntityPointer(p) => id32_bytes(p.id, endian),
    }
}

/// The bytes of a value of a property of the class. A class outside the
/// table is refused as an unknown type; a value of another kind than the
/// class, as a bad storage mode, with the property's tag.
pub open spec fn typed_value_bytes(
    v: ValueModel,
    class_name: Seq<char>,
    tag: u32,
    endian: EndianType,
    pool: Map<Seq<char>, nat>,
) -> Result<Seq<u8>, Fault> {
    match kind_of(class_name) {
        None => Err(Fault::UnknownPropertyType { name: class_name }),
        Some(k) => if value_kind(v) != k {
            Err(Fault::BadStorageMode { got: tag })
        } else {
            value_bytes(v, endian, pool)
        },
    }
}

/// [`typed_value_bytes`] as a function value.
pub open spec fn typed_value_encoder(
    class_name: Seq<char>,
    tag: u32,
    endian: EndianType,
    pool: Map<Seq<char>, nat>,
) -> spec_fn(ValueModel) -> Result<Seq<u8>, Fault> {
    |v: ValueModel| typed_value_bytes(v, class_name, tag, endian, pool)
}

/// The storage tag of a property, or the failure of flags without a tag.
pub open spec fn property_tag(p: PropertyModel) -> Result<u32, Fault> {
    match tag_of_flags(p.value is List, p.asset, p.palette, p.template) {
        Some(t) => Ok(t),
        None => Err(Fault::BadStorageMode { got: flags_code(p.value is List, p.asset, p.palette, p.template) }),
    }
}

/// The bytes of a property record: the pool offsets of its name and of
/// its class name, its storage tag, the count of its values and the
/// values.
pub open spec fn property_bytes(p: PropertyModel, endian: EndianType, pool: Map<Seq<char>, nat>) -> Result<
    Seq<u8>,
    Fault,
> {
    match chain(offset_bytes(pool, p.name, endian), offset_bytes(pool, p.class_name, endian)) {
        Err(e) => Err(e),
        Ok(head) => match property_tag(p) {
            Err(e) => Err(e),
            Ok(tag) => chain(
                Ok(head + u4(endian, tag as nat) + u4(endian, count32(property_values(p.value).len()))),
                try_concat_map(property_values(p.value), typed_value_encoder(p.class_name, tag, endian, pool)),
            ),
        },
    }
}

/// [`property_bytes`] as a function value.
pub open spec fn property_encoder(endian: EndianType, pool: Map<Seq<char>, nat>) -> spec_fn(
    PropertyModel,
) -> Result<Seq<u8>, Fault> {
    |p: PropertyModel| property_bytes(p, endian, pool)
}

/// The bytes of a component record: the pool offsets of its class name
/// and of the text of its template id, its two link ids, the count of its
/// properties and the properties.
pub open spec fn component_bytes(c: ComponentModel, endian: EndianType, pool: Map<Seq<char>, nat>) -> Result<
    Seq<u8>,
    Fault,
> {
    chain(
        chain(
            chain(
                chain(
                    chain(
                        offset_bytes(pool, c.class_name, endian),
                        offset_bytes(pool, template_text(c.template_id), endian),
                    ),
                    id32_bytes(c.link_id, endian),
                ),
                id32_bytes(c.master_link_id, endian),
            ),
            Ok(u4(endian, count32(c.properties.len()))),
        ),
        try_concat_map(c.properties, property_encoder(endian, pool)),
    )
}

/// [`component_bytes`] as a function value.
pub open spec fn component_encoder(endian: EndianType, pool: Map<Seq<char>, nat>) -> spec_fn(
    ComponentModel,
) -> Result<Seq<u8>, Fault> {
    |c: ComponentModel| component_bytes(c, endian, pool)
}

/// The bytes of an entity record: the pool offset of its name, its two
/// link ids, the unknown fields (the second only in the second layout
/// family), the count of its components and the components.
pub open spec fn entity_bytes(
    e: EntityModel,
    endian: EndianType,
    pool: Map<Seq<char>, nat>,
    version: SceneFileVersion,
) -> Result<Seq<u8>, Fault> {
    chain(
        chain(
            chain(
                chain(offset_bytes(pool, e.name, endian), id32_bytes(e.link_id, endian)),
                id32_bytes(e.master_link_id, endian),
            ),
            Ok(
                u4(endian, e.unknown as nat) + (if version == SceneFileVersion::Version1 {
                    Seq::<u8>::empty()
                } else {
                    u4(endian, e.unknown_em2 as nat)
                }) + u4(endian, count32(e.components.len())),
            ),
        ),
        try_concat_map(e.components, component_encoder(endian, pool)),
    )
}

/// [`entity_bytes`] as a function value.
pub open spec fn entity_encoder(
    endian: EndianType,
    pool: Map<Seq<char>, nat>,
    version: SceneFileVersion,
) -> spec_fn(EntityModel) -> Result<Seq<u8>, Fault> {
    |e: EntityModel| entity_bytes(e, endian, pool, version)
}

/// The frame of a string, as a function value.
pub open spec fn jps_encoder() -> spec_fn(Seq<char>) -> Seq<u8> {
    |s: Seq<char>| jps_bytes(encode_utf8(s))
}

/// What stands before the entity records of a scene file: in the second
/// family the family sentinel; the length of the pool and 4; the pool; in
/// the second family the sentinel of the layout; but in the second layout,
/// the unique id; in the second family the count of the extra strings and
/// their frames; the counts of the entities and of the scene references.
pub open spec fn scene_head(m: SceneModel, endian: EndianType, pool: Seq<u8>) -> Seq<u8> {
    (if m.version == SceneFileVersion::Version1 {
        Seq::<u8>::empty()
    } else {
        u4(endian, family_sentinel())
    }) + u4(endian, count32(pool.len() + 4)) + pool + (match m.version {
        SceneFileVersion::Version1 => Seq::<u8>::empty(),
        SceneFileVersion::Version2Prototype => u4(endian, prototype_sentinel()),
        SceneFileVersion::Version2 => u4(endian, version2_sentinel()),
    }) + (if m.version == SceneFileVersion::Version2 {
        Seq::<u8>::empty()
    } else {
        uint_bytes(endian, m.unique_id.id as nat, 16)
    }) + (if m.version == SceneFileVersion::Version1 {
        Seq::<u8>::empty()
    } else {
        u4(endian, count32(m.em2_extra_strings.len())) + concat_map(m.em2_extra_strings, jps_encoder())
    }) + u4(endian, count32(m.objects.len())) + u4(endian, count32(m.scene.len()))
}

/// The bytes of a scene file: the head with the pool of the scene's
/// strings, the entity records and the scene references.
pub open spec fn scene_bytes(m: SceneModel, endian: EndianType) -> Result<Seq<u8>, Fault> {
    let pool = string_pool(scene_strings(m));
    chain(
        chain(
            Ok(scene_head(m, endian, pool.bytes)),
            try_concat_map(m.objects, entity_encoder(endian, pool.offsets, m.version)),
        ),
        try_concat_map(m.scene, id32_encoder(endian)),
    )
}

/// Reads one value of the class at the cursor.
fn read_value(fm: &mut FileManipulator, class_name: &str, bias: u32) -> (res: Result<Value, Error>)
    requires
        old(fm).wf(),
    ensures
        final(fm).wf(),
        final(fm)@.same_buffer(old(fm)@),
        match res {
            Ok(v) => parse_value(old(fm)@, class_name@, bias as int) == Ok::<(ValueModel, Cursor), Fault>(
                (v.deep_view(), final(fm)@),
            ),
            Err(e) => parse_value(old(fm)@, class_name@, bias as int) == Err::<(ValueModel, Cursor), Fault>(e@),
        },
{
    let kind = match kind_of_class(class_name) {
        Some(k) => k,
        None => {
            return Err(Error::UnknownPropertyType { name: class_name.to_owned() });
        },
    };
    match kind {
        Kind::Boolean => Ok(Value::Boolean(fm.r_bool()?)),
        Kind::Integer => Ok(Value::Integer(fm.r_s32()?)),
        Kind::UnsignedInteger => Ok(Value::UnsignedInteger(fm.r_u32()?)),
        Kind::Short => Ok(Value::Short(fm.r_s16_jps()?)),
        Kind::UnsignedShort => Ok(Value::UnsignedShort(fm.r_u16_jps()?)),
        Kind::Float => Ok(Value::Float(fm.r_float()?)),
        Kind::Text => {
            let pointer = fm.r_u32()?;
            let text = fm.str_jps_at(pointer as u128 + bias as u128)?;
            Ok(Value::Text(text))
        },
        Kind::Point2 => {
            let mut v = Point2::new(0, 0);
            v.unpack(fm)?;
            proof {
                let w = parse_words(old(fm)@, v.words().len())->Ok_0.0;
                assert(Point2::of_words(w) == v);
            }
            Ok(Value::Point2(v))
        },
        Kind::Point3 => {
            let mut v = Point3::new(0, 0, 0);
            v.unpack(fm)?;
            proof {
                let w = parse_words(old(fm)@, v.words().len())->Ok_0.0;
                assert(Point3::of_words(w) == v);
            }
            Ok(Value::Point3(v))
        },
        Kind::Matrix3 => {
            let mut v = Matrix3::new(0, 0, 0, 0, 0, 0, 0, 0, 0);
            v.unpack(fm)?;
            proof {
                let w = parse_words(old(fm)@, v.words().len())->Ok_0.0;
                assert(Matrix3::of_words(w) == v);
            }
            Ok(Value::Matrix3(v))
        },
        Kind::ColorRGB => {
            let mut v = ColorRGB::new(0, 0, 0);
            v.unpack(fm)?;
            proof {
                let w = parse_words(old(fm)@, v.words().len())->Ok_0.0;
                assert(ColorRGB::of_words(w) == v);
            }
            Ok(Value::ColorRGB(v))
        },
        Kind::ColorRGBA => {
            let mut v = ColorRGBA::new(0, 0, 0, 0);
            v.unpack(fm)?;
            proof {
                let w = parse_words(old(fm)@, v.words().len())->Ok_0.0;
                assert(ColorRGBA::of_words(w) == v);
            }
            Ok(Value::ColorRGBA(v))
        },
        Kind::EntityPointer => Ok(Value::EntityPointer(EntityPointer::new(ID::from_u32(fm.r_u32()?)))),
    }
}

/// Reads one 32-bit identifier at the cursor.
fn read_id32(fm: &mut FileManipulator) -> (res: Result<ID, Error>)
    requires
        old(fm).wf(),
    ensures
        final(fm).wf(),
        final(fm)@.same_buffer(old(fm)@),
        match res {
            Ok(v) => parse_id32(old(fm)@) == Ok::<(ID, Cursor), Fault>((v, final(fm)@)),
            Err(e) => parse_id32(old(fm)@) == Err::<(ID, Cursor), Fault>(e@),
        },
{
    Ok(ID::from_u32(fm.r_u32()?))
}

/// Reads `n` values of one class one behind the other.
fn read_values(fm: &mut FileManipulator, n: u32, class_name: &str, bias: u32) -> (res: Result<Vec<Value>, Error>)
    requires
        old(fm).wf(),
    ensures
        final(fm).wf(),
        final(fm)@.same_buffer(old(fm)@),
        match res {
            Ok(v) => parse_many(old(fm)@, n as nat, value_parser(class_name@, bias as int)) == Ok::<(Seq<ValueModel>, Cursor), Fault>(
                (v.deep_view(), final(fm)@),
            ),
            Err(e) => parse_many(old(fm)@, n as nat, value_parser(class_name@, bias as int)) == Err::<(Seq<ValueModel>, Cursor), Fault>(
                e@,
            ),
        },
{
    let mut items: Vec<Value> = Vec::new();
    assert(items.deep_view() =~= Seq::<ValueModel>::empty());
    let mut i: u32 = 0;
    while i < n
        invariant
            i <= n,
            fm.wf(),
            fm@.same_buffer(old(fm)@),
            parse_many(old(fm)@, i as nat, value_parser(class_name@, bias as int)) == Ok::<(Seq<ValueModel>, Cursor), Fault>(
                (items.deep_view(), fm@),
            ),
        decreases n - i,
    {
        let item = match read_value(fm, class_name, bias) {
            Ok(item) => item,
            Err(e) => {
                proof {
                    lemma_parse_many_fails(old(fm)@, (i + 1) as nat, n as nat, value_parser(class_name@, bias as int));
                }
                return Err(e);
            },
        };
        let ghost before = items.deep_view();
        items.push(item);
        assert(items.deep_view() =~= before.push(item.deep_view()));
        i += 1;
    }
    Ok(items)
}

/// The flags of a storage tag.
fn flags_of(tag: u32) -> (r: Option<(bool, bool, bool, bool)>)
    ensures
        r == flags_of_tag(tag as nat),
{
    match tag {
        0 => Some((false, false, false, false)),
        1 => Some((true, false, false, false)),
        2 => Some((false, true, false, false)),
        3 => Some((true, true, false, false)),
        4 => Some((false, false, true, false)),
        5 => Some((true, false, false, true)),
        _ => None,
    }
}

/// Reads one property record at the cursor.
fn read_property(fm: &mut FileManipulator, bias: u32) -> (res: Result<Property, Error>)
    requires
        old(fm).wf(),
    ensures
        final(fm).wf(),
        final(fm)@.same_buffer(old(fm)@),
        match res {
            Ok(p) => parse_property(old(fm)@, bias as int) == Ok::<(PropertyModel, Cursor), Fault>(
                (p.deep_view(), final(fm)@),
            ),
            Err(e) => parse_property(old(fm)@, bias as int) == Err::<(PropertyModel, Cursor), Fault>(e@),
        },
{
    let name_offset = fm.r_u32()?;
    let class_offset = fm.r_u32()?;
    let class_name = fm.str_jps_at(class_offset as u128 + bias as u128)?;
    let name = fm.str_jps_at(name_offset as u128 + bias as u128)?;
    let tag = fm.r_u32()?;
    let flags = match flags_of(tag) {
        Some(f) => f,
        None => {
            return Err(Error::BadStorageMode { got: tag });
        },
    };
    let amount = fm.r_u32()?;
    let value = if flags.0 {
        PropertyValue::List(read_values(fm, amount, class_name.as_str(), bias)?)
    } else {
        PropertyValue::Single(read_value(fm, class_name.as_str(), bias)?)
    };
    Ok(Property { class_name, name, asset: flags.1, palette: flags.2, template: flags.3, value })
}

/// Reads `n` property records one behind the other.
fn read_properties(fm: &mut FileManipulator, n: u32, bias: u32) -> (res: Result<Vec<Property>, Error>)
    requires
        old(fm).wf(),
    ensures
        final(fm).wf(),
        final(fm)@.same_buffer(old(fm)@),
        match res {
            Ok(v) => parse_many(old(fm)@, n as nat, property_parser(bias as int)) == Ok::<(Seq<PropertyModel>, Cursor), Fault>(
                (v.deep_view(), final(fm)@),
            ),
            Err(e) => parse_many(old(fm)@, n as nat, property_parser(bias as int)) == Err::<(Seq<PropertyModel>, Cursor), Fault>(
                e@,
            ),
        },
{
    let mut items: Vec<Property> = Vec::new();
    assert(items.deep_view() =~= Seq::<PropertyModel>::empty());
    let mut i: u32 = 0;
    while i < n
        invariant
            i <= n,
            fm.wf(),
            fm@.same_buffer(old(fm)@),
            parse_many(old(fm)@, i as nat, property_parser(bias as int)) == Ok::<(Seq<PropertyModel>, Cursor), Fault>(
                (items.deep_view(), fm@),
            ),
        decreases n - i,
    {
        let item = match read_property(fm, bias) {
            Ok(item) => item,
            Err(e) => {
                proof {
                    lemma_parse_many_fails(old(fm)@, (i + 1) as nat, n as nat, property_parser(bias as int));
                }
                return Err(e);
            },
        };
        let ghost before = items.deep_view();
        items.push(item);
        assert(items.deep_view() =~= before.push(item.deep_view()));
        i += 1;
    }
    Ok(items)
}

/// Reads one component record at the cursor.
fn read_component(fm: &mut FileManipulator, bias: u32) -> (res: Result<Component, Error>)
    requires
        old(fm).wf(),
    ensures
        final(fm).wf(),
        final(fm)@.same_buffer(old(fm)@),
        match res {
            Ok(p) => parse_component(old(fm)@, bias as int) == Ok::<(ComponentModel, Cursor), Fault>(
                (p.deep_view(), final(fm)@),
            ),
            Err(e) => parse_component(old(fm)@, bias as int) == Err::<(ComponentModel, Cursor), Fault>(e@),
        },
{
    let class_offset = fm.r_u32()?;
    let template_offset = fm.r_u32()?;
    let class_name = fm.str_jps_at(class_offset as u128 + bias as u128)?;
    let template_text = fm.str_jps_at(template_offset as u128 + bias as u128)?;
    let template_id = ID::from_string(template_text.as_str())?;
    let link_id = ID::from_u32(fm.r_u32()?);
    let master_link_id = ID::from_u32(fm.r_u32()?);
    let amount = fm.r_u32()?;
    let properties = read_properties(fm, amount, bias)?;
    let name = Component::get_name_for_class_name(class_name.as_str());
    Ok(Component { class_name, name, template_id, link_id, master_link_id, properties })
}

/// Reads `n` component records one behind the other.
fn read_components(fm: &mut FileManipulator, n: u32, bias: u32) -> (res: Result<Vec<Component>, Error>)
    requires
        old(fm).wf(),
    ensures
        final(fm).wf(),
        final(fm)@.same_buffer(old(fm)@),
        match res {
            Ok(v) => parse_many(old(fm)@, n as nat, component_parser(bias as int)) == Ok::<(Seq<ComponentModel>, Cursor), Fault>(
                (v.deep_view(), final(fm)@),
            ),
            Err(e) => parse_many(old(fm)@, n as nat, component_parser(bias as int)) == Err::<(Seq<ComponentModel>, Cursor), Fault>(
                e@,
            ),
        },
{
    let mut items: Vec<Component> = Vec::new();
    assert(items.deep_view() =~= Seq::<ComponentModel>::empty());
    let mut i: u32 = 0;
    while i < n
        invariant
            i <= n,
            fm.wf(),
            fm@.same_buffer(old(fm)@),
            parse_many(old(fm)@, i as nat, component_parser(bias as int)) == Ok::<(Seq<ComponentModel>, Cursor), Fault>(
                (items.deep_view(), fm@),
            ),
        decreases n - i,
    {
        let item = match read_component(fm, bias) {
            Ok(item) => item,
            Err(e) => {
                proof {
                    lemma_parse_many_fails(old(fm)@, (i + 1) as nat, n as nat, component_parser(bias as int));
                }
                return Err(e);
            },
        };
        let ghost before = items.deep_view();
        items.push(item);
        assert(items.deep_view() =~= before.push(item.deep_view()));
        i += 1;
    }
    Ok(items)
}

/// Reads one entity record at the cursor.
fn read_entity(fm: &mut FileManipulator, version: SceneFileVersion) -> (res: Result<Entity, Error>)
    requires
        old(fm).wf(),
    ensures
        final(fm).wf(),
        final(fm)@.same_buffer(old(fm)@),
        match res {
            Ok(p) => parse_entity(old(fm)@, version) == Ok::<(EntityModel, Cursor), Fault>(
                (p.deep_view(), final(fm)@),
            ),
            Err(e) => parse_entity(old(fm)@, version) == Err::<(EntityModel, Cursor), Fault>(e@),
        },
{
    let bias: u32 = version.bias();
    let name_offset = fm.r_u32()?;
    let name = fm.str_jps_at(name_offset as u128 + bias as u128)?;
    let link_id = ID::from_u32(fm.r_u32()?);
    let master_link_id = ID::from_u32(fm.r_u32()?);
    let unknown = fm.r_u32()?;
    let unknown_em2 = match version {
        SceneFileVersion::Version1 => 0,
        _ => fm.r_u32()?,
    };
    let amount = fm.r_u32()?;
    let components = read_components(fm, amount, bias)?;
    Ok(
        Entity {
            class_name: "JPSGeneralEntity".to_owned(),
            name,
            link_id,
            master_link_id,
            unknown,
            unknown_em2,
            components,
        },
    )
}

/// Reads `n` entity records one behind the other.
fn read_entities(fm: &mut FileManipulator, n: u32, version: SceneFileVersion) -> (res: Result<Vec<Entity>, Error>)
    requires
        old(fm).wf(),
    ensures
        final(fm).wf(),
        final(fm)@.same_buffer(old(fm)@),
        match res {
            Ok(v) => parse_many(old(fm)@, n as nat, entity_parser(version)) == Ok::<(Seq<EntityModel>, Cursor), Fault>(
                (v.deep_view(), final(fm)@),
            ),
            Err(e) => parse_many(old(fm)@, n as nat, entity_parser(version)) == Err::<(Seq<EntityModel>, Cursor), Fault>(
                e@,
            ),
        },
{
    let mut items: Vec<Entity> = Vec::new();
    assert(items.deep_view() =~= Seq::<EntityModel>::empty());
    let mut i: u32 = 0;
    while i < n
        invariant
            i <= n,
            fm.wf(),
            fm@.same_buffer(old(fm)@),
            parse_many(old(fm)@, i as nat, entity_parser(version)) == Ok::<(Seq<EntityModel>, Cursor), Fault>(
                (items.deep_view(), fm@),
            ),
        decreases n - i,
    {
        let item = match read_entity(fm, version) {
            Ok(item) => item,
            Err(e) => {
                proof {
                    lemma_parse_many_fails(old(fm)@, (i + 1) as nat, n as nat, entity_parser(version));
                }
                return Err(e);
            },
        };
        let ghost before = items.deep_view();
        items.push(item);
        assert(items.deep_view() =~= before.push(item.deep_view()));
        i += 1;
    }
    Ok(items)
}

/// Reads `n` framed strings one behind the other.
fn read_strings(fm: &mut FileManipulator, n: u32) -> (res: Result<Vec<String>, Error>)
    requires
        old(fm).wf(),
    ensures
        final(fm).wf(),
        final(fm)@.same_buffer(old(fm)@),
        match res {
            Ok(v) => parse_many(old(fm)@, n as nat, jps_parser()) == Ok::<(Seq<Seq<char>>, Cursor), Fault>(
                (v.deep_view(), final(fm)@),
            ),
            Err(e) => parse_many(old(fm)@, n as nat, jps_parser()) == Err::<(Seq<Seq<char>>, Cursor), Fault>(
                e@,
            ),
        },
{
    let mut items: Vec<String> = Vec::new();
    assert(items.deep_view() =~= Seq::<Seq<char>>::empty());
    let mut i: u32 = 0;
    while i < n
        invariant
            i <= n,
            fm.wf(),
            fm@.same_buffer(old(fm)@),
            parse_many(old(fm)@, i as nat, jps_parser()) == Ok::<(Seq<Seq<char>>, Cursor), Fault>(
                (items.deep_view(), fm@),
            ),
        decreases n - i,
    {
        let item = match fm.r_str_jps() {
            Ok(item) => item,
            Err(e) => {
                proof {
                    lemma_parse_many_fails(old(fm)@, (i + 1) as nat, n as nat, jps_parser());
                }
                return Err(e);
            },
        };
        let ghost before = items.deep_view();
        items.push(item);
        assert(items.deep_view() =~= before.push(item.deep_view()));
        i += 1;
    }
    Ok(items)
}

/// Reads `n` 32-bit identifiers one behind the other.
fn read_ids(fm: &mut FileManipulator, n: u32) -> (res: Result<Vec<ID>, Error>)
    requires
        old(fm).wf(),
    ensures
        final(fm).wf(),
        final(fm)@.same_buffer(old(fm)@),
        match res {
            Ok(v) => parse_many(old(fm)@, n as nat, id32_parser()) == Ok::<(Seq<ID>, Cursor), Fault>(
                (v.deep_view(), final(fm)@),
            ),
            Err(e) => parse_many(old(fm)@, n as nat, id32_parser()) == Err::<(Seq<ID>, Cursor), Fault>(
                e@,
            ),
        },
{
    let mut items: Vec<ID> = Vec::new();
    assert(items.deep_view() =~= Seq::<ID>::empty());
    let mut i: u32 = 0;
    while i < n
        invariant
            i <= n,
            fm.wf(),
            fm@.same_buffer(old(fm)@),
            parse_many(old(fm)@, i as nat, id32_parser()) == Ok::<(Seq<ID>, Cursor), Fault>(
                (items.deep_view(), fm@),
            ),
        decreases n - i,
    {
        let item = match read_id32(fm) {
            Ok(item) => item,
            Err(e) => {
                proof {
                    lemma_parse_many_fails(old(fm)@, (i + 1) as nat, n as nat, id32_parser());
                }
                return Err(e);
            },
        };
        let ghost before = items.deep_view();
        items.push(item);
        assert(items.deep_view() =~= before.push(item.deep_view()));
        i += 1;
    }
    Ok(items)
}

/// Reads a scene of the given layout at the cursor.
fn read_scene(fm: &mut FileManipulator, version: SceneFileVersion) -> (res: Result<SceneFile, Error>)
    requires
        old(fm).wf(),
    ensures
        final(fm).wf(),
        final(fm)@.same_buffer(old(fm)@),
        match res {
            Ok(p) => parse_scene(old(fm)@, version) == Ok::<(SceneModel, Cursor), Fault>(
                (p.deep_view(), final(fm)@),
            ),
            Err(e) => parse_scene(old(fm)@, version) == Err::<(SceneModel, Cursor), Fault>(e@),
        },
{
    let data_offset: u64 = match version {
        SceneFileVersion::Version1 => fm.r_u32()? as u64,
        _ => {
            fm.move_pos(4)?;
            fm.r_u32()? as u64 + 8
        },
    };
    fm.goto(data_offset)?;
    let unique_id = match version {
        SceneFileVersion::Version2 => ID::new(0),
        _ => ID::from_u128(fm.r_u128()?),
    };
    let em2_extra_strings = match version {
        SceneFileVersion::Version1 => {
            let empty: Vec<String> = Vec::new();
            assert(empty.deep_view() =~= Seq::<Seq<char>>::empty());
            empty
        },
        _ => {
            let n = fm.r_u32()?;
            read_strings(fm, n)?
        },
    };
    let entity_amount = fm.r_u32()?;
    let ref_amount = fm.r_u32()?;
    let objects = read_entities(fm, entity_amount, version)?;
    let scene = read_ids(fm, ref_amount)?;
    Ok(SceneFile { objects, scene, em2_extra_strings, unique_id, version })
}

/// Tells the layout of the file from its start and leaves the cursor
/// where it stands.
fn read_version(fm: &mut FileManipulator) -> (res: Result<SceneFileVersion, Error>)
    requires
        old(fm).wf(),
    ensures
        final(fm)@ == old(fm)@,
        match res {
            Ok(v) => detect_version(old(fm)@) == Ok::<SceneFileVersion, Fault>(v),
            Err(e) => detect_version(old(fm)@) == Err::<SceneFileVersion, Fault>(e@),
        },
{
    let start: usize = fm.pos;
    let first = fm.r_u32()?;
    if first != 0x0100_0001 {
        fm.pos = start;
        return Ok(SceneFileVersion::Version1);
    }
    let offset = match fm.r_u32() {
        Ok(v) => v,
        Err(e) => {
            fm.pos = start;
            return Err(e);
        },
    };
    match fm.goto(offset as u64 + 4) {
        Ok(_) => {},
        Err(e) => {
            fm.pos = start;
            return Err(e);
        },
    }
    let num = fm.r_u32();
    fm.pos = start;
    match num {
        Err(e) => Err(e),
        Ok(0x0200_0002) => Ok(SceneFileVersion::Version2),
        Ok(0x0200_0001) => Ok(SceneFileVersion::Version2Prototype),
        Ok(n) => Err(Error::BadVersion { got: n }),
    }
}

/// Appends the four bytes of `x` in the given byte order.
fn push_u4(v: &mut Vec<u8>, x: u32, endian: EndianType)
    ensures
        final(v)@ == old(v)@ + u4(endian, x as nat),
{
    let bytes = encode_uint(x as u128, 4, endian);
    append_bytes(v, bytes.as_slice());
}

/// The four bytes of the pool offset of a string.
fn offset_of(pool: &StringOffsets, s: &str, endian: EndianType) -> (res: Result<Vec<u8>, Error>)
    ensures
        match res {
            Ok(v) => offset_bytes(pool@, s@, endian) == Ok::<Seq<u8>, Fault>(v@),
            Err(e) => offset_bytes(pool@, s@, endian) == Err::<Seq<u8>, Fault>(e@),
        },
{
    match pool.get(s) {
        Some(offset) => Ok(encode_uint(offset as u128, 4, endian)),
        None => Err(Error::NotFound { path: s.to_owned() }),
    }
}

/// The four bytes of an identifier that 32 bits can hold.
fn pack_id32(id: &ID, endian: EndianType) -> (res: Result<Vec<u8>, Error>)
    ensures
        match res {
            Ok(v) => id32_bytes(*id, endian) == Ok::<Seq<u8>, Fault>(v@),
            Err(e) => id32_bytes(*id, endian) == Err::<Seq<u8>, Fault>(e@),
        },
{
    let v = id.to_u32()?;
    Ok(encode_uint(v as u128, 4, endian))
}

/// The bytes of a value.
fn pack_value(v: &Value, endian: EndianType, pool: &StringOffsets) -> (res: Result<Vec<u8>, Error>)
    ensures
        match res {
            Ok(b) => value_bytes(v.deep_view(), endian, pool@) == Ok::<Seq<u8>, Fault>(b@),
            Err(e) => value_bytes(v.deep_view(), endian, pool@) == Err::<Seq<u8>, Fault>(e@),
        },
{
    let mut fm = FileManipulator::new(Vec::new(), endian, WriteMode::OVERWRITE);
    match v {
        Value::Boolean(b) => {
            fm.w_bool(*b);
            Ok(fm.data)
        },
        Value::Integer(i) => {
            fm.w_s32(*i);
            Ok(fm.data)
        },
        Value::UnsignedInteger(u) => {
            fm.w_u32(*u);
            Ok(fm.data)
        },
        Value::Short(i) => {
            fm.w_s16_jps(*i, 0);
            Ok(fm.data)
        },
        Value::UnsignedShort(u) => {
            fm.w_u16_jps(*u, 0);
            Ok(fm.data)
        },
        Value::Float(bits) => {
            fm.w_float(*bits);
            Ok(fm.data)
        },
        Value::Text(s) => offset_of(pool, s.as_str(), endian),
        Value::Point2(p) => Ok(p.pack(endian)),
        Value::Point3(p) => Ok(p.pack(endian)),
        Value::Matrix3(p) => Ok(p.pack(endian)),
        Value::ColorRGB(p) => Ok(p.pack(endian)),
        Value::ColorRGBA(p) => Ok(p.pack(endian)),
        Value::EntityPointer(p) => pack_id32(&p.id, endian),
    }
}

/// The bytes of a value of a property of the class.
fn pack_typed_value(v: &Value, class_name: &str, tag: u32, endian: EndianType, pool: &StringOffsets) -> (res:
    Result<Vec<u8>, Error>)
    ensures
        match res {
            Ok(b) => typed_value_bytes(v.deep_view(), class_name@, tag, endian, pool@) == Ok::<Seq<u8>, Fault>(b@),
            Err(e) => typed_value_bytes(v.deep_view(), class_name@, tag, endian, pool@) == Err::<Seq<u8>, Fault>(
                e@,
            ),
        },
{
    match kind_of_class(class_name) {
        None => Err(Error::UnknownPropertyType { name: class_name.to_owned() }),
        Some(k) => {
            if v.kind() != k {
                Err(Error::BadStorageMode { got: tag })
            } else {
                pack_value(v, endian, pool)
            }
        },
    }
}

/// The bytes of the values of a property, one behind the other, or the first failure.
fn pack_values(items: &Vec<Value>, class_name: &str, tag: u32, endian: EndianType, pool: &StringOffsets) -> (res: Result<Vec<u8>, Error>)
    ensures
        match res {
            Ok(v) => try_concat_map(items.deep_view(), typed_value_encoder(class_name@, tag, endian, pool@)) == Ok::<Seq<u8>, Fault>(v@),
            Err(e) => try_concat_map(items.deep_view(), typed_value_encoder(class_name@, tag, endian, pool@)) == Err::<Seq<u8>, Fault>(e@),
        },
{
    let ghost all = items.deep_view();
    let mut out: Vec<u8> = Vec::new();
    let mut i: usize = 0;
    assert(all.subrange(0, 0) =~= Seq::<ValueModel>::empty());
    while i < items.len()
        invariant
            i <= items@.len(),
            all == items.deep_view(),
            try_concat_map(all.subrange(0, i as int), typed_value_encoder(class_name@, tag, endian, pool@)) == Ok::<Seq<u8>, Fault>(out@),
        decreases items@.len() - i,
    {
        proof {
            assert(all.subrange(0, i + 1).drop_last() =~= all.subrange(0, i as int));
            assert(all.subrange(0, i + 1).last() == all[i as int]);
            assert(all[i as int] == items@[i as int].deep_view());
        }
        let bytes = match pack_typed_value(&items[i], class_name, tag, endian, pool) {
            Ok(b) => b,
            Err(e) => {
                proof {
                    lemma_try_concat_map_fails(all, i + 1, typed_value_encoder(class_name@, tag, endian, pool@));
                }
                return Err(e);
            },
        };
        append_bytes(&mut out, bytes.as_slice());
        i += 1;
    }
    assert(all.subrange(0, i as int) =~= all);
    Ok(out)
}

/// The bytes of the property records, one behind the other, or the first failure.
fn pack_properties(items: &Vec<Property>, endian: EndianType, pool: &StringOffsets) -> (res: Result<Vec<u8>, Error>)
    ensures
        match res {
            Ok(v) => try_concat_map(items.deep_view(), property_encoder(endian, pool@)) == Ok::<Seq<u8>, Fault>(v@),
            Err(e) => try_concat_map(items.deep_view(), property_encoder(endian, pool@)) == Err::<Seq<u8>, Fault>(e@),
        },
{
    let ghost all = items.deep_view();
    let mut out: Vec<u8> = Vec::new();
    let mut i: usize = 0;
    assert(all.subrange(0, 0) =~= Seq::<PropertyModel>::empty());
    while i < items.len()
        invariant
            i <= items@.len(),
            all == items.deep_view(),
            try_concat_map(all.subrange(0, i as int), property_encoder(endian, pool@)) == Ok::<Seq<u8>, Fault>(out@),
        decreases items@.len() - i,
    {
        proof {
            assert(all.subrange(0, i + 1).drop_last() =~= all.subrange(0, i as int));
            assert(all.subrange(0, i + 1).last() == all[i as int]);
            assert(all[i as int] == items@[i as int].deep_view());
        }
        let bytes = match items[i].pack(endian, pool) {
            Ok(b) => b,
            Err(e) => {
                proof {
                    lemma_try_concat_map_fails(all, i + 1, property_encoder(endian, pool@));
                }
                return Err(e);
            },
        };
        append_bytes(&mut out, bytes.as_slice());
        i += 1;
    }
    assert(all.subrange(0, i as int) =~= all);
    Ok(out)
}

/// The bytes of the component records, one behind the other, or the first failure.
fn pack_components(items: &Vec<Component>, endian: EndianType, pool: &StringOffsets) -> (res: Result<Vec<u8>, Error>)
    ensures
        match res {
            Ok(v) => try_concat_map(items.deep_view(), component_encoder(endian, pool@)) == Ok::<Seq<u8>, Fault>(v@),
            Err(e) => try_concat_map(items.deep_view(), component_encoder(endian, pool@)) == Err::<Seq<u8>, Fault>(e@),
        },
{
    let ghost all = items.deep_view();
    let mut out: Vec<u8> = Vec::new();
    let mut i: usize = 0;
    assert(all.subrange(0, 0) =~= Seq::<ComponentModel>::empty());
    while i < items.len()
        invariant
            i <= items@.len(),
            all == items.deep_view(),
            try_concat_map(all.subrange(0, i as int), component_encoder(endian, pool@)) == Ok::<Seq<u8>, Fault>(out@),
        decreases items@.len() - i,
    {
        proof {
            assert(all.subrange(0, i + 1).drop_last() =~= all.subrange(0, i as int));
            assert(all.subrange(0, i + 1).last() == all[i as int]);
            assert(all[i as int] == items@[i as int].deep_view());
        }
        let bytes = match items[i].pack(endian, pool) {
            Ok(b) => b,
            Err(e) => {
                proof {
                    lemma_try_concat_map_fails(all, i + 1, component_encoder(endian, pool@));
                }
                return Err(e);
            },
        };
        append_bytes(&mut out, bytes.as_slice());
        i += 1;
    }
    assert(all.subrange(0, i as int) =~= all);
    Ok(out)
}

/// The bytes of the entity records, one behind the other, or the first failure.
fn pack_entities(items: &Vec<Entity>, endian: EndianType, pool: &StringOffsets, version: SceneFileVersion) -> (res: Result<Vec<u8>, Error>)
    ensures
        match res {
            Ok(v) => try_concat_map(items.deep_view(), entity_encoder(endian, pool@, version)) == Ok::<Seq<u8>, Fault>(v@),
            Err(e) => try_concat_map(items.deep_view(), entity_encoder(endian, pool@, version)) == Err::<Seq<u8>, Fault>(e@),
        },
{
    let ghost all = items.deep_view();
    let mut out: Vec<u8> = Vec::new();
    let mut i: usize = 0;
    assert(all.subrange(0, 0) =~= Seq::<EntityModel>::empty());
    while i < items.len()
        invariant
            i <= items@.len(),
            all == items.deep_view(),
            try_concat_map(all.subrange(0, i as int), entity_encoder(endian, pool@, version)) == Ok::<Seq<u8>, Fault>(out@),
        decreases items@.len() - i,
    {
        proof {
            assert(all.subrange(0, i + 1).drop_last() =~= all.subrange(0, i as int));
            assert(all.subrange(0, i + 1).last() == all[i as int]);
            assert(all[i as int] == items@[i as int].deep_view());
        }
        let bytes = match items[i].pack(endian, pool, version) {
            Ok(b) => b,
            Err(e) => {
                proof {
                    lemma_try_concat_map_fails(all, i + 1, entity_encoder(endian, pool@, version));
                }
                return Err(e);
            },
        };
        append_bytes(&mut out, bytes.as_slice());
        i += 1;
    }
    assert(all.subrange(0, i as int) =~= all);
    Ok(out)
}

/// The bytes of the scene references, one behind the other, or the first failure.
fn pack_ids(items: &Vec<ID>, endian: EndianType) -> (res: Result<Vec<u8>, Error>)
    ensures
        match res {
            Ok(v) => try_concat_map(items.deep_view(), id32_encoder(endian)) == Ok::<Seq<u8>, Fault>(v@),
            Err(e) => try_concat_map(items.deep_view(), id32_encoder(endian)) == Err::<Seq<u8>, Fault>(e@),
        },
{
    let ghost all = items.deep_view();
    let mut out: Vec<u8> = Vec::new();
    let mut i: usize = 0;
    assert(all.subrange(0, 0) =~= Seq::<ID>::empty());
    while i < items.len()
        invariant
            i <= items@.len(),
            all == items.deep_view(),
            try_concat_map(all.subrange(0, i as int), id32_encoder(endian)) == Ok::<Seq<u8>, Fault>(out@),
        decreases items@.len() - i,
    {
        proof {
            assert(all.subrange(0, i + 1).drop_last() =~= all.subrange(0, i as int));
            assert(all.subrange(0, i + 1).last() == all[i as int]);
            assert(all[i as int] == items@[i as int].deep_view());
        }
        let bytes = match pack_id32(&items[i], endian) {
            Ok(b) => b,
            Err(e) => {
                proof {
                    lemma_try_concat_map_fails(all, i + 1, id32_encoder(endian));
                }
                return Err(e);
            },
        };
        append_bytes(&mut out, bytes.as_slice());
        i += 1;
    }
    assert(all.subrange(0, i as int) =~= all);
    Ok(out)
}

/// The storage tag of the flags, if they have one.
fn tag_of(list: bool, asset: bool, palette: bool, template: bool) -> (r: Option<u32>)
    ensures
        r == tag_of_flags(list, asset, palette, template),
{
    match (list, asset, palette, template) {
        (false, false, false, false) => Some(0),
        (true, false, false, false) => Some(1),
        (false, true, false, false) => Some(2),
        (true, true, false, false) => Some(3),
        (false, false, true, false) => Some(4),
        (true, false, false, true) => Some(5),
        _ => None,
    }
}

/// The flags as one number.
fn code_of(list: bool, asset: bool, palette: bool, template: bool) -> (r: u32)
    ensures
        r == flags_code(list, asset, palette, template),
{
    let a: u32 = if list { 1 } else { 0 };
    let b: u32 = if asset { 2 } else { 0 };
    let c: u32 = if palette { 4 } else { 0 };
    let d: u32 = if template { 8 } else { 0 };
    a + b + c + d
}

/// The string of a value that is one.
fn value_strings(v: &Value) -> (out: Vec<String>)
    ensures
        out.deep_view() == value_texts(v.deep_view()),
{
    let mut out: Vec<String> = Vec::new();
    match v {
        Value::Text(s) => {
            out.push(s.clone());
            assert(out.deep_view() =~= seq![s@]);
        },
        _ => {
            assert(out.deep_view() =~= Seq::<Seq<char>>::empty());
        },
    }
    out
}

/// The strings of the values, in their order.
fn values_strings(items: &Vec<Value>) -> (out: Vec<String>)
    ensures
        out.deep_view() == concat_map(items.deep_view(), value_texts_fn()),
{
    let ghost all = items.deep_view();
    let mut out: Vec<String> = Vec::new();
    assert(out.deep_view() =~= Seq::<Seq<char>>::empty());
    assert(all.subrange(0, 0) =~= Seq::<ValueModel>::empty());
    let mut i: usize = 0;
    while i < items.len()
        invariant
            i <= items@.len(),
            all == items.deep_view(),
            out.deep_view() == concat_map(all.subrange(0, i as int), value_texts_fn()),
        decreases items@.len() - i,
    {
        let mut part = value_strings(&items[i]);
        proof {
            lemma_concat_map_push(all.subrange(0, i as int), all[i as int], value_texts_fn());
            assert(all.subrange(0, i + 1) =~= all.subrange(0, i as int).push(all[i as int]));
            assert(all[i as int] == items@[i as int].deep_view());
        }
        let ghost a = out.deep_view();
        let ghost b = part.deep_view();
        out.append(&mut part);
        assert(out.deep_view() =~= a + b);
        i += 1;
    }
    assert(all.subrange(0, i as int) =~= all);
    out
}

/// The strings of the properties, in their order.
fn properties_strings(items: &Vec<Property>) -> (out: Vec<String>)
    ensures
        out.deep_view() == concat_map(items.deep_view(), property_strings_fn()),
{
    let ghost all = items.deep_view();
    let mut out: Vec<String> = Vec::new();
    assert(out.deep_view() =~= Seq::<Seq<char>>::empty());
    assert(all.subrange(0, 0) =~= Seq::<PropertyModel>::empty());
    let mut i: usize = 0;
    while i < items.len()
        invariant
            i <= items@.len(),
            all == items.deep_view(),
            out.deep_view() == concat_map(all.subrange(0, i as int), property_strings_fn()),
        decreases items@.len() - i,
    {
        let mut part = items[i].strings();
        proof {
            lemma_concat_map_push(all.subrange(0, i as int), all[i as int], property_strings_fn());
            assert(all.subrange(0, i + 1) =~= all.subrange(0, i as int).push(all[i as int]));
            assert(all[i as int] == items@[i as int].deep_view());
        }
        let ghost a = out.deep_view();
        let ghost b = part.deep_view();
        out.append(&mut part);
        assert(out.deep_view() =~= a + b);
        i += 1;
    }
    assert(all.subrange(0, i as int) =~= all);
    out
}

/// The strings of the components, in their order.
fn components_strings(items: &Vec<Component>) -> (out: Vec<String>)
    ensures
        out.deep_view() == concat_map(items.deep_view(), component_strings_fn()),
{
    let ghost all = items.deep_view();
    let mut out: Vec<String> = Vec::new();
    assert(out.deep_view() =~= Seq::<Seq<char>>::empty());
    assert(all.subrange(0, 0) =~= Seq::<ComponentModel>::empty());
    let mut i: usize = 0;
    while i < items.len()
        invariant
            i <= items@.len(),
            all == items.deep_view(),
            out.deep_view() == concat_map(all.subrange(0, i as int), component_strings_fn()),
        decreases items@.len() - i,
    {
        let mut part = items[i].strings();
        proof {
            lemma_concat_map_push(all.subrange(0, i as int), all[i as int], component_strings_fn());
            assert(all.subrange(0, i + 1) =~= all.subrange(0, i as int).push(all[i as int]));
            assert(all[i as int] == items@[i as int].deep_view());
        }
        let ghost a = out.deep_view();
        let ghost b = part.deep_view();
        out.append(&mut part);
        assert(out.deep_view() =~= a + b);
        i += 1;
    }
    assert(all.subrange(0, i as int) =~= all);
    out
}

/// The strings of the entities, in their order.
fn entities_strings(items: &Vec<Entity>) -> (out: Vec<String>)
    ensures
        out.deep_view() == concat_map(items.deep_view(), entity_strings_fn()),
{
    let ghost all = items.deep_view();
    let mut out: Vec<String> = Vec::new();
    assert(out.deep_view() =~= Seq::<Seq<char>>::empty());
    assert(all.subrange(0, 0) =~= Seq::<EntityModel>::empty());
    let mut i: usize = 0;
    while i < items.len()
        invariant
            i <= items@.len(),
            all == items.deep_view(),
            out.deep_view() == concat_map(all.subrange(0, i as int), entity_strings_fn()),
        decreases items@.len() - i,
    {
        let mut part = items[i].strings();
        proof {
            lemma_concat_map_push(all.subrange(0, i as int), all[i as int], entity_strings_fn());
            assert(all.subrange(0, i + 1) =~= all.subrange(0, i as int).push(all[i as int]));
            assert(all[i as int] == items@[i as int].deep_view());
        }
        let ghost a = out.deep_view();
        let ghost b = part.deep_view();
        out.append(&mut part);
        assert(out.deep_view() =~= a + b);
        i += 1;
    }
    assert(all.subrange(0, i as int) =~= all);
    out
}

/// The frames of the strings, one behind the other.
fn pack_frames(items: &Vec<String>) -> (out: Vec<u8>)
    ensures
        out@ == concat_map(items.deep_view(), jps_encoder()),
{
    let ghost all = items.deep_view();
    let mut out: Vec<u8> = Vec::new();
    assert(all.subrange(0, 0) =~= Seq::<Seq<char>>::empty());
    let mut i: usize = 0;
    while i < items.len()
        invariant
            i <= items@.len(),
            all == items.deep_view(),
            out@ == concat_map(all.subrange(0, i as int), jps_encoder()),
        decreases items@.len() - i,
    {
        let frame = jps_frame(items[i].as_str());
        proof {
            lemma_concat_map_push(all.subrange(0, i as int), all[i as int], jps_encoder());
            assert(all.subrange(0, i + 1) =~= all.subrange(0, i as int).push(all[i as int]));
        }
        append_bytes(&mut out, frame.as_slice());
        i += 1;
    }
    assert(all.subrange(0, i as int) =~= all);
    out
}

impl SceneFileVersion {
    /// The layout under its number: 1, 2 for the prototype, 3.
    pub fn from_u32(version: u32) -> (res: Result<SceneFileVersion, Error>)
        ensures
            version == 1 ==> res == Ok::<SceneFileVersion, Error>(SceneFileVersion::Version1),
            version == 2 ==> res == Ok::<SceneFileVersion, Error>(SceneFileVersion::Version2Prototype),
            version == 3 ==> res == Ok::<SceneFileVersion, Error>(SceneFileVersion::Version2),
            !(1 <= version <= 3) ==> (res matches Err(e) && e@ == (Fault::BadVersion { got: version })),
    {
        match version {
            1 => Ok(SceneFileVersion::Version1),
            2 => Ok(SceneFileVersion::Version2Prototype),
            3 => Ok(SceneFileVersion::Version2),
            _ => Err(Error::BadVersion { got: version }),
        }
    }

    /// The number of the layout: 1, 2 for the prototype, 3.
    pub fn to_u32(&self) -> (n: u32)
        ensures
            n == (match self {
                SceneFileVersion::Version1 => 1u32,
                SceneFileVersion::Version2Prototype => 2u32,
                SceneFileVersion::Version2 => 3u32,
            }),
    {
        match self {
            SceneFileVersion::Version1 => 1,
            SceneFileVersion::Version2Prototype => 2,
            SceneFileVersion::Version2 => 3,
        }
    }

    /// What is added to a pool offset of a file of this layout.
    pub fn bias(&self) -> (b: u32)
        ensures
            b == pool_bias(*self),
    {
        match self {
            SceneFileVersion::Version1 => 0,
            _ => 4,
        }
    }
}

impl Property {
    pub fn new(class_name: String, name: String, asset: bool, palette: bool, template: bool, value: PropertyValue) -> (p:
        Property)
        ensures
            p.class_name == class_name,
            p.name == name,
            p.asset == asset,
            p.palette == palette,
            p.template == template,
            p.value == value,
    {
        Property { class_name, name, asset, palette, template, value }
    }

    /// The strings that the property brings to the pool.
    pub fn strings(&self) -> (out: Vec<String>)
        ensures
            out.deep_view() == property_strings(self.deep_view()),
    {
        let mut out: Vec<String> = Vec::new();
        out.push(self.class_name.clone());
        out.push(self.name.clone());
        assert(out.deep_view() =~= seq![self.class_name@, self.name@]);
        let ghost head = out.deep_view();
        match kind_of_class(self.class_name.as_str()) {
            Some(Kind::Text) => {
                let mut part = match &self.value {
                    PropertyValue::Single(v) => {
                        let one = value_strings(v);
                        proof {
                            let vals = seq![v.deep_view()];
                            assert(vals.drop_last() =~= Seq::<ValueModel>::empty());
                            assert(concat_map(vals.drop_last(), value_texts_fn()) =~= Seq::<Seq<char>>::empty());
                            assert(concat_map(vals, value_texts_fn()) =~= value_texts(v.deep_view()));
                        }
                        one
                    },
                    PropertyValue::List(vs) => values_strings(vs),
                };
                let ghost tail = part.deep_view();
                out.append(&mut part);
                assert(out.deep_view() =~= head + tail);
            },
            _ => {
                assert(out.deep_view() =~= head + Seq::<Seq<char>>::empty());
            },
        }
        out
    }

    /// The bytes of the property record in the given byte order, with the
    /// pool offsets that the table gives.
    pub fn pack(&self, endian_type: EndianType, strings_offsets_map: &StringOffsets) -> (res: Result<
        Vec<u8>,
        Error,
    >)
        ensures
            match res {
                Ok(v) => property_bytes(self.deep_view(), endian_type, strings_offsets_map@) == Ok::<
                    Seq<u8>,
                    Fault,
                >(v@),
                Err(e) => property_bytes(self.deep_view(), endian_type, strings_offsets_map@) == Err::<
                    Seq<u8>,
                    Fault,
                >(e@),
            },
    {
        proof {
            reveal(count32);
        }
        let mut out = offset_of(strings_offsets_map, self.name.as_str(), endian_type)?;
        let class_offset = offset_of(strings_offsets_map, self.class_name.as_str(), endian_type)?;
        append_bytes(&mut out, class_offset.as_slice());
        let list: bool = match &self.value {
            PropertyValue::Single(_) => false,
            PropertyValue::List(_) => true,
        };
        let tag = match tag_of(list, self.asset, self.palette, self.template) {
            Some(t) => t,
            None => {
                return Err(
                    Error::BadStorageMode { got: code_of(list, self.asset, self.palette, self.template) },
                );
            },
        };
        push_u4(&mut out, tag, endian_type);
        let values = match &self.value {
            PropertyValue::Single(v) => {
                push_u4(&mut out, 1, endian_type);
                let b = pack_typed_value(v, self.class_name.as_str(), tag, endian_type, strings_offsets_map);
                proof {
                    let one = seq![v.deep_view()];
                    let enc = typed_value_encoder(self.class_name@, tag, endian_type, strings_offsets_map@);
                    assert(one.drop_last() =~= Seq::<ValueModel>::empty());
                    assert(one.last() == v.deep_view());
                    assert(try_concat_map(one.drop_last(), enc) == Ok::<Seq<u8>, Fault>(Seq::<u8>::empty()));
                    if b is Ok {
                        assert(Seq::<u8>::empty() + b->Ok_0@ =~= b->Ok_0@);
                    }
                }
                b?
            },
            PropertyValue::List(vs) => {
                push_u4(&mut out, len32(vs.len()), endian_type);
                pack_values(vs, self.class_name.as_str(), tag, endian_type, strings_offsets_map)?
            },
        };
        append_bytes(&mut out, values.as_slice());
        Ok(out)
    }

    /// Reads a property record at the cursor into `self`. On a failure
    /// neither `self` nor the cursor has changed.
    pub fn unpack(&mut self, fm: &mut FileManipulator, version: SceneFileVersion) -> (res: Result<(), Error>)
        requires
            old(fm).wf(),
        ensures
            final(fm).wf(),
            final(fm)@.same_buffer(old(fm)@),
            match res {
                Ok(_) => parse_property(old(fm)@, pool_bias(version)) == Ok::<(PropertyModel, Cursor), Fault>(
                    (final(self).deep_view(), final(fm)@),
                ),
                Err(e) => parse_property(old(fm)@, pool_bias(version)) == Err::<(PropertyModel, Cursor), Fault>(
                    e@,
                ) && final(fm)@ == old(fm)@ && *final(self) == *old(self),
            },
    {
        let start: usize = fm.pos;
        match read_property(fm, version.bias()) {
            Ok(p) => {
                *self = p;
                Ok(())
            },
            Err(e) => {
                fm.pos = start;
                Err(e)
            },
        }
    }
}

impl Component {
    pub fn new(
        class_name: String,
        name: String,
        template_id: ID,
        link_id: ID,
        master_link_id: ID,
        properties: Vec<Property>,
    ) -> (c: Component)
        ensures
            c.class_name == class_name,
            c.name == name,
            c.template_id == template_id,
            c.link_id == link_id,
            c.master_link_id == master_link_id,
            c.properties == properties,
    {
        Component { class_name, name, template_id, link_id, master_link_id, properties }
    }

    /// The first property of the name, if the component has one.
    pub fn get_property(&self, name: &str) -> (res: Option<&Property>)
        ensures
            match res {
                Some(p) => exists|i: int|
                    #![trigger self.properties@[i]]
                    0 <= i < self.properties@.len() && *p == self.properties@[i] && p.name@ == name@ && forall|
                        j: int,
                    |
                        0 <= j < i ==> (#[trigger] self.properties@[j]).name@ != name@,
                None => forall|j: int|
                    0 <= j < self.properties@.len() ==> (#[trigger] self.properties@[j]).name@ != name@,
            },
    {
        let mut i: usize = 0;
        while i < self.properties.len()
            invariant
                i <= self.properties@.len(),
                forall|j: int| 0 <= j < i ==> (#[trigger] self.properties@[j]).name@ != name@,
            decreases self.properties@.len() - i,
        {
            if str_eq(self.properties[i].name.as_str(), name) {
                return Some(&self.properties[i]);
            }
            i += 1;
        }
        None
    }

    /// The value of the first property of the name, if the component has
    /// one.
    pub fn get_property_value(&self, name: &str) -> (res: Option<&PropertyValue>)
        ensures
            match res {
                Some(v) => exists|i: int|
                    #![trigger self.properties@[i]]
                    0 <= i < self.properties@.len() && *v == self.properties@[i].value
                        && self.properties@[i].name@ == name@ && forall|j: int|
                        0 <= j < i ==> (#[trigger] self.properties@[j]).name@ != name@,
                None => forall|j: int|
                    0 <= j < self.properties@.len() ==> (#[trigger] self.properties@[j]).name@ != name@,
            },
    {
        match self.get_property(name) {
            Some(p) => Some(&p.value),
            None => None,
        }
    }

    /// The display name that follows from a class name.
    pub fn get_name_for_class_name(class_name: &str) -> (name: String)
        ensures
            name@ == display_name(class_name@),
    {
        if str_eq(class_name, "NiTransformationComponent") || str_eq(class_name, "JPSTransformationComponent") {
            "Transformation".to_owned()
        } else if str_eq(class_name, "NiSceneGraphComponent") || str_eq(class_name, "JPSSceneGraphComponent") {
            "Scene Graph".to_owned()
        } else if str_eq(class_name, "NiLightComponent") || str_eq(class_name, "JPSLightComponent") {
            "Light".to_owned()
        } else if str_eq(class_name, "NiCameraComponent") || str_eq(class_name, "JPSCameraComponent") {
            "Camera".to_owned()
        } else {
            "Unknown".to_owned()
        }
    }

    /// The strings that the component brings to the pool.
    pub fn strings(&self) -> (out: Vec<String>)
        ensures
            out.deep_view() == component_strings(self.deep_view()),
    {
        let mut out: Vec<String> = Vec::new();
        out.push(self.class_name.clone());
        out.push(self.template_id.to_string_no_leaders(4));
        assert(out.deep_view() =~= seq![self.class_name@, template_text(self.template_id)]);
        let ghost head = out.deep_view();
        let mut part = properties_strings(&self.properties);
        let ghost tail = part.deep_view();
        out.append(&mut part);
        assert(out.deep_view() =~= head + tail);
        out
    }

    /// The bytes of the component record in the given byte order, with the
    /// pool offsets that the table gives.
    pub fn pack(&self, endian_type: EndianType, strings_offsets_map: &StringOffsets) -> (res: Result<
        Vec<u8>,
        Error,
    >)
        ensures
            match res {
                Ok(v) => component_bytes(self.deep_view(), endian_type, strings_offsets_map@) == Ok::<
                    Seq<u8>,
                    Fault,
                >(v@),
                Err(e) => component_bytes(self.deep_view(), endian_type, strings_offsets_map@) == Err::<
                    Seq<u8>,
                    Fault,
                >(e@),
            },
    {
        let mut out = offset_of(strings_offsets_map, self.class_name.as_str(), endian_type)?;
        let template = self.template_id.to_string_no_leaders(4);
        let b = offset_of(strings_offsets_map, template.as_str(), endian_type)?;
        append_bytes(&mut out, b.as_slice());
        let b = pack_id32(&self.link_id, endian_type)?;
        append_bytes(&mut out, b.as_slice());
        let b = pack_id32(&self.master_link_id, endian_type)?;
        append_bytes(&mut out, b.as_slice());
        push_u4(&mut out, len32(self.properties.len()), endian_type);
        let b = pack_properties(&self.properties, endian_type, strings_offsets_map)?;
        append_bytes(&mut out, b.as_slice());
        Ok(out)
    }

    /// Reads a component record at the cursor into `self`. On a failure
    /// neither `self` nor the cursor has changed.
    pub fn unpack(&mut self, fm: &mut FileManipulator, version: SceneFileVersion) -> (res: Result<(), Error>)
        requires
            old(fm).wf(),
        ensures
            final(fm).wf(),
            final(fm)@.same_buffer(old(fm)@),
            match res {
                Ok(_) => parse_component(old(fm)@, pool_bias(version)) == Ok::<(ComponentModel, Cursor), Fault>(
                    (final(self).deep_view(), final(fm)@),
                ),
                Err(e) => parse_component(old(fm)@, pool_bias(version)) == Err::<
                    (ComponentModel, Cursor),
                    Fault,
                >(e@) && final(fm)@ == old(fm)@ && *final(self) == *old(self),
            },
    {
        let start: usize = fm.pos;
        match read_component(fm, version.bias()) {
            Ok(p) => {
                *self = p;
                Ok(())
            },
            Err(e) => {
                fm.pos = start;
                Err(e)
            },
        }
    }
}

impl Entity {
    pub fn new(
        class_name: String,
        name: String,
        link_id: ID,
        master_link_id: ID,
        unknown: u32,
        unknown_em2: u32,
        components: Vec<Component>,
    ) -> (e: Entity)
        ensures
            e.class_name == class_name,
            e.name == name,
            e.link_id == link_id,
            e.master_link_id == master_link_id,
            e.unknown == unknown,
            e.unknown_em2 == unknown_em2,
            e.components == components,
    {
        Entity { class_name, name, link_id, master_link_id, unknown, unknown_em2, components }
    }

    /// The strings that the entity brings to the pool.
    pub fn strings(&self) -> (out: Vec<String>)
        ensures
            out.deep_view() == entity_strings(self.deep_view()),
    {
        let mut out: Vec<String> = Vec::new();
        out.push(self.name.clone());
        assert(out.deep_view() =~= seq![self.name@]);
        let ghost head = out.deep_view();
        let mut part = components_strings(&self.components);
        let ghost tail = part.deep_view();
        out.append(&mut part);
        assert(out.deep_view() =~= head + tail);
        out
    }

    /// The bytes of the entity record in the given byte order and layout,
    /// with the pool offsets that the table gives.
    pub fn pack(&self, endian_type: EndianType, strings_offsets_map: &StringOffsets, version: SceneFileVersion) -> (res:
        Result<Vec<u8>, Error>)
        ensures
            match res {
                Ok(v) => entity_bytes(self.deep_view(), endian_type, strings_offsets_map@, version) == Ok::<
                    Seq<u8>,
                    Fault,
                >(v@),
                Err(e) => entity_bytes(self.deep_view(), endian_type, strings_offsets_map@, version) == Err::<
                    Seq<u8>,
                    Fault,
                >(e@),
            },
    {
        let mut out = offset_of(strings_offsets_map, self.name.as_str(), endian_type)?;
        let b = pack_id32(&self.link_id, endian_type)?;
        append_bytes(&mut out, b.as_slice());
        let b = pack_id32(&self.master_link_id, endian_type)?;
        append_bytes(&mut out, b.as_slice());
        let ghost before = out@;
        push_u4(&mut out, self.unknown, endian_type);
        match version {
            SceneFileVersion::Version1 => {},
            _ => {
                push_u4(&mut out, self.unknown_em2, endian_type);
            },
        }
        push_u4(&mut out, len32(self.components.len()), endian_type);
        assert(out@ =~= before + (u4(endian_type, self.unknown as nat) + (if version == SceneFileVersion::Version1 {
            Seq::<u8>::empty()
        } else {
            u4(endian_type, self.unknown_em2 as nat)
        }) + u4(endian_type, count32(self.components@.len()))));
        let b = pack_components(&self.components, endian_type, strings_offsets_map)?;
        append_bytes(&mut out, b.as_slice());
        Ok(out)
    }

    /// The first component of the class name, if the entity has one.
    pub fn get_component(&self, class_name: &str) -> (res: Option<&Component>)
        ensures
            match res {
                Some(c) => exists|i: int|
                    #![trigger self.components@[i]]
                    0 <= i < self.components@.len() && *c == self.components@[i] && c.class_name@
                        == class_name@ && forall|j: int|
                        0 <= j < i ==> (#[trigger] self.components@[j]).class_name@ != class_name@,
                None => forall|j: int|
                    0 <= j < self.components@.len() ==> (#[trigger] self.components@[j]).class_name@
                        != class_name@,
            },
    {
        let mut i: usize = 0;
        while i < self.components.len()
            invariant
                i <= self.components@.len(),
                forall|j: int| 0 <= j < i ==> (#[trigger] self.components@[j]).class_name@ != class_name@,
            decreases self.components@.len() - i,
        {
            if str_eq(self.components[i].class_name.as_str(), class_name) {
                return Some(&self.components[i]);
            }
            i += 1;
        }
        None
    }

    /// Reads an entity record at the cursor into `self`. On a failure
    /// neither `self` nor the cursor has changed.
    pub fn unpack(&mut self, fm: &mut FileManipulator, version: SceneFileVersion) -> (res: Result<(), Error>)
        requires
            old(fm).wf(),
        ensures
            final(fm).wf(),
            final(fm)@.same_buffer(old(fm)@),
            match res {
                Ok(_) => parse_entity(old(fm)@, version) == Ok::<(EntityModel, Cursor), Fault>(
                    (final(self).deep_view(), final(fm)@),
                ),
                Err(e) => parse_entity(old(fm)@, version) == Err::<(EntityModel, Cursor), Fault>(e@) && final(fm)@
                    == old(fm)@ && *final(self) == *old(self),
            },
    {
        let start: usize = fm.pos;
        match read_entity(fm, version) {
            Ok(p) => {
                *self = p;
                Ok(())
            },
            Err(e) => {
                fm.pos = start;
                Err(e)
            },
        }
    }
}

impl SceneFile {
    pub fn new(
        objects: Vec<Entity>,
        scene: Vec<ID>,
        em2_extra_strings: Vec<String>,
        unique_id: ID,
        version: SceneFileVersion,
    ) -> (s: SceneFile)
        ensures
            s.objects == objects,
            s.scene == scene,
            s.em2_extra_strings == em2_extra_strings,
            s.unique_id == unique_id,
            s.version == version,
    {
        SceneFile { objects, scene, em2_extra_strings, unique_id, version }
    }

    /// Adds a string to the pool under way, unless the table has it: the
    /// table gets the string under the length of the pool and
    /// `start_offset`, on 32 bits, and the pool gets the frame of the
    /// string.
    pub fn add_string(
        fm: &mut FileManipulator,
        strings_offsets_map: &mut StringOffsets,
        start_offset: u32,
        string: &str,
    )
        requires
            old(fm).wf(),
            old(fm).pos == old(fm).data@.len(),
        ensures
            final(fm).wf(),
            final(fm).pos == final(fm).data@.len(),
            final(fm).endian == old(fm).endian,
            final(fm).write_mode == old(fm).write_mode,
            (StringPoolModel { bytes: final(fm).data@, offsets: final(strings_offsets_map)@ })
                == pool_with_string(
                StringPoolModel { bytes: old(fm).data@, offsets: old(strings_offsets_map)@ },
                string@,
                start_offset as nat,
            ),
    {
        proof {
            reveal(count32);
        }
        match strings_offsets_map.get(string) {
            Some(_) => {},
            None => {
                let offset: u32 = ((fm.get_size() as u128 + start_offset as u128) % 0x1_0000_0000) as u32;
                strings_offsets_map.insert(string.to_owned(), offset);
                fm.w_str_jps(string);
            },
        }
    }

    /// The strings of the scene in the order of a walk through it.
    pub fn strings(&self) -> (out: Vec<String>)
        ensures
            out.deep_view() == scene_strings(self.deep_view()),
    {
        entities_strings(&self.objects)
    }

    /// The string pool of the scene and the file offset of each string in
    /// it: each string once, in the order in which a walk through the
    /// scene first meets it.
    pub fn build_strings_and_map(&self) -> (out: (Vec<u8>, StringOffsets))
        ensures
            out.0@ == string_pool(scene_strings(self.deep_view())).bytes,
            out.1@ == string_pool(scene_strings(self.deep_view())).offsets,
    {
        let strings = self.strings();
        let ghost all = strings.deep_view();
        let mut fm = FileManipulator::new(Vec::new(), EndianType::BIG, WriteMode::OVERWRITE);
        let mut map = StringOffsets::new();
        assert(all.subrange(0, 0) =~= Seq::<Seq<char>>::empty());
        let mut i: usize = 0;
        while i < strings.len()
            invariant
                i <= strings@.len(),
                all == strings.deep_view(),
                fm.wf(),
                fm.pos == fm.data@.len(),
                (StringPoolModel { bytes: fm.data@, offsets: map@ }) == string_pool(all.subrange(0, i as int)),
            decreases strings@.len() - i,
        {
            proof {
                assert(all.subrange(0, i + 1).drop_last() =~= all.subrange(0, i as int));
                assert(all.subrange(0, i + 1).last() == strings@[i as int]@);
            }
            SceneFile::add_string(&mut fm, &mut map, 4, strings[i].as_str());
            i += 1;
        }
        assert(all.subrange(0, i as int) =~= all);
        (fm.data, map)
    }

    /// What stands before the entity records.
    fn pack_head(&self, endian_type: EndianType, pool: &Vec<u8>) -> (out: Vec<u8>)
        ensures
            out@ == scene_head(self.deep_view(), endian_type, pool@),
    {
        proof {
            reveal(count32);
        }
        let mut out: Vec<u8> = Vec::new();
        match self.version {
            SceneFileVersion::Version1 => {},
            _ => {
                push_u4(&mut out, 0x0100_0001, endian_type);
            },
        }
        push_u4(&mut out, ((pool.len() as u128 + 4) % 0x1_0000_0000) as u32, endian_type);
        append_bytes(&mut out, pool.as_slice());
        match self.version {
            SceneFileVersion::Version1 => {},
            SceneFileVersion::Version2Prototype => {
                push_u4(&mut out, 0x0200_0001, endian_type);
            },
            SceneFileVersion::Version2 => {
                push_u4(&mut out, 0x0200_0002, endian_type);
            },
        }
        match self.version {
            SceneFileVersion::Version2 => {},
            _ => {
                let id = encode_uint(self.unique_id.to_u128(), 16, endian_type);
                append_bytes(&mut out, id.as_slice());
            },
        }
        match self.version {
            SceneFileVersion::Version1 => {},
            _ => {
                push_u4(&mut out, len32(self.em2_extra_strings.len()), endian_type);
                let frames = pack_frames(&self.em2_extra_strings);
                append_bytes(&mut out, frames.as_slice());
            },
        }
        push_u4(&mut out, len32(self.objects.len()), endian_type);
        push_u4(&mut out, len32(self.scene.len()), endian_type);
        assert(out@ =~= scene_head(self.deep_view(), endian_type, pool@));
        out
    }

    /// The bytes of the scene file in the given byte order, or the first
    /// failure on the way through the scene.
    pub fn pack(&self, endian_type: EndianType) -> (res: Result<Vec<u8>, Error>)
        ensures
            match res {
                Ok(v) => scene_bytes(self.deep_view(), endian_type) == Ok::<Seq<u8>, Fault>(v@),
                Err(e) => scene_bytes(self.deep_view(), endian_type) == Err::<Seq<u8>, Fault>(e@),
            },
    {
        let (pool, map) = self.build_strings_and_map();
        let mut out = self.pack_head(endian_type, &pool);
        let entities = pack_entities(&self.objects, endian_type, &map, self.version)?;
        append_bytes(&mut out, entities.as_slice());
        let refs = pack_ids(&self.scene, endian_type)?;
        append_bytes(&mut out, refs.as_slice());
        Ok(out)
    }

    /// The bytes of the scene file in the given byte order, or the first
    /// failure on the way through the scene.
    pub fn to_binary(&self, endian_type: EndianType) -> (res: Result<Vec<u8>, Error>)
        ensures
            match res {
                Ok(v) => scene_bytes(self.deep_view(), endian_type) == Ok::<Seq<u8>, Fault>(v@),
                Err(e) => scene_bytes(self.deep_view(), endian_type) == Err::<Seq<u8>, Fault>(e@),
            },
    {
        self.pack(endian_type)
    }

    /// Reads a scene of the layout of `self` at the cursor, which stands at
    /// the start of the file, into `self`. On a failure neither `self` nor
    /// the cursor has changed.
    pub fn unpack(&mut self, fm: &mut FileManipulator) -> (res: Result<(), Error>)
        requires
            old(fm).wf(),
        ensures
            final(fm).wf(),
            final(fm)@.same_buffer(old(fm)@),
            match res {
                Ok(_) => parse_scene(old(fm)@, old(self).version) == Ok::<(SceneModel, Cursor), Fault>(
                    (final(self).deep_view(), final(fm)@),
                ),
                Err(e) => parse_scene(old(fm)@, old(self).version) == Err::<(SceneModel, Cursor), Fault>(e@)
                    && final(fm)@ == old(fm)@ && *final(self) == *old(self),
            },
    {
        let start: usize = fm.pos;
        match read_scene(fm, self.version) {
            Ok(p) => {
                *self = p;
                Ok(())
            },
            Err(e) => {
                fm.pos = start;
                Err(e)
            },
        }
    }

    /// The scene that `data` holds in the given byte order; its layout is
    /// told from its start.
    pub fn from_binary(data: &[u8], endian_type: EndianType) -> (res: Result<SceneFile, Error>)
        ensures
            match res {
                Ok(s) => parse_scene_file(data@, endian_type) == Ok::<SceneModel, Fault>(s.deep_view()),
                Err(e) => parse_scene_file(data@, endian_type) == Err::<SceneModel, Fault>(e@),
            },
    {
        let mut fm = FileManipulator::new(vstd::slice::slice_to_vec(data), endian_type, WriteMode::OVERWRITE);
        let version = read_version(&mut fm)?;
        read_scene(&mut fm, version)
    }
}

} // verus!
