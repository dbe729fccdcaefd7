use vstd::prelude::*;
use crate::byte_order::{encode_uint, uint_bytes};
use crate::error::{Error, Fault};
use crate::file_manipulator::{Cursor, EndianType, FileManipulator, WriteMode};
use crate::framing::{concat_map, lemma_concat_map_push, lemma_parse_many_fails, lemma_parse_many_len, parse_many};
use crate::scene_id::ID;
use crate::text::{append_bytes, str_eq};

verus! {

/// A 32-bit word read at the cursor.
pub open spec fn parse_word(c: Cursor) -> Result<(u32, Cursor), Fault> {
    match c.r_uint(4) {
        Ok((v, c1)) => Ok((v as u32, c1)),
        Err(e) => Err(e),
    }
}

/// [`parse_word`] as a function value.
pub open spec fn word_parser() -> spec_fn(Cursor) -> Result<(u32, Cursor), Fault> {
    |c: Cursor| parse_word(c)
}

/// `n` 32-bit words read one behind the other.
pub open spec fn parse_words(c: Cursor, n: nat) -> Result<(Seq<u32>, Cursor), Fault> {
    parse_many(c, n, word_parser())
}

/// The four bytes of a word, as a function value.
pub open spec fn word_encoder(endian: EndianType) -> spec_fn(u32) -> Seq<u8> {
    |w: u32| uint_bytes(endian, w as nat, 4)
}

/// The bytes of the words, one behind the other.
pub open spec fn words_bytes(endian: EndianType, words: Seq<u32>) -> Seq<u8> {
    concat_map(words, word_encoder(endian))
}

/// Reads `n` 32-bit words at the cursor. On a failure the cursor has not
/// changed.
pub fn read_words(fm: &mut FileManipulator, n: usize) -> (res: Result<Vec<u32>, Error>)
    requires
        old(fm).wf(),
    ensures
        final(fm).wf(),
        final(fm)@.same_buffer(old(fm)@),
        match res {
            Ok(v) => parse_words(old(fm)@, n as nat) == Ok::<(Seq<u32>, Cursor), Fault>((v@, final(fm)@)),
            Err(e) => parse_words(old(fm)@, n as nat) == Err::<(Seq<u32>, Cursor), Fault>(e@) && final(fm)@
                == old(fm)@,
        },
{
    let start: usize = fm.pos;
    let mut out: Vec<u32> = Vec::new();
    let mut i: usize = 0;
    while i < n
        invariant
            i <= n,
            fm.wf(),
            old(fm).wf(),
            start == old(fm).pos,
            fm@.same_buffer(old(fm)@),
            parse_many(old(fm)@, i as nat, word_parser()) == Ok::<(Seq<u32>, Cursor), Fault>((out@, fm@)),
        decreases n - i,
    {
        match fm.r_u32() {
            Ok(w) => {
                out.push(w);
            },
            Err(e) => {
                proof {
                    lemma_parse_many_fails(old(fm)@, (i + 1) as nat, n as nat, word_parser());
                }
                fm.pos = start;
                return Err(e);
            },
        }
        i += 1;
    }
    Ok(out)
}

/// The bytes of the words in the given byte order.
pub fn words_to_bytes(words: &Vec<u32>, endian: EndianType) -> (out: Vec<u8>)
    ensures
        out@ == words_bytes(endian, words@),
{
    let mut out: Vec<u8> = Vec::new();
    let mut i: usize = 0;
    while i < words.len()
        invariant
            i <= words@.len(),
            out@ == words_bytes(endian, words@.subrange(0, i as int)),
        decreases words@.len() - i,
    {
        let bytes = encode_uint(words[i] as u128, 4, endian);
        proof {
            lemma_concat_map_push(words@.subrange(0, i as int), words@[i as int], word_encoder(endian));
            assert(words@.subrange(0, i + 1) =~= words@.subrange(0, i as int).push(words@[i as int]));
        }
        append_bytes(&mut out, bytes.as_slice());
        i += 1;
    }
    assert(words@.subrange(0, i as int) =~= words@);
    out
}

/// A point of the plane: each coordinate is the bit pattern of a single-precision float.
#[derive(Debug, Clone, Copy, PartialEq, Eq, Structural)]
pub struct Point2 {
    pub x: u32,
    pub y: u32,
}

impl Point2 {
    /// The value whose words are `w`.
    pub open spec fn of_words(w: Seq<u32>) -> Point2 {
        Point2 { x: w[0], y: w[1] }
    }

    /// The coordinates in the order of the wire.
    pub open spec fn words(&self) -> Seq<u32> {
        seq![self.x, self.y]
    }

    pub fn new(x: u32, y: u32) -> (p: Point2)
        ensures
            p.x == x,
            p.y == y,
    {
        Point2 { x, y }
    }

    /// Reads the 2 floats at the cursor into `self`. On a failure neither
    /// `self` nor the cursor has changed.
    pub fn unpack(&mut self, fm: &mut FileManipulator) -> (res: Result<(), Error>)
        requires
            old(fm).wf(),
        ensures
            final(fm).wf(),
            final(fm)@.same_buffer(old(fm)@),
            match res {
                Ok(_) => parse_words(old(fm)@, 2) == Ok::<(Seq<u32>, Cursor), Fault>(
                    (final(self).words(), final(fm)@),
                ),
                Err(e) => parse_words(old(fm)@, 2) == Err::<(Seq<u32>, Cursor), Fault>(e@) && final(fm)@
                    == old(fm)@ && *final(self) == *old(self),
            },
    {
        let words = read_words(fm, 2)?;
        proof {
            lemma_parse_many_len(old(fm)@, 2, word_parser());
        }
        self.x = words[0];
        self.y = words[1];
        assert(self.words() =~= words@);
        Ok(())
    }

    /// The bytes of the 2 floats in the given byte order.
    pub fn pack(&self, endian_type: EndianType) -> (out: Vec<u8>)
        ensures
            out@ == words_bytes(endian_type, self.words()),
    {
        let words: Vec<u32> = vec![self.x, self.y];
        assert(words@ =~= self.words());
        words_to_bytes(&words, endian_type)
    }
}

/// A point of space: each coordinate is the bit pattern of a single-precision float.
#[derive(Debug, Clone, Copy, PartialEq, Eq, Structural)]
pub struct Point3 {
    pub x: u32,
    pub y: u32,
    pub z: u32,
}

impl Point3 {
    /// The value whose words are `w`.
    pub open spec fn of_words(w: Seq<u32>) -> Point3 {
        Point3 { x: w[0], y: w[1], z: w[2] }
    }

    /// The coordinates in the order of the wire.
    pub open spec fn words(&self) -> Seq<u32> {
        seq![self.x, self.y, self.z]
    }

    pub fn new(x: u32, y: u32, z: u32) -> (p: Point3)
        ensures
            p.x == x,
            p.y == y,
            p.z == z,
    {
        Point3 { x, y, z }
    }

    /// Reads the 3 floats at the cursor into `self`. On a failure neither
    /// `self` nor the cursor has changed.
    pub fn unpack(&mut self, fm: &mut FileManipulator) -> (res: Result<(), Error>)
        requires
            old(fm).wf(),
        ensures
            final(fm).wf(),
            final(fm)@.same_buffer(old(fm)@),
            match res {
                Ok(_) => parse_words(old(fm)@, 3) == Ok::<(Seq<u32>, Cursor), Fault>(
                    (final(self).words(), final(fm)@),
                ),
                Err(e) => parse_words(old(fm)@, 3) == Err::<(Seq<u32>, Cursor), Fault>(e@) && final(fm)@
                    == old(fm)@ && *final(self) == *old(self),
            },
    {
        let words = read_words(fm, 3)?;
        proof {
            lemma_parse_many_len(old(fm)@, 3, word_parser());
        }
        self.x = words[0];
        self.y = words[1];
        self.z = words[2];
        assert(self.words() =~= words@);
        Ok(())
    }

    /// The bytes of the 3 floats in the given byte order.
    pub fn pack(&self, endian_type: EndianType) -> (out: Vec<u8>)
        ensures
            out@ == words_bytes(endian_type, self.words()),
    {
        let words: Vec<u32> = vec![self.x, self.y, self.z];
        assert(words@ =~= self.words());
        words_to_bytes(&words, endian_type)
    }
}

/// A colour: each coordinate is the bit pattern of a single-precision float.
#[derive(Debug, Clone, Copy, PartialEq, Eq, Structural)]
pub struct ColorRGB {
    pub r: u32,
    pub g: u32,
    pub b: u32,
}

impl ColorRGB {
    /// The value whose words are `w`.
    pub open spec fn of_words(w: Seq<u32>) -> ColorRGB {
        ColorRGB { r: w[0], g: w[1], b: w[2] }
    }

    /// The coordinates in the order of the wire.
    pub open spec fn words(&self) -> Seq<u32> {
        seq![self.r, self.g, self.b]
    }

    pub fn new(r: u32, g: u32, b: u32) -> (p: ColorRGB)
        ensures
            p.r == r,
            p.g == g,
            p.b == b,
    {
        ColorRGB { r, g, b }
    }

    /// Reads the 3 floats at the cursor into `self`. On a failure neither
    /// `self` nor the cursor has changed.
    pub fn unpack(&mut self, fm: &mut FileManipulator) -> (res: Result<(), Error>)
        requires
            old(fm).wf(),
        ensures
            final(fm).wf(),
            final(fm)@.same_buffer(old(fm)@),
            match res {
                Ok(_) => parse_words(old(fm)@, 3) == Ok::<(Seq<u32>, Cursor), Fault>(
                    (final(self).words(), final(fm)@),
                ),
                Err(e) => parse_words(old(fm)@, 3) == Err::<(Seq<u32>, Cursor), Fault>(e@) && final(fm)@
                    == old(fm)@ && *final(self) == *old(self),
            },
    {
        let words = read_words(fm, 3)?;
        proof {
            lemma_parse_many_len(old(fm)@, 3, word_parser());
        }
        self.r = words[0];
        self.g = words[1];
        self.b = words[2];
        assert(self.words() =~= words@);
        Ok(())
    }

    /// The bytes of the 3 floats in the given byte order.
    pub fn pack(&self, endian_type: EndianType) -> (out: Vec<u8>)
        ensures
            out@ == words_bytes(endian_type, self.words()),
    {
        let words: Vec<u32> = vec![self.r, self.g, self.b];
        assert(words@ =~= self.words());
        words_to_bytes(&words, endian_type)
    }
}

/// A colour with its opacity: each coordinate is the bit pattern of a single-precision float.
#[derive(Debug, Clone, Copy, PartialEq, Eq, Structural)]
pub struct ColorRGBA {
    pub r: u32,
    pub g: u32,
    pub b: u32,
    pub a: u32,
}

impl ColorRGBA {
    /// The colour without its opacity.
    pub fn to_rgb(&self) -> (c: ColorRGB)
        ensures
            c == (ColorRGB { r: self.r, g: self.g, b: self.b }),
    {
        ColorRGB::new(self.r, self.g, self.b)
    }

    /// The colour with the opacity `a`.
    pub fn from_rgb(color: &ColorRGB, a: u32) -> (c: ColorRGBA)
        ensures
            c == (ColorRGBA { r: color.r, g: color.g, b: color.b, a }),
    {
        ColorRGBA::new(color.r, color.g, color.b, a)
    }

    /// The value whose words are `w`.
    pub open spec fn of_words(w: Seq<u32>) -> ColorRGBA {
        ColorRGBA { r: w[0], g: w[1], b: w[2], a: w[3] }
    }

    /// The coordinates in the order of the wire.
    pub open spec fn words(&self) -> Seq<u32> {
        seq![self.r, self.g, self.b, self.a]
    }

    pub fn new(r: u32, g: u32, b: u32, a: u32) -> (p: ColorRGBA)
        ensures
            p.r == r,
            p.g == g,
            p.b == b,
            p.a == a,
    {
        ColorRGBA { r, g, b, a }
    }

    /// Reads the 4 floats at the cursor into `self`. On a failure neither
    /// `self` nor the cursor has changed.
    pub fn unpack(&mut self, fm: &mut FileManipulator) -> (res: Result<(), Error>)
        requires
            old(fm).wf(),
        ensures
            final(fm).wf(),
            final(fm)@.same_buffer(old(fm)@),
            match res {
                Ok(_) => parse_words(old(fm)@, 4) == Ok::<(Seq<u32>, Cursor), Fault>(
                    (final(self).words(), final(fm)@),
                ),
                Err(e) => parse_words(old(fm)@, 4) == Err::<(Seq<u32>, Cursor), Fault>(e@) && final(fm)@
                    == old(fm)@ && *final(self) == *old(self),
            },
    {
        let words = read_words(fm, 4)?;
        proof {
            lemma_parse_many_len(old(fm)@, 4, word_parser());
        }
        self.r = words[0];
        self.g = words[1];
        self.b = words[2];
        self.a = words[3];
        assert(self.words() =~= words@);
        Ok(())
    }

    /// The bytes of the 4 floats in the given byte order.
    pub fn pack(&self, endian_type: EndianType) -> (out: Vec<u8>)
        ensures
            out@ == words_bytes(endian_type, self.words()),
    {
        let words: Vec<u32> = vec![self.r, self.g, self.b, self.a];
        assert(words@ =~= self.words());
        words_to_bytes(&words, endian_type)
    }
}

/// A matrix of three rows of three floats, row by row; each entry is the
/// bit pattern of a single-precision float.
#[derive(Debug, Clone, Copy, PartialEq, Eq, Structural)]
pub struct Matrix3 {
    pub m00: u32,
    pub m01: u32,
    pub m02: u32,
    pub m10: u32,
    pub m11: u32,
    pub m12: u32,
    pub m20: u32,
    pub m21: u32,
    pub m22: u32,
}

impl Matrix3 {
    /// The value whose words are `w`.
    pub open spec fn of_words(w: Seq<u32>) -> Matrix3 {
        Matrix3 { m00: w[0], m01: w[1], m02: w[2], m10: w[3], m11: w[4], m12: w[5], m20: w[6], m21: w[7], m22: w[8] }
    }

    /// The entries in the order of the wire.
    pub open spec fn words(&self) -> Seq<u32> {
        seq![self.m00, self.m01, self.m02, self.m10, self.m11, self.m12, self.m20, self.m21, self.m22]
    }

    pub fn new(m00: u32, m01: u32, m02: u32, m10: u32, m11: u32, m12: u32, m20: u32, m21: u32, m22: u32) -> (p: Matrix3)
        ensures
            p.m00 == m00,
            p.m01 == m01,
            p.m02 == m02,
            p.m10 == m10,
            p.m11 == m11,
            p.m12 == m12,
            p.m20 == m20,
            p.m21 == m21,
            p.m22 == m22,
    {
        Matrix3 { m00, m01, m02, m10, m11, m12, m20, m21, m22 }
    }

    /// The matrix with ones on its diagonal and zeros elsewhere.
    pub fn identity() -> (r: Matrix3)
        ensures
            r.words() == seq![one_bits(), 0u32, 0u32, 0u32, one_bits(), 0u32, 0u32, 0u32, one_bits()],
    {
        Matrix3::new(0x3F80_0000, 0, 0, 0, 0x3F80_0000, 0, 0, 0, 0x3F80_0000)
    }

    /// Reads the nine floats at the cursor into `self`. On a failure
    /// neither `self` nor the cursor has changed.
    pub fn unpack(&mut self, fm: &mut FileManipulator) -> (res: Result<(), Error>)
        requires
            old(fm).wf(),
        ensures
            final(fm).wf(),
            final(fm)@.same_buffer(old(fm)@),
            match res {
                Ok(_) => parse_words(old(fm)@, 9) == Ok::<(Seq<u32>, Cursor), Fault>(
                    (final(self).words(), final(fm)@),
                ),
                Err(e) => parse_words(old(fm)@, 9) == Err::<(Seq<u32>, Cursor), Fault>(e@) && final(fm)@
                    == old(fm)@ && *final(self) == *old(self),
            },
    {
        let words = read_words(fm, 9)?;
        proof {
            lemma_parse_many_len(old(fm)@, 9, word_parser());
        }
        self.m00 = words[0];
        self.m01 = words[1];
        self.m02 = words[2];
        self.m10 = words[3];
        self.m11 = words[4];
        self.m12 = words[5];
        self.m20 = words[6];
        self.m21 = words[7];
        self.m22 = words[8];
        assert(self.words() =~= words@);
        Ok(())
    }

    /// The bytes of the nine floats in the given byte order.
    pub fn pack(&self, endian_type: EndianType) -> (out: Vec<u8>)
        ensures
            out@ == words_bytes(endian_type, self.words()),
    {
        let words: Vec<u32> = vec![self.m00, self.m01, self.m02, self.m10, self.m11, self.m12, self.m20, self.m21, self.m22];
        assert(words@ =~= self.words());
        words_to_bytes(&words, endian_type)
    }
}

/// The bit pattern of the single-precision float 1.0.
pub open spec fn one_bits() -> u32 {
    0x3F80_0000u32
}

/// A reference to an entity by its link id.
#[derive(Debug, Clone, Copy, PartialEq, Eq, Structural)]
pub struct EntityPointer {
    pub id: ID,
}

impl EntityPointer {
    pub fn new(id: ID) -> (p: EntityPointer)
        ensures
            p.id == id,
    {
        EntityPointer { id }
    }

    /// Reads the link id at the cursor into `self`. On a failure neither
    /// `self` nor the cursor has changed.
    pub fn unpack(&mut self, fm: &mut FileManipulator) -> (res: Result<(), Error>)
        requires
            old(fm).wf(),
        ensures
            final(fm).wf(),
            final(fm)@.same_buffer(old(fm)@),
            match res {
                Ok(_) => old(fm)@.r_uint(4) == Ok::<(nat, Cursor), Fault>(
                    (final(self).id.id as nat, final(fm)@),
                ),
                Err(e) => old(fm)@.r_uint(4) == Err::<(nat, Cursor), Fault>(e@) && final(fm)@ == old(fm)@
                    && *final(self) == *old(self),
            },
    {
        let v = fm.r_u32()?;
        self.id = ID::from_u32(v);
        Ok(())
    }

    /// The four bytes of the link id in the given byte order; an id that 32
    /// bits cannot hold is refused.
    pub fn pack(&self, endian_type: EndianType) -> (res: Result<Vec<u8>, Error>)
        ensures
            match res {
                Ok(out) => self.id.id <= u32::MAX && out@ == uint_bytes(endian_type, self.id.id as nat, 4),
                Err(e) => self.id.id > u32::MAX && e@ == Fault::IdOverflow,
            },
    {
        let v = self.id.to_u32()?;
        Ok(encode_uint(v as u128, 4, endian_type))
    }
}

/// The kinds of property values.
#[derive(Debug, Clone, Copy, PartialEq, Eq, Structural)]
pub enum Kind {
    Boolean,
    Integer,
    UnsignedInteger,
    Short,
    UnsignedShort,
    Float,
    Text,
    Point2,
    Point3,
    Matrix3,
    ColorRGB,
    ColorRGBA,
    EntityPointer,
}

/// The kind that a class name stands for.
pub open spec fn kind_of(class_name: Seq<char>) -> Option<Kind> {
    if class_name == "Boolean"@ {
        Some(Kind::Boolean)
    } else if class_name == "Integer"@ {
        Some(Kind::Integer)
    } else if class_name == "Unsigned Integer"@ {
        Some(Kind::UnsignedInteger)
    } else if class_name == "Short"@ {
        Some(Kind::Short)
    } else if class_name == "Unsigned Short"@ {
        Some(Kind::UnsignedShort)
    } else if class_name == "Float"@ {
        Some(Kind::Float)
    } else if class_name == "String"@ {
        Some(Kind::Text)
    } else if class_name == "Point2"@ {
        Some(Kind::Point2)
    } else if class_name == "Point3"@ {
        Some(Kind::Point3)
    } else if class_name == "Matrix3"@ {
        Some(Kind::Matrix3)
    } else if class_name == "Color (RGB)"@ {
        Some(Kind::ColorRGB)
    } else if class_name == "Color (RGBA)"@ {
        Some(Kind::ColorRGBA)
    } else if class_name == "Entity Pointer"@ {
        Some(Kind::EntityPointer)
    } else {
        None
    }
}

/// The kind that a class name stands for.
pub fn kind_of_class(class_name: &str) -> (r: Option<Kind>)
    ensures
        r == kind_of(class_name@),
{
    if str_eq(class_name, "Boolean") {
        Some(Kind::Boolean)
    } else if str_eq(class_name, "Integer") {
        Some(Kind::Integer)
    } else if str_eq(class_name, "Unsigned Integer") {
        Some(Kind::UnsignedInteger)
    } else if str_eq(class_name, "Short") {
        Some(Kind::Short)
    } else if str_eq(class_name, "Unsigned Short") {
        Some(Kind::UnsignedShort)
    } else if str_eq(class_name, "Float") {
        Some(Kind::Float)
    } else if str_eq(class_name, "String") {
        Some(Kind::Text)
    } else if str_eq(class_name, "Point2") {
        Some(Kind::Point2)
    } else if str_eq(class_name, "Point3") {
        Some(Kind::Point3)
    } else if str_eq(class_name, "Matrix3") {
        Some(Kind::Matrix3)
    } else if str_eq(class_name, "Color (RGB)") {
        Some(Kind::ColorRGB)
    } else if str_eq(class_name, "Color (RGBA)") {
        Some(Kind::ColorRGBA)
    } else if str_eq(class_name, "Entity Pointer") {
        Some(Kind::EntityPointer)
    } else {
        None
    }
}

/// A property value. Floats are held as their bit patterns.
#[derive(Debug, Clone, PartialEq, Eq)]
pub enum Value {
    Boolean(bool),
    Integer(i32),
    UnsignedInteger(u32),
    Short(i16),
    UnsignedShort(u16),
    Float(u32),
    Text(String),
    Point2(Point2),
    Point3(Point3),
    Matrix3(Matrix3),
    ColorRGB(ColorRGB),
    ColorRGBA(ColorRGBA),
    EntityPointer(EntityPointer),
}

/// The mathematical value of a [`Value`].
pub enum ValueModel {
    Boolean(bool),
    Integer(i32),
    UnsignedInteger(u32),
    Short(i16),
    UnsignedShort(u16),
    Float(u32),
    Text(Seq<char>),
    Point2(Point2),
    Point3(Point3),
    Matrix3(Matrix3),
    ColorRGB(ColorRGB),
    ColorRGBA(ColorRGBA),
    EntityPointer(EntityPointer),
}

impl DeepView for Value {
    type V = ValueModel;

    open spec fn deep_view(&self) -> ValueModel {
        match self {
            Value::Boolean(v) => ValueModel::Boolean(*v),
            Value::Integer(v) => ValueModel::Integer(*v),
            Value::UnsignedInteger(v) => ValueModel::UnsignedInteger(*v),
            Value::Short(v) => ValueModel::Short(*v),
            Value::UnsignedShort(v) => ValueModel::UnsignedShort(*v),
            Value::Float(v) => ValueModel::Float(*v),
            Value::Text(v) => ValueModel::Text(v@),
            Value::Point2(v) => ValueModel::Point2(*v),
            Value::Point3(v) => ValueModel::Point3(*v),
            Value::Matrix3(v) => ValueModel::Matrix3(*v),
            Value::ColorRGB(v) => ValueModel::ColorRGB(*v),
            Value::ColorRGBA(v) => ValueModel::ColorRGBA(*v),
            Value::EntityPointer(v) => ValueModel::EntityPointer(*v),
        }
    }
}

/// The kind of a value.
pub open spec fn value_kind(v: ValueModel) -> Kind {
    match v {
        ValueModel::Boolean(_) => Kind::Boolean,
        ValueModel::Integer(_) => Kind::Integer,
        ValueModel::UnsignedInteger(_) => Kind::UnsignedInteger,
        ValueModel::Short(_) => Kind::Short,
        ValueModel::UnsignedShort(_) => Kind::UnsignedShort,
        ValueModel::Float(_) => Kind::Float,
        ValueModel::Text(_) => Kind::Text,
        ValueModel::Point2(_) => Kind::Point2,
        ValueModel::Point3(_) => Kind::Point3,
        ValueModel::Matrix3(_) => Kind::Matrix3,
        ValueModel::ColorRGB(_) => Kind::ColorRGB,
        ValueModel::ColorRGBA(_) => Kind::ColorRGBA,
        ValueModel::EntityPointer(_) => Kind::EntityPointer,
    }
}

impl Value {
    /// The kind of the value.
    pub fn kind(&self) -> (k: Kind)
        ensures
            k == value_kind(self.deep_view()),
    {
        match self {
            Value::Boolean(_) => Kind::Boolean,
            Value::Integer(_) => Kind::Integer,
            Value::UnsignedInteger(_) => Kind::UnsignedInteger,
            Value::Short(_) => Kind::Short,
            Value::UnsignedShort(_) => Kind::UnsignedShort,
            Value::Float(_) => Kind::Float,
            Value::Text(_) => Kind::Text,
            Value::Point2(_) => Kind::Point2,
            Value::Point3(_) => Kind::Point3,
            Value::Matrix3(_) => Kind::Matrix3,
            Value::ColorRGB(_) => Kind::ColorRGB,
            Value::ColorRGBA(_) => Kind::ColorRGBA,
            Value::EntityPointer(_) => Kind::EntityPointer,
        }
    }
}

} // verus!
