use vstd::prelude::*;
use vstd::utf8::*;
use crate::byte_order::uint_bytes;
use crate::error::{Error, Fault};
use crate::file_manipulator::{jps_bytes, start_of, Cursor, EndianType, FileManipulator, WriteMode};
use crate::framing::{concat_map, lemma_concat_map_push, lemma_parse_many_fails, lemma_write_at_end, parse_many};

verus! {

broadcast use lemma_write_at_end;

/// One collectible of the catalog.
#[derive(Debug, Clone, PartialEq, Eq)]
pub struct Collectible {
    pub type_: String,
    pub dev_name: String,
    pub icon_path: String,
}

/// One extra of the catalog.
#[derive(Debug, Clone, PartialEq, Eq)]
pub struct Extra {
    pub global_state: String,
    pub type_: String,
    pub thumbnail_path: String,
    pub asset_path: String,
}

/// The catalog: a version and two ordered lists.
#[derive(Debug, Clone, PartialEq, Eq)]
pub struct CollectibleDatabase {
    pub version: u32,
    pub collectibles: Vec<Collectible>,
    pub extras: Vec<Extra>,
}

/// The mathematical value of a [`Collectible`].
pub struct CollectibleModel {
    pub type_: Seq<char>,
    pub dev_name: Seq<char>,
    pub icon_path: Seq<char>,
}

/// The mathematical value of an [`Extra`].
pub struct ExtraModel {
    pub global_state: Seq<char>,
    pub type_: Seq<char>,
    pub thumbnail_path: Seq<char>,
    pub asset_path: Seq<char>,
}

/// The mathematical value of a [`CollectibleDatabase`].
pub struct DatabaseModel {
    pub version: u32,
    pub collectibles: Seq<CollectibleModel>,
    pub extras: Seq<ExtraModel>,
}

impl DeepView for Collectible {
    type V = CollectibleModel;

    open spec fn deep_view(&self) -> CollectibleModel {
        CollectibleModel { type_: self.type_@, dev_name: self.dev_name@, icon_path: self.icon_path@ }
    }
}

impl DeepView for Extra {
    type V = ExtraModel;

    open spec fn deep_view(&self) -> ExtraModel {
        ExtraModel {
            global_state: self.global_state@,
            type_: self.type_@,
            thumbnail_path: self.thumbnail_path@,
            asset_path: self.asset_path@,
        }
    }
}

impl DeepView for CollectibleDatabase {
    type V = DatabaseModel;

    open spec fn deep_view(&self) -> DatabaseModel {
        DatabaseModel {
            version: self.version,
            collectibles: self.collectibles.deep_view(),
            extras: self.extras.deep_view(),
        }
    }
}

/// The low 32 bits of a count, as the count fields of the formats hold it.
#[verifier::opaque]
pub open spec fn count32(n: nat) -> nat {
    n % 0x1_0000_0000
}

/// The low 32 bits of a length.
pub fn len32(n: usize) -> (r: u32)
    ensures
        r == count32(n as nat),
{
    proof {
        reveal(count32);
    }
    ((n as u128) % 0x1_0000_0000) as u32
}

/// A count that fits 32 bits is held as it is.
pub proof fn lemma_count32_small(n: nat)
    requires
        n < 0x1_0000_0000,
    ensures
        count32(n) == n,
{
    reveal(count32);
}

/// The bytes of a collectible: three framed strings.
pub open spec fn collectible_bytes(c: CollectibleModel) -> Seq<u8> {
    jps_bytes(encode_utf8(c.type_)) + jps_bytes(encode_utf8(c.dev_name)) + jps_bytes(encode_utf8(c.icon_path))
}

/// The bytes of an extra: four framed strings.
pub open spec fn extra_bytes(x: ExtraModel) -> Seq<u8> {
    jps_bytes(encode_utf8(x.global_state)) + jps_bytes(encode_utf8(x.type_)) + jps_bytes(
        encode_utf8(x.thumbnail_path),
    ) + jps_bytes(encode_utf8(x.asset_path))
}

/// The bytes of a catalog: version, count and records of the collectibles,
/// count and records of the extras.
pub open spec fn database_bytes(db: DatabaseModel, endian: EndianType) -> Seq<u8> {
    uint_bytes(endian, db.version as nat, 4) + uint_bytes(endian, count32(db.collectibles.len()), 4)
        + concat_map(db.collectibles, collectible_encoder()) + uint_bytes(
        endian,
        count32(db.extras.len()),
        4,
    ) + concat_map(db.extras, extra_encoder())
}

/// A collectible read at the cursor.
pub open spec fn parse_collectible(c: Cursor) -> Result<(CollectibleModel, Cursor), Fault> {
    match c.r_str_jps() {
        Err(e) => Err(e),
        Ok((type_, c1)) => match c1.r_str_jps() {
            Err(e) => Err(e),
            Ok((dev_name, c2)) => match c2.r_str_jps() {
                Err(e) => Err(e),
                Ok((icon_path, c3)) => Ok((CollectibleModel { type_, dev_name, icon_path }, c3)),
            },
        },
    }
}

/// An extra read at the cursor.
pub open spec fn parse_extra(c: Cursor) -> Result<(ExtraModel, Cursor), Fault> {
    match c.r_str_jps() {
        Err(e) => Err(e),
        Ok((global_state, c1)) => match c1.r_str_jps() {
            Err(e) => Err(e),
            Ok((type_, c2)) => match c2.r_str_jps() {
                Err(e) => Err(e),
                Ok((thumbnail_path, c3)) => match c3.r_str_jps() {
                    Err(e) => Err(e),
                    Ok((asset_path, c4)) => Ok(
                        (ExtraModel { global_state, type_, thumbnail_path, asset_path }, c4),
                    ),
                },
            },
        },
    }
}

/// [`parse_collectible`] as a function value.
pub open spec fn collectible_parser() -> spec_fn(Cursor) -> Result<(CollectibleModel, Cursor), Fault> {
    |c: Cursor| parse_collectible(c)
}

/// [`parse_extra`] as a function value.
pub open spec fn extra_parser() -> spec_fn(Cursor) -> Result<(ExtraModel, Cursor), Fault> {
    |c: Cursor| parse_extra(c)
}

/// [`collectible_bytes`] as a function value.
pub open spec fn collectible_encoder() -> spec_fn(CollectibleModel) -> Seq<u8> {
    |c: CollectibleModel| collectible_bytes(c)
}

/// [`extra_bytes`] as a function value.
pub open spec fn extra_encoder() -> spec_fn(ExtraModel) -> Seq<u8> {
    |x: ExtraModel| extra_bytes(x)
}

/// A catalog read at the cursor.
pub open spec fn parse_database(c: Cursor) -> Result<(DatabaseModel, Cursor), Fault> {
    match c.r_uint(4) {
        Err(e) => Err(e),
        Ok((version, c1)) => match c1.r_uint(4) {
            Err(e) => Err(e),
            Ok((n, c2)) => match parse_many(c2, n, collectible_parser()) {
                Err(e) => Err(e),
                Ok((collectibles, c3)) => match c3.r_uint(4) {
                    Err(e) => Err(e),
                    Ok((m, c4)) => match parse_many(c4, m, extra_parser()) {
                        Err(e) => Err(e),
                        Ok((extras, c5)) => Ok(
                            (DatabaseModel { version: version as u32, collectibles, extras }, c5),
                        ),
                    },
                },
            },
        },
    }
}

impl Collectible {
    pub fn new(type_: String, dev_name: String, icon_path: String) -> (c: Collectible)
        ensures
            c.type_ == type_,
            c.dev_name == dev_name,
            c.icon_path == icon_path,
    {
        Collectible { type_, dev_name, icon_path }
    }

    /// The record of the collectible. The byte order plays no part: a
    /// framed string holds single bytes only.
    pub fn pack(&self, endian_type: EndianType) -> (out: Vec<u8>)
        ensures
            out@ == collectible_bytes(self.deep_view()),
    {
        let mut fm = FileManipulator::new(Vec::new(), endian_type, WriteMode::OVERWRITE);
        fm.w_str_jps(self.type_.as_str());
        fm.w_str_jps(self.dev_name.as_str());
        fm.w_str_jps(self.icon_path.as_str());
        assert(fm.data@ =~= collectible_bytes(self.deep_view()));
        fm.data
    }

    /// Reads the record at the cursor into `self`. On a failure neither
    /// `self` nor the cursor has changed.
    pub fn unpack(&mut self, fm: &mut FileManipulator) -> (res: Result<(), Error>)
        requires
            old(fm).wf(),
        ensures
            final(fm).wf(),
            final(fm)@.same_buffer(old(fm)@),
            match res {
                Ok(_) => parse_collectible(old(fm)@) == Ok::<(CollectibleModel, Cursor), Fault>(
                    (final(self).deep_view(), final(fm)@),
                ),
                Err(e) => parse_collectible(old(fm)@) == Err::<(CollectibleModel, Cursor), Fault>(e@)
                    && final(fm)@ == old(fm)@ && *final(self) == *old(self),
            },
    {
        let start: usize = fm.pos;
        let type_ = fm.r_str_jps()?;
        let dev_name = match fm.r_str_jps() {
            Ok(s) => s,
            Err(e) => {
                fm.pos = start;
                return Err(e);
            },
        };
        let icon_path = match fm.r_str_jps() {
            Ok(s) => s,
            Err(e) => {
                fm.pos = start;
                return Err(e);
            },
        };
        self.type_ = type_;
        self.dev_name = dev_name;
        self.icon_path = icon_path;
        Ok(())
    }
}

impl Extra {
    pub fn new(global_state: String, type_: String, thumbnail_path: String, asset_path: String) -> (x: Extra)
        ensures
            x.global_state == global_state,
            x.type_ == type_,
            x.thumbnail_path == thumbnail_path,
            x.asset_path == asset_path,
    {
        Extra { global_state, type_, thumbnail_path, asset_path }
    }

    /// The record of the extra. The byte order plays no part: a framed
    /// string holds single bytes only.
    pub fn pack(&self, endian_type: EndianType) -> (out: Vec<u8>)
        ensures
            out@ == extra_bytes(self.deep_view()),
    {
        let mut fm = FileManipulator::new(Vec::new(), endian_type, WriteMode::OVERWRITE);
        fm.w_str_jps(self.global_state.as_str());
        fm.w_str_jps(self.type_.as_str());
        fm.w_str_jps(self.thumbnail_path.as_str());
        fm.w_str_jps(self.asset_path.as_str());
        assert(fm.data@ =~= extra_bytes(self.deep_view()));
        fm.data
    }

    /// Reads the record at the cursor into `self`. On a failure neither
    /// `self` nor the cursor has changed.
    pub fn unpack(&mut self, fm: &mut FileManipulator) -> (res: Result<(), Error>)
        requires
            old(fm).wf(),
        ensures
            final(fm).wf(),
            final(fm)@.same_buffer(old(fm)@),
            match res {
                Ok(_) => parse_extra(old(fm)@) == Ok::<(ExtraModel, Cursor), Fault>(
                    (final(self).deep_view(), final(fm)@),
                ),
                Err(e) => parse_extra(old(fm)@) == Err::<(ExtraModel, Cursor), Fault>(e@) && final(fm)@
                    == old(fm)@ && *final(self) == *old(self),
            },
    {
        let start: usize = fm.pos;
        let global_state = fm.r_str_jps()?;
        let type_ = match fm.r_str_jps() {
            Ok(s) => s,
            Err(e) => {
                fm.pos = start;
                return Err(e);
            },
        };
        let thumbnail_path = match fm.r_str_jps() {
            Ok(s) => s,
            Err(e) => {
                fm.pos = start;
                return Err(e);
            },
        };
        let asset_path = match fm.r_str_jps() {
            Ok(s) => s,
            Err(e) => {
                fm.pos = start;
                return Err(e);
            },
        };
        self.global_state = global_state;
        self.type_ = type_;
        self.thumbnail_path = thumbnail_path;
        self.asset_path = asset_path;
        Ok(())
    }
}

impl CollectibleDatabase {
    /// An empty catalog of the given version.
    pub fn new(version: u32) -> (db: CollectibleDatabase)
        ensures
            db.version == version,
            db.collectibles@.len() == 0,
            db.extras@.len() == 0,
    {
        CollectibleDatabase { version, collectibles: Vec::new(), extras: Vec::new() }
    }

    pub fn get_version(&self) -> (v: u32)
        ensures
            v == self.version,
    {
        self.version
    }

    pub fn set_version(&mut self, version: u32)
        ensures
            final(self).version == version,
            final(self).collectibles == old(self).collectibles,
            final(self).extras == old(self).extras,
    {
        self.version = version;
    }

    pub fn get_collectibles(&self) -> (r: &Vec<Collectible>)
        ensures
            *r == self.collectibles,
    {
        &self.collectibles
    }

    pub fn get_extras(&self) -> (r: &Vec<Extra>)
        ensures
            *r == self.extras,
    {
        &self.extras
    }

    /// Adds a collectible behind the others.
    pub fn add_collectible(&mut self, collectible: Collectible)
        ensures
            final(self).collectibles@ == old(self).collectibles@.push(collectible),
            final(self).version == old(self).version,
            final(self).extras == old(self).extras,
    {
        self.collectibles.push(collectible);
    }

    /// Adds an extra behind the others.
    pub fn add_extra(&mut self, extra: Extra)
        ensures
            final(self).extras@ == old(self).extras@.push(extra),
            final(self).version == old(self).version,
            final(self).collectibles == old(self).collectibles,
    {
        self.extras.push(extra);
    }

    /// The bytes of the catalog in the given byte order.
    pub fn pack(&self, endian_type: EndianType) -> (out: Vec<u8>)
        ensures
            out@ == database_bytes(self.deep_view(), endian_type),
    {
        let mut fm = FileManipulator::new(Vec::new(), endian_type, WriteMode::OVERWRITE);
        fm.w_u32(self.version);
        fm.w_u32(len32(self.collectibles.len()));
        let ghost base = fm.data@;
        let ghost all = self.collectibles.deep_view();
        let mut i: usize = 0;
        while i < self.collectibles.len()
            invariant
                i <= self.collectibles@.len(),
                all == self.collectibles.deep_view(),
                fm.wf(),
                fm.pos == fm.data@.len(),
                fm.write_mode == WriteMode::OVERWRITE,
                fm.endian == endian_type,
                fm.data@ == base + concat_map(all.subrange(0, i as int), collectible_encoder()),
            decreases self.collectibles@.len() - i,
        {
            let record = self.collectibles[i].pack(endian_type);
            fm.write(record.as_slice());
            proof {
                lemma_concat_map_push(all.subrange(0, i as int), all[i as int], collectible_encoder());
                assert(all.subrange(0, i + 1) =~= all.subrange(0, i as int).push(all[i as int]));
            }
            i += 1;
        }
        assert(all.subrange(0, i as int) =~= all);
        fm.w_u32(len32(self.extras.len()));
        let ghost base2 = fm.data@;
        let ghost all2 = self.extras.deep_view();
        let mut j: usize = 0;
        while j < self.extras.len()
            invariant
                j <= self.extras@.len(),
                all2 == self.extras.deep_view(),
                fm.wf(),
                fm.pos == fm.data@.len(),
                fm.write_mode == WriteMode::OVERWRITE,
                fm.endian == endian_type,
                fm.data@ == base2 + concat_map(all2.subrange(0, j as int), extra_encoder()),
            decreases self.extras@.len() - j,
        {
            let record = self.extras[j].pack(endian_type);
            fm.write(record.as_slice());
            proof {
                lemma_concat_map_push(all2.subrange(0, j as int), all2[j as int], extra_encoder());
                assert(all2.subrange(0, j + 1) =~= all2.subrange(0, j as int).push(all2[j as int]));
            }
            j += 1;
        }
        assert(all2.subrange(0, j as int) =~= all2);
        fm.data
    }

    /// Reads `n` collectibles one behind the other. On a failure the cursor
    /// has not changed.
    fn unpack_collectibles(fm: &mut FileManipulator, n: u32) -> (res: Result<Vec<Collectible>, Error>)
        requires
            old(fm).wf(),
        ensures
            final(fm).wf(),
            final(fm)@.same_buffer(old(fm)@),
            match res {
                Ok(v) => parse_many(old(fm)@, n as nat, collectible_parser()) == Ok::<
                    (Seq<CollectibleModel>, Cursor),
                    Fault,
                >((v.deep_view(), final(fm)@)),
                Err(e) => parse_many(old(fm)@, n as nat, collectible_parser()) == Err::<
                    (Seq<CollectibleModel>, Cursor),
                    Fault,
                >(e@) && final(fm)@ == old(fm)@,
            },
    {
        let start: usize = fm.pos;
        let mut items: Vec<Collectible> = Vec::new();
        assert(items.deep_view() =~= Seq::<CollectibleModel>::empty());
        let mut i: u32 = 0;
        while i < n
            invariant
                i <= n,
                fm.wf(),
                fm.data@ == old(fm).data@,
                fm.endian == old(fm).endian,
                fm.write_mode == old(fm).write_mode,
                start == old(fm).pos,
                old(fm).wf(),
                parse_many(old(fm)@, i as nat, collectible_parser()) == Ok::<
                    (Seq<CollectibleModel>, Cursor),
                    Fault,
                >((items.deep_view(), fm@)),
            decreases n - i,
        {
            let mut item = Collectible::new(String::new(), String::new(), String::new());
            match item.unpack(fm) {
                Ok(_) => {},
                Err(e) => {
                    proof {
                        lemma_parse_many_fails(old(fm)@, (i + 1) as nat, n as nat, collectible_parser());
                    }
                    fm.pos = start;
                    return Err(e);
                },
            }
            let ghost before = items.deep_view();
            items.push(item);
            assert(items.deep_view() =~= before.push(item.deep_view()));
            i += 1;
        }
        Ok(items)
    }

    /// Reads `n` extras one behind the other. On a failure the cursor has
    /// not changed.
    fn unpack_extras(fm: &mut FileManipulator, n: u32) -> (res: Result<Vec<Extra>, Error>)
        requires
            old(fm).wf(),
        ensures
            final(fm).wf(),
            final(fm)@.same_buffer(old(fm)@),
            match res {
                Ok(v) => parse_many(old(fm)@, n as nat, extra_parser()) == Ok::<(Seq<ExtraModel>, Cursor), Fault>(
                    (v.deep_view(), final(fm)@),
                ),
                Err(e) => parse_many(old(fm)@, n as nat, extra_parser()) == Err::<
                    (Seq<ExtraModel>, Cursor),
                    Fault,
                >(e@) && final(fm)@ == old(fm)@,
            },
    {
        let start: usize = fm.pos;
        let mut items: Vec<Extra> = Vec::new();
        assert(items.deep_view() =~= Seq::<ExtraModel>::empty());
        let mut i: u32 = 0;
        while i < n
            invariant
                i <= n,
                fm.wf(),
                fm.data@ == old(fm).data@,
                fm.endian == old(fm).endian,
                fm.write_mode == old(fm).write_mode,
                start == old(fm).pos,
                old(fm).wf(),
                parse_many(old(fm)@, i as nat, extra_parser()) == Ok::<(Seq<ExtraModel>, Cursor), Fault>(
                    (items.deep_view(), fm@),
                ),
            decreases n - i,
        {
            let mut item = Extra::new(String::new(), String::new(), String::new(), String::new());
            match item.unpack(fm) {
                Ok(_) => {},
                Err(e) => {
                    proof {
                        lemma_parse_many_fails(old(fm)@, (i + 1) as nat, n as nat, extra_parser());
                    }
                    fm.pos = start;
                    return Err(e);
                },
            }
            let ghost before = items.deep_view();
            items.push(item);
            assert(items.deep_view() =~= before.push(item.deep_view()));
            i += 1;
        }
        Ok(items)
    }

    /// Reads a catalog at the cursor: the version replaces that of `self`,
    /// the records are added behind those that `self` holds. On a failure
    /// neither `self` nor the cursor has changed.
    pub fn unpack(&mut self, fm: &mut FileManipulator) -> (res: Result<(), Error>)
        requires
            old(fm).wf(),
        ensures
            final(fm).wf(),
            final(fm)@.same_buffer(old(fm)@),
            match res {
                Ok(_) => parse_database(old(fm)@) matches Ok((m, c)) && c == final(fm)@
                    && final(self).deep_view() == (DatabaseModel {
                    version: m.version,
                    collectibles: old(self).collectibles.deep_view() + m.collectibles,
                    extras: old(self).extras.deep_view() + m.extras,
                }),
                Err(e) => parse_database(old(fm)@) == Err::<(DatabaseModel, Cursor), Fault>(e@) && final(fm)@
                    == old(fm)@ && *final(self) == *old(self),
            },
    {
        let start: usize = fm.pos;
        let version = fm.r_u32()?;
        let n = match fm.r_u32() {
            Ok(n) => n,
            Err(e) => {
                fm.pos = start;
                return Err(e);
            },
        };
        let mut collectibles = match CollectibleDatabase::unpack_collectibles(fm, n) {
            Ok(v) => v,
            Err(e) => {
                fm.pos = start;
                return Err(e);
            },
        };
        let m = match fm.r_u32() {
            Ok(m) => m,
            Err(e) => {
                fm.pos = start;
                return Err(e);
            },
        };
        let mut extras = match CollectibleDatabase::unpack_extras(fm, m) {
            Ok(v) => v,
            Err(e) => {
                fm.pos = start;
                return Err(e);
            },
        };
        let ghost old_c = self.collectibles.deep_view();
        let ghost old_x = self.extras.deep_view();
        let ghost new_c = collectibles.deep_view();
        let ghost new_x = extras.deep_view();
        self.version = version;
        self.collectibles.append(&mut collectibles);
        self.extras.append(&mut extras);
        assert(self.collectibles.deep_view() =~= old_c + new_c);
        assert(self.extras.deep_view() =~= old_x + new_x);
        Ok(())
    }

    /// The bytes of the catalog in the given byte order.
    pub fn to_binary(&self, endian_type: EndianType) -> (out: Vec<u8>)
        ensures
            out@ == database_bytes(self.deep_view(), endian_type),
    {
        self.pack(endian_type)
    }

    /// The catalog that `data` holds in the given byte order, read from its
    /// first byte. Bytes behind the catalog are left unread.
    pub fn from_binary(data: Vec<u8>, endian_type: EndianType) -> (res: Result<CollectibleDatabase, Error>)
        ensures
            match res {
                Ok(db) => parse_database(start_of(data@, endian_type)) matches Ok((m, _)) && db.deep_view() == m,
                Err(e) => parse_database(start_of(data@, endian_type)) matches Err(f) && f == e@,
            },
    {
        let mut fm = FileManipulator::new(data, endian_type, WriteMode::OVERWRITE);
        let mut db = CollectibleDatabase::new(0);
        let ghost empty_c = db.collectibles.deep_view();
        let ghost empty_x = db.extras.deep_view();
        match db.unpack(&mut fm) {
            Ok(_) => {
                proof {
                    let m = parse_database(start_of(data@, endian_type))->Ok_0.0;
                    assert(empty_c + m.collectibles =~= m.collectibles);
                    assert(empty_x + m.extras =~= m.extras);
                }
                Ok(db)
            },
            Err(e) => Err(e),
        }
    }
}

} // verus!
