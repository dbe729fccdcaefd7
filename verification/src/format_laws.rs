use vstd::prelude::*;
use crate::byte_order::{lemma_pow256_widths, lemma_uint_bytes_len, lemma_uint_round_trip, uint_bytes, uint_value};
use crate::dct::{dialog_record, le4, parse_dialog, DialogModel};
use crate::error::Fault;
use crate::file_manipulator::{start_of, Cursor, EndianType};
use crate::scene_file::{
    detect_version,
    family_sentinel,
    flags_code,
    flags_of_tag,
    parse_scene,
    parse_scene_file,
    property_bytes,
    prototype_sentinel,
    tag_of_flags,
    version2_sentinel,
    PropertyModel,
    SceneFileVersion,
};

verus! {

/// The layout of a scene file follows from its sentinels: a first field
/// other than the family sentinel gives the first layout; behind the family
/// sentinel, the field at the second field's value and 4 gives the second
/// layout or its prototype, and any other number there is refused.
pub proof fn sentinels_route_layouts(c: Cursor)
    ensures
        match c.r_uint(4) {
            Err(e) => detect_version(c) == Err::<SceneFileVersion, Fault>(e),
            Ok((first, c1)) => {
                &&& first != family_sentinel() ==> detect_version(c) == Ok::<SceneFileVersion, Fault>(
                    SceneFileVersion::Version1,
                )
                &&& first == family_sentinel() ==> match c1.r_uint(4) {
                    Err(e) => detect_version(c) == Err::<SceneFileVersion, Fault>(e),
                    Ok((offset, c2)) => match c2.goto((offset + 4) as int) {
                        Err(e) => detect_version(c) == Err::<SceneFileVersion, Fault>(e),
                        Ok(c3) => match c3.r_uint(4) {
                            Err(e) => detect_version(c) == Err::<SceneFileVersion, Fault>(e),
                            Ok((num, _)) => {
                                &&& num == version2_sentinel() ==> detect_version(c) == Ok::<
                                    SceneFileVersion,
                                    Fault,
                                >(SceneFileVersion::Version2)
                                &&& num == prototype_sentinel() ==> detect_version(c) == Ok::<
                                    SceneFileVersion,
                                    Fault,
                                >(SceneFileVersion::Version2Prototype)
                                &&& num != version2_sentinel() && num != prototype_sentinel()
                                    ==> detect_version(c) == Err::<SceneFileVersion, Fault>(
                                    Fault::BadVersion { got: num as u32 },
                                )
                            },
                        },
                    },
                }
            },
        },
{
}

/// A scene that was read from a file has the layout that the file's
/// sentinels give.
pub proof fn scene_has_the_detected_layout(data: Seq<u8>, endian: EndianType)
    ensures
        parse_scene_file(data, endian) matches Ok(m) ==> detect_version(start_of(data, endian)) == Ok::<
            SceneFileVersion,
            Fault,
        >(m.version),
{
}

/// The six storage tags and the six sets of flags that have a tag stand
/// for each other; no other number is a tag.
pub proof fn storage_tags_and_flags_agree()
    ensures
        forall|tag: nat|
            tag <= 5 ==> (#[trigger] flags_of_tag(tag) matches Some(f) && tag_of_flags(f.0, f.1, f.2, f.3)
                == Some(tag as u32)),
        forall|tag: nat| tag > 5 ==> (#[trigger] flags_of_tag(tag)) is None,
        forall|list: bool, asset: bool, palette: bool, template: bool|
            (#[trigger] tag_of_flags(list, asset, palette, template)) matches Some(tag) ==> flags_of_tag(
                tag as nat,
            ) == Some((list, asset, palette, template)),
{
}

/// A property whose flags have no storage tag, such as a list that is
/// marked as a palette, is refused on encoding as a bad storage mode.
pub proof fn flags_without_tag_are_refused(p: PropertyModel, endian: EndianType, pool: Map<Seq<char>, nat>)
    requires
        pool.contains_key(p.name),
        pool.contains_key(p.class_name),
        tag_of_flags(p.value is List, p.asset, p.palette, p.template) is None,
    ensures
        property_bytes(p, endian, pool) == Err::<Seq<u8>, Fault>(
            Fault::BadStorageMode { got: flags_code(p.value is List, p.asset, p.palette, p.template) },
        ),
{
}

/// The record of a placeholder reads back as a placeholder: where the
/// twelve bytes at a little-endian cursor are the record of a dialog entry
/// with key 0, whatever its text, the entry read there has key 0 and no
/// text, and the cursor stands behind the record.
pub proof fn placeholder_record_reads_back(c: Cursor, text: Seq<char>, record_pos: int, text_pos: int)
    requires
        c.wf(),
        c.endian == EndianType::LITTLE,
        c.can_read(12),
        c.peek(12) == dialog_record(DialogModel { hashed_key: 0, text }, record_pos, text_pos),
    ensures
        parse_dialog(c) == Ok::<(DialogModel, Cursor), Fault>(
            (DialogModel { hashed_key: 0, text: Seq::<char>::empty() }, c.skip(12)),
        ),
{
    lemma_pow256_widths();
    lemma_uint_round_trip(EndianType::LITTLE, 0, 4);
    lemma_uint_bytes_len(EndianType::LITTLE, 0, 4);
    let record = le4(0) + le4(0) + le4(0);
    assert(c.peek(4) =~= c.peek(12).subrange(0, 4));
    assert(record.subrange(0, 4) =~= le4(0));
    assert(c.skip(4).skip(8) == c.skip(12));
}

} // verus!
