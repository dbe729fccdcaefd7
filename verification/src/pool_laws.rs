use vstd::prelude::*;
use vstd::utf8::*;
use crate::catalog_laws::holds_at;
use crate::collectible_database::lemma_count32_small;
use crate::error::Fault;
use crate::packfile_laws::{lemma_holds_appended, lemma_holds_extend};
use crate::file_manipulator::{jps_bytes, EndianType};
use crate::framing::{concat_map, try_concat_map};
use crate::scene_file::{
    chain,
    component_bytes,
    component_encoder,
    component_strings,
    component_strings_fn,
    entity_bytes,
    entity_encoder,
    entity_strings,
    entity_strings_fn,
    id32_encoder,
    property_bytes,
    property_encoder,
    property_strings,
    property_strings_fn,
    property_values,
    scene_bytes,
    scene_strings,
    string_pool,
    template_text,
    typed_value_bytes,
    typed_value_encoder,
    value_texts,
    value_texts_fn,
    ComponentModel,
    StringPoolModel,
    EntityModel,
    PropertyModel,
    SceneFileVersion,
    SceneModel,
};
use crate::scene_value::{kind_of, Kind, ValueModel};

verus! {

/// The failure is that of a string that the pool lacks, and the string is
/// among `strings`.
pub open spec fn misses_one_of(r: Result<Seq<u8>, Fault>, strings: Seq<Seq<char>>, pool: Map<Seq<char>, nat>) -> bool {
    r matches Err(Fault::NotFound { path }) && strings.contains(path) && !pool.contains_key(path)
}

/// The failure is that of a string that the pool lacks.
pub open spec fn is_not_found(r: Result<Seq<u8>, Fault>) -> bool {
    r matches Err(Fault::NotFound { path })
}

/// The pool of a list of strings holds each of them.
pub proof fn lemma_pool_holds(strings: Seq<Seq<char>>, i: int)
    requires
        0 <= i < strings.len(),
    ensures
        string_pool(strings).offsets.contains_key(strings[i]),
    decreases strings.len(),
{
    if i < strings.len() - 1 {
        assert(strings.drop_last()[i] == strings[i]);
        lemma_pool_holds(strings.drop_last(), i);
    }
}

/// What `f` makes of one item is part of what it makes of the list.
pub proof fn lemma_concat_map_has<T>(items: Seq<T>, f: spec_fn(T) -> Seq<Seq<char>>, i: int, x: Seq<char>)
    requires
        0 <= i < items.len(),
        f(items[i]).contains(x),
    ensures
        concat_map(items, f).contains(x),
    decreases items.len(),
{
    let head = concat_map(items.drop_last(), f);
    let tail = f(items.last());
    if i < items.len() - 1 {
        assert(items.drop_last()[i] == items[i]);
        lemma_concat_map_has(items.drop_last(), f, i, x);
        let k = choose|k: int| 0 <= k < head.len() && head[k] == x;
        assert((head + tail)[k] == x);
    } else {
        let k = choose|k: int| 0 <= k < tail.len() && tail[k] == x;
        assert((head + tail)[head.len() + k] == x);
    }
}

/// A failure on a list is the failure on one of its items.
pub proof fn lemma_failure_has_origin<T>(items: Seq<T>, f: spec_fn(T) -> Result<Seq<u8>, Fault>) -> (i: int)
    requires
        try_concat_map(items, f) is Err,
    ensures
        0 <= i < items.len(),
        f(items[i]) == try_concat_map(items, f),
    decreases items.len(),
{
    if try_concat_map(items.drop_last(), f) is Err {
        let i = lemma_failure_has_origin(items.drop_last(), f);
        assert(items.drop_last()[i] == items[i]);
        i
    } else {
        items.len() - 1
    }
}

/// Where the bytes of a property fail for a string that the pool lacks,
/// the string is one of those that the property brings to the pool.
pub proof fn lemma_property_misses(p: PropertyModel, endian: EndianType, pool: Map<Seq<char>, nat>)
    requires
        is_not_found(property_bytes(p, endian, pool)),
    ensures
        misses_one_of(property_bytes(p, endian, pool), property_strings(p), pool),
{
    let strings = property_strings(p);
    assert(strings[0] == p.class_name);
    assert(strings[1] == p.name);
    if pool.contains_key(p.name) && pool.contains_key(p.class_name) {
        let tag = tag_of(p);
        let enc = typed_value_encoder(p.class_name, tag, endian, pool);
        let values = property_values(p.value);
        let i = lemma_failure_has_origin(values, enc);
        let v = values[i];
        assert(typed_value_bytes(v, p.class_name, tag, endian, pool) == property_bytes(p, endian, pool));
        assert(kind_of(p.class_name) == Some(Kind::Text));
        let s = v->Text_0;
        assert(value_texts(v) =~= seq![s]);
        assert(value_texts(v)[0] == s);
        lemma_concat_map_has(values, value_texts_fn(), i, s);
        let texts = concat_map(values, value_texts_fn());
        let k = choose|k: int| 0 <= k < texts.len() && texts[k] == s;
        assert(strings[2 + k] == s);
    }
}

/// The storage tag of a property whose flags have one.
pub open spec fn tag_of(p: PropertyModel) -> u32 {
    crate::scene_file::tag_of_flags(p.value is List, p.asset, p.palette, p.template)->Some_0
}

/// Where the bytes of a component fail for a string that the pool lacks,
/// the string is one of those that the component brings to the pool.
pub proof fn lemma_component_misses(c: ComponentModel, endian: EndianType, pool: Map<Seq<char>, nat>)
    requires
        is_not_found(component_bytes(c, endian, pool)),
    ensures
        misses_one_of(component_bytes(c, endian, pool), component_strings(c), pool),
{
    let strings = component_strings(c);
    assert(strings[0] == c.class_name);
    assert(strings[1] == template_text(c.template_id));
    if pool.contains_key(c.class_name) && pool.contains_key(template_text(c.template_id)) {
        let enc = property_encoder(endian, pool);
        let i = lemma_failure_has_origin(c.properties, enc);
        let p = c.properties[i];
        lemma_property_misses(p, endian, pool);
        let path = property_bytes(p, endian, pool)->Err_0->NotFound_path;
        lemma_concat_map_has(c.properties, property_strings_fn(), i, path);
        let all = concat_map(c.properties, property_strings_fn());
        let k = choose|k: int| 0 <= k < all.len() && all[k] == path;
        assert(strings[2 + k] == path);
    }
}

/// Where the bytes of an entity fail for a string that the pool lacks, the
/// string is one of those that the entity brings to the pool.
pub proof fn lemma_entity_misses(
    e: EntityModel,
    endian: EndianType,
    pool: Map<Seq<char>, nat>,
    version: SceneFileVersion,
)
    requires
        is_not_found(entity_bytes(e, endian, pool, version)),
    ensures
        misses_one_of(entity_bytes(e, endian, pool, version), entity_strings(e), pool),
{
    let strings = entity_strings(e);
    assert(strings[0] == e.name);
    if pool.contains_key(e.name) {
        let enc = component_encoder(endian, pool);
        let i = lemma_failure_has_origin(e.components, enc);
        let c = e.components[i];
        lemma_component_misses(c, endian, pool);
        let path = component_bytes(c, endian, pool)->Err_0->NotFound_path;
        lemma_concat_map_has(e.components, component_strings_fn(), i, path);
        let all = concat_map(e.components, component_strings_fn());
        let k = choose|k: int| 0 <= k < all.len() && all[k] == path;
        assert(strings[1 + k] == path);
    }
}

/// The pool of a scene holds every string that its records refer to:
/// encoding a scene never fails for a string that the pool lacks.
pub proof fn scene_pool_is_complete(m: SceneModel, endian: EndianType)
    ensures
        !is_not_found(scene_bytes(m, endian)),
{
    let strings = scene_strings(m);
    let pool = string_pool(strings).offsets;
    if is_not_found(scene_bytes(m, endian)) {
        let enc = entity_encoder(endian, pool, m.version);
        if try_concat_map(m.objects, enc) is Err {
            let i = lemma_failure_has_origin(m.objects, enc);
            let e = m.objects[i];
            lemma_entity_misses(e, endian, pool, m.version);
            let path = entity_bytes(e, endian, pool, m.version)->Err_0->NotFound_path;
            lemma_concat_map_has(m.objects, entity_strings_fn(), i, path);
            let k = choose|k: int| 0 <= k < strings.len() && strings[k] == path;
            lemma_pool_holds(strings, k);
        } else {
            let i = lemma_failure_has_origin(m.scene, id32_encoder(endian));
        }
    }
}

/// The frame of every string of the pool stands in the pool's bytes where
/// the pool says: four bytes before the offset that the files hold, which
/// counts from the start of the file.
pub open spec fn frames_stand(p: StringPoolModel) -> bool {
    forall|s: Seq<char>| #[trigger]
        p.offsets.contains_key(s) ==> holds_at(p.bytes, p.offsets[s] - 4, jps_bytes(encode_utf8(s)))
}

/// The pool of a list of strings holds the frame of each of them once, at
/// the offset under which the records refer to it.
pub proof fn pool_holds_each_frame(strings: Seq<Seq<char>>)
    requires
        string_pool(strings).bytes.len() + 4 < 0x1_0000_0000,
    ensures
        frames_stand(string_pool(strings)),
        forall|i: int| 0 <= i < strings.len() ==> string_pool(strings).offsets.contains_key(#[trigger] strings[i]),
    decreases strings.len(),
{
    if strings.len() > 0 {
        let head = strings.drop_last();
        let last = strings.last();
        let p0 = string_pool(head);
        let p1 = string_pool(strings);
        assert(p0.bytes.len() <= p1.bytes.len());
        pool_holds_each_frame(head);
        if !p0.offsets.contains_key(last) {
            let more = jps_bytes(encode_utf8(last));
            lemma_count32_small(p0.bytes.len() + 4);
            lemma_holds_appended(p0.bytes, more);
            assert forall|s: Seq<char>| #[trigger] p1.offsets.contains_key(s) implies holds_at(
                p1.bytes,
                p1.offsets[s] - 4,
                jps_bytes(encode_utf8(s)),
            ) by {
                if s != last {
                    assert(p0.offsets.contains_key(s));
                    lemma_holds_extend(p0.bytes, p0.offsets[s] - 4, jps_bytes(encode_utf8(s)), more);
                }
            }
        }
        assert forall|i: int| 0 <= i < strings.len() implies p1.offsets.contains_key(#[trigger] strings[i]) by {
            lemma_pool_holds(strings, i);
        }
    }
}

} // verus!
