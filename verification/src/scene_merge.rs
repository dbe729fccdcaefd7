use vstd::prelude::*;
use crate::framing::{lemma_upsert_found, lemma_upsert_missing, upsert, upsert_all};
use crate::scene_file::{
    Component,
    ComponentModel,
    Entity,
    EntityModel,
    Property,
    PropertyModel,
    PropertyValue,
    PropertyValueModel,
    SceneFile,
    SceneFileVersion,
    SceneModel,
};
use crate::scene_id::ID;
use crate::scene_value::{Value, ValueModel};
use crate::text::{lowercase, str_eq, to_lowercase};

verus! {

/// What is merged onto a scene: entities, scene references and extra
/// strings to merge in, and a unique id and a layout to take over where
/// they are given.
#[derive(Debug, Clone, PartialEq, Eq)]
pub struct ScenePatch {
    pub objects: Vec<Entity>,
    pub scene: Vec<ID>,
    pub em2_extra_strings: Vec<String>,
    pub unique_id: Option<ID>,
    pub version: Option<SceneFileVersion>,
}

/// The value of a property after a patch: the values of a list patch come
/// behind those of a list; any other patch replaces the value.
pub open spec fn merged_value(cur: PropertyValueModel, patch: PropertyValueModel) -> PropertyValueModel {
    match patch {
        PropertyValueModel::List(p) => match cur {
            PropertyValueModel::List(c) => PropertyValueModel::List(c + p),
            PropertyValueModel::Single(_) => PropertyValueModel::List(p),
        },
        PropertyValueModel::Single(v) => PropertyValueModel::Single(v),
    }
}

/// A property after a patch: its value is merged, the rest stays.
pub open spec fn merged_property(cur: PropertyModel, patch: PropertyModel) -> PropertyModel {
    PropertyModel { value: merged_value(cur.value, patch.value), ..cur }
}

/// Two properties are the same where their names are.
pub open spec fn same_property() -> spec_fn(PropertyModel, PropertyModel) -> bool {
    |a: PropertyModel, b: PropertyModel| a.name == b.name
}

/// [`merged_property`] as a function value.
pub open spec fn property_merge() -> spec_fn(PropertyModel, PropertyModel) -> PropertyModel {
    |a: PropertyModel, b: PropertyModel| merged_property(a, b)
}

/// A component after a patch: the properties of the patch are merged into
/// its own by name, the rest stays.
pub open spec fn merged_component(cur: ComponentModel, patch: ComponentModel) -> ComponentModel {
    ComponentModel {
        properties: upsert_all(cur.properties, patch.properties, same_property(), property_merge()),
        ..cur
    }
}

/// Two components are the same where their class names are.
pub open spec fn same_component() -> spec_fn(ComponentModel, ComponentModel) -> bool {
    |a: ComponentModel, b: ComponentModel| a.class_name == b.class_name
}

/// [`merged_component`] as a function value.
pub open spec fn component_merge() -> spec_fn(ComponentModel, ComponentModel) -> ComponentModel {
    |a: ComponentModel, b: ComponentModel| merged_component(a, b)
}

/// An entity after a patch: the components of the patch are merged into
/// its own by class name, the rest stays.
pub open spec fn merged_entity(cur: EntityModel, patch: EntityModel) -> EntityModel {
    EntityModel {
        components: upsert_all(cur.components, patch.components, same_component(), component_merge()),
        ..cur
    }
}

/// Two entities are the same where their names are, without regard to
/// case.
pub open spec fn same_entity() -> spec_fn(EntityModel, EntityModel) -> bool {
    |a: EntityModel, b: EntityModel| lowercase(a.name) == lowercase(b.name)
}

/// [`merged_entity`] as a function value.
pub open spec fn entity_merge() -> spec_fn(EntityModel, EntityModel) -> EntityModel {
    |a: EntityModel, b: EntityModel| merged_entity(a, b)
}

/// The items and, behind them, `x` unless it is among them.
pub open spec fn with_member<T>(items: Seq<T>, x: T) -> Seq<T> {
    if items.contains(x) {
        items
    } else {
        items.push(x)
    }
}

/// The items and, behind them, those of `more` that were not there yet,
/// each once.
pub open spec fn union_in_order<T>(items: Seq<T>, more: Seq<T>) -> Seq<T>
    decreases more.len(),
{
    if more.len() == 0 {
        items
    } else {
        with_member(union_in_order(items, more.drop_last()), more.last())
    }
}

/// The mathematical value of a [`ScenePatch`].
pub struct ScenePatchModel {
    pub objects: Seq<EntityModel>,
    pub scene: Seq<ID>,
    pub em2_extra_strings: Seq<Seq<char>>,
    pub unique_id: Option<ID>,
    pub version: Option<SceneFileVersion>,
}

impl DeepView for ScenePatch {
    type V = ScenePatchModel;

    open spec fn deep_view(&self) -> ScenePatchModel {
        ScenePatchModel {
            objects: self.objects.deep_view(),
            scene: self.scene.deep_view(),
            em2_extra_strings: self.em2_extra_strings.deep_view(),
            unique_id: self.unique_id,
            version: self.version,
        }
    }
}

/// A scene after a patch: the entities of the patch are merged in by name,
/// its scene references and extra strings are added where they are new,
/// and its unique id and layout replace the scene's where they are given.
pub open spec fn merged_scene(cur: SceneModel, patch: ScenePatchModel) -> SceneModel {
    SceneModel {
        objects: upsert_all(cur.objects, patch.objects, same_entity(), entity_merge()),
        scene: union_in_order(cur.scene, patch.scene),
        em2_extra_strings: union_in_order(cur.em2_extra_strings, patch.em2_extra_strings),
        unique_id: match patch.unique_id {
            Some(id) => id,
            None => cur.unique_id,
        },
        version: match patch.version {
            Some(v) => v,
            None => cur.version,
        },
    }
}

impl Property {
    /// Merges a patch into the property: the values of a list patch come
    /// behind those of a list; any other patch replaces the value.
    pub fn merge_in_dict(&mut self, patch: Property)
        ensures
            final(self).deep_view() == merged_property(old(self).deep_view(), patch.deep_view()),
    {
        let mut incoming = patch.value;
        match &mut incoming {
            PropertyValue::List(p) => {
                let ghost pv = p.deep_view();
                match &mut self.value {
                    PropertyValue::List(c) => {
                        let ghost cv = c.deep_view();
                        c.append(p);
                        assert(c.deep_view() =~= cv + pv);
                    },
                    PropertyValue::Single(_) => {
                        self.value = incoming;
                    },
                }
            },
            PropertyValue::Single(_) => {
                self.value = incoming;
            },
        }
    }
}

impl Component {
    /// Merges a patch into the component: each property of the patch is
    /// merged into the first property of the same name, or comes last.
    pub fn merge_in_dict(&mut self, patch: Component)
        ensures
            final(self).deep_view() == merged_component(old(self).deep_view(), patch.deep_view()),
    {
        let ghost start = self.properties.deep_view();
        let ghost all = patch.properties.deep_view();
        let mut rest = patch.properties;
        let ghost mut done: int = 0;
        assert(all.subrange(0, 0) =~= Seq::<PropertyModel>::empty());
        assert(all.subrange(0, all.len() as int) =~= all);
        while rest.len() > 0
            invariant
                0 <= done <= all.len(),
                rest.deep_view() == all.subrange(done, all.len() as int),
                self.properties.deep_view() == upsert_all(start, all.subrange(0, done), same_property(), property_merge()),
                self.class_name == old(self).class_name,
                self.name == old(self).name,
                self.template_id == old(self).template_id,
                self.link_id == old(self).link_id,
                self.master_link_id == old(self).master_link_id,
            decreases rest@.len(),
        {
            let ghost rest_before = rest.deep_view();
            let patch = rest.remove(0);
            proof {
                assert(rest_before.len() == all.len() - done);
                assert(patch.deep_view() == rest_before[0]);
                assert(rest_before[0] == all[done]);
                assert forall|j: int| 0 <= j < rest.deep_view().len() implies rest.deep_view()[j] == all[done + 1 + j] by {
                    assert(rest.deep_view()[j] == rest_before[j + 1]);
                }
                assert(rest.deep_view() =~= all.subrange(done + 1, all.len() as int));
                assert(all.subrange(0, done + 1).drop_last() =~= all.subrange(0, done));
                assert(all.subrange(0, done + 1).last() == all[done]);
            }
            let ghost cur = self.properties.deep_view();
            let mut i: usize = 0;
            let mut found: bool = false;
            while i < self.properties.len()
                invariant_except_break
                    !found,
                invariant
                    i <= self.properties@.len(),
                    cur == self.properties.deep_view(),
                    self.class_name == old(self).class_name,
                    self.name == old(self).name,
                    self.template_id == old(self).template_id,
                    self.link_id == old(self).link_id,
                    self.master_link_id == old(self).master_link_id,
                    forall|j: int| 0 <= j < i ==> !same_property()(#[trigger] cur[j], patch.deep_view()),
                ensures
                    i <= self.properties@.len(),
                    found ==> i < self.properties@.len() && same_property()(cur[i as int], patch.deep_view()),
                    !found ==> i == self.properties@.len(),
                decreases self.properties@.len() - i,
            {
                if str_eq(self.properties[i].name.as_str(), patch.name.as_str()) {
                    found = true;
                    break ;
                }
                i += 1;
            }
            if found {
                proof {
                    lemma_upsert_found(cur, patch.deep_view(), same_property(), property_merge(), i as int);
                }
                let mut item = self.properties.remove(i);
                item.merge_in_dict(patch);
                self.properties.insert(i, item);
                assert(self.properties.deep_view() =~= cur.update(i as int, property_merge()(cur[i as int], patch.deep_view())));
            } else {
                proof {
                    lemma_upsert_missing(cur, patch.deep_view(), same_property(), property_merge());
                }
                self.properties.push(patch);
                assert(self.properties.deep_view() =~= cur.push(patch.deep_view()));
            }
            proof {
                done = done + 1;
            }
        }
        assert(all.subrange(0, done) =~= all);
    }
}

impl Entity {
    /// Merges a patch into the entity: each component of the patch is
    /// merged into the first component of the same class name, or comes
    /// last.
    pub fn merge_in_dict(&mut self, patch: Entity)
        ensures
            final(self).deep_view() == merged_entity(old(self).deep_view(), patch.deep_view()),
    {
        let ghost start = self.components.deep_view();
        let ghost all = patch.components.deep_view();
        let mut rest = patch.components;
        let ghost mut done: int = 0;
        assert(all.subrange(0, 0) =~= Seq::<ComponentModel>::empty());
        assert(all.subrange(0, all.len() as int) =~= all);
        while rest.len() > 0
            invariant
                0 <= done <= all.len(),
                rest.deep_view() == all.subrange(done, all.len() as int),
                self.components.deep_view() == upsert_all(start, all.subrange(0, done), same_component(), component_merge()),
                self.class_name == old(self).class_name,
                self.name == old(self).name,
                self.link_id == old(self).link_id,
                self.master_link_id == old(self).master_link_id,
                self.unknown == old(self).unknown,
                self.unknown_em2 == old(self).unknown_em2,
            decreases rest@.len(),
        {
            let ghost rest_before = rest.deep_view();
            let patch = rest.remove(0);
            proof {
                assert(rest_before.len() == all.len() - done);
                assert(patch.deep_view() == rest_before[0]);
                assert(rest_before[0] == all[done]);
                assert forall|j: int| 0 <= j < rest.deep_view().len() implies rest.deep_view()[j] == all[done + 1 + j] by {
                    assert(rest.deep_view()[j] == rest_before[j + 1]);
                }
                assert(rest.deep_view() =~= all.subrange(done + 1, all.len() as int));
                assert(all.subrange(0, done + 1).drop_last() =~= all.subrange(0, done));
                assert(all.subrange(0, done + 1).last() == all[done]);
            }
            let ghost cur = self.components.deep_view();
            let mut i: usize = 0;
            let mut found: bool = false;
            while i < self.components.len()
                invariant_except_break
                    !found,
                invariant
                    i <= self.components@.len(),
                    cur == self.components.deep_view(),
                    self.class_name == old(self).class_name,
                    self.name == old(self).name,
                    self.link_id == old(self).link_id,
                    self.master_link_id == old(self).master_link_id,
                    self.unknown == old(self).unknown,
                    self.unknown_em2 == old(self).unknown_em2,
                    forall|j: int| 0 <= j < i ==> !same_component()(#[trigger] cur[j], patch.deep_view()),
                ensures
                    i <= self.components@.len(),
                    found ==> i < self.components@.len() && same_component()(cur[i as int], patch.deep_view()),
                    !found ==> i == self.components@.len(),
                decreases self.components@.len() - i,
            {
                if str_eq(self.components[i].class_name.as_str(), patch.class_name.as_str()) {
                    found = true;
                    break ;
                }
                i += 1;
            }
            if found {
                proof {
                    lemma_upsert_found(cur, patch.deep_view(), same_component(), component_merge(), i as int);
                }
                let mut item = self.components.remove(i);
                item.merge_in_dict(patch);
                self.components.insert(i, item);
                assert(self.components.deep_view() =~= cur.update(i as int, component_merge()(cur[i as int], patch.deep_view())));
            } else {
                proof {
                    lemma_upsert_missing(cur, patch.deep_view(), same_component(), component_merge());
                }
                self.components.push(patch);
                assert(self.components.deep_view() =~= cur.push(patch.deep_view()));
            }
            proof {
                done = done + 1;
            }
        }
        assert(all.subrange(0, done) =~= all);
    }
}

/// Whether `x` is among the identifiers.
fn has_id(items: &Vec<ID>, x: ID) -> (r: bool)
    ensures
        r == items.deep_view().contains(x),
{
    let mut i: usize = 0;
    while i < items.len()
        invariant
            i <= items@.len(),
            forall|j: int| 0 <= j < i ==> items.deep_view()[j] != x,
        decreases items@.len() - i,
    {
        if items[i].id == x.id {
            assert(items.deep_view()[i as int] == x);
            return true;
        }
        i += 1;
    }
    false
}

/// Whether `x` is among the strings.
fn has_string(items: &Vec<String>, x: &str) -> (r: bool)
    ensures
        r == items.deep_view().contains(x@),
{
    let mut i: usize = 0;
    while i < items.len()
        invariant
            i <= items@.len(),
            forall|j: int| 0 <= j < i ==> items.deep_view()[j] != x@,
        decreases items@.len() - i,
    {
        if str_eq(items[i].as_str(), x) {
            assert(items.deep_view()[i as int] == x@);
            return true;
        }
        i += 1;
    }
    false
}

impl SceneFile {
    /// Merges the entities of a patch into those of the scene: each is
    /// merged into the first entity of the same name, without regard to
    /// case, or comes last.
    fn merge_objects(&mut self, objects: Vec<Entity>)
        ensures
            final(self).objects.deep_view() == upsert_all(
                old(self).objects.deep_view(),
                objects.deep_view(),
                same_entity(),
                entity_merge(),
            ),
            final(self).scene == old(self).scene,
            final(self).em2_extra_strings == old(self).em2_extra_strings,
            final(self).unique_id == old(self).unique_id,
            final(self).version == old(self).version,
    {
        let ghost start = self.objects.deep_view();
        let ghost all = objects.deep_view();
        let mut rest = objects;
        let ghost mut done: int = 0;
        assert(all.subrange(0, 0) =~= Seq::<EntityModel>::empty());
        assert(all.subrange(0, all.len() as int) =~= all);
        while rest.len() > 0
            invariant
                0 <= done <= all.len(),
                rest.deep_view() == all.subrange(done, all.len() as int),
                self.scene == old(self).scene,
                self.em2_extra_strings == old(self).em2_extra_strings,
                self.unique_id == old(self).unique_id,
                self.version == old(self).version,
                self.objects.deep_view() == upsert_all(start, all.subrange(0, done), same_entity(), entity_merge()),
            decreases rest@.len(),
        {
            let ghost rest_before = rest.deep_view();
            let patch = rest.remove(0);
            proof {
                assert(rest_before.len() == all.len() - done);
                assert(patch.deep_view() == rest_before[0]);
                assert(rest_before[0] == all[done]);
                assert forall|j: int| 0 <= j < rest.deep_view().len() implies rest.deep_view()[j] == all[done + 1 + j] by {
                    assert(rest.deep_view()[j] == rest_before[j + 1]);
                }
                assert(rest.deep_view() =~= all.subrange(done + 1, all.len() as int));
                assert(all.subrange(0, done + 1).drop_last() =~= all.subrange(0, done));
                assert(all.subrange(0, done + 1).last() == all[done]);
            }
            let ghost cur = self.objects.deep_view();
            let mut i: usize = 0;
            let mut found: bool = false;
            while i < self.objects.len()
                invariant_except_break
                    !found,
                invariant
                    i <= self.objects@.len(),
                    cur == self.objects.deep_view(),
                    self.scene == old(self).scene,
                    self.em2_extra_strings == old(self).em2_extra_strings,
                    self.unique_id == old(self).unique_id,
                    self.version == old(self).version,
                    forall|j: int| 0 <= j < i ==> !same_entity()(#[trigger] cur[j], patch.deep_view()),
                ensures
                    i <= self.objects@.len(),
                    found ==> i < self.objects@.len() && same_entity()(cur[i as int], patch.deep_view()),
                    !found ==> i == self.objects@.len(),
                decreases self.objects@.len() - i,
            {
                if str_eq(to_lowercase(self.objects[i].name.as_str()).as_str(), to_lowercase(patch.name.as_str()).as_str()) {
                    found = true;
                    break ;
                }
                i += 1;
            }
            if found {
                proof {
                    lemma_upsert_found(cur, patch.deep_view(), same_entity(), entity_merge(), i as int);
                }
                let mut item = self.objects.remove(i);
                item.merge_in_dict(patch);
                self.objects.insert(i, item);
                assert(self.objects.deep_view() =~= cur.update(i as int, entity_merge()(cur[i as int], patch.deep_view())));
            } else {
                proof {
                    lemma_upsert_missing(cur, patch.deep_view(), same_entity(), entity_merge());
                }
                self.objects.push(patch);
                assert(self.objects.deep_view() =~= cur.push(patch.deep_view()));
            }
            proof {
                done = done + 1;
            }
        }
        assert(all.subrange(0, done) =~= all);
    }

    /// Merges a patch into the scene: its entities by name, its scene
    /// references and extra strings where they are new; its unique id and
    /// its layout replace the scene's where they are given.
    pub fn merge_in_dict(&mut self, patch: ScenePatch)
        ensures
            final(self).deep_view() == merged_scene(old(self).deep_view(), patch.deep_view()),
    {
        let ghost scene0 = self.scene.deep_view();
        let ghost strings0 = self.em2_extra_strings.deep_view();
        let ghost ids = patch.scene.deep_view();
        let ghost strings = patch.em2_extra_strings.deep_view();
        self.merge_objects(patch.objects);
        let mut i: usize = 0;
        assert(ids.subrange(0, 0) =~= Seq::<ID>::empty());
        while i < patch.scene.len()
            invariant
                i <= patch.scene@.len(),
                ids == patch.scene.deep_view(),
                self.scene.deep_view() == union_in_order(scene0, ids.subrange(0, i as int)),
                self.objects.deep_view() == upsert_all(
                    old(self).objects.deep_view(),
                    patch.objects.deep_view(),
                    same_entity(),
                    entity_merge(),
                ),
                self.em2_extra_strings == old(self).em2_extra_strings,
                self.unique_id == old(self).unique_id,
                self.version == old(self).version,
            decreases patch.scene@.len() - i,
        {
            let id = patch.scene[i];
            proof {
                assert(ids.subrange(0, i + 1).drop_last() =~= ids.subrange(0, i as int));
                assert(ids.subrange(0, i + 1).last() == id);
            }
            if !has_id(&self.scene, id) {
                let ghost before = self.scene.deep_view();
                self.scene.push(id);
                assert(self.scene.deep_view() =~= before.push(id));
            }
            i += 1;
        }
        assert(ids.subrange(0, i as int) =~= ids);
        let mut k: usize = 0;
        assert(strings.subrange(0, 0) =~= Seq::<Seq<char>>::empty());
        while k < patch.em2_extra_strings.len()
            invariant
                k <= patch.em2_extra_strings@.len(),
                strings == patch.em2_extra_strings.deep_view(),
                strings0 == old(self).em2_extra_strings.deep_view(),
                self.em2_extra_strings.deep_view() == union_in_order(strings0, strings.subrange(0, k as int)),
                self.scene.deep_view() == union_in_order(scene0, ids),
                self.objects.deep_view() == upsert_all(
                    old(self).objects.deep_view(),
                    patch.objects.deep_view(),
                    same_entity(),
                    entity_merge(),
                ),
                self.unique_id == old(self).unique_id,
                self.version == old(self).version,
            decreases patch.em2_extra_strings@.len() - k,
        {
            let s = patch.em2_extra_strings[k].clone();
            proof {
                assert(strings.subrange(0, k + 1).drop_last() =~= strings.subrange(0, k as int));
                assert(strings.subrange(0, k + 1).last() == s@);
            }
            if !has_string(&self.em2_extra_strings, s.as_str()) {
                let ghost before = self.em2_extra_strings.deep_view();
                self.em2_extra_strings.push(s);
                assert(self.em2_extra_strings.deep_view() =~= before.push(s@));
            }
            k += 1;
        }
        assert(strings.subrange(0, k as int) =~= strings);
        match patch.unique_id {
            Some(id) => {
                self.unique_id = id;
            },
            None => {},
        }
        match patch.version {
            Some(v) => {
                self.version = v;
            },
            None => {},
        }
    }
}

} // verus!
