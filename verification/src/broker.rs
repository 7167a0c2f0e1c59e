use vstd::prelude::*;
use vstd::string::*;

use crate::codec::{decimal_string, decimal_text};
use crate::error::ApiError;
use crate::ident::{derived, derived_id};
use crate::resource::{
    AuxData, AuxView, Body, Device, GroupedLight, Light, Metadata, MetadataView, RecordView,
    Resource, ResourceLink, ResourceType, ResourceView, Scene,
};
use crate::store::{
    lemma_added_is_found, lemma_first_named_is_found, lemma_insert_has, lemma_place_is_index,
    Resources, StoreView,
};
use crate::text::str_eq;
use crate::update::{scaled_brightness, DeviceUpdate};

verus! {

/// The kinds of frames that a broker sends.
#[derive(Clone, Copy, Debug, PartialEq, Eq)]
pub enum MessageKind {
    BridgeInfo,
    BridgeLogging,
    BridgeExtensions,
    BridgeDevices,
    BridgeGroups,
    BridgeDefinitions,
    BridgeState,
    BridgeEvent,
}

/// The kind that a frame's discriminant selects, if it selects one.
pub open spec fn kind_of(discriminant: Seq<char>) -> Option<MessageKind> {
    if discriminant == "bridge-info"@ {
        Some(MessageKind::BridgeInfo)
    } else if discriminant == "bridge-logging"@ {
        Some(MessageKind::BridgeLogging)
    } else if discriminant == "bridge-extensions"@ {
        Some(MessageKind::BridgeExtensions)
    } else if discriminant == "bridge-devices"@ {
        Some(MessageKind::BridgeDevices)
    } else if discriminant == "bridge-groups"@ {
        Some(MessageKind::BridgeGroups)
    } else if discriminant == "bridge-definitions"@ {
        Some(MessageKind::BridgeDefinitions)
    } else if discriminant == "bridge-state"@ {
        Some(MessageKind::BridgeState)
    } else if discriminant == "bridge-event"@ {
        Some(MessageKind::BridgeEvent)
    } else {
        None
    }
}

/// Classifies a frame by its discriminant. A frame of no known kind is to be
/// logged and skipped; it never ends the connection.
pub fn classify(discriminant: &str) -> (kind: Option<MessageKind>)
    ensures
        kind == kind_of(discriminant@),
{
    if str_eq(discriminant, "bridge-info") {
        Some(MessageKind::BridgeInfo)
    } else if str_eq(discriminant, "bridge-logging") {
        Some(MessageKind::BridgeLogging)
    } else if str_eq(discriminant, "bridge-extensions") {
        Some(MessageKind::BridgeExtensions)
    } else if str_eq(discriminant, "bridge-devices") {
        Some(MessageKind::BridgeDevices)
    } else if str_eq(discriminant, "bridge-groups") {
        Some(MessageKind::BridgeGroups)
    } else if str_eq(discriminant, "bridge-definitions") {
        Some(MessageKind::BridgeDefinitions)
    } else if str_eq(discriminant, "bridge-state") {
        Some(MessageKind::BridgeState)
    } else if str_eq(discriminant, "bridge-event") {
        Some(MessageKind::BridgeEvent)
    } else {
        None
    }
}

/// The brightness in hundredths of a percent that a brightness on the
/// broker's scale stands for: the nearest hundredth, a half rounded up.
pub open spec fn percent_of(level: u8) -> u16 {
    ((level * 10000 + 127) / 255) as u16
}

/// Brings a brightness on the broker's scale to hundredths of a percent.
pub fn brightness_percent(level: u8) -> (p: u16)
    ensures
        p == percent_of(level),
        p <= 10000,
{
    let wide: u32 = level as u32 * 10000 + 127;
    (wide / 255) as u16
}

/// A brightness that the broker reported is sent back to it unchanged.
pub proof fn lemma_brightness_survives(level: u8)
    ensures
        percent_of(level) <= 10000,
        scaled_brightness(percent_of(level)) == level,
{
    let p = (level * 10000 + 127) / 255;
    assert(255 * p <= level * 10000 + 127 < 255 * p + 255);
    if level < 255 {
        let q = (p * 255 + 5000) / 10000;
        assert(10000 * q <= p * 255 + 5000 < 10000 * q + 10000);
    }
}

/// A light before the broker has reported anything of it.
pub open spec fn dark() -> Light {
    Light { on: false, brightness: None, color_temperature: None, color: None }
}

/// A light's state after the broker reported an update: what the update
/// names replaces what was known, the rest stays.
pub open spec fn light_after(light: Light, upd: DeviceUpdate) -> Light {
    Light {
        on: match upd.state {
            Some(on) => on,
            None => light.on,
        },
        brightness: match upd.brightness {
            Some(level) => Some(percent_of(level)),
            None => light.brightness,
        },
        color_temperature: match upd.color_temp {
            Some(mirek) => Some(mirek),
            None => light.color_temperature,
        },
        color: match upd.color {
            Some(xy) => Some(xy),
            None => light.color,
        },
    }
}

/// Folds a reported update into a light's state.
pub fn merge_light(light: Light, upd: &DeviceUpdate) -> (out: Light)
    ensures
        out == light_after(light, *upd),
        (light.brightness matches Some(b) ==> b <= 10000) ==> (out.brightness matches Some(b)
            ==> b <= 10000),
{
    Light {
        on: match upd.state {
            Some(on) => on,
            None => light.on,
        },
        brightness: match upd.brightness {
            Some(level) => Some(brightness_percent(level)),
            None => light.brightness,
        },
        color_temperature: match upd.color_temp {
            Some(mirek) => Some(mirek),
            None => light.color_temperature,
        },
        color: match upd.color {
            Some(xy) => Some(xy),
            None => light.color,
        },
    }
}

/// The record under which a resource that a broker named is created: its id
/// is derived from its type and name.
pub open spec fn named_record(name: Seq<char>, body: Body) -> RecordView {
    RecordView {
        id: derived(body.spec_rtype(), name),
        obj: ResourceView { metadata: MetadataView { name }, body },
    }
}

/// The body of the record at a place, taken as a light.
pub open spec fn light_at(s: StoreView, i: int) -> Light {
    match s.records[i].obj.body {
        Body::Light(l) => l,
        _ => dark(),
    }
}

/// The store after a broker reported the state of the device of a name. The
/// first light of that name takes the update. Where there is none, a light
/// of that name is created from the update, unless its derived id is taken:
/// then the report is dropped.
pub open spec fn light_reported(s: StoreView, name: Seq<char>, upd: DeviceUpdate) -> StoreView {
    if s.has_named(ResourceType::Light, name) {
        let i = s.first_named(ResourceType::Light, name);
        s.with_body(s.records[i].id, Body::Light(light_after(light_at(s, i), upd)))
    } else if s.has(derived(ResourceType::Light, name)) {
        s
    } else {
        s.insert(named_record(name, Body::Light(light_after(dark(), upd))))
    }
}

/// The state of the light with the given id, or that of a dark light where
/// the id is no light's.
fn light_state(store: &Resources, id: u128) -> (light: Light)
    requires
        store.wf(),
    ensures
        light == if store@.has(id) {
            light_at(store@, store@.index_of(id))
        } else {
            dark()
        },
        light.brightness matches Some(b) ==> b <= 10000,
{
    let nothing = Light { on: false, brightness: None, color_temperature: None, color: None };
    if !store.contains(id) {
        return nothing;
    }
    match store.get_resource(ResourceType::Light, &id) {
        Ok(rec) => match rec.obj.body {
            Body::Light(l) => {
                proof {
                    assert(store@.records[store@.index_of(id)].obj.body.valid());
                }
                l
            },
            _ => nothing,
        },
        Err(_) => nothing,
    }
}

/// Folds a report into the light with the given id.
fn update_light(store: &mut Resources, id: u128, upd: &DeviceUpdate)
    requires
        old(store).wf(),
        old(store)@.has(id),
        old(store)@.record(id).rtype() == ResourceType::Light,
    ensures
        final(store).wf(),
        final(store)@ == old(store)@.with_body(
            id,
            Body::Light(light_after(light_at(old(store)@, old(store)@.index_of(id)), *upd)),
        ),
{
    let current = light_state(store, id);
    let next = merge_light(current, upd);
    let r = store.set_body(id, Body::Light(next));
    assert(r is Ok);
}

/// Creates the light of a name from a first report, unless the id derived
/// from the name is taken.
fn create_light(store: &mut Resources, name: &str, upd: &DeviceUpdate)
    requires
        old(store).wf(),
    ensures
        final(store).wf(),
        final(store)@ == if old(store)@.has(derived(ResourceType::Light, name@)) {
            old(store)@
        } else {
            old(store)@.insert(named_record(name@, Body::Light(light_after(dark(), *upd))))
        },
{
    let id = derived_id(ResourceType::Light, name);
    let nothing = Light { on: false, brightness: None, color_temperature: None, color: None };
    let next = merge_light(nothing, upd);
    let obj = Resource { metadata: Metadata { name: name.to_owned() }, body: Body::Light(next) };
    let _ = store.add_resource_with_id(id, obj);
}

/// Takes a device's state report into the store: updates the light of that
/// name, or creates it.
pub fn apply_light_state(store: &mut Resources, name: &str, upd: &DeviceUpdate)
    requires
        old(store).wf(),
    ensures
        final(store).wf(),
        final(store)@ == light_reported(old(store)@, name@, *upd),
{
    match store.find_named(ResourceType::Light, name) {
        Some(id) => {
            proof {
                lemma_first_named_is_found(old(store)@, ResourceType::Light, name@);
            }
            update_light(store, id, upd);
        },
        None => {
            create_light(store, name, upd);
        },
    }
}

/// The names that a list of texts holds.
pub open spec fn name_views(names: Seq<String>) -> Seq<Seq<char>> {
    names.map_values(|n: String| n@)
}

/// Whether a list of names holds a name.
pub fn contains_name(names: &Vec<String>, name: &str) -> (found: bool)
    ensures
        found == name_views(names@).contains(name@),
{
    let mut i: usize = 0;
    while i < names.len()
        invariant
            i <= names.len(),
            forall|j: int| 0 <= j < i ==> name_views(names@)[j] != name@,
        decreases names.len() - i,
    {
        if str_eq(names[i].as_str(), name) {
            assert(name_views(names@)[i as int] == name@);
            return true;
        }
        i += 1;
    }
    false
}

/// The store after a broker named a device in its device list: a device of
/// that name is created where there is none, unless its derived id is taken.
pub open spec fn absorb_device(s: StoreView, name: Seq<char>) -> StoreView {
    if s.has_named(ResourceType::Device, name) || s.has(derived(ResourceType::Device, name)) {
        s
    } else {
        s.insert(named_record(name, Body::Device(Device { stale: false })))
    }
}

/// The store after each name of a device list was taken in, in list order.
pub open spec fn absorb_devices(s: StoreView, names: Seq<Seq<char>>) -> StoreView
    decreases names.len(),
{
    if names.len() == 0 {
        s
    } else {
        absorb_device(absorb_devices(s, names.drop_last()), names.last())
    }
}

/// A record after a device list was held against it: a device is stale
/// exactly when the list does not name it; any other resource is untouched.
pub open spec fn mark(r: RecordView, names: Seq<Seq<char>>) -> RecordView {
    match r.obj.body {
        Body::Device(_) => RecordView {
            id: r.id,
            obj: ResourceView {
                metadata: r.obj.metadata,
                body: Body::Device(Device { stale: !names.contains(r.obj.metadata.name) }),
            },
        },
        _ => r,
    }
}

/// The store with every record held against a device list.
pub open spec fn marked(s: StoreView, names: Seq<Seq<char>>) -> StoreView {
    StoreView { records: s.records.map_values(|r: RecordView| mark(r, names)), aux: s.aux }
}

/// The store after a broker's device list was reconciled with it. Devices
/// that the list names and the store lacks are added. A device that the list
/// no longer names is kept and marked stale, never deleted: what the API
/// assigned to it survives a broker that forgets it for a while.
pub open spec fn devices_reconciled(s: StoreView, names: Seq<Seq<char>>) -> StoreView {
    marked(absorb_devices(s, names), names)
}

fn take_in_device(store: &mut Resources, name: &str)
    requires
        old(store).wf(),
    ensures
        final(store).wf(),
        final(store)@ == absorb_device(old(store)@, name@),
{
    if store.find_named(ResourceType::Device, name).is_some() {
        return ;
    }
    let id = derived_id(ResourceType::Device, name);
    let obj = Resource {
        metadata: Metadata { name: name.to_owned() },
        body: Body::Device(Device { stale: false }),
    };
    let _ = store.add_resource_with_id(id, obj);
}

fn mark_stale(store: &mut Resources, names: &Vec<String>)
    requires
        old(store).wf(),
    ensures
        final(store).wf(),
        final(store)@ == marked(old(store)@, name_views(names@)),
{
    let ghost orig = store@;
    let ghost listed = name_views(names@);
    let n = store.len();
    let mut i: usize = 0;
    while i < n
        invariant
            i <= n,
            n == orig.records.len(),
            listed == name_views(names@),
            store.wf(),
            store@.aux == orig.aux,
            store@.records.len() == orig.records.len(),
            forall|k: int| 0 <= k < i ==> #[trigger] store@.records[k] == mark(orig.records[k], listed),
            forall|k: int| i <= k < n ==> #[trigger] store@.records[k] == orig.records[k],
        decreases n - i,
    {
        let ghost before = store@;
        let rec = store.record(i);
        let id = rec.id;
        let is_device = match rec.obj.body {
            Body::Device(_) => true,
            _ => false,
        };
        if is_device {
            let stale = !contains_name(names, rec.obj.metadata.name.as_str());
            proof {
                lemma_place_is_index(before, i as int);
            }
            let r = store.set_body(id, Body::Device(Device { stale }));
            assert(r is Ok);
            assert(store@.records[i as int] == mark(orig.records[i as int], listed));
        }
        i += 1;
    }
    assert(store@.records =~= marked(orig, listed).records);
}

/// Reconciles the store with a broker's list of device names.
pub fn reconcile_devices(store: &mut Resources, names: &Vec<String>)
    requires
        old(store).wf(),
    ensures
        final(store).wf(),
        final(store)@ == devices_reconciled(old(store)@, name_views(names@)),
{
    let ghost orig = store@;
    let ghost listed = name_views(names@);
    let mut j: usize = 0;
    while j < names.len()
        invariant
            j <= names.len(),
            listed == name_views(names@),
            store.wf(),
            store@ == absorb_devices(orig, listed.take(j as int)),
        decreases names.len() - j,
    {
        take_in_device(store, names[j].as_str());
        proof {
            let next = listed.take(j + 1);
            assert(next.drop_last() =~= listed.take(j as int));
            assert(next.last() == names@[j as int]@);
        }
        j += 1;
    }
    assert(listed.take(j as int) =~= listed);
    mark_stale(store, names);
}

/// Taking device names in removes and changes nothing: the records that were
/// there keep their places.
pub proof fn lemma_absorb_keeps_records(s: StoreView, names: Seq<Seq<char>>)
    ensures
        absorb_devices(s, names).aux == s.aux,
        absorb_devices(s, names).records.len() >= s.records.len(),
        forall|i: int|
            0 <= i < s.records.len() ==> #[trigger] absorb_devices(s, names).records[i]
                == s.records[i],
    decreases names.len(),
{
    if names.len() > 0 {
        lemma_absorb_keeps_records(s, names.drop_last());
    }
}

/// Reconciling a device list deletes nothing. Every record that was in the
/// store is there afterwards, at its place, under its id and with its
/// metadata; a device among them is stale exactly when the list does not
/// name it, and any other resource is as it was. Broker detail is untouched.
pub proof fn lemma_reconcile_marks_never_deletes(s: StoreView, names: Seq<Seq<char>>)
    ensures
        devices_reconciled(s, names).aux == s.aux,
        devices_reconciled(s, names).records.len() >= s.records.len(),
        forall|i: int|
            0 <= i < s.records.len() ==> #[trigger] devices_reconciled(s, names).records[i]
                == mark(s.records[i], names),
        forall|i: int|
            0 <= i < s.records.len() ==> {
                &&& (#[trigger] devices_reconciled(s, names).records[i]).id == s.records[i].id
                &&& devices_reconciled(s, names).records[i].obj.metadata
                    == s.records[i].obj.metadata
                &&& s.records[i].obj.body is Device ==> devices_reconciled(
                    s,
                    names,
                ).records[i].obj.body == Body::Device(
                    Device { stale: !names.contains(s.records[i].obj.metadata.name) },
                )
            },
{
    lemma_absorb_keeps_records(s, names);
}

/// The store after a broker named a group in its group list: where no room
/// of that name exists, a room and the grouped light that it owns are
/// created under their derived ids, unless one of the two ids is taken.
pub open spec fn absorb_group(s: StoreView, name: Seq<char>) -> StoreView {
    let room = named_record(name, Body::Room);
    let light = named_record(
        name,
        Body::GroupedLight(GroupedLight { owner: room.link(), on: false }),
    );
    if s.has_named(ResourceType::Room, name) || s.has(room.id) || s.has(light.id) || room.id
        == light.id {
        s
    } else {
        s.insert(room).insert(light)
    }
}

/// A scene that a broker keeps for a group, under the broker's own index.
#[derive(Debug, PartialEq, Eq)]
pub struct BrokerScene {
    pub index: u32,
    pub name: String,
}

pub struct BrokerSceneView {
    pub index: u32,
    pub name: Seq<char>,
}

impl View for BrokerScene {
    type V = BrokerSceneView;

    open spec fn view(&self) -> BrokerSceneView {
        BrokerSceneView { index: self.index, name: self.name@ }
    }
}

/// The scenes that a list of them holds.
pub open spec fn scene_views(scenes: Seq<BrokerScene>) -> Seq<BrokerSceneView> {
    scenes.map_values(|sc: BrokerScene| sc@)
}

/// A group as a broker lists it: its name and its scenes.
#[derive(Debug, PartialEq, Eq)]
pub struct BrokerGroup {
    pub name: String,
    pub scenes: Vec<BrokerScene>,
}

pub struct BrokerGroupView {
    pub name: Seq<char>,
    pub scenes: Seq<BrokerSceneView>,
}

impl View for BrokerGroup {
    type V = BrokerGroupView;

    open spec fn view(&self) -> BrokerGroupView {
        BrokerGroupView { name: self.name@, scenes: scene_views(self.scenes@) }
    }
}

/// The groups that a list of them holds.
pub open spec fn group_views(groups: Seq<BrokerGroup>) -> Seq<BrokerGroupView> {
    groups.map_values(|g: BrokerGroup| g@)
}

/// The text from which the id of a group's scene is derived: the group's
/// name, a slash, and the scene's index in decimal digits.
pub open spec fn scene_seed(group: Seq<char>, index: u32) -> Seq<char> {
    group + "/"@ + decimal_text(index as nat)
}

/// The id of a group's scene.
pub open spec fn scene_id(group: Seq<char>, index: u32) -> u128 {
    derived(ResourceType::Scene, scene_seed(group, index))
}

/// The record that is created for a group's scene: it is owned by the
/// group's room.
pub open spec fn scene_record(group: Seq<char>, scene: BrokerSceneView) -> RecordView {
    RecordView {
        id: scene_id(group, scene.index),
        obj: ResourceView {
            metadata: MetadataView { name: scene.name },
            body: Body::Scene(
                Scene {
                    owner: ResourceLink {
                        rid: derived(ResourceType::Room, group),
                        rtype: ResourceType::Room,
                    },
                },
            ),
        },
    }
}

/// The store after a broker listed a scene of a group. A scene whose id is
/// free is created, and the broker detail that recalls it is kept for it: the
/// group's name as the topic, and the broker's index. Where the id is taken,
/// the store stays as it is.
pub open spec fn absorb_scene(s: StoreView, group: Seq<char>, scene: BrokerSceneView) -> StoreView {
    if s.has(scene_id(group, scene.index)) {
        s
    } else {
        s.insert(scene_record(group, scene)).with_aux(
            scene_id(group, scene.index),
            AuxView { topic: Some(group), index: Some(scene.index) },
        )
    }
}

/// The store after each scene of a group was taken in, in list order.
pub open spec fn absorb_scenes(
    s: StoreView,
    group: Seq<char>,
    scenes: Seq<BrokerSceneView>,
) -> StoreView
    decreases scenes.len(),
{
    if scenes.len() == 0 {
        s
    } else {
        absorb_scene(absorb_scenes(s, group, scenes.drop_last()), group, scenes.last())
    }
}

/// The store after a group of a broker's list was taken in: its room and
/// grouped light, then its scenes.
pub open spec fn absorb_listed_group(s: StoreView, group: BrokerGroupView) -> StoreView {
    absorb_scenes(absorb_group(s, group.name), group.name, group.scenes)
}

/// The store after each group of a group list was taken in, in list order.
pub open spec fn groups_reconciled(s: StoreView, groups: Seq<BrokerGroupView>) -> StoreView
    decreases groups.len(),
{
    if groups.len() == 0 {
        s
    } else {
        absorb_listed_group(groups_reconciled(s, groups.drop_last()), groups.last())
    }
}

fn take_in_group(store: &mut Resources, name: &str)
    requires
        old(store).wf(),
    ensures
        final(store).wf(),
        final(store)@ == absorb_group(old(store)@, name@),
{
    if store.find_named(ResourceType::Room, name).is_some() {
        return ;
    }
    let room_id = derived_id(ResourceType::Room, name);
    let light_id = derived_id(ResourceType::GroupedLight, name);
    if room_id == light_id || store.contains(room_id) || store.contains(light_id) {
        return ;
    }
    let room = Resource { metadata: Metadata { name: name.to_owned() }, body: Body::Room };
    let light = Resource {
        metadata: Metadata { name: name.to_owned() },
        body: Body::GroupedLight(
            GroupedLight { owner: ResourceType::Room.link_to(room_id), on: false },
        ),
    };
    let ghost room_rec = RecordView { id: room_id, obj: room@ };
    let first = store.add_resource_with_id(room_id, room);
    assert(first is Ok);
    proof {
        lemma_insert_has(old(store)@, room_rec, light_id);
    }
    let second = store.add_resource_with_id(light_id, light);
    assert(second is Ok);
}

fn take_in_scene(store: &mut Resources, group: &str, scene: &BrokerScene)
    requires
        old(store).wf(),
    ensures
        final(store).wf(),
        final(store)@ == absorb_scene(old(store)@, group@, scene@),
{
    let digits = decimal_string(scene.index as u64);
    let mut seed = String::from_str(group);
    seed.append("/");
    seed.append(digits.as_str());
    let id = derived_id(ResourceType::Scene, seed.as_str());
    if store.contains(id) {
        return ;
    }
    let room_id = derived_id(ResourceType::Room, group);
    let obj = Resource {
        metadata: Metadata { name: scene.name.clone() },
        body: Body::Scene(Scene { owner: ResourceType::Room.link_to(room_id) }),
    };
    let ghost rec = RecordView { id, obj: obj@ };
    let added = store.add_resource_with_id(id, obj);
    assert(added is Ok);
    proof {
        lemma_insert_has(old(store)@, rec, id);
    }
    let aux = AuxData { topic: Some(group.to_owned()), index: Some(scene.index) };
    let kept = store.set_aux(id, aux);
    assert(kept is Ok);
}

fn take_in_listed_group(store: &mut Resources, group: &BrokerGroup)
    requires
        old(store).wf(),
    ensures
        final(store).wf(),
        final(store)@ == absorb_listed_group(old(store)@, group@),
{
    take_in_group(store, group.name.as_str());
    let ghost base = store@;
    let ghost listed = scene_views(group.scenes@);
    let mut k: usize = 0;
    while k < group.scenes.len()
        invariant
            k <= group.scenes.len(),
            listed == scene_views(group.scenes@),
            store.wf(),
            store@ == absorb_scenes(base, group.name@, listed.take(k as int)),
        decreases group.scenes.len() - k,
    {
        take_in_scene(store, group.name.as_str(), &group.scenes[k]);
        proof {
            let next = listed.take(k + 1);
            assert(next.drop_last() =~= listed.take(k as int));
            assert(next.last() == group.scenes@[k as int]@);
        }
        k += 1;
    }
    assert(listed.take(k as int) =~= listed);
}

/// Reconciles the store with a broker's list of groups: for each group that
/// the store lacks, a room and its grouped light are added, and for each of
/// its scenes that the store lacks, the scene and the broker detail that
/// recalls it.
pub fn reconcile_groups(store: &mut Resources, groups: &Vec<BrokerGroup>)
    requires
        old(store).wf(),
    ensures
        final(store).wf(),
        final(store)@ == groups_reconciled(old(store)@, group_views(groups@)),
{
    let ghost orig = store@;
    let ghost listed = group_views(groups@);
    let mut j: usize = 0;
    while j < groups.len()
        invariant
            j <= groups.len(),
            listed == group_views(groups@),
            store.wf(),
            store@ == groups_reconciled(orig, listed.take(j as int)),
        decreases groups.len() - j,
    {
        take_in_listed_group(store, &groups[j]);
        proof {
            let next = listed.take(j + 1);
            assert(next.drop_last() =~= listed.take(j as int));
            assert(next.last() == groups@[j as int]@);
        }
        j += 1;
    }
    assert(listed.take(j as int) =~= listed);
}

/// A scene that was taken in from a group list is recalled under the
/// group's name and the broker's index.
pub proof fn lemma_listed_scene_has_detail(s: StoreView, group: Seq<char>, scene: BrokerSceneView)
    requires
        s.wf(),
        !s.has(scene_id(group, scene.index)),
    ensures
        absorb_scene(s, group, scene).lookup(
            ResourceLink { rid: scene_id(group, scene.index), rtype: ResourceType::Scene },
        ) == Some(scene_record(group, scene)),
        absorb_scene(s, group, scene).aux_of(scene_id(group, scene.index)) == Some(
            AuxView { topic: Some(group), index: Some(scene.index) },
        ),
{
    let id = scene_id(group, scene.index);
    let rec = scene_record(group, scene);
    let mid = s.insert(rec);
    lemma_added_is_found(s, id, rec.obj);
    let n = absorb_scene(s, group, scene);
    assert(n.records == mid.records);
    if s.has_aux(id) {
        let k = s.aux_index_of(id);
        assert(s.has(s.aux[k].id));
    }
    let last = s.aux.len() as int;
    assert(n.aux[last].id == id);
    let k = n.aux_index_of(id);
    if k < last {
        assert(s.aux[k].id == id);
        assert(s.has(s.aux[k].id));
    }
}

/// What a broker tells of a single device outside its lists.
#[derive(Clone, Copy, Debug, PartialEq, Eq)]
pub enum EventKind {
    /// The device joined the network or announced itself.
    Joined,
    /// The device left the network.
    Left,
}

/// The store after a broker told of a single device. The first device of
/// that name is marked stale when it left, and fresh when it joined. Where
/// there is none, a device that joined is created, unless its derived id is
/// taken; a device that left and was never known is not created.
pub open spec fn device_seen(s: StoreView, name: Seq<char>, kind: EventKind) -> StoreView {
    if s.has_named(ResourceType::Device, name) {
        let i = s.first_named(ResourceType::Device, name);
        s.with_body(s.records[i].id, Body::Device(Device { stale: kind is Left }))
    } else if kind is Joined {
        absorb_device(s, name)
    } else {
        s
    }
}

/// Takes what a broker told of a single device into the store.
pub fn apply_device_event(store: &mut Resources, name: &str, kind: EventKind)
    requires
        old(store).wf(),
    ensures
        final(store).wf(),
        final(store)@ == device_seen(old(store)@, name@, kind),
{
    let stale = match kind {
        EventKind::Joined => false,
        EventKind::Left => true,
    };
    match store.find_named(ResourceType::Device, name) {
        Some(id) => {
            proof {
                lemma_first_named_is_found(old(store)@, ResourceType::Device, name@);
            }
            let r = store.set_body(id, Body::Device(Device { stale }));
            assert(r is Ok);
        },
        None => {
            if !stale {
                take_in_device(store, name);
            }
        },
    }
}

/// What a broker's event about a single device means for the store: a device
/// that joined or announced itself is there, one that left is not. Events of
/// other kinds mean nothing to the store.
pub open spec fn event_of(name: Seq<char>) -> Option<EventKind> {
    if name == "device_joined"@ || name == "device_announce"@ {
        Some(EventKind::Joined)
    } else if name == "device_leave"@ {
        Some(EventKind::Left)
    } else {
        None
    }
}

/// Reads the kind of a broker's event about a single device.
pub fn parse_event(name: &str) -> (kind: Option<EventKind>)
    ensures
        kind == event_of(name@),
{
    if str_eq(name, "device_joined") || str_eq(name, "device_announce") {
        Some(EventKind::Joined)
    } else if str_eq(name, "device_leave") {
        Some(EventKind::Left)
    } else {
        None
    }
}

/// A decoded frame of a broker, with what the store needs of it.
#[derive(Debug, PartialEq, Eq)]
pub enum Message {
    BridgeInfo,
    BridgeLogging,
    BridgeExtensions,
    /// The broker's authoritative list of devices, by name.
    BridgeDevices(Vec<String>),
    /// The broker's authoritative list of groups.
    BridgeGroups(Vec<BrokerGroup>),
    BridgeDefinitions,
    /// The state that a device reported.
    BridgeState { device: String, state: DeviceUpdate },
    /// What happened to a single device.
    BridgeEvent { device: String, kind: EventKind },
}

pub enum MessageView {
    BridgeInfo,
    BridgeLogging,
    BridgeExtensions,
    BridgeDevices(Seq<Seq<char>>),
    BridgeGroups(Seq<BrokerGroupView>),
    BridgeDefinitions,
    BridgeState { device: Seq<char>, state: DeviceUpdate },
    BridgeEvent { device: Seq<char>, kind: EventKind },
}

impl View for Message {
    type V = MessageView;

    open spec fn view(&self) -> MessageView {
        match self {
            Message::BridgeInfo => MessageView::BridgeInfo,
            Message::BridgeLogging => MessageView::BridgeLogging,
            Message::BridgeExtensions => MessageView::BridgeExtensions,
            Message::BridgeDevices(names) => MessageView::BridgeDevices(name_views(names@)),
            Message::BridgeGroups(groups) => MessageView::BridgeGroups(group_views(groups@)),
            Message::BridgeDefinitions => MessageView::BridgeDefinitions,
            Message::BridgeState { device, state } => MessageView::BridgeState {
                device: device@,
                state: *state,
            },
            Message::BridgeEvent { device, kind } => MessageView::BridgeEvent {
                device: device@,
                kind: *kind,
            },
        }
    }
}

impl MessageView {
    pub open spec fn kind(self) -> MessageKind {
        match self {
            MessageView::BridgeInfo => MessageKind::BridgeInfo,
            MessageView::BridgeLogging => MessageKind::BridgeLogging,
            MessageView::BridgeExtensions => MessageKind::BridgeExtensions,
            MessageView::BridgeDevices(_) => MessageKind::BridgeDevices,
            MessageView::BridgeGroups(_) => MessageKind::BridgeGroups,
            MessageView::BridgeDefinitions => MessageKind::BridgeDefinitions,
            MessageView::BridgeState { .. } => MessageKind::BridgeState,
            MessageView::BridgeEvent { .. } => MessageKind::BridgeEvent,
        }
    }
}

impl Message {
    /// The kind of the frame that the message was decoded from.
    pub fn kind(&self) -> (k: MessageKind)
        ensures
            k == self@.kind(),
    {
        match self {
            Message::BridgeInfo => MessageKind::BridgeInfo,
            Message::BridgeLogging => MessageKind::BridgeLogging,
            Message::BridgeExtensions => MessageKind::BridgeExtensions,
            Message::BridgeDevices(_) => MessageKind::BridgeDevices,
            Message::BridgeGroups(_) => MessageKind::BridgeGroups,
            Message::BridgeDefinitions => MessageKind::BridgeDefinitions,
            Message::BridgeState { .. } => MessageKind::BridgeState,
            Message::BridgeEvent { .. } => MessageKind::BridgeEvent,
        }
    }
}

/// The store after a message of a broker was applied. The device and group
/// lists are reconciled, a state report and a device event are folded in, and
/// the messages about the broker itself leave the store as it is.
pub open spec fn applied(s: StoreView, m: MessageView) -> StoreView {
    match m {
        MessageView::BridgeDevices(names) => devices_reconciled(s, names),
        MessageView::BridgeGroups(groups) => groups_reconciled(s, groups),
        MessageView::BridgeState { device, state } => light_reported(s, device, state),
        MessageView::BridgeEvent { device, kind } => device_seen(s, device, kind),
        _ => s,
    }
}

/// Applies a message of a broker to the store, and tells whether resources
/// were added, so that the caller knows when the store is worth persisting.
pub fn apply(store: &mut Resources, msg: &Message) -> (grown: bool)
    requires
        old(store).wf(),
    ensures
        final(store).wf(),
        final(store)@ == applied(old(store)@, msg@),
        grown == (final(store)@.records.len() != old(store)@.records.len()),
{
    let before = store.len();
    match msg {
        Message::BridgeDevices(names) => reconcile_devices(store, names),
        Message::BridgeGroups(groups) => reconcile_groups(store, groups),
        Message::BridgeState { device, state } => apply_light_state(store, device.as_str(), state),
        Message::BridgeEvent { device, kind } => apply_device_event(
            store,
            device.as_str(),
            *kind,
        ),
        _ => {},
    }
    store.len() != before
}

/// What a frame carries besides its discriminant, as far as the store needs
/// it: nothing, a list of names, a list of groups with their scenes, the
/// state that a device reported, or an event about a device under the
/// broker's name for it.
#[derive(Debug, PartialEq, Eq)]
pub enum FrameBody {
    Nothing,
    Names(Vec<String>),
    Groups(Vec<BrokerGroup>),
    State { device: String, state: DeviceUpdate },
    Event { device: String, event: String },
}

pub enum FrameBodyView {
    Nothing,
    Names(Seq<Seq<char>>),
    Groups(Seq<BrokerGroupView>),
    State { device: Seq<char>, state: DeviceUpdate },
    Event { device: Seq<char>, event: Seq<char> },
}

impl View for FrameBody {
    type V = FrameBodyView;

    open spec fn view(&self) -> FrameBodyView {
        match self {
            FrameBody::Nothing => FrameBodyView::Nothing,
            FrameBody::Names(names) => FrameBodyView::Names(name_views(names@)),
            FrameBody::Groups(groups) => FrameBodyView::Groups(group_views(groups@)),
            FrameBody::State { device, state } => FrameBodyView::State {
                device: device@,
                state: *state,
            },
            FrameBody::Event { device, event } => FrameBodyView::Event {
                device: device@,
                event: event@,
            },
        }
    }
}

/// The groups without scenes that a list of names stands for.
pub open spec fn plain_groups(names: Seq<Seq<char>>) -> Seq<BrokerGroupView> {
    names.map_values(|name: Seq<char>| BrokerGroupView { name, scenes: Seq::empty() })
}

fn groups_of_names(names: Vec<String>) -> (groups: Vec<BrokerGroup>)
    ensures
        group_views(groups@) == plain_groups(name_views(names@)),
{
    let mut groups: Vec<BrokerGroup> = Vec::new();
    let mut i: usize = 0;
    while i < names.len()
        invariant
            i <= names.len(),
            group_views(groups@) =~= plain_groups(name_views(names@).take(i as int)),
        decreases names.len() - i,
    {
        let ghost before = groups@;
        let group = BrokerGroup { name: names[i].clone(), scenes: Vec::new() };
        proof {
            assert(scene_views(group.scenes@) =~= Seq::<BrokerSceneView>::empty());
        }
        let ghost gv = group@;
        groups.push(group);
        assert(group_views(groups@) =~= group_views(before).push(gv));
        i += 1;
    }
    assert(name_views(names@).take(i as int) =~= name_views(names@));
    groups
}

/// The message that a frame stands for. A frame is malformed where its
/// discriminant selects no kind, where it does not carry what its kind
/// needs, or where it tells of an event that means nothing to the store. What
/// a frame about the broker itself carries is not looked at. A group list may
/// come as a list of names: its groups then have no scenes.
pub open spec fn decoded(discriminant: Seq<char>, body: FrameBodyView) -> Result<
    MessageView,
    ApiError,
> {
    match kind_of(discriminant) {
        None => Err(ApiError::Protocol),
        Some(MessageKind::BridgeInfo) => Ok(MessageView::BridgeInfo),
        Some(MessageKind::BridgeLogging) => Ok(MessageView::BridgeLogging),
        Some(MessageKind::BridgeExtensions) => Ok(MessageView::BridgeExtensions),
        Some(MessageKind::BridgeDefinitions) => Ok(MessageView::BridgeDefinitions),
        Some(MessageKind::BridgeDevices) => match body {
            FrameBodyView::Names(names) => Ok(MessageView::BridgeDevices(names)),
            _ => Err(ApiError::Protocol),
        },
        Some(MessageKind::BridgeGroups) => match body {
            FrameBodyView::Groups(groups) => Ok(MessageView::BridgeGroups(groups)),
            FrameBodyView::Names(names) => Ok(MessageView::BridgeGroups(plain_groups(names))),
            _ => Err(ApiError::Protocol),
        },
        Some(MessageKind::BridgeState) => match body {
            FrameBodyView::State { device, state } => Ok(MessageView::BridgeState { device, state }),
            _ => Err(ApiError::Protocol),
        },
        Some(MessageKind::BridgeEvent) => match body {
            FrameBodyView::Event { device, event } => match event_of(event) {
                Some(kind) => Ok(MessageView::BridgeEvent { device, kind }),
                None => Err(ApiError::Protocol),
            },
            _ => Err(ApiError::Protocol),
        },
    }
}

/// Decodes a frame into the message it stands for, or fails with `Protocol`.
pub fn decode(discriminant: &str, body: FrameBody) -> (r: Result<Message, ApiError>)
    ensures
        match r {
            Ok(msg) => decoded(discriminant@, body@) == Ok::<MessageView, ApiError>(msg@),
            Err(e) => decoded(discriminant@, body@) == Err::<MessageView, ApiError>(e),
        },
{
    let kind = match classify(discriminant) {
        Some(kind) => kind,
        None => {
            return Err(ApiError::Protocol);
        },
    };
    match kind {
        MessageKind::BridgeInfo => Ok(Message::BridgeInfo),
        MessageKind::BridgeLogging => Ok(Message::BridgeLogging),
        MessageKind::BridgeExtensions => Ok(Message::BridgeExtensions),
        MessageKind::BridgeDefinitions => Ok(Message::BridgeDefinitions),
        MessageKind::BridgeDevices => match body {
            FrameBody::Names(names) => Ok(Message::BridgeDevices(names)),
            _ => Err(ApiError::Protocol),
        },
        MessageKind::BridgeGroups => match body {
            FrameBody::Groups(groups) => Ok(Message::BridgeGroups(groups)),
            FrameBody::Names(names) => Ok(Message::BridgeGroups(groups_of_names(names))),
            _ => Err(ApiError::Protocol),
        },
        MessageKind::BridgeState => match body {
            FrameBody::State { device, state } => Ok(Message::BridgeState { device, state }),
            _ => Err(ApiError::Protocol),
        },
        MessageKind::BridgeEvent => match body {
            FrameBody::Event { device, event } => match parse_event(event.as_str()) {
                Some(kind) => Ok(Message::BridgeEvent { device, kind }),
                None => Err(ApiError::Protocol),
            },
            _ => Err(ApiError::Protocol),
        },
    }
}

/// Takes a frame of a broker: decodes it and applies the message to the
/// store. A malformed frame fails with `Protocol` and leaves the store as it
/// was: it is to be logged and skipped, and the connection goes on. On
/// success the result tells whether resources were added.
pub fn receive(store: &mut Resources, discriminant: &str, body: FrameBody) -> (r: Result<
    bool,
    ApiError,
>)
    requires
        old(store).wf(),
    ensures
        final(store).wf(),
        match r {
            Ok(grown) => {
                &&& decoded(discriminant@, body@) matches Ok(msg)
                &&& final(store)@ == applied(old(store)@, msg)
                &&& grown == (final(store)@.records.len() != old(store)@.records.len())
            },
            Err(e) => {
                &&& decoded(discriminant@, body@) is Err
                &&& e == ApiError::Protocol
                &&& final(store)@ == old(store)@
            },
        },
{
    match decode(discriminant, body) {
        Ok(msg) => Ok(apply(store, &msg)),
        Err(e) => Err(e),
    }
}

} // verus!
