use bifrost::error::ApiError;
use bifrost::ident::derived_id;
use bifrost::resource::{
    AuxData, Body, Device, GroupedLight, Light, Metadata, Resource, ResourceLink, ResourceRecord,
    ResourceType, Scene, Xy,
};
use bifrost::store::{AuxEntry, Resources};

fn named(name: &str, body: Body) -> Resource {
    Resource { metadata: Metadata { name: name.to_string() }, body }
}

fn lamp() -> Resource {
    named(
        "Lamp",
        Body::Light(Light {
            on: true,
            brightness: Some(5000),
            color_temperature: Some(366),
            color: Some(Xy { x: 3127, y: 3290 }),
        }),
    )
}

#[test]
fn added_resource_is_found_as_given() {
    let mut store = Resources::new();
    let link = store.add_resource(lamp()).unwrap();
    assert_eq!(link.rtype, ResourceType::Light);
    let rec = store.get_resource(link.rtype, &link.rid).unwrap();
    assert_eq!(rec.id, link.rid);
    assert_eq!(rec.obj, lamp());
    assert_eq!(store.get_link(&link).unwrap(), rec);
    assert_eq!(rec.link(), link);
}

#[test]
fn added_with_id_returns_link_of_that_id() {
    let mut store = Resources::new();
    let link = store.add_resource_with_id(7, named("Den", Body::Room)).unwrap();
    assert_eq!(link, ResourceLink { rid: 7, rtype: ResourceType::Room });
    assert_eq!(link, ResourceType::Room.link_to(7));
    assert_eq!(store.len(), 1);
    assert!(store.contains(7));
    assert!(!store.contains(8));
}

#[test]
fn duplicate_id_is_a_conflict_across_types() {
    let mut store = Resources::new();
    store.add_resource_with_id(7, named("Den", Body::Room)).unwrap();
    let again = store.add_resource_with_id(7, lamp());
    assert_eq!(again, Err(ApiError::Conflict(7)));
    assert_eq!(store.len(), 1);
    assert_eq!(store.get_resource(ResourceType::Room, &7).unwrap().obj, named("Den", Body::Room));
}

#[test]
fn invalid_payload_is_rejected() {
    let mut store = Resources::new();
    let too_bright = named(
        "Lamp",
        Body::Light(Light { on: true, brightness: Some(10001), color_temperature: None, color: None }),
    );
    assert_eq!(store.add_resource_with_id(1, too_bright), Err(ApiError::Validation));
    let bad_owner = named(
        "Group",
        Body::GroupedLight(GroupedLight { owner: ResourceType::Light.link_to(9), on: false }),
    );
    assert_eq!(store.add_resource(bad_owner), Err(ApiError::Validation));
    let bad_scene = named("Scene", Body::Scene(Scene { owner: ResourceType::Device.link_to(9) }));
    assert_eq!(store.add_resource(bad_scene), Err(ApiError::Validation));
    assert_eq!(store.len(), 0);
    assert!(Body::Light(Light { on: false, brightness: Some(10000), color_temperature: None, color: None })
        .is_valid());
}

#[test]
fn lookup_with_wrong_type_is_not_found() {
    let mut store = Resources::new();
    store.add_resource_with_id(7, named("Den", Body::Room)).unwrap();
    assert_eq!(store.get_resource(ResourceType::Light, &7), Err(ApiError::NotFound(7)));
    assert_eq!(store.get_resource(ResourceType::Room, &8), Err(ApiError::NotFound(8)));
}

#[test]
fn deleted_resource_is_not_found_and_second_delete_fails() {
    let mut store = Resources::new();
    let link = store.add_resource(lamp()).unwrap();
    assert_eq!(store.delete(&link), Ok(()));
    assert_eq!(store.get_resource(link.rtype, &link.rid), Err(ApiError::NotFound(link.rid)));
    assert_eq!(store.delete(&link), Err(ApiError::NotFound(link.rid)));
    assert_eq!(store.delete(&link), Err(ApiError::NotFound(link.rid)));
    assert_eq!(store.len(), 0);
}

#[test]
fn delete_of_unknown_link_fails_and_changes_nothing() {
    let mut store = Resources::new();
    store.add_resource_with_id(7, named("Den", Body::Room)).unwrap();
    assert_eq!(store.delete(&ResourceType::Room.link_to(8)), Err(ApiError::NotFound(8)));
    assert_eq!(store.delete(&ResourceType::Light.link_to(7)), Err(ApiError::NotFound(7)));
    assert_eq!(store.len(), 1);
}

#[test]
fn delete_drops_aux_data_of_the_resource() {
    let mut store = Resources::new();
    store.add_resource_with_id(1, named("Den", Body::Room)).unwrap();
    let scene = named("Evening", Body::Scene(Scene { owner: ResourceType::Room.link_to(1) }));
    let link = store.add_resource_with_id(2, scene.clone()).unwrap();
    let aux = AuxData { topic: Some("zigbee2mqtt/scene1".to_string()), index: Some(3) };
    assert_eq!(store.set_aux(2, aux.clone()), Ok(()));
    assert_eq!(store.get_aux(2), Some(aux));
    assert_eq!(store.aux_len(), 1);
    store.delete(&link).unwrap();
    assert_eq!(store.get_aux(2), None);
    assert_eq!(store.aux_len(), 0);
    store.add_resource_with_id(2, scene).unwrap();
    assert_eq!(store.get_aux(2), None);
}

#[test]
fn aux_data_needs_its_resource_and_is_replaced() {
    let mut store = Resources::new();
    let aux = AuxData { topic: None, index: Some(1) };
    assert_eq!(store.set_aux(5, aux.clone()), Err(ApiError::NotFound(5)));
    store.add_resource_with_id(5, named("Den", Body::Room)).unwrap();
    store.set_aux(5, aux).unwrap();
    let next = AuxData { topic: Some("den".to_string()), index: None };
    store.set_aux(5, next.clone()).unwrap();
    assert_eq!(store.get_aux(5), Some(next.clone()));
    assert_eq!(store.aux_len(), 1);
    assert_eq!(store.aux_at(0).unwrap().id, 5);
    assert_eq!(store.aux_at(0).unwrap().data, next);
}

#[test]
fn delete_leaves_dangling_links_that_fail_on_dereference() {
    let mut store = Resources::new();
    let room = store.add_resource_with_id(1, named("Den", Body::Room)).unwrap();
    let group = named("Den lights", Body::GroupedLight(GroupedLight { owner: room, on: false }));
    store.add_resource_with_id(2, group.clone()).unwrap();
    store.delete(&room).unwrap();
    let kept = store.get_resource(ResourceType::GroupedLight, &2).unwrap();
    assert_eq!(kept.obj, group);
    assert_eq!(store.get_link(&room), Err(ApiError::NotFound(1)));
}

#[test]
fn listings_keep_store_order() {
    let mut store = Resources::new();
    store.add_resource_with_id(3, named("Den", Body::Room)).unwrap();
    store.add_resource_with_id(1, lamp()).unwrap();
    store.add_resource_with_id(2, named("Hall", Body::Room)).unwrap();
    let all: Vec<u128> = store.get_resources().iter().map(|r| r.id).collect();
    assert_eq!(all, vec![3, 1, 2]);
    let rooms: Vec<u128> =
        store.get_resources_by_type(ResourceType::Room).iter().map(|r| r.id).collect();
    assert_eq!(rooms, vec![3, 2]);
    assert!(store.get_resources_by_type(ResourceType::Scene).is_empty());
    assert_eq!(store.record_at(1).unwrap().id, 1);
    assert!(store.record_at(3).is_none());
    assert!(store.has_type(ResourceType::Light));
    assert!(!store.has_type(ResourceType::Device));
}

#[test]
fn find_named_gives_the_first_of_type_and_name() {
    let mut store = Resources::new();
    store.add_resource_with_id(3, named("Den", Body::Room)).unwrap();
    store.add_resource_with_id(4, named("Den", Body::Device(Device { stale: false }))).unwrap();
    store.add_resource_with_id(5, named("Den", Body::Device(Device { stale: true }))).unwrap();
    assert_eq!(store.find_named(ResourceType::Device, "Den"), Some(4));
    assert_eq!(store.find_named(ResourceType::Room, "Den"), Some(3));
    assert_eq!(store.find_named(ResourceType::Light, "Den"), None);
    assert_eq!(store.find_named(ResourceType::Room, "den"), None);
}

#[test]
fn set_body_keeps_id_name_and_type() {
    let mut store = Resources::new();
    store.add_resource_with_id(4, named("Plug", Body::Device(Device { stale: false }))).unwrap();
    assert_eq!(store.set_body(4, Body::Device(Device { stale: true })), Ok(()));
    let rec = store.get_resource(ResourceType::Device, &4).unwrap();
    assert_eq!(rec.obj, named("Plug", Body::Device(Device { stale: true })));
    assert_eq!(store.set_body(4, Body::Room), Err(ApiError::Validation));
    assert_eq!(store.set_body(9, Body::Room), Err(ApiError::NotFound(9)));
}

#[test]
fn init_adds_bridge_device_and_home_once() {
    let mut store = Resources::new();
    assert_eq!(store.bridge_home(), Err(ApiError::NotInitialized));
    assert_eq!(store.init("00:11:22:33:44:55"), Ok(()));
    assert_eq!(store.len(), 2);
    let device_id = derived_id(ResourceType::Device, "00:11:22:33:44:55");
    let home_id = derived_id(ResourceType::BridgeHome, "00:11:22:33:44:55");
    assert_eq!(store.record_at(0).unwrap().id, device_id);
    assert_eq!(
        store.record_at(0).unwrap().obj,
        named("00:11:22:33:44:55", Body::Device(Device { stale: false }))
    );
    assert_eq!(store.record_at(1).unwrap().id, home_id);
    assert_eq!(store.record_at(1).unwrap().obj, named("00:11:22:33:44:55", Body::BridgeHome));
    assert_eq!(store.bridge_home(), Ok(ResourceType::BridgeHome.link_to(home_id)));
    assert_eq!(store.init("00:11:22:33:44:55"), Err(ApiError::AlreadyInitialized));
    assert_eq!(store.init("other"), Err(ApiError::AlreadyInitialized));
    assert_eq!(store.len(), 2);
}

#[test]
fn init_with_taken_id_is_a_conflict() {
    let mut store = Resources::new();
    store.add_resource_with_id(1, named("Den", Body::Room)).unwrap();
    assert_eq!(store.init_with_ids(1, 2, "bridge"), Err(ApiError::Conflict(1)));
    assert_eq!(store.init_with_ids(2, 1, "bridge"), Err(ApiError::Conflict(1)));
    assert_eq!(store.init_with_ids(2, 2, "bridge"), Err(ApiError::Conflict(2)));
    assert_eq!(store.len(), 1);
    assert_eq!(store.init_with_ids(2, 3, "bridge"), Ok(()));
    assert_eq!(store.len(), 3);
}

#[test]
fn derived_id_is_the_name_based_uuid_of_tag_and_seed() {
    let expected = uuid::Uuid::new_v5(&uuid::Uuid::NAMESPACE_OID, b"dA").as_u128();
    assert_eq!(derived_id(ResourceType::Device, "A"), expected);
    let light = uuid::Uuid::new_v5(&uuid::Uuid::NAMESPACE_OID, "l\u{e9}".as_bytes()).as_u128();
    assert_eq!(derived_id(ResourceType::Light, "\u{e9}"), light);
    assert_ne!(derived_id(ResourceType::Device, "A"), derived_id(ResourceType::Device, "B"));
    assert_ne!(derived_id(ResourceType::Device, "A"), derived_id(ResourceType::Room, "A"));
    assert_eq!(bifrost::ident::ID_NAMESPACE, uuid::Uuid::NAMESPACE_OID.as_u128());
}

#[test]
fn assigned_ids_are_random_version_4_uuids() {
    let mut store = Resources::new();
    let a = store.add_resource(named("Den", Body::Room)).unwrap().rid;
    let b = store.add_resource(named("Den", Body::Room)).unwrap().rid;
    assert_ne!(a, b);
    assert_ne!(a, 0);
    for id in [a, b] {
        assert_eq!(uuid::Uuid::from_u128(id).get_version_num(), 4);
        assert_eq!(
            id & 0x0000_0000_0000_f000_c000_0000_0000_0000,
            0x0000_0000_0000_4000_8000_0000_0000_0000
        );
    }
}

#[test]
fn from_parts_checks_the_invariant() {
    let room = ResourceRecord { id: 1, obj: named("Den", Body::Room) };
    let twin = ResourceRecord { id: 1, obj: named("Hall", Body::Room) };
    assert!(Resources::from_parts(vec![room.clone(), twin], vec![]).is_none());
    let orphan = AuxEntry { id: 2, data: AuxData { topic: None, index: None } };
    assert!(Resources::from_parts(vec![room.clone()], vec![orphan]).is_none());
    let aux = AuxEntry { id: 1, data: AuxData { topic: None, index: Some(4) } };
    let again = AuxEntry { id: 1, data: AuxData { topic: None, index: Some(5) } };
    assert!(Resources::from_parts(vec![room.clone()], vec![aux.clone(), again]).is_none());
    let store = Resources::from_parts(vec![room.clone()], vec![aux]).unwrap();
    assert_eq!(store.get_resources(), vec![room]);
    assert_eq!(store.get_aux(1), Some(AuxData { topic: None, index: Some(4) }));
}
