use bifrost::api::{
    delete_resource_id, get_resource, get_resource_id, get_root, post_resource, put_resource_id,
    STATUS_FAILED,
};
use bifrost::dispatch::Registry;
use bifrost::error::ApiError;
use bifrost::reply::V2Reply;
use bifrost::resource::{
    AuxData, Body, Device, GroupedLight, Light, Metadata, Resource, ResourceLink, ResourceRecord,
    ResourceType, Scene, Xy,
};
use bifrost::store::Resources;
use bifrost::update::{
    plan_update, scale_brightness, translate, Command, DeviceUpdate, LightUpdate, Payload,
    SceneRecall, SceneRecallAction, SceneUpdate, UpdateRequest,
};

fn named(name: &str, body: Body) -> Resource {
    Resource { metadata: Metadata { name: name.to_string() }, body }
}

fn dark() -> Body {
    Body::Light(Light { on: false, brightness: None, color_temperature: None, color: None })
}

fn recall(action: Option<SceneRecallAction>) -> UpdateRequest {
    UpdateRequest::Scene(SceneUpdate { recall: Some(SceneRecall { action }) })
}

fn scene_store() -> Resources {
    let mut store = Resources::new();
    store.add_resource_with_id(1, named("Den", Body::Room)).unwrap();
    store
        .add_resource_with_id(2, named("Evening", Body::Scene(Scene { owner: ResourceType::Room.link_to(1) })))
        .unwrap();
    store
        .set_aux(2, AuxData { topic: Some("zigbee2mqtt/scene1".to_string()), index: Some(3) })
        .unwrap();
    store
}

#[test]
fn half_brightness_rounds_up_to_128() {
    assert_eq!(scale_brightness(5000), 128);
    let upd = LightUpdate { on: None, brightness: Some(5000), color_temperature: None, color: None };
    assert_eq!(translate(&upd).brightness, Some(128));
}

#[test]
fn brightness_scale_values() {
    assert_eq!(scale_brightness(0), 0);
    assert_eq!(scale_brightness(19), 0);
    assert_eq!(scale_brightness(20), 1);
    assert_eq!(scale_brightness(2500), 64);
    assert_eq!(scale_brightness(9980), 254);
    assert_eq!(scale_brightness(9981), 255);
    assert_eq!(scale_brightness(10000), 255);
    assert_eq!(scale_brightness(20000), 255);
    assert_eq!(scale_brightness(u16::MAX), 255);
}

#[test]
fn unset_update_gives_empty_payload() {
    let upd = LightUpdate { on: None, brightness: None, color_temperature: None, color: None };
    let out = translate(&upd);
    assert!(out.is_empty());
    assert_eq!(out, DeviceUpdate::default());
}

#[test]
fn set_fields_pass_through_and_unset_stay_out() {
    let upd = LightUpdate {
        on: Some(true),
        brightness: Some(10000),
        color_temperature: Some(366),
        color: Some(Xy { x: 3127, y: 3290 }),
    };
    assert_eq!(
        translate(&upd),
        DeviceUpdate {
            state: Some(true),
            brightness: Some(255),
            color_temp: Some(366),
            color: Some(Xy { x: 3127, y: 3290 }),
        }
    );
    let only_power = LightUpdate { on: Some(false), brightness: None, color_temperature: None, color: None };
    let out = translate(&only_power);
    assert_eq!(out, DeviceUpdate { state: Some(false), brightness: None, color_temp: None, color: None });
    assert!(!out.is_empty());
}

#[test]
fn builders_set_one_field_each() {
    let out = DeviceUpdate::default()
        .with_state(Some(true))
        .with_brightness(Some(7))
        .with_color_temp(Some(250))
        .with_color_xy(Some(Xy { x: 1, y: 2 }));
    assert_eq!(
        out,
        DeviceUpdate { state: Some(true), brightness: Some(7), color_temp: Some(250), color: Some(Xy { x: 1, y: 2 }) }
    );
    assert_eq!(out.with_brightness(None).brightness, None);
}

#[test]
fn active_scene_recall_gives_one_command_to_the_topic() {
    let store = scene_store();
    let link = ResourceType::Scene.link_to(2);
    let out = plan_update(&store, &link, &recall(Some(SceneRecallAction::Active)));
    assert_eq!(
        out,
        Ok(Some(Command { target: "zigbee2mqtt/scene1".to_string(), payload: Payload::SceneRecall(3) }))
    );
}

#[test]
fn other_or_absent_recall_gives_no_command() {
    let store = scene_store();
    let link = ResourceType::Scene.link_to(2);
    assert_eq!(plan_update(&store, &link, &recall(Some(SceneRecallAction::Static))), Ok(None));
    assert_eq!(plan_update(&store, &link, &recall(Some(SceneRecallAction::DynamicPalette))), Ok(None));
    assert_eq!(plan_update(&store, &link, &recall(None)), Ok(None));
    assert_eq!(plan_update(&store, &link, &UpdateRequest::Scene(SceneUpdate { recall: None })), Ok(None));
}

#[test]
fn scene_recall_without_broker_detail_is_not_found() {
    let mut store = scene_store();
    let link = ResourceType::Scene.link_to(2);
    store.set_aux(2, AuxData { topic: None, index: Some(3) }).unwrap();
    let active = recall(Some(SceneRecallAction::Active));
    assert_eq!(plan_update(&store, &link, &active), Err(ApiError::NotFound(2)));
    store.set_aux(2, AuxData { topic: Some("t".to_string()), index: None }).unwrap();
    assert_eq!(plan_update(&store, &link, &active), Err(ApiError::NotFound(2)));
    store
        .add_resource_with_id(3, named("Night", Body::Scene(Scene { owner: ResourceType::Room.link_to(1) })))
        .unwrap();
    assert_eq!(plan_update(&store, &ResourceType::Scene.link_to(3), &active), Err(ApiError::NotFound(3)));
    assert_eq!(plan_update(&store, &ResourceType::Scene.link_to(3), &recall(None)), Ok(None));
}

#[test]
fn light_update_is_addressed_to_the_light_by_name() {
    let mut store = Resources::new();
    store.add_resource_with_id(5, named("Lamp", dark())).unwrap();
    let upd = LightUpdate { on: Some(true), brightness: Some(5000), color_temperature: None, color: None };
    let out = plan_update(&store, &ResourceType::Light.link_to(5), &UpdateRequest::Light(upd));
    assert_eq!(
        out,
        Ok(Some(Command {
            target: "Lamp".to_string(),
            payload: Payload::Device(DeviceUpdate {
                state: Some(true),
                brightness: Some(128),
                color_temp: None,
                color: None,
            }),
        }))
    );
    let wrong = plan_update(&store, &ResourceType::Light.link_to(5), &recall(None));
    assert_eq!(wrong, Err(ApiError::Validation));
    let unknown = plan_update(&store, &ResourceType::Light.link_to(6), &UpdateRequest::Light(upd));
    assert_eq!(unknown, Err(ApiError::NotFound(6)));
}

#[test]
fn grouped_light_update_is_addressed_to_its_room() {
    let mut store = Resources::new();
    let room = store.add_resource_with_id(1, named("Den", Body::Room)).unwrap();
    store
        .add_resource_with_id(2, named("Den lights", Body::GroupedLight(GroupedLight { owner: room, on: false })))
        .unwrap();
    let upd = LightUpdate { on: Some(false), brightness: None, color_temperature: None, color: None };
    let link = ResourceType::GroupedLight.link_to(2);
    let out = plan_update(&store, &link, &UpdateRequest::Light(upd)).unwrap().unwrap();
    assert_eq!(out.target, "Den");
    assert_eq!(out.payload, Payload::Device(translate(&upd)));
    store.delete(&room).unwrap();
    assert_eq!(plan_update(&store, &link, &UpdateRequest::Light(upd)), Err(ApiError::NotFound(1)));
}

#[test]
fn update_of_other_types_is_accepted_and_silent() {
    let mut store = Resources::new();
    store.add_resource_with_id(1, named("Den", Body::Room)).unwrap();
    store.add_resource_with_id(2, named("Plug", Body::Device(Device { stale: false }))).unwrap();
    assert_eq!(plan_update(&store, &ResourceType::Room.link_to(1), &UpdateRequest::Other), Ok(None));
    assert_eq!(plan_update(&store, &ResourceType::Device.link_to(2), &recall(None)), Ok(None));
}

#[test]
fn registry_routes_to_the_first_owner() {
    let mut routes = Registry::new(2);
    assert_eq!(routes.clients(), 2);
    assert_eq!(routes.owner_of("Lamp"), None);
    assert_eq!(routes.claim(1, "Lamp".to_string()), Ok(()));
    assert_eq!(routes.claim(0, "Lamp".to_string()), Ok(()));
    assert_eq!(routes.claim(0, "Den".to_string()), Ok(()));
    assert_eq!(routes.claim(2, "Hall".to_string()), Err(ApiError::Validation));
    assert_eq!(routes.owner_of("Lamp"), Some(1));
    assert_eq!(routes.owner_of("Den"), Some(0));
    assert_eq!(routes.owner_of("Hall"), None);
    let sent = routes.send_set("Lamp", Payload::SceneRecall(3)).unwrap();
    assert_eq!(sent.client, 1);
    assert_eq!(sent.command, Command { target: "Lamp".to_string(), payload: Payload::SceneRecall(3) });
    assert_eq!(routes.send_set("Hall", Payload::SceneRecall(3)), Err(ApiError::TargetNotFound));
}

#[test]
fn put_dispatches_scene_recall_and_answers_with_the_resource() {
    let store = scene_store();
    let mut routes = Registry::new(1);
    routes.claim(0, "zigbee2mqtt/scene1".to_string()).unwrap();
    let out = put_resource_id(&store, &routes, ResourceType::Scene, 2, &recall(Some(SceneRecallAction::Active)))
        .unwrap();
    let sent = out.dispatch.unwrap();
    assert_eq!(sent.client, 0);
    assert_eq!(sent.command.target, "zigbee2mqtt/scene1");
    assert_eq!(sent.command.payload, Payload::SceneRecall(3));
    assert_eq!(out.reply.data.len(), 1);
    assert_eq!(out.reply.data[0].id, 2);
    assert!(out.reply.errors.is_empty());
    let silent = put_resource_id(&store, &routes, ResourceType::Scene, 2, &recall(None)).unwrap();
    assert_eq!(silent.dispatch, None);
    assert_eq!(silent.reply.data[0].id, 2);
}

#[test]
fn put_fails_where_no_client_owns_the_target() {
    let store = scene_store();
    let routes = Registry::new(1);
    let out = put_resource_id(&store, &routes, ResourceType::Scene, 2, &recall(Some(SceneRecallAction::Active)));
    assert_eq!(out, Err(ApiError::TargetNotFound));
    let missing = put_resource_id(&store, &routes, ResourceType::Scene, 9, &recall(None));
    assert_eq!(missing, Err(ApiError::NotFound(9)));
}

#[test]
fn post_get_delete_through_the_api() {
    let mut store = Resources::new();
    let reply = post_resource(&mut store, ResourceType::Room, named("Den", Body::Room)).unwrap();
    assert_eq!(reply.data.len(), 1);
    assert!(reply.errors.is_empty());
    let link = reply.data[0];
    assert_eq!(link.rtype, ResourceType::Room);
    let got = get_resource_id(&store, ResourceType::Room, link.rid).unwrap();
    assert_eq!(got.data, vec![ResourceRecord { id: link.rid, obj: named("Den", Body::Room) }]);
    assert_eq!(get_root(&store).data.len(), 1);
    assert_eq!(get_resource(&store, ResourceType::Room).data.len(), 1);
    assert!(get_resource(&store, ResourceType::Light).data.is_empty());
    let mismatch = post_resource(&mut store, ResourceType::Light, named("Den", Body::Room));
    assert_eq!(mismatch, Err(ApiError::Validation));
    let gone = delete_resource_id(&mut store, ResourceType::Room, link.rid).unwrap();
    assert_eq!(gone.data, vec![ResourceLink { rid: link.rid, rtype: ResourceType::Room }]);
    assert_eq!(get_resource_id(&store, ResourceType::Room, link.rid), Err(ApiError::NotFound(link.rid)));
    assert_eq!(delete_resource_id(&mut store, ResourceType::Room, link.rid), Err(ApiError::NotFound(link.rid)));
}

#[test]
fn error_response_carries_the_message_and_no_data() {
    let (status, body): (u16, V2Reply<ResourceRecord>) = ApiError::NotFound(0xab).into_response();
    assert_eq!(status, 500);
    assert_eq!(status, STATUS_FAILED);
    assert!(body.data.is_empty());
    assert_eq!(body.errors, vec!["Resource 000000000000000000000000000000ab not found".to_string()]);
}

#[test]
fn error_messages() {
    assert_eq!(ApiError::Validation.message(), "Invalid resource payload");
    assert_eq!(ApiError::TargetNotFound.message(), "No broker serves the target");
    assert_eq!(
        ApiError::Conflict(u128::MAX).message(),
        "Resource ffffffffffffffffffffffffffffffff already exists"
    );
    assert_eq!(ApiError::AlreadyInitialized.message(), "State already initialized");
    assert_eq!(ApiError::NotInitialized.message(), "State not initialized");
    assert_eq!(ApiError::Format.message(), "Malformed state");
    assert_eq!(ApiError::Protocol.message(), "Malformed broker message");
}

#[test]
fn reply_envelope_holds_data_or_errors() {
    let ok = V2Reply::ok(7u8);
    assert_eq!(ok.data, vec![7]);
    assert!(ok.errors.is_empty());
    let list = V2Reply::list(vec![1u8, 2, 3]);
    assert_eq!(list.data, vec![1, 2, 3]);
    assert!(list.errors.is_empty());
    let failed: V2Reply<u8> = V2Reply::error("boom".to_string());
    assert!(failed.data.is_empty());
    assert_eq!(failed.errors, vec!["boom".to_string()]);
}
