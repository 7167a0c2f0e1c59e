use bifrost::broker::{
    apply, apply_device_event, apply_light_state, brightness_percent, classify, contains_name,
    decode, merge_light, receive, reconcile_devices, reconcile_groups, BrokerGroup, BrokerScene,
    EventKind, FrameBody, Message, MessageKind,
};
use bifrost::resource::{AuxData, Scene};
use bifrost::update::{
    plan_update, Command, Payload, SceneRecall, SceneRecallAction, SceneUpdate, UpdateRequest,
};
use bifrost::error::ApiError;
use bifrost::ident::derived_id;
use bifrost::resource::{
    Body, Device, GroupedLight, Light, Metadata, Resource, ResourceType, Xy,
};
use bifrost::store::Resources;
use bifrost::update::{scale_brightness, DeviceUpdate};

fn named(name: &str, body: Body) -> Resource {
    Resource { metadata: Metadata { name: name.to_string() }, body }
}

fn device(stale: bool) -> Body {
    Body::Device(Device { stale })
}

fn names(list: &[&str]) -> Vec<String> {
    list.iter().map(|n| n.to_string()).collect()
}

fn groups(list: &[&str]) -> Vec<BrokerGroup> {
    list.iter().map(|n| BrokerGroup { name: n.to_string(), scenes: Vec::new() }).collect()
}

#[test]
fn known_discriminants_are_classified() {
    assert_eq!(classify("bridge-info"), Some(MessageKind::BridgeInfo));
    assert_eq!(classify("bridge-logging"), Some(MessageKind::BridgeLogging));
    assert_eq!(classify("bridge-extensions"), Some(MessageKind::BridgeExtensions));
    assert_eq!(classify("bridge-devices"), Some(MessageKind::BridgeDevices));
    assert_eq!(classify("bridge-groups"), Some(MessageKind::BridgeGroups));
    assert_eq!(classify("bridge-definitions"), Some(MessageKind::BridgeDefinitions));
    assert_eq!(classify("bridge-state"), Some(MessageKind::BridgeState));
    assert_eq!(classify("bridge-event"), Some(MessageKind::BridgeEvent));
}

#[test]
fn unknown_discriminants_are_skipped() {
    assert_eq!(classify(""), None);
    assert_eq!(classify("bridge-info "), None);
    assert_eq!(classify("Bridge-Info"), None);
    assert_eq!(classify("bridge-unknown"), None);
}

#[test]
fn absent_device_is_kept_and_marked_stale() {
    let mut store = Resources::new();
    store.add_resource_with_id(1, named("A", device(false))).unwrap();
    reconcile_devices(&mut store, &names(&["B"]));
    assert_eq!(store.len(), 2);
    assert_eq!(store.record_at(0).unwrap().id, 1);
    assert_eq!(store.record_at(0).unwrap().obj, named("A", device(true)));
    assert_eq!(store.record_at(1).unwrap().id, derived_id(ResourceType::Device, "B"));
    assert_eq!(store.record_at(1).unwrap().obj, named("B", device(false)));
}

#[test]
fn returning_device_is_fresh_again() {
    let mut store = Resources::new();
    store.add_resource_with_id(1, named("A", device(false))).unwrap();
    reconcile_devices(&mut store, &names(&[]));
    assert_eq!(store.record_at(0).unwrap().obj, named("A", device(true)));
    reconcile_devices(&mut store, &names(&["A", "A"]));
    assert_eq!(store.len(), 1);
    assert_eq!(store.record_at(0).unwrap().obj, named("A", device(false)));
}

#[test]
fn reconcile_touches_devices_only() {
    let mut store = Resources::new();
    store.add_resource_with_id(1, named("A", Body::Room)).unwrap();
    store.add_resource_with_id(2, named("A", device(false))).unwrap();
    reconcile_devices(&mut store, &names(&["C"]));
    assert_eq!(store.record_at(0).unwrap().obj, named("A", Body::Room));
    assert_eq!(store.record_at(1).unwrap().obj, named("A", device(true)));
    assert_eq!(store.len(), 3);
}

#[test]
fn device_with_taken_id_is_skipped() {
    let mut store = Resources::new();
    let id = derived_id(ResourceType::Device, "B");
    store.add_resource_with_id(id, named("squatter", Body::Room)).unwrap();
    reconcile_devices(&mut store, &names(&["B"]));
    assert_eq!(store.len(), 1);
    assert_eq!(store.record_at(0).unwrap().obj, named("squatter", Body::Room));
}

#[test]
fn groups_become_rooms_with_their_grouped_light() {
    let mut store = Resources::new();
    reconcile_groups(&mut store, &groups(&["Den", "Den"]));
    assert_eq!(store.len(), 2);
    let room_id = derived_id(ResourceType::Room, "Den");
    assert_eq!(store.record_at(0).unwrap().id, room_id);
    assert_eq!(store.record_at(0).unwrap().obj, named("Den", Body::Room));
    assert_eq!(store.record_at(1).unwrap().id, derived_id(ResourceType::GroupedLight, "Den"));
    assert_eq!(
        store.record_at(1).unwrap().obj,
        named(
            "Den",
            Body::GroupedLight(GroupedLight { owner: ResourceType::Room.link_to(room_id), on: false })
        )
    );
    reconcile_groups(&mut store, &groups(&["Hall"]));
    assert_eq!(store.len(), 4);
}

#[test]
fn state_report_creates_then_updates_a_light() {
    let mut store = Resources::new();
    let first = DeviceUpdate { state: Some(true), brightness: Some(128), color_temp: None, color: None };
    apply_light_state(&mut store, "Lamp", &first);
    assert_eq!(store.len(), 1);
    assert_eq!(store.record_at(0).unwrap().id, derived_id(ResourceType::Light, "Lamp"));
    assert_eq!(
        store.record_at(0).unwrap().obj,
        named(
            "Lamp",
            Body::Light(Light { on: true, brightness: Some(5020), color_temperature: None, color: None })
        )
    );
    let second = DeviceUpdate {
        state: None,
        brightness: None,
        color_temp: Some(366),
        color: Some(Xy { x: 3127, y: 3290 }),
    };
    apply_light_state(&mut store, "Lamp", &second);
    assert_eq!(store.len(), 1);
    assert_eq!(
        store.record_at(0).unwrap().obj,
        named(
            "Lamp",
            Body::Light(Light {
                on: true,
                brightness: Some(5020),
                color_temperature: Some(366),
                color: Some(Xy { x: 3127, y: 3290 }),
            })
        )
    );
}

#[test]
fn broker_brightness_in_percent() {
    assert_eq!(brightness_percent(0), 0);
    assert_eq!(brightness_percent(1), 39);
    assert_eq!(brightness_percent(127), 4980);
    assert_eq!(brightness_percent(128), 5020);
    assert_eq!(brightness_percent(254), 9961);
    assert_eq!(brightness_percent(255), 10000);
}

#[test]
fn reported_brightness_is_sent_back_unchanged() {
    for level in 0..=255u8 {
        assert_eq!(scale_brightness(brightness_percent(level)), level);
    }
}

#[test]
fn merge_keeps_what_the_report_leaves_out() {
    let light = Light { on: true, brightness: Some(100), color_temperature: Some(200), color: None };
    let nothing = DeviceUpdate::default();
    assert_eq!(merge_light(light, &nothing), light);
    let off = DeviceUpdate { state: Some(false), brightness: Some(255), color_temp: None, color: None };
    assert_eq!(
        merge_light(light, &off),
        Light { on: false, brightness: Some(10000), color_temperature: Some(200), color: None }
    );
}

#[test]
fn device_events_mark_and_create() {
    let mut store = Resources::new();
    apply_device_event(&mut store, "Plug", EventKind::Left);
    assert_eq!(store.len(), 0);
    apply_device_event(&mut store, "Plug", EventKind::Joined);
    assert_eq!(store.len(), 1);
    assert_eq!(store.record_at(0).unwrap().id, derived_id(ResourceType::Device, "Plug"));
    assert_eq!(store.record_at(0).unwrap().obj, named("Plug", device(false)));
    apply_device_event(&mut store, "Plug", EventKind::Left);
    assert_eq!(store.record_at(0).unwrap().obj, named("Plug", device(true)));
    apply_device_event(&mut store, "Plug", EventKind::Joined);
    assert_eq!(store.record_at(0).unwrap().obj, named("Plug", device(false)));
    assert_eq!(store.len(), 1);
}

#[test]
fn apply_tells_when_the_store_grew() {
    let mut store = Resources::new();
    assert!(!apply(&mut store, &Message::BridgeInfo));
    assert!(!apply(&mut store, &Message::BridgeLogging));
    assert!(!apply(&mut store, &Message::BridgeExtensions));
    assert!(!apply(&mut store, &Message::BridgeDefinitions));
    assert_eq!(store.len(), 0);
    assert!(apply(&mut store, &Message::BridgeDevices(names(&["A", "B"]))));
    assert_eq!(store.len(), 2);
    assert!(!apply(&mut store, &Message::BridgeDevices(names(&["A"]))));
    assert_eq!(store.record_at(1).unwrap().obj, named("B", device(true)));
    assert!(apply(&mut store, &Message::BridgeGroups(groups(&["Den"]))));
    assert_eq!(store.len(), 4);
    let state = DeviceUpdate { state: Some(true), brightness: None, color_temp: None, color: None };
    assert!(apply(&mut store, &Message::BridgeState { device: "Lamp".to_string(), state }));
    assert!(!apply(&mut store, &Message::BridgeState { device: "Lamp".to_string(), state }));
    assert!(!apply(&mut store, &Message::BridgeEvent { device: "B".to_string(), kind: EventKind::Joined }));
    assert_eq!(store.record_at(1).unwrap().obj, named("B", device(false)));
    assert_eq!(store.len(), 5);
}

#[test]
fn message_kinds() {
    assert_eq!(Message::BridgeInfo.kind(), MessageKind::BridgeInfo);
    assert_eq!(Message::BridgeDevices(vec![]).kind(), MessageKind::BridgeDevices);
    assert_eq!(Message::BridgeGroups(Vec::new()).kind(), MessageKind::BridgeGroups);
    let state = DeviceUpdate::default();
    assert_eq!(Message::BridgeState { device: String::new(), state }.kind(), MessageKind::BridgeState);
    assert_eq!(
        Message::BridgeEvent { device: String::new(), kind: EventKind::Left }.kind(),
        MessageKind::BridgeEvent
    );
}

#[test]
fn name_lists() {
    assert!(contains_name(&names(&["A", "B"]), "B"));
    assert!(!contains_name(&names(&["A", "B"]), "b"));
    assert!(!contains_name(&names(&[]), ""));
}

#[test]
fn frames_are_decoded_by_kind_and_shape() {
    assert_eq!(decode("bridge-info", FrameBody::Nothing), Ok(Message::BridgeInfo));
    assert_eq!(decode("bridge-logging", FrameBody::Names(names(&["x"]))), Ok(Message::BridgeLogging));
    assert_eq!(decode("bridge-extensions", FrameBody::Nothing), Ok(Message::BridgeExtensions));
    assert_eq!(decode("bridge-definitions", FrameBody::Nothing), Ok(Message::BridgeDefinitions));
    assert_eq!(
        decode("bridge-devices", FrameBody::Names(names(&["A", "B"]))),
        Ok(Message::BridgeDevices(names(&["A", "B"])))
    );
    assert_eq!(decode("bridge-groups", FrameBody::Names(names(&[]))), Ok(Message::BridgeGroups(groups(&[]))));
    assert_eq!(
        decode("bridge-groups", FrameBody::Names(names(&["Den", "Hall"]))),
        Ok(Message::BridgeGroups(groups(&["Den", "Hall"])))
    );
    let listed = vec![BrokerGroup {
        name: "Den".to_string(),
        scenes: vec![BrokerScene { index: 3, name: "Evening".to_string() }],
    }];
    assert_eq!(
        decode("bridge-groups", FrameBody::Groups(listed)),
        Ok(Message::BridgeGroups(vec![BrokerGroup {
            name: "Den".to_string(),
            scenes: vec![BrokerScene { index: 3, name: "Evening".to_string() }],
        }]))
    );
    assert_eq!(decode("bridge-devices", FrameBody::Groups(groups(&["Den"]))), Err(ApiError::Protocol));
    let state = DeviceUpdate { state: Some(true), brightness: None, color_temp: None, color: None };
    assert_eq!(
        decode("bridge-state", FrameBody::State { device: "Lamp".to_string(), state }),
        Ok(Message::BridgeState { device: "Lamp".to_string(), state })
    );
    assert_eq!(
        decode(
            "bridge-event",
            FrameBody::Event { device: "Plug".to_string(), event: "device_leave".to_string() }
        ),
        Ok(Message::BridgeEvent { device: "Plug".to_string(), kind: EventKind::Left })
    );
}

#[test]
fn malformed_frames_are_protocol_errors() {
    assert_eq!(decode("bridge-nothing", FrameBody::Nothing), Err(ApiError::Protocol));
    assert_eq!(decode("", FrameBody::Names(names(&["A"]))), Err(ApiError::Protocol));
    assert_eq!(decode("bridge-devices", FrameBody::Nothing), Err(ApiError::Protocol));
    let state = DeviceUpdate::default();
    assert_eq!(
        decode("bridge-groups", FrameBody::State { device: "Lamp".to_string(), state }),
        Err(ApiError::Protocol)
    );
    assert_eq!(decode("bridge-state", FrameBody::Names(names(&["A"]))), Err(ApiError::Protocol));
    assert_eq!(
        decode(
            "bridge-event",
            FrameBody::Event { device: "Plug".to_string(), event: "device_interview".to_string() }
        ),
        Err(ApiError::Protocol)
    );
}

#[test]
fn malformed_frame_leaves_the_store_and_the_next_frame_is_taken() {
    let mut store = Resources::new();
    assert_eq!(receive(&mut store, "bridge-devices", FrameBody::Names(names(&["A"]))), Ok(true));
    assert_eq!(receive(&mut store, "bridge-devices", FrameBody::Nothing), Err(ApiError::Protocol));
    assert_eq!(receive(&mut store, "garbage", FrameBody::Names(names(&["B"]))), Err(ApiError::Protocol));
    assert_eq!(store.len(), 1);
    assert_eq!(store.record_at(0).unwrap().obj, named("A", device(false)));
    assert_eq!(receive(&mut store, "bridge-devices", FrameBody::Names(names(&["A"]))), Ok(false));
    assert_eq!(receive(&mut store, "bridge-info", FrameBody::Nothing), Ok(false));
    assert_eq!(receive(&mut store, "bridge-devices", FrameBody::Names(names(&["B"]))), Ok(true));
    assert_eq!(store.record_at(0).unwrap().obj, named("A", device(true)));
}

#[test]
fn listed_scene_is_created_with_the_detail_that_recalls_it() {
    let mut store = Resources::new();
    let listed = vec![BrokerGroup {
        name: "Den".to_string(),
        scenes: vec![
            BrokerScene { index: 3, name: "Evening".to_string() },
            BrokerScene { index: 4, name: "Night".to_string() },
            BrokerScene { index: 3, name: "Evening again".to_string() },
        ],
    }];
    reconcile_groups(&mut store, &listed);
    assert_eq!(store.len(), 4);
    let room_id = derived_id(ResourceType::Room, "Den");
    let scene_id = derived_id(ResourceType::Scene, "Den/3");
    assert_eq!(store.record_at(2).unwrap().id, scene_id);
    assert_eq!(
        store.record_at(2).unwrap().obj,
        named("Evening", Body::Scene(Scene { owner: ResourceType::Room.link_to(room_id) }))
    );
    assert_eq!(store.record_at(3).unwrap().id, derived_id(ResourceType::Scene, "Den/4"));
    assert_eq!(store.get_aux(scene_id), Some(AuxData { topic: Some("Den".to_string()), index: Some(3) }));
    let active = UpdateRequest::Scene(SceneUpdate {
        recall: Some(SceneRecall { action: Some(SceneRecallAction::Active) }),
    });
    assert_eq!(
        plan_update(&store, &ResourceType::Scene.link_to(scene_id), &active),
        Ok(Some(Command { target: "Den".to_string(), payload: Payload::SceneRecall(3) }))
    );
    reconcile_groups(&mut store, &listed);
    assert_eq!(store.len(), 4);
    assert_eq!(store.aux_len(), 2);
}
