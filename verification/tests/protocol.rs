use bifrost::broker::{parse_event, EventKind};
use bifrost::protocol::{
    fraction_string, parse_power, parse_resource_type, power_name, render_payload,
    resource_type_name, set_topic,
};
use bifrost::resource::{ResourceType, Xy};
use bifrost::update::{translate, DeviceUpdate, LightUpdate, Payload};

const TYPES: [ResourceType; 6] = [
    ResourceType::Light,
    ResourceType::GroupedLight,
    ResourceType::Scene,
    ResourceType::Room,
    ResourceType::Device,
    ResourceType::BridgeHome,
];

#[test]
fn resource_types_are_read_back_from_their_names() {
    for rtype in TYPES {
        assert_eq!(parse_resource_type(resource_type_name(rtype)), Some(rtype));
    }
    assert_eq!(resource_type_name(ResourceType::GroupedLight), "grouped_light");
    assert_eq!(resource_type_name(ResourceType::BridgeHome), "bridge_home");
    assert_eq!(parse_resource_type("lights"), None);
    assert_eq!(parse_resource_type("Light"), None);
    assert_eq!(parse_resource_type(""), None);
}

#[test]
fn power_states_as_the_broker_spells_them() {
    assert_eq!(power_name(true), "ON");
    assert_eq!(power_name(false), "OFF");
    assert_eq!(parse_power("ON"), Some(true));
    assert_eq!(parse_power("OFF"), Some(false));
    assert_eq!(parse_power("on"), None);
    assert_eq!(parse_power("TOGGLE"), None);
}

#[test]
fn device_events() {
    assert_eq!(parse_event("device_joined"), Some(EventKind::Joined));
    assert_eq!(parse_event("device_announce"), Some(EventKind::Joined));
    assert_eq!(parse_event("device_leave"), Some(EventKind::Left));
    assert_eq!(parse_event("device_interview"), None);
}

#[test]
fn scene_recall_payload_is_exact() {
    assert_eq!(render_payload(&Payload::SceneRecall(3)), "{\"scene_recall\":3}");
    assert_eq!(render_payload(&Payload::SceneRecall(u32::MAX)), "{\"scene_recall\":4294967295}");
    let parsed: serde_json::Value =
        serde_json::from_str(&render_payload(&Payload::SceneRecall(3))).unwrap();
    assert_eq!(parsed.get("scene_recall").and_then(|v| v.as_u64()), Some(3));
    assert_eq!(parsed.as_object().map(|o| o.len()), Some(1));
}

#[test]
fn empty_device_update_is_the_empty_object() {
    assert_eq!(render_payload(&Payload::Device(DeviceUpdate::default())), "{}");
    let unset = LightUpdate { on: None, brightness: None, color_temperature: None, color: None };
    assert_eq!(render_payload(&Payload::Device(translate(&unset))), "{}");
}

#[test]
fn device_update_payload_holds_the_set_fields_only() {
    let full = DeviceUpdate {
        state: Some(true),
        brightness: Some(128),
        color_temp: Some(366),
        color: Some(Xy { x: 3127, y: 10000 }),
    };
    assert_eq!(
        render_payload(&Payload::Device(full)),
        "{\"state\":\"ON\",\"brightness\":128,\"color_temp\":366,\"color\":{\"x\":0.3127,\"y\":1.0000}}"
    );
    let some = DeviceUpdate { state: None, brightness: Some(0), color_temp: None, color: None };
    assert_eq!(render_payload(&Payload::Device(some)), "{\"brightness\":0}");
    let ends = DeviceUpdate { state: Some(false), brightness: None, color_temp: None, color: Some(Xy { x: 0, y: 5 }) };
    assert_eq!(
        render_payload(&Payload::Device(ends)),
        "{\"state\":\"OFF\",\"color\":{\"x\":0.0000,\"y\":0.0005}}"
    );
}

#[test]
fn rendered_payload_is_json() {
    let full = DeviceUpdate {
        state: Some(false),
        brightness: Some(255),
        color_temp: Some(153),
        color: Some(Xy { x: 4573, y: 4100 }),
    };
    let parsed: serde_json::Value = serde_json::from_str(&render_payload(&Payload::Device(full))).unwrap();
    assert_eq!(parsed.get("state").and_then(|v| v.as_str()), Some("OFF"));
    assert_eq!(parsed.get("brightness").and_then(|v| v.as_u64()), Some(255));
    assert_eq!(parsed.get("color_temp").and_then(|v| v.as_u64()), Some(153));
    let color = parsed.get("color").unwrap();
    assert_eq!(color.get("x").and_then(|v| v.as_f64()), Some(0.4573));
    assert_eq!(color.get("y").and_then(|v| v.as_f64()), Some(0.41));
}

#[test]
fn fractions_have_four_places() {
    assert_eq!(fraction_string(0), "0.0000");
    assert_eq!(fraction_string(9999), "0.9999");
    assert_eq!(fraction_string(10001), "1.0001");
    assert_eq!(fraction_string(u32::MAX), "429496.7295");
}

#[test]
fn commands_are_published_under_the_set_topic() {
    assert_eq!(set_topic("Lamp"), "Lamp/set");
    assert_eq!(set_topic(""), "/set");
}
