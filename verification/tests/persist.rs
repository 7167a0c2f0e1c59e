use bifrost::error::ApiError;
use bifrost::ident::derived_id;
use bifrost::persist::{self, load_state, read};
use bifrost::resource::{
    AuxData, Body, Device, GroupedLight, Light, Metadata, Resource, ResourceRecord, ResourceType,
    Scene, Xy,
};
use bifrost::store::Resources;

fn named(name: &str, body: Body) -> Resource {
    Resource { metadata: Metadata { name: name.to_string() }, body }
}

fn full_store() -> Resources {
    let mut store = Resources::new();
    store.init("00:11:22:33:44:55").unwrap();
    let room = store.add_resource_with_id(0x10, named("Wohnzimmer gr\u{fc}n", Body::Room)).unwrap();
    store
        .add_resource_with_id(
            0x11,
            named(
                "Lamp",
                Body::Light(Light {
                    on: true,
                    brightness: Some(5000),
                    color_temperature: None,
                    color: Some(Xy { x: 3127, y: u32::MAX }),
                }),
            ),
        )
        .unwrap();
    store
        .add_resource_with_id(
            u128::MAX,
            named("", Body::Light(Light { on: false, brightness: None, color_temperature: Some(500), color: None })),
        )
        .unwrap();
    store
        .add_resource_with_id(0x12, named("All", Body::GroupedLight(GroupedLight { owner: room, on: true })))
        .unwrap();
    store.add_resource_with_id(0x13, named("Evening\nlate", Body::Scene(Scene { owner: room }))).unwrap();
    store.add_resource_with_id(0x14, named("Plug", Body::Device(Device { stale: true }))).unwrap();
    store.set_aux(0x13, AuxData { topic: Some("zigbee2mqtt/scene1".to_string()), index: Some(3) }).unwrap();
    store.set_aux(0x10, AuxData { topic: None, index: None }).unwrap();
    store
}

fn aux_of(store: &Resources) -> Vec<(u128, AuxData)> {
    (0..store.aux_len()).map(|i| (store.aux_at(i).unwrap().id, store.aux_at(i).unwrap().data.clone())).collect()
}

#[test]
fn written_store_reads_back_equal() {
    let store = full_store();
    let bytes = persist::write(&store);
    let back = read(&bytes).unwrap();
    assert_eq!(back.get_resources(), store.get_resources());
    assert_eq!(aux_of(&back), aux_of(&store));
    assert_eq!(persist::write(&back), bytes);
}

#[test]
fn empty_store_round_trips() {
    let store = Resources::new();
    let bytes = persist::write(&store);
    assert_eq!(bytes, b"bifrost-state 1\nrecords=0000000000000000\naux=0000000000000000\n".to_vec());
    let back = read(&bytes).unwrap();
    assert_eq!(back.len(), 0);
    assert_eq!(back.aux_len(), 0);
}

#[test]
fn persisted_form_is_exact() {
    let mut store = Resources::new();
    store.add_resource_with_id(1, named("Den", Body::Room)).unwrap();
    store
        .add_resource_with_id(
            2,
            named(
                "L",
                Body::Light(Light {
                    on: true,
                    brightness: Some(5000),
                    color_temperature: None,
                    color: Some(Xy { x: 1, y: 2 }),
                }),
            ),
        )
        .unwrap();
    store
        .add_resource_with_id(3, named("S", Body::Scene(Scene { owner: ResourceType::Room.link_to(1) })))
        .unwrap();
    store.set_aux(3, AuxData { topic: Some("t/1".to_string()), index: Some(3) }).unwrap();
    let expected = concat_lines(&[
        "bifrost-state 1",
        "records=0000000000000003",
        "id=00000000000000000000000000000001 name=0000000000000003:Den type=R",
        "id=00000000000000000000000000000002 name=0000000000000001:L type=L on=1 brightness=1388 color_temperature=- color=00000001,00000002",
        "id=00000000000000000000000000000003 name=0000000000000001:S type=S owner=R00000000000000000000000000000001",
        "aux=0000000000000001",
        "id=00000000000000000000000000000003 topic=0000000000000003:t/1 index=00000003",
    ]);
    assert_eq!(String::from_utf8(persist::write(&store)).unwrap(), expected);
}

fn concat_lines(lines: &[&str]) -> String {
    let mut out = String::new();
    for line in lines {
        out.push_str(line);
        out.push('\n');
    }
    out
}

#[test]
fn hand_written_state_is_read() {
    let text = concat_lines(&[
        "bifrost-state 1",
        "records=0000000000000003",
        "id=0000000000000000000000000000000a name=0000000000000003:Den type=R",
        "id=0000000000000000000000000000000b name=0000000000000004:Plug type=D stale=0",
        "id=0000000000000000000000000000000c name=0000000000000003:All type=G owner=R0000000000000000000000000000000a on=1",
        "aux=0000000000000001",
        "id=0000000000000000000000000000000b topic=- index=0000002a",
    ]);
    let store = read(text.as_bytes()).unwrap();
    assert_eq!(
        store.get_resources(),
        vec![
            ResourceRecord { id: 10, obj: named("Den", Body::Room) },
            ResourceRecord { id: 11, obj: named("Plug", Body::Device(Device { stale: false })) },
            ResourceRecord {
                id: 12,
                obj: named(
                    "All",
                    Body::GroupedLight(GroupedLight { owner: ResourceType::Room.link_to(10), on: true })
                ),
            },
        ]
    );
    assert_eq!(store.get_aux(11), Some(AuxData { topic: None, index: Some(42) }));
}

#[test]
fn malformed_state_is_a_format_error() {
    let good = persist::write(&full_store());
    assert!(read(&good).is_ok());
    assert_eq!(read(b"").err(), Some(ApiError::Format));
    assert_eq!(read(b"bifrost-state 2\n").err(), Some(ApiError::Format));
    assert_eq!(read(&good[..good.len() - 1]).err(), Some(ApiError::Format));
    let mut trailing = good.clone();
    trailing.push(b'\n');
    assert_eq!(read(&trailing).err(), Some(ApiError::Format));
    for at in 0..good.len() {
        let mut cut = good.clone();
        cut.truncate(at);
        assert_eq!(read(&cut).err(), Some(ApiError::Format));
    }
    let mut upper = good.clone();
    upper[16 + 8 + 15] = b'A';
    assert_eq!(read(&upper).err(), Some(ApiError::Format));
    let renamed = String::from_utf8(good.clone()).unwrap().replacen(" name=", " NAME=", 1);
    assert_eq!(read(renamed.as_bytes()).err(), Some(ApiError::Format));
}

#[test]
fn state_with_invalid_utf8_name_is_a_format_error() {
    let mut text = b"bifrost-state 1\nrecords=0000000000000001\n".to_vec();
    text.extend_from_slice(b"id=0000000000000000000000000000000a name=0000000000000002:");
    text.extend_from_slice(&[0xc3, 0x28]);
    text.extend_from_slice(b" type=R\naux=0000000000000000\n");
    assert_eq!(read(&text).err(), Some(ApiError::Format));
    let mut fine = b"bifrost-state 1\nrecords=0000000000000001\n".to_vec();
    fine.extend_from_slice(b"id=0000000000000000000000000000000a name=0000000000000002:");
    fine.extend_from_slice(&[0xc3, 0xa9]);
    fine.extend_from_slice(b" type=R\naux=0000000000000000\n");
    assert_eq!(read(&fine).unwrap().record_at(0).unwrap().obj, named("\u{e9}", Body::Room));
}

#[test]
fn state_that_breaks_the_invariant_is_a_format_error() {
    let twice = concat_lines(&[
        "bifrost-state 1",
        "records=0000000000000002",
        "id=0000000000000000000000000000000a name=0000000000000003:Den type=R",
        "id=0000000000000000000000000000000a name=0000000000000004:Hall type=R",
        "aux=0000000000000000",
    ]);
    assert_eq!(read(twice.as_bytes()).err(), Some(ApiError::Format));
    let orphan = concat_lines(&[
        "bifrost-state 1",
        "records=0000000000000001",
        "id=0000000000000000000000000000000a name=0000000000000003:Den type=R",
        "aux=0000000000000001",
        "id=0000000000000000000000000000000b topic=- index=-",
    ]);
    assert_eq!(read(orphan.as_bytes()).err(), Some(ApiError::Format));
    let too_bright = concat_lines(&[
        "bifrost-state 1",
        "records=0000000000000001",
        "id=0000000000000000000000000000000a name=0000000000000001:L type=L on=1 brightness=2711 color_temperature=- color=-",
        "aux=0000000000000000",
    ]);
    assert_eq!(read(too_bright.as_bytes()).err(), Some(ApiError::Format));
    let bright = concat_lines(&[
        "bifrost-state 1",
        "records=0000000000000001",
        "id=0000000000000000000000000000000a name=0000000000000001:L type=L on=1 brightness=2710 color_temperature=- color=-",
        "aux=0000000000000000",
    ]);
    assert!(read(bright.as_bytes()).is_ok());
}

#[test]
fn load_state_reads_or_initialises() {
    let store = full_store();
    let bytes = persist::write(&store);
    let loaded = load_state(Some(&bytes), "ignored").unwrap();
    assert_eq!(loaded.get_resources(), store.get_resources());
    let fresh = load_state(None, "00:11:22:33:44:55").unwrap();
    assert_eq!(fresh.len(), 2);
    assert_eq!(fresh.record_at(1).unwrap().id, derived_id(ResourceType::BridgeHome, "00:11:22:33:44:55"));
    assert_eq!(load_state(Some(b"junk"), "id").err(), Some(ApiError::Format));
}

#[test]
fn store_reads_in_place_and_keeps_itself_on_failure() {
    let source = full_store();
    let bytes = source.write();
    assert_eq!(bytes, persist::write(&source));
    let mut store = Resources::new();
    store.add_resource_with_id(99, named("Old", Body::Room)).unwrap();
    assert_eq!(store.read(b"bifrost-state 1\njunk"), Err(ApiError::Format));
    assert_eq!(store.len(), 1);
    assert_eq!(store.record_at(0).unwrap().id, 99);
    assert_eq!(store.read(&bytes), Ok(()));
    assert_eq!(store.get_resources(), source.get_resources());
    assert_eq!(aux_of(&store), aux_of(&source));
    assert!(!store.contains(99));
}
