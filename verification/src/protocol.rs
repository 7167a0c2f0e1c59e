use vstd::prelude::*;
use vstd::string::*;

use crate::codec::{ascii_chars, ascii_string, decimal_string, decimal_text};
use crate::resource::{ResourceType, Xy};
use crate::text::str_eq;
use crate::update::{DeviceUpdate, Payload};

verus! {

/// The name of a resource type in the paths of the API.
pub open spec fn name_of_type(rtype: ResourceType) -> Seq<char> {
    match rtype {
        ResourceType::Light => "light"@,
        ResourceType::GroupedLight => "grouped_light"@,
        ResourceType::Scene => "scene"@,
        ResourceType::Room => "room"@,
        ResourceType::Device => "device"@,
        ResourceType::BridgeHome => "bridge_home"@,
    }
}

/// The resource type that a name in a path of the API stands for.
pub open spec fn named_type(name: Seq<char>) -> Option<ResourceType> {
    if name == "light"@ {
        Some(ResourceType::Light)
    } else if name == "grouped_light"@ {
        Some(ResourceType::GroupedLight)
    } else if name == "scene"@ {
        Some(ResourceType::Scene)
    } else if name == "room"@ {
        Some(ResourceType::Room)
    } else if name == "device"@ {
        Some(ResourceType::Device)
    } else if name == "bridge_home"@ {
        Some(ResourceType::BridgeHome)
    } else {
        None
    }
}

/// Spells a resource type as the paths of the API do.
pub fn resource_type_name(rtype: ResourceType) -> (name: &'static str)
    ensures
        name@ == name_of_type(rtype),
{
    match rtype {
        ResourceType::Light => "light",
        ResourceType::GroupedLight => "grouped_light",
        ResourceType::Scene => "scene",
        ResourceType::Room => "room",
        ResourceType::Device => "device",
        ResourceType::BridgeHome => "bridge_home",
    }
}

/// Reads a resource type from a path of the API. `None` for a name that
/// stands for no type.
pub fn parse_resource_type(name: &str) -> (rtype: Option<ResourceType>)
    ensures
        rtype == named_type(name@),
{
    if str_eq(name, "light") {
        Some(ResourceType::Light)
    } else if str_eq(name, "grouped_light") {
        Some(ResourceType::GroupedLight)
    } else if str_eq(name, "scene") {
        Some(ResourceType::Scene)
    } else if str_eq(name, "room") {
        Some(ResourceType::Room)
    } else if str_eq(name, "device") {
        Some(ResourceType::Device)
    } else if str_eq(name, "bridge_home") {
        Some(ResourceType::BridgeHome)
    } else {
        None
    }
}

/// Every resource type is read back from its own name.
pub proof fn lemma_type_names_are_distinct(rtype: ResourceType)
    ensures
        named_type(name_of_type(rtype)) == Some(rtype),
{
    reveal_strlit("light");
    reveal_strlit("grouped_light");
    reveal_strlit("scene");
    reveal_strlit("room");
    reveal_strlit("device");
    reveal_strlit("bridge_home");
    assert("light"@.len() == 5);
    assert("grouped_light"@.len() == 13);
    assert("scene"@.len() == 5);
    assert("room"@.len() == 4);
    assert("device"@.len() == 6);
    assert("bridge_home"@.len() == 11);
    assert("light"@[0] == 'l');
    assert("scene"@[0] == 's');
}

/// How the broker spells a power state.
pub open spec fn power_text(on: bool) -> Seq<char> {
    if on {
        "ON"@
    } else {
        "OFF"@
    }
}

/// The power state that a text of the broker stands for.
pub open spec fn power_of(text: Seq<char>) -> Option<bool> {
    if text == "ON"@ {
        Some(true)
    } else if text == "OFF"@ {
        Some(false)
    } else {
        None
    }
}

/// Spells a power state as the broker does.
pub fn power_name(on: bool) -> (name: &'static str)
    ensures
        name@ == power_text(on),
{
    if on {
        "ON"
    } else {
        "OFF"
    }
}

/// Reads a power state as the broker spells it.
pub fn parse_power(text: &str) -> (on: Option<bool>)
    ensures
        on == power_of(text@),
{
    if str_eq(text, "ON") {
        Some(true)
    } else if str_eq(text, "OFF") {
        Some(false)
    } else {
        None
    }
}

/// A power state is read back from its own spelling.
pub proof fn lemma_power_round_trip(on: bool)
    ensures
        power_of(power_text(on)) == Some(on),
{
    reveal_strlit("ON");
    reveal_strlit("OFF");
    assert("ON"@.len() == 2);
    assert("OFF"@.len() == 3);
}

/// The topic under which a command for a target is published.
pub open spec fn set_topic_text(target: Seq<char>) -> Seq<char> {
    target + "/set"@
}

/// Names the topic under which a command for a target is published.
pub fn set_topic(target: &str) -> (topic: String)
    ensures
        topic@ == set_topic_text(target@),
{
    let mut topic = String::from_str(target);
    topic.append("/set");
    topic
}

/// The four decimal digits of a number below 10000, with leading zeros.
pub open spec fn four_digits(n: nat) -> Seq<u8> {
    seq![
        (0x30 + n / 1000 % 10) as u8,
        (0x30 + n / 100 % 10) as u8,
        (0x30 + n / 10 % 10) as u8,
        (0x30 + n % 10) as u8,
    ]
}

/// A number of ten-thousandths as a decimal fraction with four places.
pub open spec fn fraction_text(n: u32) -> Seq<char> {
    decimal_text((n / 10000) as nat) + "."@ + ascii_chars(four_digits((n % 10000) as nat))
}

/// Spells a number of ten-thousandths as a decimal fraction.
pub fn fraction_string(n: u32) -> (s: String)
    ensures
        s@ == fraction_text(n),
{
    let whole = decimal_string((n / 10000) as u64);
    let rest: u32 = n % 10000;
    let mut digits: Vec<u8> = Vec::new();
    digits.push(0x30 + (rest / 1000 % 10) as u8);
    digits.push(0x30 + (rest / 100 % 10) as u8);
    digits.push(0x30 + (rest / 10 % 10) as u8);
    digits.push(0x30 + (rest % 10) as u8);
    assert(digits@ =~= four_digits(rest as nat));
    let places = ascii_string(digits);
    let mut s = whole;
    s.append(".");
    s.append(places.as_str());
    s
}

/// A chromaticity as a JSON object of its two coordinates.
pub open spec fn xy_text(xy: Xy) -> Seq<char> {
    "{\"x\":"@ + fraction_text(xy.x) + ",\"y\":"@ + fraction_text(xy.y) + "}"@
}

fn xy_string(xy: Xy) -> (s: String)
    ensures
        s@ == xy_text(xy),
{
    let x = fraction_string(xy.x);
    let y = fraction_string(xy.y);
    let mut s = String::from_str("{\"x\":");
    s.append(x.as_str());
    s.append(",\"y\":");
    s.append(y.as_str());
    s.append("}");
    s
}

pub open spec fn state_field(on: bool) -> Seq<char> {
    "\"state\":\""@ + power_text(on) + "\""@
}

pub open spec fn brightness_field(level: u8) -> Seq<char> {
    "\"brightness\":"@ + decimal_text(level as nat)
}

pub open spec fn color_temp_field(mirek: u16) -> Seq<char> {
    "\"color_temp\":"@ + decimal_text(mirek as nat)
}

pub open spec fn color_field(xy: Xy) -> Seq<char> {
    "\"color\":"@ + xy_text(xy)
}

/// The fields of a device update's payload: one for each field that is set,
/// none for one that is not.
pub open spec fn device_fields(upd: DeviceUpdate) -> Seq<Seq<char>> {
    (match upd.state {
        Some(on) => seq![state_field(on)],
        None => Seq::empty(),
    }) + (match upd.brightness {
        Some(level) => seq![brightness_field(level)],
        None => Seq::empty(),
    }) + (match upd.color_temp {
        Some(mirek) => seq![color_temp_field(mirek)],
        None => Seq::empty(),
    }) + (match upd.color {
        Some(xy) => seq![color_field(xy)],
        None => Seq::empty(),
    })
}

/// Texts with a comma between each two of them.
pub open spec fn joined(parts: Seq<Seq<char>>) -> Seq<char>
    decreases parts.len(),
{
    if parts.len() == 0 {
        Seq::empty()
    } else if parts.len() == 1 {
        parts[0]
    } else {
        joined(parts.drop_last()) + ","@ + parts.last()
    }
}

/// The JSON text of a payload. A device update is an object of the fields
/// that are set; with none set it is the empty object. A scene recall is an
/// object of the scene's index alone.
pub open spec fn payload_text(p: Payload) -> Seq<char> {
    match p {
        Payload::Device(upd) => "{"@ + joined(device_fields(upd)) + "}"@,
        Payload::SceneRecall(index) => "{\"scene_recall\":"@ + decimal_text(index as nat) + "}"@,
    }
}

/// The texts that a list of strings holds.
pub open spec fn part_views(parts: Seq<String>) -> Seq<Seq<char>> {
    parts.map_values(|p: String| p@)
}

fn join(parts: &Vec<String>) -> (out: String)
    ensures
        out@ == joined(part_views(parts@)),
{
    let ghost views = part_views(parts@);
    let mut out = String::new();
    let mut i: usize = 0;
    assert(views.take(0) =~= Seq::<Seq<char>>::empty());
    while i < parts.len()
        invariant
            i <= parts.len(),
            views == part_views(parts@),
            out@ == joined(views.take(i as int)),
        decreases parts.len() - i,
    {
        proof {
            let next = views.take(i + 1);
            assert(next.drop_last() =~= views.take(i as int));
            assert(next.last() == parts@[i as int]@);
            if i == 0 {
                assert(next[0] == parts@[0]@);
                assert(Seq::<char>::empty() + parts@[0]@ =~= parts@[0]@);
            }
        }
        if i > 0 {
            out.append(",");
        }
        out.append(parts[i].as_str());
        i += 1;
    }
    assert(views.take(i as int) =~= views);
    out
}

fn device_field_strings(upd: &DeviceUpdate) -> (parts: Vec<String>)
    ensures
        part_views(parts@) == device_fields(*upd),
{
    let mut parts: Vec<String> = Vec::new();
    let ghost e = Seq::<Seq<char>>::empty();
    assert(part_views(parts@) =~= e);
    if let Some(on) = upd.state {
        let mut f = String::from_str("\"state\":\"");
        f.append(power_name(on));
        f.append("\"");
        parts.push(f);
    }
    let ghost a = part_views(parts@);
    assert(a =~= match upd.state {
        Some(on) => seq![state_field(on)],
        None => e,
    });
    if let Some(level) = upd.brightness {
        let digits = decimal_string(level as u64);
        let mut f = String::from_str("\"brightness\":");
        f.append(digits.as_str());
        parts.push(f);
    }
    let ghost b = part_views(parts@);
    assert(b =~= a + match upd.brightness {
        Some(level) => seq![brightness_field(level)],
        None => e,
    });
    if let Some(mirek) = upd.color_temp {
        let digits = decimal_string(mirek as u64);
        let mut f = String::from_str("\"color_temp\":");
        f.append(digits.as_str());
        parts.push(f);
    }
    let ghost c = part_views(parts@);
    assert(c =~= b + match upd.color_temp {
        Some(mirek) => seq![color_temp_field(mirek)],
        None => e,
    });
    if let Some(xy) = upd.color {
        let object = xy_string(xy);
        let mut f = String::from_str("\"color\":");
        f.append(object.as_str());
        parts.push(f);
    }
    assert(part_views(parts@) =~= c + match upd.color {
        Some(xy) => seq![color_field(xy)],
        None => e,
    });
    parts
}

/// Writes a payload as the JSON text that is published to the broker.
pub fn render_payload(p: &Payload) -> (text: String)
    ensures
        text@ == payload_text(*p),
{
    match p {
        Payload::Device(upd) => {
            let parts = device_field_strings(upd);
            let body = join(&parts);
            let mut text = String::from_str("{");
            text.append(body.as_str());
            text.append("}");
            text
        },
        Payload::SceneRecall(index) => {
            let digits = decimal_string(*index as u64);
            let mut text = String::from_str("{\"scene_recall\":");
            text.append(digits.as_str());
            text.append("}");
            text
        },
    }
}

/// An update that sets nothing is published as the empty object.
pub proof fn lemma_empty_update_is_empty_object()
    ensures
        payload_text(Payload::Device(DeviceUpdate::empty())) == "{"@ + "}"@,
{
    assert(device_fields(DeviceUpdate::empty()) =~= Seq::<Seq<char>>::empty());
    assert("{"@ + Seq::<char>::empty() + "}"@ =~= "{"@ + "}"@);
}

} // verus!
