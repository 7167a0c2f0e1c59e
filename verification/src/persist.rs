//! The persisted form of the store.
//!
//! The form is text. Its first line names the format and its version. Two
//! sections follow, the records and the broker detail, each led by a line
//! with the number of its lines. Every value on a line stands behind the
//! name of its field:
//!
//! ```text
//! bifrost-state 1
//! records=<count>
//! id=<id> name=<text> type=L on=<0|1> brightness=<n|-> color_temperature=<n|-> color=<x,y|->
//! id=<id> name=<text> type=G owner=<link> on=<0|1>
//! id=<id> name=<text> type=S owner=<link>
//! id=<id> name=<text> type=R
//! id=<id> name=<text> type=D stale=<0|1>
//! id=<id> name=<text> type=H
//! aux=<count>
//! id=<id> topic=<text|-> index=<n|->
//! ```
//!
//! Numbers are hexadecimal: an id has 32 digits, a count 16, a brightness or
//! a colour temperature 4, a coordinate or an index 8. A text is the length
//! of its UTF-8 encoding in 16 digits, a colon, and the encoding. A link is
//! the letter of its type and its id. A hyphen stands for a value that is
//! absent.
//!
//! For each part `x` of a store, `s_x` is its written form, and `p_x` reads
//! one `x` from the front of the input and gives the value together with
//! the input that follows it, or nothing where the input does not begin with
//! an `x`. The laws say that what was written is read back.
use vstd::prelude::*;

use crate::codec::{hex_digits, lemma_hex_limits, push_hex};
use crate::error::ApiError;
use crate::format::{
    lemma_digits_are_present, lemma_p_bool, lemma_p_byte, lemma_p_hex, lemma_p_opt16,
    lemma_p_opt32, lemma_p_opt_text, lemma_p_text, lemma_p_word, p_bool, p_byte, p_hex, p_opt16,
    p_opt32, p_opt_text, p_text, p_word, read_bool, read_byte, read_number, read_opt16,
    read_opt32, read_opt_text, read_text, read_word, s_bool, s_opt16, s_opt32, s_opt_text, s_text,
    text_fits, word, write_bool, write_opt16, write_opt32, write_opt_text, write_text, write_word,
    ABSENT, COMMA, LINE_FEED,
};
use crate::ident::derived;
use crate::resource::{
    AuxData, AuxView, Body, Device, GroupedLight, Light, Metadata, MetadataView, RecordView,
    Resource, ResourceLink, ResourceRecord, ResourceType, ResourceView, Scene, Xy,
};
use crate::store::{aux_view, records_view, AuxEntry, AuxEntryView, Resources, StoreView};

verus! {

/// The letter that stands for a resource type in persisted state.
pub open spec fn tag_of(rtype: ResourceType) -> u8 {
    match rtype {
        ResourceType::Light => 0x4c,
        ResourceType::GroupedLight => 0x47,
        ResourceType::Scene => 0x53,
        ResourceType::Room => 0x52,
        ResourceType::Device => 0x44,
        ResourceType::BridgeHome => 0x48,
    }
}

/// The resource type that a letter stands for.
pub open spec fn type_of(tag: u8) -> Option<ResourceType> {
    if tag == 0x4c {
        Some(ResourceType::Light)
    } else if tag == 0x47 {
        Some(ResourceType::GroupedLight)
    } else if tag == 0x53 {
        Some(ResourceType::Scene)
    } else if tag == 0x52 {
        Some(ResourceType::Room)
    } else if tag == 0x44 {
        Some(ResourceType::Device)
    } else if tag == 0x48 {
        Some(ResourceType::BridgeHome)
    } else {
        None
    }
}

fn type_tag(rtype: ResourceType) -> (tag: u8)
    ensures
        tag == tag_of(rtype),
        type_of(tag) == Some(rtype),
{
    match rtype {
        ResourceType::Light => 0x4c,
        ResourceType::GroupedLight => 0x47,
        ResourceType::Scene => 0x53,
        ResourceType::Room => 0x52,
        ResourceType::Device => 0x44,
        ResourceType::BridgeHome => 0x48,
    }
}

fn tag_type(tag: u8) -> (rtype: Option<ResourceType>)
    ensures
        rtype == type_of(tag),
{
    if tag == 0x4c {
        Some(ResourceType::Light)
    } else if tag == 0x47 {
        Some(ResourceType::GroupedLight)
    } else if tag == 0x53 {
        Some(ResourceType::Scene)
    } else if tag == 0x52 {
        Some(ResourceType::Room)
    } else if tag == 0x44 {
        Some(ResourceType::Device)
    } else if tag == 0x48 {
        Some(ResourceType::BridgeHome)
    } else {
        None
    }
}

/// A link: the letter of its type, and its id in 32 digits.
pub open spec fn s_link(l: ResourceLink) -> Seq<u8> {
    seq![tag_of(l.rtype)] + hex_digits(l.rid as nat, 32)
}

pub open spec fn p_link(s: Seq<u8>) -> Option<(ResourceLink, Seq<u8>)> {
    if s.len() == 0 {
        None
    } else {
        match type_of(s[0]) {
            Some(rtype) => match p_hex(s.skip(1), 32) {
                Some((n, r)) => Some((ResourceLink { rid: n as u128, rtype }, r)),
                None => None,
            },
            None => None,
        }
    }
}

/// An optional chromaticity: a hyphen, or the two coordinates in 8 digits
/// each, with a comma between them.
pub open spec fn s_xy(v: Option<Xy>) -> Seq<u8> {
    match v {
        Some(xy) => hex_digits(xy.x as nat, 8) + seq![COMMA] + hex_digits(xy.y as nat, 8),
        None => seq![ABSENT],
    }
}

pub open spec fn p_xy(s: Seq<u8>) -> Option<(Option<Xy>, Seq<u8>)> {
    match p_byte(s, ABSENT) {
        Some(r) => Some((None, r)),
        None => match p_hex(s, 8) {
            Some((x, r2)) => match p_byte(r2, COMMA) {
                Some(r3) => match p_hex(r3, 8) {
                    Some((y, r4)) => Some((Some(Xy { x: x as u32, y: y as u32 }), r4)),
                    None => None,
                },
                None => None,
            },
            None => None,
        },
    }
}

/// The fields of a light: power, brightness, colour temperature and
/// chromaticity.
pub open spec fn s_light(l: Light) -> Seq<u8> {
    word(" on="@) + s_bool(l.on) + word(" brightness="@) + s_opt16(l.brightness) + word(
        " color_temperature="@,
    ) + s_opt16(l.color_temperature) + word(" color="@) + s_xy(l.color)
}

#[verifier::opaque]
pub open spec fn p_light(s: Seq<u8>) -> Option<(Light, Seq<u8>)> {
    match p_word(s, word(" on="@)) {
        Some(r1) => match p_bool(r1) {
            Some((on, r2)) => match p_word(r2, word(" brightness="@)) {
                Some(r3) => match p_opt16(r3) {
                    Some((brightness, r4)) => match p_word(r4, word(" color_temperature="@)) {
                        Some(r5) => match p_opt16(r5) {
                            Some((color_temperature, r6)) => match p_word(r6, word(" color="@)) {
                                Some(r7) => match p_xy(r7) {
                                    Some((color, r8)) => Some(
                                        (Light { on, brightness, color_temperature, color }, r8),
                                    ),
                                    None => None,
                                },
                                None => None,
                            },
                            None => None,
                        },
                        None => None,
                    },
                    None => None,
                },
                None => None,
            },
            None => None,
        },
        None => None,
    }
}

/// The fields of a grouped light: the link to its owner and its power.
pub open spec fn s_grouped(g: GroupedLight) -> Seq<u8> {
    word(" owner="@) + s_link(g.owner) + word(" on="@) + s_bool(g.on)
}

pub open spec fn p_grouped(s: Seq<u8>) -> Option<(GroupedLight, Seq<u8>)> {
    match p_word(s, word(" owner="@)) {
        Some(r1) => match p_link(r1) {
            Some((owner, r2)) => match p_word(r2, word(" on="@)) {
                Some(r3) => match p_bool(r3) {
                    Some((on, r4)) => Some((GroupedLight { owner, on }, r4)),
                    None => None,
                },
                None => None,
            },
            None => None,
        },
        None => None,
    }
}

/// The field of a scene: the link to its owner.
pub open spec fn s_scene(sc: Scene) -> Seq<u8> {
    word(" owner="@) + s_link(sc.owner)
}

pub open spec fn p_scene(s: Seq<u8>) -> Option<(Scene, Seq<u8>)> {
    match p_word(s, word(" owner="@)) {
        Some(r1) => match p_link(r1) {
            Some((owner, r2)) => Some((Scene { owner }, r2)),
            None => None,
        },
        None => None,
    }
}

/// The field of a device: whether it is stale.
pub open spec fn s_device(d: Device) -> Seq<u8> {
    word(" stale="@) + s_bool(d.stale)
}

pub open spec fn p_device(s: Seq<u8>) -> Option<(Device, Seq<u8>)> {
    match p_word(s, word(" stale="@)) {
        Some(r1) => match p_bool(r1) {
            Some((stale, r2)) => Some((Device { stale }, r2)),
            None => None,
        },
        None => None,
    }
}

/// A body: the letter of its type, and the fields of that type.
pub open spec fn s_body(b: Body) -> Seq<u8> {
    seq![tag_of(b.spec_rtype())] + match b {
        Body::Light(l) => s_light(l),
        Body::GroupedLight(g) => s_grouped(g),
        Body::Scene(sc) => s_scene(sc),
        Body::Room => Seq::empty(),
        Body::Device(d) => s_device(d),
        Body::BridgeHome => Seq::empty(),
    }
}

#[verifier::opaque]
pub open spec fn p_body(s: Seq<u8>) -> Option<(Body, Seq<u8>)> {
    if s.len() == 0 {
        None
    } else {
        match type_of(s[0]) {
            Some(ResourceType::Light) => match p_light(s.skip(1)) {
                Some((l, r)) => Some((Body::Light(l), r)),
                None => None,
            },
            Some(ResourceType::GroupedLight) => match p_grouped(s.skip(1)) {
                Some((g, r)) => Some((Body::GroupedLight(g), r)),
                None => None,
            },
            Some(ResourceType::Scene) => match p_scene(s.skip(1)) {
                Some((sc, r)) => Some((Body::Scene(sc), r)),
                None => None,
            },
            Some(ResourceType::Room) => Some((Body::Room, s.skip(1))),
            Some(ResourceType::Device) => match p_device(s.skip(1)) {
                Some((d, r)) => Some((Body::Device(d), r)),
                None => None,
            },
            Some(ResourceType::BridgeHome) => Some((Body::BridgeHome, s.skip(1))),
            None => None,
        }
    }
}

/// A record on its line: the id in 32 digits, the name, and the body.
pub open spec fn s_record(r: RecordView) -> Seq<u8> {
    word("id="@) + hex_digits(r.id as nat, 32) + word(" name="@) + s_text(r.obj.metadata.name)
        + word(" type="@) + s_body(r.obj.body) + seq![LINE_FEED]
}

#[verifier::opaque]
pub open spec fn p_record(s: Seq<u8>) -> Option<(RecordView, Seq<u8>)> {
    match p_word(s, word("id="@)) {
        Some(r0) => match p_hex(r0, 32) {
            Some((id, r1)) => match p_word(r1, word(" name="@)) {
                Some(r2) => match p_text(r2) {
                    Some((name, r3)) => match p_word(r3, word(" type="@)) {
                        Some(r4) => match p_body(r4) {
                            Some((body, r5)) => match p_byte(r5, LINE_FEED) {
                                Some(r6) => Some(
                                    (
                                        RecordView {
                                            id: id as u128,
                                            obj: ResourceView {
                                                metadata: MetadataView { name },
                                                body,
                                            },
                                        },
                                        r6,
                                    ),
                                ),
                                None => None,
                            },
                            None => None,
                        },
                        None => None,
                    },
                    None => None,
                },
                None => None,
            },
            None => None,
        },
        None => None,
    }
}

/// Broker detail on its line: the id in 32 digits, the topic, and the index.
pub open spec fn s_aux(a: AuxEntryView) -> Seq<u8> {
    word("id="@) + hex_digits(a.id as nat, 32) + word(" topic="@) + s_opt_text(a.data.topic)
        + word(" index="@) + s_opt32(a.data.index) + seq![LINE_FEED]
}

#[verifier::opaque]
pub open spec fn p_aux(s: Seq<u8>) -> Option<(AuxEntryView, Seq<u8>)> {
    match p_word(s, word("id="@)) {
        Some(r0) => match p_hex(r0, 32) {
            Some((id, r1)) => match p_word(r1, word(" topic="@)) {
                Some(r2) => match p_opt_text(r2) {
                    Some((topic, r3)) => match p_word(r3, word(" index="@)) {
                        Some(r4) => match p_opt32(r4) {
                            Some((index, r5)) => match p_byte(r5, LINE_FEED) {
                                Some(r6) => Some(
                                    (
                                        AuxEntryView {
                                            id: id as u128,
                                            data: AuxView { topic, index },
                                        },
                                        r6,
                                    ),
                                ),
                                None => None,
                            },
                            None => None,
                        },
                        None => None,
                    },
                    None => None,
                },
                None => None,
            },
            None => None,
        },
        None => None,
    }
}

/// Joining is associative.
pub proof fn lemma_join(a: Seq<u8>, b: Seq<u8>, c: Seq<u8>)
    ensures
        (a + b) + c == a + (b + c),
{
    assert((a + b) + c =~= a + (b + c));
}

pub proof fn lemma_p_link(l: ResourceLink, rest: Seq<u8>)
    ensures
        p_link(s_link(l) + rest) == Some((l, rest)),
{
    lemma_hex_limits();
    let tail = hex_digits(l.rid as nat, 32) + rest;
    assert(s_link(l) + rest =~= seq![tag_of(l.rtype)] + tail);
    assert((seq![tag_of(l.rtype)] + tail).skip(1) =~= tail);
    lemma_p_hex(l.rid as nat, 32, rest);
}

pub proof fn lemma_p_xy(v: Option<Xy>, rest: Seq<u8>)
    ensures
        p_xy(s_xy(v) + rest) == Some((v, rest)),
{
    match v {
        Some(xy) => {
            lemma_hex_limits();
            let t3 = hex_digits(xy.y as nat, 8) + rest;
            let t2 = seq![COMMA] + t3;
            assert(s_xy(v) + rest =~= hex_digits(xy.x as nat, 8) + t2);
            lemma_digits_are_present(xy.x as nat, 8, t2);
            lemma_p_hex(xy.x as nat, 8, t2);
            lemma_p_byte(COMMA, t3);
            lemma_p_hex(xy.y as nat, 8, rest);
        },
        None => {
            lemma_p_byte(ABSENT, rest);
        },
    }
}

pub proof fn lemma_p_light(l: Light, rest: Seq<u8>)
    ensures
        p_light(s_light(l) + rest) == Some((l, rest)),
{
    reveal(p_light);
    let k1 = word(" on="@);
    let k2 = word(" brightness="@);
    let k3 = word(" color_temperature="@);
    let k4 = word(" color="@);
    let a = s_bool(l.on);
    let b = s_opt16(l.brightness);
    let c = s_opt16(l.color_temperature);
    let d = s_xy(l.color);
    let t7 = d + rest;
    let t6 = k4 + t7;
    let t5 = c + t6;
    let t4 = k3 + t5;
    let t3 = b + t4;
    let t2 = k2 + t3;
    let t1 = a + t2;
    assert(s_light(l) + rest == k1 + t1) by {
        lemma_join(k1 + a + k2 + b + k3 + c + k4, d, rest);
        lemma_join(k1 + a + k2 + b + k3 + c, k4, t7);
        lemma_join(k1 + a + k2 + b + k3, c, t6);
        lemma_join(k1 + a + k2 + b, k3, t5);
        lemma_join(k1 + a + k2, b, t4);
        lemma_join(k1 + a, k2, t3);
        lemma_join(k1, a, t2);
    }
    assert(p_word(k1 + t1, k1) == Some(t1)) by {
        lemma_p_word(k1, t1);
    }
    assert(p_bool(t1) == Some((l.on, t2))) by {
        lemma_p_bool(l.on, t2);
    }
    assert(p_word(t2, k2) == Some(t3)) by {
        lemma_p_word(k2, t3);
    }
    assert(p_opt16(t3) == Some((l.brightness, t4))) by {
        lemma_p_opt16(l.brightness, t4);
    }
    assert(p_word(t4, k3) == Some(t5)) by {
        lemma_p_word(k3, t5);
    }
    assert(p_opt16(t5) == Some((l.color_temperature, t6))) by {
        lemma_p_opt16(l.color_temperature, t6);
    }
    assert(p_word(t6, k4) == Some(t7)) by {
        lemma_p_word(k4, t7);
    }
    assert(p_xy(t7) == Some((l.color, rest))) by {
        lemma_p_xy(l.color, rest);
    }
}

pub proof fn lemma_p_grouped(g: GroupedLight, rest: Seq<u8>)
    ensures
        p_grouped(s_grouped(g) + rest) == Some((g, rest)),
{
    let k1 = word(" owner="@);
    let k2 = word(" on="@);
    let t3 = s_bool(g.on) + rest;
    let t2 = k2 + t3;
    let t1 = s_link(g.owner) + t2;
    assert(s_grouped(g) + rest == k1 + t1) by {
        lemma_join(k1 + s_link(g.owner) + k2, s_bool(g.on), rest);
        lemma_join(k1 + s_link(g.owner), k2, t3);
        lemma_join(k1, s_link(g.owner), t2);
    }
    lemma_p_word(k1, t1);
    lemma_p_link(g.owner, t2);
    lemma_p_word(k2, t3);
    lemma_p_bool(g.on, rest);
}

pub proof fn lemma_p_scene(sc: Scene, rest: Seq<u8>)
    ensures
        p_scene(s_scene(sc) + rest) == Some((sc, rest)),
{
    let k1 = word(" owner="@);
    let t1 = s_link(sc.owner) + rest;
    lemma_join(k1, s_link(sc.owner), rest);
    lemma_p_word(k1, t1);
    lemma_p_link(sc.owner, rest);
}

pub proof fn lemma_p_device(d: Device, rest: Seq<u8>)
    ensures
        p_device(s_device(d) + rest) == Some((d, rest)),
{
    let k1 = word(" stale="@);
    let t1 = s_bool(d.stale) + rest;
    lemma_join(k1, s_bool(d.stale), rest);
    lemma_p_word(k1, t1);
    lemma_p_bool(d.stale, rest);
}

pub proof fn lemma_p_body(b: Body, rest: Seq<u8>)
    ensures
        p_body(s_body(b) + rest) == Some((b, rest)),
{
    reveal(p_body);
    let tag = tag_of(b.spec_rtype());
    let whole = s_body(b) + rest;
    assert(whole[0] == tag);
    match b {
        Body::Light(l) => {
            assert(whole.skip(1) =~= s_light(l) + rest);
            lemma_p_light(l, rest);
        },
        Body::GroupedLight(g) => {
            assert(whole.skip(1) =~= s_grouped(g) + rest);
            lemma_p_grouped(g, rest);
        },
        Body::Scene(sc) => {
            assert(whole.skip(1) =~= s_scene(sc) + rest);
            lemma_p_scene(sc, rest);
        },
        Body::Room => {
            assert(whole.skip(1) =~= rest);
        },
        Body::Device(d) => {
            assert(whole.skip(1) =~= s_device(d) + rest);
            lemma_p_device(d, rest);
        },
        Body::BridgeHome => {
            assert(whole.skip(1) =~= rest);
        },
    }
}

pub proof fn lemma_p_record(r: RecordView, rest: Seq<u8>)
    requires
        text_fits(r.obj.metadata.name),
    ensures
        p_record(s_record(r) + rest) == Some((r, rest)),
{
    reveal(p_record);
    lemma_hex_limits();
    let k0 = word("id="@);
    let k1 = word(" name="@);
    let k2 = word(" type="@);
    let id = hex_digits(r.id as nat, 32);
    let name = s_text(r.obj.metadata.name);
    let body = s_body(r.obj.body);
    let nl = seq![LINE_FEED];
    let t6 = nl + rest;
    let t5 = body + t6;
    let t4 = k2 + t5;
    let t3 = name + t4;
    let t2 = k1 + t3;
    let t1 = id + t2;
    assert(s_record(r) + rest == k0 + t1) by {
        lemma_join(k0 + id + k1 + name + k2 + body, nl, rest);
        lemma_join(k0 + id + k1 + name + k2, body, t6);
        lemma_join(k0 + id + k1 + name, k2, t5);
        lemma_join(k0 + id + k1, name, t4);
        lemma_join(k0 + id, k1, t3);
        lemma_join(k0, id, t2);
    }
    assert(p_word(k0 + t1, k0) == Some(t1)) by {
        lemma_p_word(k0, t1);
    }
    assert(p_hex(t1, 32) == Some((r.id as nat, t2))) by {
        lemma_p_hex(r.id as nat, 32, t2);
    }
    assert(p_word(t2, k1) == Some(t3)) by {
        lemma_p_word(k1, t3);
    }
    assert(p_text(t3) == Some((r.obj.metadata.name, t4))) by {
        lemma_p_text(r.obj.metadata.name, t4);
    }
    assert(p_word(t4, k2) == Some(t5)) by {
        lemma_p_word(k2, t5);
    }
    assert(p_body(t5) == Some((r.obj.body, t6))) by {
        lemma_p_body(r.obj.body, t6);
    }
    assert(p_byte(t6, LINE_FEED) == Some(rest)) by {
        lemma_p_byte(LINE_FEED, rest);
    }
}

/// The texts of broker detail are short enough to be written.
pub open spec fn aux_fits(a: AuxEntryView) -> bool {
    a.data.topic matches Some(t) ==> text_fits(t)
}

pub proof fn lemma_p_aux(a: AuxEntryView, rest: Seq<u8>)
    requires
        aux_fits(a),
    ensures
        p_aux(s_aux(a) + rest) == Some((a, rest)),
{
    reveal(p_aux);
    lemma_hex_limits();
    let k0 = word("id="@);
    let k1 = word(" topic="@);
    let k2 = word(" index="@);
    let id = hex_digits(a.id as nat, 32);
    let topic = s_opt_text(a.data.topic);
    let index = s_opt32(a.data.index);
    let nl = seq![LINE_FEED];
    let t6 = nl + rest;
    let t5 = index + t6;
    let t4 = k2 + t5;
    let t3 = topic + t4;
    let t2 = k1 + t3;
    let t1 = id + t2;
    assert(s_aux(a) + rest == k0 + t1) by {
        lemma_join(k0 + id + k1 + topic + k2 + index, nl, rest);
        lemma_join(k0 + id + k1 + topic + k2, index, t6);
        lemma_join(k0 + id + k1 + topic, k2, t5);
        lemma_join(k0 + id + k1, topic, t4);
        lemma_join(k0 + id, k1, t3);
        lemma_join(k0, id, t2);
    }
    assert(p_word(k0 + t1, k0) == Some(t1)) by {
        lemma_p_word(k0, t1);
    }
    assert(p_hex(t1, 32) == Some((a.id as nat, t2))) by {
        lemma_p_hex(a.id as nat, 32, t2);
    }
    assert(p_word(t2, k1) == Some(t3)) by {
        lemma_p_word(k1, t3);
    }
    assert(p_opt_text(t3) == Some((a.data.topic, t4))) by {
        lemma_p_opt_text(a.data.topic, t4);
    }
    assert(p_word(t4, k2) == Some(t5)) by {
        lemma_p_word(k2, t5);
    }
    assert(p_opt32(t5) == Some((a.data.index, t6))) by {
        lemma_p_opt32(a.data.index, t6);
    }
    assert(p_byte(t6, LINE_FEED) == Some(rest)) by {
        lemma_p_byte(LINE_FEED, rest);
    }
}

fn write_link(buf: &mut Vec<u8>, l: ResourceLink)
    ensures
        final(buf)@ == old(buf)@ + s_link(l),
{
    buf.push(type_tag(l.rtype));
    push_hex(buf, l.rid, 32);
    assert(buf@ =~= old(buf)@ + s_link(l));
}

fn read_link(buf: &[u8], pos: usize) -> (r: Option<(ResourceLink, usize)>)
    requires
        pos <= buf@.len(),
    ensures
        match r {
            Some((l, next)) => next <= buf@.len() && p_link(buf@.skip(pos as int)) == Some(
                (l, buf@.skip(next as int)),
            ),
            None => p_link(buf@.skip(pos as int)) is None,
        },
{
    if pos >= buf.len() {
        return None;
    }
    assert(buf@.skip(pos as int).skip(1) =~= buf@.skip(pos + 1));
    let rtype = match tag_type(buf[pos]) {
        Some(t) => t,
        None => {
            return None;
        },
    };
    proof {
        lemma_hex_limits();
    }
    match read_number(buf, pos + 1, 32) {
        Some((n, next)) => Some((ResourceLink { rid: n, rtype }, next)),
        None => None,
    }
}

fn write_xy(buf: &mut Vec<u8>, v: Option<Xy>)
    ensures
        final(buf)@ == old(buf)@ + s_xy(v),
{
    match v {
        Some(xy) => {
            push_hex(buf, xy.x as u128, 8);
            buf.push(COMMA);
            push_hex(buf, xy.y as u128, 8);
        },
        None => {
            buf.push(ABSENT);
        },
    }
    assert(buf@ =~= old(buf)@ + s_xy(v));
}

fn read_xy(buf: &[u8], pos: usize) -> (r: Option<(Option<Xy>, usize)>)
    requires
        pos <= buf@.len(),
    ensures
        match r {
            Some((v, next)) => next <= buf@.len() && p_xy(buf@.skip(pos as int)) == Some(
                (v, buf@.skip(next as int)),
            ),
            None => p_xy(buf@.skip(pos as int)) is None,
        },
{
    if let Some(next) = read_byte(buf, pos, ABSENT) {
        return Some((None, next));
    }
    proof {
        lemma_hex_limits();
    }
    let (x, p2) = match read_number(buf, pos, 8) {
        Some(v) => v,
        None => {
            return None;
        },
    };
    let p3 = match read_byte(buf, p2, COMMA) {
        Some(v) => v,
        None => {
            return None;
        },
    };
    match read_number(buf, p3, 8) {
        Some((y, next)) => Some((Some(Xy { x: x as u32, y: y as u32 }), next)),
        None => None,
    }
}

fn write_light(buf: &mut Vec<u8>, l: Light)
    ensures
        final(buf)@ == old(buf)@ + s_light(l),
{
    let ghost k1 = word(" on="@);
    let ghost k2 = word(" brightness="@);
    let ghost k3 = word(" color_temperature="@);
    let ghost k4 = word(" color="@);
    let ghost b0 = buf@;
    write_word(buf, " on=");
    write_bool(buf, l.on);
    let ghost b1 = buf@;
    let ghost m1 = k1 + s_bool(l.on);
    assert(b1 == b0 + m1) by {
        lemma_join(b0, k1, s_bool(l.on));
    }
    write_word(buf, " brightness=");
    write_opt16(buf, l.brightness);
    let ghost b2 = buf@;
    let ghost m2 = m1 + k2 + s_opt16(l.brightness);
    assert(b2 == b0 + m2) by {
        lemma_join(b0, m1, k2);
        lemma_join(b0, m1 + k2, s_opt16(l.brightness));
    }
    write_word(buf, " color_temperature=");
    write_opt16(buf, l.color_temperature);
    let ghost b3 = buf@;
    let ghost m3 = m2 + k3 + s_opt16(l.color_temperature);
    assert(b3 == b0 + m3) by {
        lemma_join(b0, m2, k3);
        lemma_join(b0, m2 + k3, s_opt16(l.color_temperature));
    }
    write_word(buf, " color=");
    write_xy(buf, l.color);
    assert(buf@ == b0 + (m3 + k4 + s_xy(l.color))) by {
        lemma_join(b0, m3, k4);
        lemma_join(b0, m3 + k4, s_xy(l.color));
    }
}

fn read_light(buf: &[u8], pos: usize) -> (r: Option<(Light, usize)>)
    requires
        pos <= buf@.len(),
    ensures
        match r {
            Some((l, next)) => next <= buf@.len() && p_light(buf@.skip(pos as int)) == Some(
                (l, buf@.skip(next as int)),
            ),
            None => p_light(buf@.skip(pos as int)) is None,
        },
{
    proof {
        reveal(p_light);
    }
    let p1 = match read_word(buf, pos, " on=") {
        Some(v) => v,
        None => {
            return None;
        },
    };
    let (on, p2) = match read_bool(buf, p1) {
        Some(v) => v,
        None => {
            return None;
        },
    };
    let p3 = match read_word(buf, p2, " brightness=") {
        Some(v) => v,
        None => {
            return None;
        },
    };
    let (brightness, p4) = match read_opt16(buf, p3) {
        Some(v) => v,
        None => {
            return None;
        },
    };
    let p5 = match read_word(buf, p4, " color_temperature=") {
        Some(v) => v,
        None => {
            return None;
        },
    };
    let (color_temperature, p6) = match read_opt16(buf, p5) {
        Some(v) => v,
        None => {
            return None;
        },
    };
    let p7 = match read_word(buf, p6, " color=") {
        Some(v) => v,
        None => {
            return None;
        },
    };
    match read_xy(buf, p7) {
        Some((color, next)) => Some((Light { on, brightness, color_temperature, color }, next)),
        None => None,
    }
}

fn write_grouped(buf: &mut Vec<u8>, g: GroupedLight)
    ensures
        final(buf)@ == old(buf)@ + s_grouped(g),
{
    let ghost k1 = word(" owner="@);
    let ghost k2 = word(" on="@);
    let ghost b0 = buf@;
    write_word(buf, " owner=");
    write_link(buf, g.owner);
    let ghost m1 = k1 + s_link(g.owner);
    assert(buf@ == b0 + m1) by {
        lemma_join(b0, k1, s_link(g.owner));
    }
    write_word(buf, " on=");
    write_bool(buf, g.on);
    assert(buf@ == b0 + (m1 + k2 + s_bool(g.on))) by {
        lemma_join(b0, m1, k2);
        lemma_join(b0, m1 + k2, s_bool(g.on));
    }
}

fn read_grouped(buf: &[u8], pos: usize) -> (r: Option<(GroupedLight, usize)>)
    requires
        pos <= buf@.len(),
    ensures
        match r {
            Some((g, next)) => next <= buf@.len() && p_grouped(buf@.skip(pos as int)) == Some(
                (g, buf@.skip(next as int)),
            ),
            None => p_grouped(buf@.skip(pos as int)) is None,
        },
{
    let p1 = match read_word(buf, pos, " owner=") {
        Some(v) => v,
        None => {
            return None;
        },
    };
    let (owner, p2) = match read_link(buf, p1) {
        Some(v) => v,
        None => {
            return None;
        },
    };
    let p3 = match read_word(buf, p2, " on=") {
        Some(v) => v,
        None => {
            return None;
        },
    };
    match read_bool(buf, p3) {
        Some((on, next)) => Some((GroupedLight { owner, on }, next)),
        None => None,
    }
}

fn write_scene(buf: &mut Vec<u8>, sc: Scene)
    ensures
        final(buf)@ == old(buf)@ + s_scene(sc),
{
    let ghost b0 = buf@;
    write_word(buf, " owner=");
    write_link(buf, sc.owner);
    proof {
        lemma_join(b0, word(" owner="@), s_link(sc.owner));
    }
}

fn read_scene(buf: &[u8], pos: usize) -> (r: Option<(Scene, usize)>)
    requires
        pos <= buf@.len(),
    ensures
        match r {
            Some((sc, next)) => next <= buf@.len() && p_scene(buf@.skip(pos as int)) == Some(
                (sc, buf@.skip(next as int)),
            ),
            None => p_scene(buf@.skip(pos as int)) is None,
        },
{
    let p1 = match read_word(buf, pos, " owner=") {
        Some(v) => v,
        None => {
            return None;
        },
    };
    match read_link(buf, p1) {
        Some((owner, next)) => Some((Scene { owner }, next)),
        None => None,
    }
}

fn write_device(buf: &mut Vec<u8>, d: Device)
    ensures
        final(buf)@ == old(buf)@ + s_device(d),
{
    let ghost b0 = buf@;
    write_word(buf, " stale=");
    write_bool(buf, d.stale);
    proof {
        lemma_join(b0, word(" stale="@), s_bool(d.stale));
    }
}

fn read_device(buf: &[u8], pos: usize) -> (r: Option<(Device, usize)>)
    requires
        pos <= buf@.len(),
    ensures
        match r {
            Some((d, next)) => next <= buf@.len() && p_device(buf@.skip(pos as int)) == Some(
                (d, buf@.skip(next as int)),
            ),
            None => p_device(buf@.skip(pos as int)) is None,
        },
{
    let p1 = match read_word(buf, pos, " stale=") {
        Some(v) => v,
        None => {
            return None;
        },
    };
    match read_bool(buf, p1) {
        Some((stale, next)) => Some((Device { stale }, next)),
        None => None,
    }
}

fn write_body(buf: &mut Vec<u8>, b: Body)
    ensures
        final(buf)@ == old(buf)@ + s_body(b),
{
    let ghost b0 = buf@;
    let ghost tag = seq![tag_of(b.spec_rtype())];
    buf.push(type_tag(b.rtype()));
    assert(buf@ =~= b0 + tag);
    match b {
        Body::Light(l) => {
            write_light(buf, l);
            proof {
                lemma_join(b0, tag, s_light(l));
            }
        },
        Body::GroupedLight(g) => {
            write_grouped(buf, g);
            proof {
                lemma_join(b0, tag, s_grouped(g));
            }
        },
        Body::Scene(sc) => {
            write_scene(buf, sc);
            proof {
                lemma_join(b0, tag, s_scene(sc));
            }
        },
        Body::Room => {
            assert(tag + Seq::<u8>::empty() =~= tag);
        },
        Body::Device(d) => {
            write_device(buf, d);
            proof {
                lemma_join(b0, tag, s_device(d));
            }
        },
        Body::BridgeHome => {
            assert(tag + Seq::<u8>::empty() =~= tag);
        },
    }
}

fn read_body(buf: &[u8], pos: usize) -> (r: Option<(Body, usize)>)
    requires
        pos <= buf@.len(),
    ensures
        match r {
            Some((b, next)) => next <= buf@.len() && p_body(buf@.skip(pos as int)) == Some(
                (b, buf@.skip(next as int)),
            ),
            None => p_body(buf@.skip(pos as int)) is None,
        },
{
    proof {
        reveal(p_body);
    }
    if pos >= buf.len() {
        return None;
    }
    assert(buf@.skip(pos as int).skip(1) =~= buf@.skip(pos + 1));
    let rtype = match tag_type(buf[pos]) {
        Some(t) => t,
        None => {
            return None;
        },
    };
    match rtype {
        ResourceType::Light => match read_light(buf, pos + 1) {
            Some((l, next)) => Some((Body::Light(l), next)),
            None => None,
        },
        ResourceType::GroupedLight => match read_grouped(buf, pos + 1) {
            Some((g, next)) => Some((Body::GroupedLight(g), next)),
            None => None,
        },
        ResourceType::Scene => match read_scene(buf, pos + 1) {
            Some((sc, next)) => Some((Body::Scene(sc), next)),
            None => None,
        },
        ResourceType::Room => Some((Body::Room, pos + 1)),
        ResourceType::Device => match read_device(buf, pos + 1) {
            Some((d, next)) => Some((Body::Device(d), next)),
            None => None,
        },
        ResourceType::BridgeHome => Some((Body::BridgeHome, pos + 1)),
    }
}

fn write_record(buf: &mut Vec<u8>, rec: &ResourceRecord)
    ensures
        final(buf)@ == old(buf)@ + s_record(rec@),
        text_fits(rec@.obj.metadata.name),
{
    let ghost b0 = buf@;
    let ghost k0 = word("id="@);
    let ghost k1 = word(" name="@);
    let ghost k2 = word(" type="@);
    let ghost id = hex_digits(rec.id as nat, 32);
    let ghost name = s_text(rec@.obj.metadata.name);
    let ghost body = s_body(rec.obj.body);
    write_word(buf, "id=");
    push_hex(buf, rec.id, 32);
    let ghost m1 = k0 + id;
    assert(buf@ == b0 + m1) by {
        lemma_join(b0, k0, id);
    }
    write_word(buf, " name=");
    write_text(buf, rec.obj.metadata.name.as_str());
    let ghost m2 = m1 + k1 + name;
    assert(buf@ == b0 + m2) by {
        lemma_join(b0, m1, k1);
        lemma_join(b0, m1 + k1, name);
    }
    write_word(buf, " type=");
    write_body(buf, rec.obj.body);
    let ghost m3 = m2 + k2 + body;
    assert(buf@ == b0 + m3) by {
        lemma_join(b0, m2, k2);
        lemma_join(b0, m2 + k2, body);
    }
    let ghost b3 = buf@;
    buf.push(LINE_FEED);
    assert(buf@ == b0 + s_record(rec@)) by {
        assert(b3.push(LINE_FEED) =~= b3 + seq![LINE_FEED]);
        lemma_join(b0, m3, seq![LINE_FEED]);
    }
}

fn read_record(buf: &[u8], pos: usize) -> (r: Option<(ResourceRecord, usize)>)
    requires
        pos <= buf@.len(),
    ensures
        match r {
            Some((rec, next)) => next <= buf@.len() && p_record(buf@.skip(pos as int)) == Some(
                (rec@, buf@.skip(next as int)),
            ),
            None => p_record(buf@.skip(pos as int)) is None,
        },
{
    proof {
        reveal(p_record);
        lemma_hex_limits();
    }
    let p0 = match read_word(buf, pos, "id=") {
        Some(v) => v,
        None => {
            return None;
        },
    };
    let (id, p1) = match read_number(buf, p0, 32) {
        Some(v) => v,
        None => {
            return None;
        },
    };
    let p2 = match read_word(buf, p1, " name=") {
        Some(v) => v,
        None => {
            return None;
        },
    };
    let (name, p3) = match read_text(buf, p2) {
        Some(v) => v,
        None => {
            return None;
        },
    };
    let p4 = match read_word(buf, p3, " type=") {
        Some(v) => v,
        None => {
            return None;
        },
    };
    let (body, p5) = match read_body(buf, p4) {
        Some(v) => v,
        None => {
            return None;
        },
    };
    match read_byte(buf, p5, LINE_FEED) {
        Some(next) => Some(
            (ResourceRecord { id, obj: Resource { metadata: Metadata { name }, body } }, next),
        ),
        None => None,
    }
}

fn write_aux(buf: &mut Vec<u8>, entry: &AuxEntry)
    ensures
        final(buf)@ == old(buf)@ + s_aux(entry@),
        aux_fits(entry@),
{
    let ghost b0 = buf@;
    let ghost k0 = word("id="@);
    let ghost k1 = word(" topic="@);
    let ghost k2 = word(" index="@);
    let ghost id = hex_digits(entry.id as nat, 32);
    let ghost topic = s_opt_text(entry@.data.topic);
    let ghost index = s_opt32(entry.data.index);
    write_word(buf, "id=");
    push_hex(buf, entry.id, 32);
    let ghost m1 = k0 + id;
    assert(buf@ == b0 + m1) by {
        lemma_join(b0, k0, id);
    }
    write_word(buf, " topic=");
    write_opt_text(buf, &entry.data.topic);
    let ghost m2 = m1 + k1 + topic;
    assert(buf@ == b0 + m2) by {
        lemma_join(b0, m1, k1);
        lemma_join(b0, m1 + k1, topic);
    }
    write_word(buf, " index=");
    write_opt32(buf, entry.data.index);
    let ghost m3 = m2 + k2 + index;
    assert(buf@ == b0 + m3) by {
        lemma_join(b0, m2, k2);
        lemma_join(b0, m2 + k2, index);
    }
    let ghost b3 = buf@;
    buf.push(LINE_FEED);
    assert(buf@ == b0 + s_aux(entry@)) by {
        assert(b3.push(LINE_FEED) =~= b3 + seq![LINE_FEED]);
        lemma_join(b0, m3, seq![LINE_FEED]);
    }
}

fn read_aux(buf: &[u8], pos: usize) -> (r: Option<(AuxEntry, usize)>)
    requires
        pos <= buf@.len(),
    ensures
        match r {
            Some((entry, next)) => next <= buf@.len() && p_aux(buf@.skip(pos as int)) == Some(
                (entry@, buf@.skip(next as int)),
            ),
            None => p_aux(buf@.skip(pos as int)) is None,
        },
{
    proof {
        reveal(p_aux);
        lemma_hex_limits();
    }
    let p0 = match read_word(buf, pos, "id=") {
        Some(v) => v,
        None => {
            return None;
        },
    };
    let (id, p1) = match read_number(buf, p0, 32) {
        Some(v) => v,
        None => {
            return None;
        },
    };
    let p2 = match read_word(buf, p1, " topic=") {
        Some(v) => v,
        None => {
            return None;
        },
    };
    let (topic, p3) = match read_opt_text(buf, p2) {
        Some(v) => v,
        None => {
            return None;
        },
    };
    let p4 = match read_word(buf, p3, " index=") {
        Some(v) => v,
        None => {
            return None;
        },
    };
    let (index, p5) = match read_opt32(buf, p4) {
        Some(v) => v,
        None => {
            return None;
        },
    };
    match read_byte(buf, p5, LINE_FEED) {
        Some(next) => Some((AuxEntry { id, data: AuxData { topic, index } }, next)),
        None => None,
    }
}

/// The lines of a sequence of records, in order.
pub open spec fn s_records(rs: Seq<RecordView>) -> Seq<u8>
    decreases rs.len(),
{
    if rs.len() == 0 {
        Seq::empty()
    } else {
        s_records(rs.drop_last()) + s_record(rs.last())
    }
}

/// Reads the lines of `count` records.
pub open spec fn p_records(s: Seq<u8>, count: nat) -> Option<(Seq<RecordView>, Seq<u8>)>
    decreases count,
{
    if count == 0 {
        Some((Seq::empty(), s))
    } else {
        match p_records(s, (count - 1) as nat) {
            Some((rs, r)) => match p_record(r) {
                Some((rec, rest)) => Some((rs.push(rec), rest)),
                None => None,
            },
            None => None,
        }
    }
}

/// The lines of a table of broker detail, in order.
pub open spec fn s_auxs(entries: Seq<AuxEntryView>) -> Seq<u8>
    decreases entries.len(),
{
    if entries.len() == 0 {
        Seq::empty()
    } else {
        s_auxs(entries.drop_last()) + s_aux(entries.last())
    }
}

/// Reads the lines of `count` entries of broker detail.
pub open spec fn p_auxs(s: Seq<u8>, count: nat) -> Option<(Seq<AuxEntryView>, Seq<u8>)>
    decreases count,
{
    if count == 0 {
        Some((Seq::empty(), s))
    } else {
        match p_auxs(s, (count - 1) as nat) {
            Some((entries, r)) => match p_aux(r) {
                Some((entry, rest)) => Some((entries.push(entry), rest)),
                None => None,
            },
            None => None,
        }
    }
}

/// The first line of persisted state, which names the format and its
/// version.
pub open spec fn magic() -> Seq<u8> {
    word("bifrost-state 1\n"@)
}

/// A store in its persisted form: the first line; the number of records on
/// a line, and a line for each record; the number of entries of broker
/// detail on a line, and a line for each entry.
pub open spec fn s_store(v: StoreView) -> Seq<u8> {
    magic() + word("records="@) + hex_digits(v.records.len(), 16) + seq![LINE_FEED] + s_records(
        v.records,
    ) + word("aux="@) + hex_digits(v.aux.len(), 16) + seq![LINE_FEED] + s_auxs(v.aux)
}

/// Reads the line that holds the number of lines of a section.
pub open spec fn p_count(s: Seq<u8>, key: Seq<u8>) -> Option<(nat, Seq<u8>)> {
    match p_word(s, key) {
        Some(r1) => match p_hex(r1, 16) {
            Some((n, r2)) => match p_byte(r2, LINE_FEED) {
                Some(r3) => Some((n, r3)),
                None => None,
            },
            None => None,
        },
        None => None,
    }
}

/// Reads a store from its persisted form. Nothing may follow the last line.
#[verifier::opaque]
pub open spec fn p_store(s: Seq<u8>) -> Option<StoreView> {
    match p_word(s, magic()) {
        Some(r1) => match p_count(r1, word("records="@)) {
            Some((n, r2)) => match p_records(r2, n) {
                Some((records, r3)) => match p_count(r3, word("aux="@)) {
                    Some((m, r4)) => match p_auxs(r4, m) {
                        Some((aux, r5)) => if r5.len() == 0 {
                            Some(StoreView { records, aux })
                        } else {
                            None
                        },
                        None => None,
                    },
                    None => None,
                },
                None => None,
            },
            None => None,
        },
        None => None,
    }
}

/// The store is small enough to be written: its counts and the lengths of
/// its texts fit 16 hexadecimal digits. Every store in memory is.
pub open spec fn fits(v: StoreView) -> bool {
    &&& v.records.len() < 0x1_0000_0000_0000_0000
    &&& v.aux.len() < 0x1_0000_0000_0000_0000
    &&& forall|i: int|
        0 <= i < v.records.len() ==> text_fits((#[trigger] v.records[i]).obj.metadata.name)
    &&& forall|i: int| 0 <= i < v.aux.len() ==> aux_fits(#[trigger] v.aux[i])
}

pub proof fn lemma_p_records(rs: Seq<RecordView>, rest: Seq<u8>)
    requires
        forall|i: int| 0 <= i < rs.len() ==> text_fits((#[trigger] rs[i]).obj.metadata.name),
    ensures
        p_records(s_records(rs) + rest, rs.len()) == Some((rs, rest)),
    decreases rs.len(),
{
    if rs.len() == 0 {
        assert(s_records(rs) + rest =~= rest);
        assert(rs =~= Seq::<RecordView>::empty());
    } else {
        let init = rs.drop_last();
        let tail = s_record(rs.last()) + rest;
        lemma_join(s_records(init), s_record(rs.last()), rest);
        assert forall|i: int| 0 <= i < init.len() implies text_fits(
            (#[trigger] init[i]).obj.metadata.name,
        ) by {
            assert(init[i] == rs[i]);
        }
        lemma_p_records(init, tail);
        lemma_p_record(rs.last(), rest);
        assert(init.push(rs.last()) =~= rs);
    }
}

pub proof fn lemma_p_auxs(entries: Seq<AuxEntryView>, rest: Seq<u8>)
    requires
        forall|i: int| 0 <= i < entries.len() ==> aux_fits(#[trigger] entries[i]),
    ensures
        p_auxs(s_auxs(entries) + rest, entries.len()) == Some((entries, rest)),
    decreases entries.len(),
{
    if entries.len() == 0 {
        assert(s_auxs(entries) + rest =~= rest);
        assert(entries =~= Seq::<AuxEntryView>::empty());
    } else {
        let init = entries.drop_last();
        let tail = s_aux(entries.last()) + rest;
        lemma_join(s_auxs(init), s_aux(entries.last()), rest);
        assert forall|i: int| 0 <= i < init.len() implies aux_fits(#[trigger] init[i]) by {
            assert(init[i] == entries[i]);
        }
        lemma_p_auxs(init, tail);
        lemma_p_aux(entries.last(), rest);
        assert(init.push(entries.last()) =~= entries);
    }
}

/// Where fewer records cannot be read, more cannot be read either.
pub proof fn lemma_p_records_fails(s: Seq<u8>, k: nat, n: nat)
    requires
        k <= n,
        p_records(s, k) is None,
    ensures
        p_records(s, n) is None,
    decreases n,
{
    if k < n {
        lemma_p_records_fails(s, k, (n - 1) as nat);
    }
}

pub proof fn lemma_p_auxs_fails(s: Seq<u8>, k: nat, n: nat)
    requires
        k <= n,
        p_auxs(s, k) is None,
    ensures
        p_auxs(s, n) is None,
    decreases n,
{
    if k < n {
        lemma_p_auxs_fails(s, k, (n - 1) as nat);
    }
}

pub proof fn lemma_p_count(key: Seq<u8>, n: nat, rest: Seq<u8>)
    requires
        n < 0x1_0000_0000_0000_0000,
    ensures
        p_count(key + hex_digits(n, 16) + seq![LINE_FEED] + rest, key) == Some((n, rest)),
{
    lemma_hex_limits();
    let d = hex_digits(n, 16);
    let nl = seq![LINE_FEED];
    let t2 = nl + rest;
    let t1 = d + t2;
    assert(key + d + nl + rest == key + t1) by {
        lemma_join(key + d, nl, rest);
        lemma_join(key, d, t2);
    }
    lemma_p_word(key, t1);
    lemma_p_hex(n, 16, t2);
    lemma_p_byte(LINE_FEED, rest);
}

/// Persisted state reads back as the store it was written from: the same
/// records in the same order, and the same table of broker detail.
pub proof fn lemma_round_trip(v: StoreView)
    requires
        fits(v),
    ensures
        p_store(s_store(v)) == Some(v),
{
    reveal(p_store);
    let nl = seq![LINE_FEED];
    let kr = word("records="@);
    let ka = word("aux="@);
    let n = hex_digits(v.records.len(), 16);
    let m = hex_digits(v.aux.len(), 16);
    let rs = s_records(v.records);
    let t3 = s_auxs(v.aux);
    let t2 = ka + m + nl + t3;
    let t1 = kr + n + nl + (rs + t2);
    assert(s_store(v) == magic() + t1) by {
        let h = magic() + kr + n + nl + rs;
        lemma_join(h + ka + m, nl, t3);
        lemma_join(h + ka, m, nl + t3);
        lemma_join(h, ka, m + (nl + t3));
        lemma_join(ka + m, nl, t3);
        lemma_join(ka, m, nl + t3);
        assert(s_store(v) == h + t2);
        lemma_join(magic() + kr + n + nl, rs, t2);
        lemma_join(magic() + kr + n, nl, rs + t2);
        lemma_join(magic() + kr, n, nl + (rs + t2));
        lemma_join(magic(), kr, n + (nl + (rs + t2)));
        lemma_join(kr + n, nl, rs + t2);
        lemma_join(kr, n, nl + (rs + t2));
    }
    assert(p_word(magic() + t1, magic()) == Some(t1)) by {
        lemma_p_word(magic(), t1);
    }
    assert(p_count(t1, kr) == Some((v.records.len(), rs + t2))) by {
        lemma_p_count(kr, v.records.len(), rs + t2);
    }
    assert(p_records(rs + t2, v.records.len()) == Some((v.records, t2))) by {
        lemma_p_records(v.records, t2);
    }
    assert(p_count(t2, ka) == Some((v.aux.len(), t3))) by {
        lemma_p_count(ka, v.aux.len(), t3);
    }
    assert(p_auxs(t3, v.aux.len()) == Some((v.aux, Seq::<u8>::empty()))) by {
        lemma_p_auxs(v.aux, Seq::<u8>::empty());
        assert(t3 + Seq::<u8>::empty() =~= t3);
    }
}

fn write_count(buf: &mut Vec<u8>, key: &str, n: usize)
    ensures
        final(buf)@ == old(buf)@ + word(key@) + hex_digits(n as nat, 16) + seq![LINE_FEED],
{
    write_word(buf, key);
    push_hex(buf, n as u128, 16);
    let ghost b2 = buf@;
    buf.push(LINE_FEED);
    assert(b2.push(LINE_FEED) =~= b2 + seq![LINE_FEED]);
}

/// Serialises the store.
pub fn write(store: &Resources) -> (out: Vec<u8>)
    ensures
        out@ == s_store(store@),
        fits(store@),
        p_store(out@) == Some(store@),
{
    let ghost v = store@;
    let mut buf: Vec<u8> = Vec::new();
    write_word(&mut buf, "bifrost-state 1\n");
    assert(buf@ =~= magic());
    let n = store.len();
    write_count(&mut buf, "records=", n);
    let ghost head = buf@;
    assert(head == magic() + word("records="@) + hex_digits(v.records.len(), 16) + seq![
        LINE_FEED,
    ]) by {
        let k = word("records="@);
        let d = hex_digits(v.records.len(), 16);
        let nl = seq![LINE_FEED];
        lemma_join(magic() + k, d, nl);
        lemma_join(magic(), k, d + nl);
        lemma_join(magic(), k + d, nl);
        lemma_join(magic(), k, d);
        lemma_join(k, d, nl);
    }
    let mut i: usize = 0;
    while i < n
        invariant
            i <= n,
            n == v.records.len(),
            v == store@,
            buf@ == head + s_records(v.records.take(i as int)),
            forall|k: int| 0 <= k < i ==> text_fits((#[trigger] v.records[k]).obj.metadata.name),
        decreases n - i,
    {
        let rec = store.record(i);
        write_record(&mut buf, rec);
        proof {
            let next = v.records.take(i + 1);
            assert(next.drop_last() =~= v.records.take(i as int));
            assert(next.last() == v.records[i as int]);
            lemma_join(head, s_records(v.records.take(i as int)), s_record(rec@));
        }
        i += 1;
    }
    assert(v.records.take(n as int) =~= v.records);
    let m = store.aux_len();
    write_count(&mut buf, "aux=", m);
    let ghost mid = buf@;
    assert(mid == head + s_records(v.records) + word("aux="@) + hex_digits(v.aux.len(), 16)
        + seq![LINE_FEED]);
    let mut j: usize = 0;
    while j < m
        invariant
            j <= m,
            m == v.aux.len(),
            v == store@,
            buf@ == mid + s_auxs(v.aux.take(j as int)),
            forall|k: int| 0 <= k < j ==> aux_fits(#[trigger] v.aux[k]),
        decreases m - j,
    {
        let entry = store.aux_entry(j);
        write_aux(&mut buf, entry);
        proof {
            let next = v.aux.take(j + 1);
            assert(next.drop_last() =~= v.aux.take(j as int));
            assert(next.last() == v.aux[j as int]);
            lemma_join(mid, s_auxs(v.aux.take(j as int)), s_aux(entry@));
        }
        j += 1;
    }
    proof {
        assert(v.aux.take(m as int) =~= v.aux);
        lemma_round_trip(v);
    }
    buf
}

fn read_records(buf: &[u8], pos: usize, count: u128) -> (r: Option<(Vec<ResourceRecord>, usize)>)
    requires
        pos <= buf@.len(),
    ensures
        match r {
            Some((out, next)) => next <= buf@.len() && p_records(
                buf@.skip(pos as int),
                count as nat,
            ) == Some((records_view(out@), buf@.skip(next as int))),
            None => p_records(buf@.skip(pos as int), count as nat) is None,
        },
{
    let ghost s = buf@.skip(pos as int);
    let mut out: Vec<ResourceRecord> = Vec::new();
    let mut cur = pos;
    let mut i: u128 = 0;
    assert(records_view(out@) =~= Seq::<RecordView>::empty());
    while i < count
        invariant
            i <= count,
            cur <= buf@.len(),
            s == buf@.skip(pos as int),
            p_records(s, i as nat) == Some((records_view(out@), buf@.skip(cur as int))),
        decreases count - i,
    {
        let ghost before = out@;
        match read_record(buf, cur) {
            Some((rec, next)) => {
                let ghost rv = rec@;
                out.push(rec);
                assert(records_view(out@) =~= records_view(before).push(rv));
                cur = next;
            },
            None => {
                proof {
                    lemma_p_records_fails(s, (i + 1) as nat, count as nat);
                }
                return None;
            },
        }
        i += 1;
    }
    Some((out, cur))
}

fn read_auxs(buf: &[u8], pos: usize, count: u128) -> (r: Option<(Vec<AuxEntry>, usize)>)
    requires
        pos <= buf@.len(),
    ensures
        match r {
            Some((out, next)) => next <= buf@.len() && p_auxs(buf@.skip(pos as int), count as nat)
                == Some((aux_view(out@), buf@.skip(next as int))),
            None => p_auxs(buf@.skip(pos as int), count as nat) is None,
        },
{
    let ghost s = buf@.skip(pos as int);
    let mut out: Vec<AuxEntry> = Vec::new();
    let mut cur = pos;
    let mut i: u128 = 0;
    assert(aux_view(out@) =~= Seq::<AuxEntryView>::empty());
    while i < count
        invariant
            i <= count,
            cur <= buf@.len(),
            s == buf@.skip(pos as int),
            p_auxs(s, i as nat) == Some((aux_view(out@), buf@.skip(cur as int))),
        decreases count - i,
    {
        let ghost before = out@;
        match read_aux(buf, cur) {
            Some((entry, next)) => {
                let ghost ev = entry@;
                out.push(entry);
                assert(aux_view(out@) =~= aux_view(before).push(ev));
                cur = next;
            },
            None => {
                proof {
                    lemma_p_auxs_fails(s, (i + 1) as nat, count as nat);
                }
                return None;
            },
        }
        i += 1;
    }
    Some((out, cur))
}

fn read_count(buf: &[u8], pos: usize, key: &str) -> (r: Option<(u128, usize)>)
    requires
        pos <= buf@.len(),
    ensures
        match r {
            Some((n, next)) => next <= buf@.len() && p_count(buf@.skip(pos as int), word(key@))
                == Some((n as nat, buf@.skip(next as int))),
            None => p_count(buf@.skip(pos as int), word(key@)) is None,
        },
{
    let p1 = match read_word(buf, pos, key) {
        Some(v) => v,
        None => {
            return None;
        },
    };
    let (n, p2) = match read_number(buf, p1, 16) {
        Some(v) => v,
        None => {
            return None;
        },
    };
    match read_byte(buf, p2, LINE_FEED) {
        Some(next) => Some((n, next)),
        None => None,
    }
}

/// Reads the records and the broker detail that persisted state holds.
fn parse(buf: &[u8]) -> (r: Option<(Vec<ResourceRecord>, Vec<AuxEntry>)>)
    ensures
        match r {
            Some((records, aux)) => p_store(buf@) == Some(
                StoreView { records: records_view(records@), aux: aux_view(aux@) },
            ),
            None => p_store(buf@) is None,
        },
{
    proof {
        reveal(p_store);
    }
    assert(buf@.skip(0) =~= buf@);
    let p1 = match read_word(buf, 0, "bifrost-state 1\n") {
        Some(v) => v,
        None => {
            return None;
        },
    };
    let (n, p2) = match read_count(buf, p1, "records=") {
        Some(v) => v,
        None => {
            return None;
        },
    };
    let (records, p3) = match read_records(buf, p2, n) {
        Some(v) => v,
        None => {
            return None;
        },
    };
    let (m, p4) = match read_count(buf, p3, "aux=") {
        Some(v) => v,
        None => {
            return None;
        },
    };
    let (aux, p5) = match read_auxs(buf, p4, m) {
        Some(v) => v,
        None => {
            return None;
        },
    };
    if p5 != buf.len() {
        return None;
    }
    Some((records, aux))
}

/// Deserialises a store. The input is read into values of its own first, and
/// a store is built from them only when all of it was read: on failure no
/// store exists. Fails with `Format` where the input is not the persisted
/// form of any store, or where what it holds breaks the store's invariant.
pub fn read(buf: &[u8]) -> (r: Result<Resources, ApiError>)
    ensures
        match r {
            Ok(store) => store.wf() && p_store(buf@) == Some(store@),
            Err(e) => e == ApiError::Format && (p_store(buf@) matches Some(v) ==> !v.wf()),
        },
{
    let (records, aux) = match parse(buf) {
        Some(v) => v,
        None => {
            return Err(ApiError::Format);
        },
    };
    match Resources::from_parts(records, aux) {
        Some(store) => Ok(store),
        None => Err(ApiError::Format),
    }
}

/// The store that a start of the bridge begins with: the persisted one where
/// there is persisted state, and a freshly initialised one where there is
/// none.
pub fn load_state(persisted: Option<&[u8]>, bridge_id: &str) -> (r: Result<Resources, ApiError>)
    ensures
        match persisted {
            Some(bytes) => match r {
                Ok(store) => store.wf() && p_store(bytes@) == Some(store@),
                Err(e) => e == ApiError::Format && (p_store(bytes@) matches Some(v) ==> !v.wf()),
            },
            None => match r {
                Ok(store) => {
                    &&& store.wf()
                    &&& derived(ResourceType::Device, bridge_id@) != derived(
                        ResourceType::BridgeHome,
                        bridge_id@,
                    )
                    &&& store@ == StoreView::empty().initialized(
                        derived(ResourceType::Device, bridge_id@),
                        derived(ResourceType::BridgeHome, bridge_id@),
                        bridge_id@,
                    )
                },
                Err(e) => {
                    &&& derived(ResourceType::Device, bridge_id@) == derived(
                        ResourceType::BridgeHome,
                        bridge_id@,
                    )
                    &&& e == ApiError::Conflict(derived(ResourceType::BridgeHome, bridge_id@))
                },
            },
        },
{
    match persisted {
        Some(bytes) => read(bytes),
        None => {
            let mut store = Resources::new();
            match store.init(bridge_id) {
                Ok(_) => Ok(store),
                Err(e) => Err(e),
            }
        },
    }
}

impl Resources {
    /// Serialises the store. What is written reads back as this store.
    pub fn write(&self) -> (out: Vec<u8>)
        ensures
            out@ == s_store(self@),
            p_store(out@) == Some(self@),
    {
        write(self)
    }

    /// Replaces the store by the one that the input holds. The input is
    /// read into a store of its own first, and the two are swapped only when
    /// that succeeded: on failure, which is `Format`, this store is as it was.
    pub fn read(&mut self, source: &[u8]) -> (r: Result<(), ApiError>)
        ensures
            match r {
                Ok(_) => final(self).wf() && p_store(source@) == Some(final(self)@),
                Err(e) => {
                    &&& *final(self) == *old(self)
                    &&& e == ApiError::Format
                    &&& p_store(source@) matches Some(v) ==> !v.wf()
                },
            },
    {
        match read(source) {
            Ok(store) => {
                *self = store;
                Ok(())
            },
            Err(e) => Err(e),
        }
    }
}

} // verus!
