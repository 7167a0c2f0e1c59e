use vstd::prelude::*;

use crate::error::ApiError;
use crate::resource::{Body, ResourceLink, Xy};
use crate::store::{Resources, StoreView};

verus! {

/// A partial update of a light or of a grouped light, in the API's vocabulary.
/// A field that is `None` is not touched.
#[derive(Clone, Copy, Debug, PartialEq, Eq)]
pub struct LightUpdate {
    pub on: Option<bool>,
    /// Hundredths of a percent.
    pub brightness: Option<u16>,
    /// Mirek.
    pub color_temperature: Option<u16>,
    pub color: Option<Xy>,
}

/// A partial update of a device, in the broker's vocabulary. A field that is
/// `None` is left out of the payload.
#[derive(Clone, Copy, Debug, PartialEq, Eq)]
pub struct DeviceUpdate {
    pub state: Option<bool>,
    /// On the broker's linear scale from 0 to 255.
    pub brightness: Option<u8>,
    /// Mirek.
    pub color_temp: Option<u16>,
    pub color: Option<Xy>,
}

/// The broker's brightness for a brightness in hundredths of a percent:
/// 255 for 100 percent and more, below that the nearest step of the scale,
/// a half rounded up.
pub open spec fn scaled_brightness(hundredths: u16) -> u8 {
    if hundredths >= 10000 {
        255u8
    } else {
        ((hundredths * 255 + 5000) / 10000) as u8
    }
}

/// Brings a brightness in hundredths of a percent to the broker's scale.
pub fn scale_brightness(hundredths: u16) -> (b: u8)
    ensures
        b == scaled_brightness(hundredths),
{
    if hundredths >= 10000 {
        255
    } else {
        let wide: u32 = hundredths as u32 * 255 + 5000;
        (wide / 10000) as u8
    }
}

/// The scale keeps the order of brightnesses.
pub proof fn lemma_scale_is_monotonic(a: u16, b: u16)
    requires
        a <= b,
    ensures
        scaled_brightness(a) <= scaled_brightness(b),
{
}

/// The ends of the percent range meet the ends of the broker's scale.
pub proof fn lemma_scale_ends()
    ensures
        scaled_brightness(0) == 0,
        scaled_brightness(10000) == 255,
{
}

/// What the broker is told for an API update: power and colours as they are,
/// brightness brought to the broker's scale, and nothing for an unset field.
pub open spec fn translated(upd: LightUpdate) -> DeviceUpdate {
    DeviceUpdate {
        state: upd.on,
        brightness: match upd.brightness {
            Some(p) => Some(scaled_brightness(p)),
            None => None,
        },
        color_temp: upd.color_temperature,
        color: upd.color,
    }
}

impl DeviceUpdate {
    /// The update that sets nothing.
    pub open spec fn empty() -> DeviceUpdate {
        DeviceUpdate { state: None, brightness: None, color_temp: None, color: None }
    }

    pub open spec fn spec_is_empty(&self) -> bool {
        *self == DeviceUpdate::empty()
    }

    /// Whether the update sets nothing, so that its payload has no field.
    #[verifier::when_used_as_spec(spec_is_empty)]
    pub fn is_empty(&self) -> (b: bool)
        ensures
            b == self.spec_is_empty(),
    {
        self.state.is_none() && self.brightness.is_none() && self.color_temp.is_none()
            && self.color.is_none()
    }

    pub fn with_state(self, state: Option<bool>) -> (out: Self)
        ensures
            out == (DeviceUpdate { state, ..self }),
    {
        DeviceUpdate { state, ..self }
    }

    pub fn with_brightness(self, brightness: Option<u8>) -> (out: Self)
        ensures
            out == (DeviceUpdate { brightness, ..self }),
    {
        DeviceUpdate { brightness, ..self }
    }

    pub fn with_color_temp(self, mirek: Option<u16>) -> (out: Self)
        ensures
            out == (DeviceUpdate { color_temp: mirek, ..self }),
    {
        DeviceUpdate { color_temp: mirek, ..self }
    }

    pub fn with_color_xy(self, xy: Option<Xy>) -> (out: Self)
        ensures
            out == (DeviceUpdate { color: xy, ..self }),
    {
        DeviceUpdate { color: xy, ..self }
    }
}

impl Default for DeviceUpdate {
    fn default() -> (out: Self)
        ensures
            out == DeviceUpdate::empty(),
    {
        DeviceUpdate { state: None, brightness: None, color_temp: None, color: None }
    }
}

/// Translates an API update into the broker's vocabulary.
pub fn translate(upd: &LightUpdate) -> (out: DeviceUpdate)
    ensures
        out == translated(*upd),
{
    let brightness = match upd.brightness {
        Some(p) => Some(scale_brightness(p)),
        None => None,
    };
    DeviceUpdate::default().with_state(upd.on).with_brightness(brightness).with_color_temp(
        upd.color_temperature,
    ).with_color_xy(upd.color)
}

/// An update that sets nothing translates to an empty payload, and only such
/// an update does.
pub proof fn lemma_unset_stays_unset(upd: LightUpdate)
    ensures
        translated(upd).spec_is_empty() <==> (upd.on is None && upd.brightness is None
            && upd.color_temperature is None && upd.color is None),
        upd.on is None <==> translated(upd).state is None,
        upd.brightness is None <==> translated(upd).brightness is None,
        upd.color_temperature is None <==> translated(upd).color_temp is None,
        upd.color is None <==> translated(upd).color is None,
{
}

/// What a scene recall asks for.
#[derive(Clone, Copy, Debug, PartialEq, Eq)]
pub enum SceneRecallAction {
    Active,
    DynamicPalette,
    Static,
}

/// The recall part of a scene update.
#[derive(Clone, Copy, Debug, PartialEq, Eq)]
pub struct SceneRecall {
    pub action: Option<SceneRecallAction>,
}

/// A partial update of a scene.
#[derive(Clone, Copy, Debug, PartialEq, Eq)]
pub struct SceneUpdate {
    pub recall: Option<SceneRecall>,
}

impl SceneUpdate {
    /// The update asks to activate the scene.
    pub open spec fn activates(self) -> bool {
        self.recall matches Some(r) && r.action == Some(SceneRecallAction::Active)
    }
}

/// The body of an update request, read according to the type of the resource
/// it addresses.
#[derive(Clone, Copy, Debug, PartialEq, Eq)]
pub enum UpdateRequest {
    /// For a light or a grouped light.
    Light(LightUpdate),
    /// For a scene.
    Scene(SceneUpdate),
    /// For a resource of a type that takes no state update.
    Other,
}

/// What is published to a broker.
#[derive(Clone, Copy, Debug, PartialEq, Eq)]
pub enum Payload {
    /// Attribute updates of a device or group.
    Device(DeviceUpdate),
    /// The recall of the scene with this index of the broker.
    SceneRecall(u32),
}

/// A command for a broker: a payload, and the device name, group name or
/// topic it is addressed to.
#[derive(Debug, PartialEq, Eq)]
pub struct Command {
    pub target: String,
    pub payload: Payload,
}

pub struct CommandView {
    pub target: Seq<char>,
    pub payload: Payload,
}

impl View for Command {
    type V = CommandView;

    open spec fn view(&self) -> CommandView {
        CommandView { target: self.target@, payload: self.payload }
    }
}

impl Clone for Command {
    fn clone(&self) -> (c: Self)
        ensures
            c == *self,
    {
        Command { target: self.target.clone(), payload: self.payload }
    }
}

/// The command that an update of the resource behind `link` leads to.
///
/// A light is addressed by its own name, a grouped light by the name of the
/// room that owns it. A scene is recalled under the topic and index of its
/// broker detail, and only when the update asks to activate it: any other
/// recall, and any update of a resource of another type, is accepted and
/// leads to no command.
pub open spec fn planned(s: StoreView, link: ResourceLink, req: UpdateRequest) -> Result<
    Option<CommandView>,
    ApiError,
> {
    match s.lookup(link) {
        None => Err(ApiError::NotFound(link.rid)),
        Some(rec) => match rec.obj.body {
            Body::Light(_) => match req {
                UpdateRequest::Light(upd) => Ok(
                    Some(
                        CommandView {
                            target: rec.obj.metadata.name,
                            payload: Payload::Device(translated(upd)),
                        },
                    ),
                ),
                _ => Err(ApiError::Validation),
            },
            Body::GroupedLight(g) => match s.lookup(g.owner) {
                None => Err(ApiError::NotFound(g.owner.rid)),
                Some(room) => match req {
                    UpdateRequest::Light(upd) => Ok(
                        Some(
                            CommandView {
                                target: room.obj.metadata.name,
                                payload: Payload::Device(translated(upd)),
                            },
                        ),
                    ),
                    _ => Err(ApiError::Validation),
                },
            },
            Body::Scene(_) => match req {
                UpdateRequest::Scene(upd) => if upd.activates() {
                    match s.aux_of(link.rid) {
                        Some(aux) => match (aux.topic, aux.index) {
                            (Some(topic), Some(index)) => Ok(
                                Some(
                                    CommandView {
                                        target: topic,
                                        payload: Payload::SceneRecall(index),
                                    },
                                ),
                            ),
                            _ => Err(ApiError::NotFound(link.rid)),
                        },
                        None => Err(ApiError::NotFound(link.rid)),
                    }
                } else {
                    Ok(None)
                },
                _ => Err(ApiError::Validation),
            },
            _ => Ok(None),
        },
    }
}

/// The view of an optional command.
pub open spec fn command_view(c: Option<Command>) -> Option<CommandView> {
    match c {
        Some(c) => Some(c@),
        None => None,
    }
}

/// Decides what an update request for the resource behind `link` sends to a
/// broker. The store is only read: it changes when the broker confirms.
pub fn plan_update(store: &Resources, link: &ResourceLink, req: &UpdateRequest) -> (r: Result<
    Option<Command>,
    ApiError,
>)
    requires
        store.wf(),
    ensures
        match r {
            Ok(c) => planned(store@, *link, *req) == Ok::<Option<CommandView>, ApiError>(
                command_view(c),
            ),
            Err(e) => planned(store@, *link, *req) == Err::<Option<CommandView>, ApiError>(e),
        },
{
    let rec = match store.get_link(link) {
        Ok(rec) => rec,
        Err(e) => {
            return Err(e);
        },
    };
    match rec.obj.body {
        Body::Light(_) => match req {
            UpdateRequest::Light(upd) => Ok(
                Some(
                    Command {
                        target: rec.obj.metadata.name,
                        payload: Payload::Device(translate(upd)),
                    },
                ),
            ),
            _ => Err(ApiError::Validation),
        },
        Body::GroupedLight(g) => {
            let room = match store.get_link(&g.owner) {
                Ok(room) => room,
                Err(e) => {
                    return Err(e);
                },
            };
            match req {
                UpdateRequest::Light(upd) => Ok(
                    Some(
                        Command {
                            target: room.obj.metadata.name,
                            payload: Payload::Device(translate(upd)),
                        },
                    ),
                ),
                _ => Err(ApiError::Validation),
            }
        },
        Body::Scene(_) => match req {
            UpdateRequest::Scene(upd) => {
                let active = match upd.recall {
                    Some(recall) => match recall.action {
                        Some(SceneRecallAction::Active) => true,
                        _ => false,
                    },
                    None => false,
                };
                if !active {
                    return Ok(None);
                }
                let aux = match store.get_aux(link.rid) {
                    Some(aux) => aux,
                    None => {
                        return Err(ApiError::NotFound(link.rid));
                    },
                };
                match (aux.topic, aux.index) {
                    (Some(topic), Some(index)) => Ok(
                        Some(Command { target: topic, payload: Payload::SceneRecall(index) }),
                    ),
                    _ => Err(ApiError::NotFound(link.rid)),
                }
            },
            _ => Err(ApiError::Validation),
        },
        _ => Ok(None),
    }
}

/// Only a live light, a grouped light whose room exists, and an activated
/// scene with its broker detail lead to a command; and a scene update that
/// does not ask to activate never does.
pub proof fn lemma_inactive_recall_is_silent(s: StoreView, link: ResourceLink, upd: SceneUpdate)
    requires
        !upd.activates(),
        s.lookup(link) matches Some(rec) && rec.obj.body is Scene,
    ensures
        planned(s, link, UpdateRequest::Scene(upd)) == Ok::<Option<CommandView>, ApiError>(None),
{
}

} // verus!
