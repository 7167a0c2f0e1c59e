use vstd::prelude::*;

verus! {

/// The closed set of resource types.
#[derive(Clone, Copy, Debug, PartialEq, Eq, Hash, Structural)]
pub enum ResourceType {
    Light,
    GroupedLight,
    Scene,
    Room,
    Device,
    BridgeHome,
}

/// A reference to a resource: a lookup key, never ownership.
#[derive(Clone, Copy, Debug, PartialEq, Eq, Hash, Structural)]
pub struct ResourceLink {
    pub rid: u128,
    pub rtype: ResourceType,
}

impl ResourceType {
    /// The link to the resource of this type with the given id.
    pub fn link_to(self, rid: u128) -> (link: ResourceLink)
        ensures
            link == (ResourceLink { rid, rtype: self }),
    {
        ResourceLink { rid, rtype: self }
    }
}

/// A chromaticity, each coordinate in ten-thousandths.
#[derive(Clone, Copy, Debug, PartialEq, Eq)]
pub struct Xy {
    pub x: u32,
    pub y: u32,
}

/// The live state of a light, in the API's units.
#[derive(Clone, Copy, Debug, PartialEq, Eq)]
pub struct Light {
    pub on: bool,
    /// Hundredths of a percent, at most 10000.
    pub brightness: Option<u16>,
    /// Mirek.
    pub color_temperature: Option<u16>,
    pub color: Option<Xy>,
}

/// The aggregate of the lights of one room.
#[derive(Clone, Copy, Debug, PartialEq, Eq)]
pub struct GroupedLight {
    /// The room whose lights are aggregated.
    pub owner: ResourceLink,
    pub on: bool,
}

/// A stored snapshot of device states that the broker can recall.
#[derive(Clone, Copy, Debug, PartialEq, Eq)]
pub struct Scene {
    /// The room the scene belongs to.
    pub owner: ResourceLink,
}

/// A physical device known to a broker.
#[derive(Clone, Copy, Debug, PartialEq, Eq)]
pub struct Device {
    /// Set when a refreshed device list of the broker no longer names the device.
    pub stale: bool,
}

/// What a resource holds besides its metadata.
#[derive(Clone, Copy, Debug, PartialEq, Eq)]
pub enum Body {
    Light(Light),
    GroupedLight(GroupedLight),
    Scene(Scene),
    Room,
    Device(Device),
    BridgeHome,
}

impl Body {
    pub open spec fn spec_rtype(self) -> ResourceType {
        match self {
            Body::Light(_) => ResourceType::Light,
            Body::GroupedLight(_) => ResourceType::GroupedLight,
            Body::Scene(_) => ResourceType::Scene,
            Body::Room => ResourceType::Room,
            Body::Device(_) => ResourceType::Device,
            Body::BridgeHome => ResourceType::BridgeHome,
        }
    }

    /// The type tag of this variant.
    #[verifier::when_used_as_spec(spec_rtype)]
    pub fn rtype(self) -> (t: ResourceType)
        ensures
            t == self.spec_rtype(),
    {
        match self {
            Body::Light(_) => ResourceType::Light,
            Body::GroupedLight(_) => ResourceType::GroupedLight,
            Body::Scene(_) => ResourceType::Scene,
            Body::Room => ResourceType::Room,
            Body::Device(_) => ResourceType::Device,
            Body::BridgeHome => ResourceType::BridgeHome,
        }
    }

    /// The rules that a payload of each type obeys: a brightness is at most
    /// 100 percent, and the owner of a grouped light or a scene is a room.
    pub open spec fn valid(self) -> bool {
        match self {
            Body::Light(l) => l.brightness matches Some(b) ==> b <= 10000,
            Body::GroupedLight(g) => g.owner.rtype == ResourceType::Room,
            Body::Scene(s) => s.owner.rtype == ResourceType::Room,
            Body::Room => true,
            Body::Device(_) => true,
            Body::BridgeHome => true,
        }
    }

    /// Tests the rules of the payload's type.
    pub fn is_valid(self) -> (ok: bool)
        ensures
            ok == self.valid(),
    {
        match self {
            Body::Light(l) => match l.brightness {
                Some(b) => b <= 10000,
                None => true,
            },
            Body::GroupedLight(g) => g.owner.rtype == ResourceType::Room,
            Body::Scene(s) => s.owner.rtype == ResourceType::Room,
            Body::Room => true,
            Body::Device(_) => true,
            Body::BridgeHome => true,
        }
    }
}

/// Descriptive data that every resource carries.
#[derive(Debug, PartialEq, Eq)]
pub struct Metadata {
    pub name: String,
}

pub struct MetadataView {
    pub name: Seq<char>,
}

impl View for Metadata {
    type V = MetadataView;

    open spec fn view(&self) -> MetadataView {
        MetadataView { name: self.name@ }
    }
}

impl Clone for Metadata {
    fn clone(&self) -> (m: Self)
        ensures
            m == *self,
    {
        Metadata { name: self.name.clone() }
    }
}

/// A resource as a client submits it: metadata and a typed body.
#[derive(Debug, PartialEq, Eq)]
pub struct Resource {
    pub metadata: Metadata,
    pub body: Body,
}

pub struct ResourceView {
    pub metadata: MetadataView,
    pub body: Body,
}

impl View for Resource {
    type V = ResourceView;

    open spec fn view(&self) -> ResourceView {
        ResourceView { metadata: self.metadata@, body: self.body }
    }
}

impl Clone for Resource {
    fn clone(&self) -> (r: Self)
        ensures
            r == *self,
    {
        Resource { metadata: self.metadata.clone(), body: self.body }
    }
}

/// A resource as the store holds it, under its id.
#[derive(Debug, PartialEq, Eq)]
pub struct ResourceRecord {
    pub id: u128,
    pub obj: Resource,
}

pub struct RecordView {
    pub id: u128,
    pub obj: ResourceView,
}

impl RecordView {
    pub open spec fn rtype(self) -> ResourceType {
        self.obj.body.spec_rtype()
    }

    pub open spec fn link(self) -> ResourceLink {
        ResourceLink { rid: self.id, rtype: self.rtype() }
    }
}

impl View for ResourceRecord {
    type V = RecordView;

    open spec fn view(&self) -> RecordView {
        RecordView { id: self.id, obj: self.obj@ }
    }
}

impl Clone for ResourceRecord {
    fn clone(&self) -> (r: Self)
        ensures
            r == *self,
    {
        ResourceRecord { id: self.id, obj: self.obj.clone() }
    }
}

impl ResourceRecord {
    /// The link that addresses this record.
    pub fn link(&self) -> (l: ResourceLink)
        ensures
            l == self@.link(),
    {
        ResourceLink { rid: self.id, rtype: self.obj.body.rtype() }
    }
}

/// Broker detail of a resource that is no part of its API shape.
#[derive(Debug, PartialEq, Eq)]
pub struct AuxData {
    /// The broker topic that addresses the resource.
    pub topic: Option<String>,
    /// The broker's own index of a scene.
    pub index: Option<u32>,
}

pub struct AuxView {
    pub topic: Option<Seq<char>>,
    pub index: Option<u32>,
}

impl View for AuxData {
    type V = AuxView;

    open spec fn view(&self) -> AuxView {
        AuxView {
            topic: match self.topic {
                Some(t) => Some(t@),
                None => None,
            },
            index: self.index,
        }
    }
}

impl Clone for AuxData {
    fn clone(&self) -> (a: Self)
        ensures
            a == *self,
    {
        AuxData {
            topic: match &self.topic {
                Some(t) => Some(t.clone()),
                None => None,
            },
            index: self.index,
        }
    }
}

} // verus!
