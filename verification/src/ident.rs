use uuid::Uuid;
use vstd::prelude::*;
use vstd::string::*;

use crate::resource::ResourceType;

verus! {

/// The namespace under which the bridge derives ids from names: that of ISO
/// object identifiers.
pub const ID_NAMESPACE: u128 = 0x6ba7b812_9dad_11d1_80b4_00c04fd430c8;

/// The id that the name-based SHA-1 scheme of the `uuid` crate gives to `name`
/// within `namespace`, both taken as big-endian numbers and bytes.
pub uninterp spec fn uuid_v5(namespace: u128, name: Seq<u8>) -> u128;

/// Calls `uuid::Uuid::new_v5`. The result is a function of the namespace and
/// the name alone; the contract gives it the name `uuid_v5` and claims nothing
/// else of it.
#[verifier::external_body]
fn name_based_id(namespace: u128, name: &[u8]) -> (id: u128)
    ensures
        id == uuid_v5(namespace, name@),
{
    Uuid::new_v5(&Uuid::from_u128(namespace), name).as_u128()
}

/// An id has the form of a random one: its version is 4 and its variant the
/// standard one.
pub open spec fn is_random_form(id: u128) -> bool {
    id & 0x0000_0000_0000_f000_c000_0000_0000_0000 == 0x0000_0000_0000_4000_8000_0000_0000_0000
}

/// Calls `uuid::Uuid::new_v4`, which draws 128 bits from the operating
/// system's generator and overwrites six of them: the version becomes 4 and
/// the variant the standard one. Nothing else is claimed of the result, and
/// two calls may differ. Where the operating system has no random bytes to
/// give, the call does not return: it ends the process.
#[verifier::external_body]
pub(crate) fn random_id() -> (id: u128)
    ensures
        is_random_form(id),
{
    Uuid::new_v4().as_u128()
}

/// The byte that stands for a resource type in the name an id is derived from.
pub open spec fn type_tag(rtype: ResourceType) -> u8 {
    match rtype {
        ResourceType::Light => 0x6c,
        ResourceType::GroupedLight => 0x67,
        ResourceType::Scene => 0x73,
        ResourceType::Room => 0x72,
        ResourceType::Device => 0x64,
        ResourceType::BridgeHome => 0x68,
    }
}

/// The name from which the id of the resource of type `rtype` that belongs to
/// `seed` is derived: the type's tag, then the seed in UTF-8.
pub open spec fn derivation_name(rtype: ResourceType, seed: Seq<char>) -> Seq<u8> {
    seq![type_tag(rtype)] + vstd::utf8::encode_utf8(seed)
}

/// The stable id of the resource of type `rtype` that belongs to `seed`.
pub open spec fn derived(rtype: ResourceType, seed: Seq<char>) -> u128 {
    uuid_v5(ID_NAMESPACE, derivation_name(rtype, seed))
}

/// Derives the stable id of the resource of type `rtype` that belongs to
/// `seed`, such as a hardware address or a broker's device name. The same
/// type and seed give the same id at every start.
pub fn derived_id(rtype: ResourceType, seed: &str) -> (id: u128)
    ensures
        id == derived(rtype, seed@),
{
    let tag: u8 = match rtype {
        ResourceType::Light => 0x6c,
        ResourceType::GroupedLight => 0x67,
        ResourceType::Scene => 0x73,
        ResourceType::Room => 0x72,
        ResourceType::Device => 0x64,
        ResourceType::BridgeHome => 0x68,
    };
    let mut name: Vec<u8> = Vec::new();
    name.push(tag);
    name.extend_from_slice(seed.as_bytes());
    assert(name@ =~= derivation_name(rtype, seed@));
    name_based_id(ID_NAMESPACE, name.as_slice())
}

} // verus!
