//! Identifiers of resources and components.
//!
//! A resource identifier carries its capability in its tag, so that a
//! non-fungible identifier is turned away by a `match` wherever one arrives.
use vstd::prelude::*;

verus! {

/// The identifier of a resource, tagged with its capability.
#[derive(Clone, Copy, Debug, PartialEq, Eq, Hash, Structural)]
pub enum ResourceAddress {
    Fungible(u64),
    NonFungible(u64),
}

/// The identifier of a component, such as a pool.
#[derive(Clone, Copy, Debug, PartialEq, Eq, Hash, Structural)]
pub struct ComponentAddress {
    pub id: u64,
}

/// The identifier of any addressable entity.
#[derive(Clone, Copy, Debug, PartialEq, Eq, Hash, Structural)]
pub enum GlobalAddress {
    Component(ComponentAddress),
    Resource(ResourceAddress),
}

impl ResourceAddress {
    /// Whether the resource is fungible.
    pub open spec fn spec_is_fungible(&self) -> bool {
        *self is Fungible
    }

    /// The integer under which tables keep this identifier: the number
    /// itself for a fungible one, the number plus 2^64 for a non-fungible one.
    pub open spec fn spec_key(&self) -> u128 {
        match *self {
            ResourceAddress::Fungible(n) => n as u128,
            ResourceAddress::NonFungible(n) => (n + 0x1_0000_0000_0000_0000) as u128,
        }
    }

    /// Whether the resource is fungible.
    #[verifier::when_used_as_spec(spec_is_fungible)]
    pub fn is_fungible(&self) -> (r: bool)
        ensures
            r == self.spec_is_fungible(),
    {
        match self {
            ResourceAddress::Fungible(_) => true,
            ResourceAddress::NonFungible(_) => false,
        }
    }

    /// The integer under which tables keep this identifier.
    #[verifier::when_used_as_spec(spec_key)]
    pub fn key(&self) -> (r: u128)
        ensures
            r == self.spec_key(),
    {
        match self {
            ResourceAddress::Fungible(n) => *n as u128,
            ResourceAddress::NonFungible(n) => *n as u128 + 0x1_0000_0000_0000_0000u128,
        }
    }

    /// Different identifiers have different keys.
    pub proof fn lemma_key_injective(a: ResourceAddress, b: ResourceAddress)
        ensures
            a.key() == b.key() <==> a == b,
    {
    }
}

impl GlobalAddress {
    /// The resource that this address names, if it names one.
    pub fn as_resource(&self) -> (r: Option<ResourceAddress>)
        ensures
            r == match *self {
                GlobalAddress::Resource(a) => Some(a),
                GlobalAddress::Component(_) => None,
            },
    {
        match self {
            GlobalAddress::Resource(a) => Some(*a),
            GlobalAddress::Component(_) => None,
        }
    }
}

/// A table kept under integer keys, read as a map from the identifiers
/// themselves.
pub open spec fn by_address<V>(m: Map<u128, V>) -> Map<ResourceAddress, V> {
    Map::new(|a: ResourceAddress| m.contains_key(a.key()), |a: ResourceAddress| m[a.key()])
}

/// An entry written under the key of `a` is an entry for `a`.
pub proof fn lemma_by_address_insert<V>(m: Map<u128, V>, a: ResourceAddress, v: V)
    ensures
        by_address(m.insert(a.key(), v)) == by_address(m).insert(a, v),
{
    assert forall|b: ResourceAddress| b.key() == a.key() implies b == a by {
        ResourceAddress::lemma_key_injective(a, b);
    }
    assert(by_address(m.insert(a.key(), v)) =~= by_address(m).insert(a, v));
}

/// An entry removed under the key of `a` is the entry for `a`.
pub proof fn lemma_by_address_remove<V>(m: Map<u128, V>, a: ResourceAddress)
    ensures
        by_address(m.remove(a.key())) == by_address(m).remove(a),
{
    assert forall|b: ResourceAddress| b.key() == a.key() implies b == a by {
        ResourceAddress::lemma_key_injective(a, b);
    }
    assert(by_address(m.remove(a.key())) =~= by_address(m).remove(a));
}

/// The native resource, accepted by every market from the start.
pub open spec fn spec_xrd() -> ResourceAddress {
    ResourceAddress::Fungible(0)
}

/// The native resource.
#[verifier::when_used_as_spec(spec_xrd)]
pub fn xrd() -> (r: ResourceAddress)
    ensures
        r == spec_xrd(),
{
    ResourceAddress::Fungible(0)
}

} // verus!
