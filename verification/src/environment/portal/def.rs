//! Links between portals. A portal with [`PortalTo`] leads to another portal,
//! which holds the matching [`PortalFrom`]. Entities are named by their bits.
use vstd::prelude::*;

verus! {

/// The portal that this portal leads to.
#[derive(Clone, Copy, Debug, PartialEq, Eq, Structural)]
pub struct PortalTo(pub u64);

impl PortalTo {
    pub fn get(&self) -> (e: u64)
        ensures
            e == self.0,
    {
        self.0
    }
}

/// The portal that leads to this portal.
#[derive(Clone, Copy, Debug, PartialEq, Eq, Structural)]
pub struct PortalFrom(u64);

impl PortalFrom {
    pub closed spec fn spec_get(&self) -> u64 {
        self.0
    }

    /// The link back to `source`.
    pub fn new(source: u64) -> (f: PortalFrom)
        ensures
            f.spec_get() == source,
    {
        PortalFrom(source)
    }

    pub fn get(&self) -> (e: u64)
        ensures
            e == self.spec_get(),
    {
        self.0
    }
}

/// What a portal holds of its link: one of the two sides.
#[derive(Clone, Copy, Debug, PartialEq, Eq, Structural)]
pub struct PortalLinkItem {
    pub to: Option<PortalTo>,
    pub from: Option<PortalFrom>,
}

impl PortalLinkItem {
    /// A portal's link holds exactly one of the two sides.
    pub open spec fn spec_valid(&self) -> bool {
        self.to is Some != self.from is Some
    }

    /// The portal at the other end of the link.
    pub open spec fn spec_other(&self) -> u64 {
        match self.to {
            Some(to) => to.0,
            None => self.from.unwrap().spec_get(),
        }
    }

    /// The portal at the other end of the link, whichever side this portal
    /// holds.
    pub fn get(&self) -> (e: u64)
        requires
            self.spec_valid(),
        ensures
            e == self.spec_other(),
    {
        match self.to {
            Some(to) => to.get(),
            None => match self.from {
                Some(from) => from.get(),
                None => 0,
            },
        }
    }
}

/// The entity held no [`PortalTo`] when its link was discarded.
#[derive(Clone, Copy, Debug, PartialEq, Eq, Structural)]
pub struct MissingPortalTo;

/// When a portal's [`PortalTo`] is discarded, the portal it led to goes away
/// too: the result is that portal, to despawn.
pub fn on_portal_to_discard(link: Option<PortalTo>) -> (r: Result<u64, MissingPortalTo>)
    ensures
        match link {
            Some(to) => r == Ok::<u64, MissingPortalTo>(to.0),
            None => r == Err::<u64, MissingPortalTo>(MissingPortalTo),
        },
{
    match link {
        Some(to) => Ok(to.get()),
        None => Err(MissingPortalTo),
    }
}

} // verus!
