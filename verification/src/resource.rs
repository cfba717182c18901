//! A prepared resource on its way to or from a stage.

use vstd::prelude::*;

use crate::ir::IrSlot;
use crate::nam::NamSlot;
use crate::prepare::PrepareContext;

verus! {

/// Which stage a resource is for.
#[derive(Debug, Clone, Copy, PartialEq, Eq, Structural)]
pub enum ResourceKind {
    Nam,
    Ir,
}

/// A whole prepared slot and the figures it was prepared with.
pub enum Resource {
    Nam(Box<NamSlot>, PrepareContext),
    Ir(Box<IrSlot>, PrepareContext),
}

impl Resource {
    pub open spec fn kind_spec(self) -> ResourceKind {
        match self {
            Resource::Nam(..) => ResourceKind::Nam,
            Resource::Ir(..) => ResourceKind::Ir,
        }
    }

    pub fn kind(&self) -> (k: ResourceKind)
        ensures
            k == self.kind_spec(),
    {
        match self {
            Resource::Nam(..) => ResourceKind::Nam,
            Resource::Ir(..) => ResourceKind::Ir,
        }
    }

    #[verifier::allow_in_spec]
    pub fn nam(slot: Box<NamSlot>, ctx: PrepareContext) -> Resource
        returns
            (Resource::Nam(slot, ctx)),
    {
        Resource::Nam(slot, ctx)
    }

    #[verifier::allow_in_spec]
    pub fn ir(slot: Box<IrSlot>, ctx: PrepareContext) -> Resource
        returns
            (Resource::Ir(slot, ctx)),
    {
        Resource::Ir(slot, ctx)
    }

    /// Takes the offered resource if it is a model; any other offer stays where it is.
    pub fn take_nam(offer: &mut Option<Resource>) -> (r: Option<(Box<NamSlot>, PrepareContext)>)
        ensures
            match *old(offer) {
                Some(Resource::Nam(slot, ctx)) => r == Some((slot, ctx)) && *final(offer)
                    is None,
                _ => r is None && *final(offer) == *old(offer),
            },
    {
        match offer.take() {
            Some(Resource::Nam(slot, ctx)) => Some((slot, ctx)),
            other => {
                *offer = other;
                None
            },
        }
    }

    /// Takes the offered resource if it is an impulse response; any other offer stays where it is.
    pub fn take_ir(offer: &mut Option<Resource>) -> (r: Option<(Box<IrSlot>, PrepareContext)>)
        ensures
            match *old(offer) {
                Some(Resource::Ir(slot, ctx)) => r == Some((slot, ctx)) && *final(offer) is None,
                _ => r is None && *final(offer) == *old(offer),
            },
    {
        match offer.take() {
            Some(Resource::Ir(slot, ctx)) => Some((slot, ctx)),
            other => {
                *offer = other;
                None
            },
        }
    }
}

} // verus!
