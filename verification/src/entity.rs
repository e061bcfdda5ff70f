//! The closed set of entity kinds the arena simulates.
//!
//! Polymorphism is a tagged variant type: input is routed only to variants
//! that declare an input capability, with no runtime type identity check.

use vstd::prelude::*;
use crate::net::ChannelClosed;
use crate::protocol::{CensusEntry, ClientboundPacket, wf_clientbound};
use crate::spatial::SolverEntry;
use crate::tank::{Tank, spec_tank_step, spec_solver_entry, spec_census_entry};
use crate::types::Identifier;

verus! {

/// Any simulated object; the tank is the one populated kind.
pub enum Entity {
    Tank(Tank),
}

impl Entity {
    /// The tank inside.
    pub open spec fn tank(&self) -> Tank {
        match self {
            Entity::Tank(t) => *t,
        }
    }

    /// The display name fits the wire's 16-bit length prefix.
    pub open spec fn wf(&self) -> bool {
        self.tank().wf()
    }

    /// What one tick does to this entity.
    pub open spec fn step(&self, dt: i64) -> Entity {
        Entity::Tank(spec_tank_step(self.tank(), dt))
    }

    /// Borrow the tank inside.
    pub fn tank_ref(&self) -> (r: &Tank)
        ensures
            *r == self.tank(),
    {
        match self {
            Entity::Tank(t) => t,
        }
    }

    /// The entity's immutable identifier.
    pub fn get_id(&self) -> (r: Identifier)
        ensures
            r == self.tank().id,
    {
        match self {
            Entity::Tank(t) => t.get_id(),
        }
    }

    /// One tick of motion; the new spatial box comes back only when
    /// position or radius changed.
    pub fn update(&mut self, dt: i64) -> (r: Option<SolverEntry>)
        ensures
            *final(self) == old(self).step(dt),
            ({
                let before = spec_solver_entry(old(self).tank());
                let after = spec_solver_entry(spec_tank_step(old(self).tank(), dt));
                if after.x != before.x || after.y != before.y || after.radius != before.radius {
                    r == Some(after)
                } else {
                    r == None::<SolverEntry>
                }
            }),
    {
        match self {
            Entity::Tank(t) => t.update(dt),
        }
    }

    /// The box this entity occupies in the spatial index.
    pub fn solver_entry(&self) -> (r: SolverEntry)
        ensures
            r == spec_solver_entry(self.tank()),
    {
        match self {
            Entity::Tank(t) => t.solver_entry(),
        }
    }

    /// This entity's row of a census snapshot.
    pub fn census_entry(&self) -> (r: CensusEntry)
        ensures
            r.name@ == self.tank().name@,
            r == (CensusEntry { name: r.name, ..spec_census_entry(self.tank()) }),
    {
        match self {
            Entity::Tank(t) => t.census_entry(),
        }
    }

    /// Replace the velocity, leaving everything else alone.
    pub fn set_velocity(&mut self, vx: i64, vy: i64)
        ensures
            *final(self) == Entity::Tank((Tank { vx, vy, ..old(self).tank() })),
    {
        match self {
            Entity::Tank(t) => t.set_velocity(vx, vy),
        }
    }

    /// Route an input snapshot to the entity, if its kind takes input.
    pub fn input(
        &mut self,
        left: bool,
        right: bool,
        up: bool,
        down: bool,
        angle_bits: u32,
        lmb: bool,
        mx: i16,
        my: i16,
        rmb: bool,
    )
        ensures
            *final(self) == Entity::Tank(
                (Tank {
                    input: crate::tank::Input { left, right, up, down, lmb, angle_bits, mx, my, rmb },
                    ..old(self).tank()
                }),
            ),
    {
        match self {
            Entity::Tank(t) => t.input(left, right, up, down, angle_bits, lmb, mx, my, rmb),
        }
    }

    /// Deliver a pre-serialized packet to the entity's connection, if it
    /// has one; an entity without one silently succeeds.
    pub fn send_network_packet(&self, packet: &ClientboundPacket) -> (r: Result<(), ChannelClosed>)
        requires
            wf_clientbound(*packet),
        ensures
            self.tank().tank_type is Bot ==> r is Ok,
    {
        match self {
            Entity::Tank(t) => t.send_network_packet(packet),
        }
    }

    /// Whether this entity takes part in network fan-out.
    pub fn networkable(&self) -> (r: bool)
        ensures
            r == (self.tank().tank_type is Player),
    {
        match self {
            Entity::Tank(t) => t.networkable(),
        }
    }
}

} // verus!
