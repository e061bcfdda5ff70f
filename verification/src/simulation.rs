//! The arena: the single authoritative world-simulation instance.
//!
//! It owns the entity registry, the connection registry and the spatial
//! index, hands out identifiers, advances physics on a fixed tick, and
//! fans the resulting state out to every registered connection.  One
//! identifier is shared by a connection and the entity it spawned; the
//! structural invariant [`Arena::wf`] keeps the three stores consistent.

use vstd::prelude::*;
use crate::entity::Entity;
use crate::fixed::{FP_ONE, sat64, mag_of, fp_add, fp_sub, fp_muldiv, to_pixels};
use crate::net::{Connection, channel_send, ws_binary, ws_close};
use crate::protocol::{CensusEntry, ClientboundPacket, LeaderboardEntry, ServerboundPacket, SbPacket, spec_parse, wf_clientbound};
use crate::spatial::{BroadSolver, Query, SolverEntry, spec_solve};
use crate::tank::{Tank, sadd, spec_input_default, spec_census_entry, spec_solver_entry, spec_tank_step, Input, TankType};
use crate::types::{Color, Identifier};
use crate::util::{spec_circular_collision, test_circular_collision};

verus! {

/// The nominal tick interval in milliseconds; `dt` is one at this rate.
pub const TICK_MS: u32 = 33;

/// The spawn radius of a fresh player tank, in fixed-point pixels.
pub const SPAWN_RADIUS: i64 = 100 * 0x1_0000;

/// The depth handed to the spatial index at start-up.
pub const SOLVER_DEPTH: u32 = 7;

/// The fixed camera field of view, as an IEEE single bit pattern.
pub const CAMERA_FOV_BITS: u32 = 0x3FC0_0000;

/// The world-simulation instance.
pub struct Arena {
    pub width: u32,
    pub height: u32,
    pub id: Identifier,
    pub entities: Vec<Entity>,
    pub frame: usize,
    pub registered_connections: Vec<(Identifier, Connection)>,
    pub solver: BroadSolver,
}

impl Arena {
    /// Some live entity carries this identifier.
    pub open spec fn has_entity(&self, id: Identifier) -> bool {
        exists|i: int|
            0 <= i < self.entities@.len() && (#[trigger] self.entities@[i]).tank().id == id
    }

    /// Some registered connection carries this identifier.
    pub open spec fn has_conn(&self, id: Identifier) -> bool {
        exists|i: int|
            0 <= i < self.registered_connections@.len() && (
            #[trigger] self.registered_connections@[i]).0 == id
    }

    /// The structural invariant: identifiers are unique in each registry
    /// and never exceed the allocator's high-water mark, the spatial index
    /// mirrors the entity registry record for record, and every display
    /// name fits the wire.
    pub open spec fn wf(&self) -> bool {
        &&& forall|i: int, j: int|
            0 <= i < j < self.entities@.len() ==> (#[trigger] self.entities@[i]).tank().id != (
            #[trigger] self.entities@[j]).tank().id
        &&& forall|i: int, j: int|
            0 <= i < j < self.registered_connections@.len() ==> (
            #[trigger] self.registered_connections@[i]).0 != (
            #[trigger] self.registered_connections@[j]).0
        &&& forall|i: int|
            0 <= i < self.entities@.len() ==> (#[trigger] self.entities@[i]).tank().id <= self.id
        &&& forall|i: int|
            0 <= i < self.registered_connections@.len() ==> (
            #[trigger] self.registered_connections@[i]).0 <= self.id
        &&& self.solver.entries@.len() == self.entities@.len()
        &&& forall|i: int|
            0 <= i < self.entities@.len() ==> (#[trigger] self.solver.entries@[i])
                == spec_solver_entry(self.entities@[i].tank())
        &&& forall|i: int| 0 <= i < self.entities@.len() ==> (#[trigger] self.entities@[i]).wf()
        &&& self.solver.ids_unique()
    }

    /// A fresh arena with fixed world bounds and no inhabitants.
    pub fn new(width: u32, height: u32) -> (r: Arena)
        ensures
            r.width == width,
            r.height == height,
            r.id == 3,
            r.entities@.len() == 0,
            r.frame == 0,
            r.registered_connections@.len() == 0,
            r.wf(),
    {
        Arena {
            width,
            height,
            id: 3,
            entities: Vec::new(),
            frame: 0,
            registered_connections: Vec::new(),
            solver: BroadSolver::new(width, height, SOLVER_DEPTH),
        }
    }

    /// Hand out the next identifier; identifiers are never reused.
    pub fn alloc_id(&mut self) -> (r: Identifier)
        requires
            old(self).id < usize::MAX,
        ensures
            r == old(self).id + 1,
            *final(self) == (Arena { id: (old(self).id + 1) as usize, ..*old(self) }),
    {
        self.id = self.id + 1;
        self.id
    }

    /// Register a fresh connection under a fresh identifier.
    pub fn new_connection(&mut self, conn: Connection) -> (r: Identifier)
        requires
            old(self).wf(),
            old(self).id < usize::MAX,
        ensures
            r == old(self).id + 1,
            final(self).registered_connections@ == old(self).registered_connections@.push(
                (r, conn),
            ),
            final(self).entities@ == old(self).entities@,
            final(self).solver.entries@ == old(self).solver.entries@,
            final(self).frame == old(self).frame,
            final(self).width == old(self).width,
            final(self).height == old(self).height,
            final(self).id == r,
            final(self).wf(),
            final(self).has_conn(r),
            !final(self).has_entity(r),
    {
        let new_id = self.alloc_id();
        self.registered_connections.push((new_id, conn));
        proof {
            assert(self.registered_connections@[self.registered_connections@.len() - 1].0
                == new_id);
        }
        new_id
    }

    /// The index of the connection carrying the identifier, if any.
    fn find_conn(&self, id: Identifier) -> (r: Option<usize>)
        ensures
            r matches Some(k) ==> k < self.registered_connections@.len()
                && self.registered_connections@[k as int].0 == id,
            r is None ==> !self.has_conn(id),
    {
        let n = self.registered_connections.len();
        let mut i: usize = 0;
        while i < n
            invariant
                i <= n,
                n == self.registered_connections@.len(),
                forall|k: int| 0 <= k < i ==> (#[trigger] self.registered_connections@[k]).0 != id,
            decreases n - i,
        {
            if self.registered_connections[i].0 == id {
                return Some(i);
            }
            i = i + 1;
        }
        None
    }

    /// The index of the entity carrying the identifier, if any.
    fn find_entity(&self, id: Identifier) -> (r: Option<usize>)
        ensures
            r matches Some(k) ==> k < self.entities@.len() && self.entities@[k as int].tank().id
                == id,
            r is None ==> !self.has_entity(id),
    {
        let n = self.entities.len();
        let mut i: usize = 0;
        while i < n
            invariant
                i <= n,
                n == self.entities@.len(),
                forall|k: int| 0 <= k < i ==> (#[trigger] self.entities@[k]).tank().id != id,
            decreases n - i,
        {
            if self.entities[i].get_id() == id {
                return Some(i);
            }
            i = i + 1;
        }
        None
    }

    /// Adopt an entity into the registry and the spatial index.  The
    /// identifier must already be allocated and not carried by any live
    /// entity.
    pub fn add_entity(&mut self, entity: Entity)
        requires
            old(self).wf(),
            entity.wf(),
            !old(self).has_entity(entity.tank().id),
            entity.tank().id <= old(self).id,
        ensures
            final(self).entities@ == old(self).entities@.push(entity),
            final(self).solver.entries@ == old(self).solver.entries@.push(
                spec_solver_entry(entity.tank()),
            ),
            final(self).registered_connections@ == old(self).registered_connections@,
            final(self).frame == old(self).frame,
            final(self).width == old(self).width,
            final(self).height == old(self).height,
            final(self).id == old(self).id,
            final(self).wf(),
    {
        let rec = entity.solver_entry();
        proof {
            assert forall|i: int| 0 <= i < self.solver.entries@.len() implies (
            #[trigger] self.solver.entries@[i]).id != rec.id by {
                assert(self.solver.entries@[i] == spec_solver_entry(self.entities@[i].tank()));
                assert((self.entities@[i]).tank().id != entity.tank().id);
            }
        }
        self.solver.insert(&rec);
        self.entities.push(entity);
        proof {
            assert(self.entities@[self.entities@.len() - 1] == entity);
            assert(self.solver.entries@[self.solver.entries@.len() - 1] == rec);
        }
    }

    /// Drop the entity carrying the identifier, with its spatial-index
    /// record; without one, nothing changes.  The caller looks after the
    /// entity's registered connection.
    pub fn delete_entity(&mut self, id: Identifier)
        requires
            old(self).wf(),
        ensures
            final(self).registered_connections@ == old(self).registered_connections@,
            final(self).frame == old(self).frame,
            final(self).width == old(self).width,
            final(self).height == old(self).height,
            final(self).id == old(self).id,
            final(self).wf(),
            !final(self).has_entity(id),
            old(self).has_entity(id) ==> exists|i: int|
                0 <= i < old(self).entities@.len()
                    && (#[trigger] old(self).entities@[i]).tank().id == id
                    && final(self).entities@ == old(self).entities@.remove(i)
                    && final(self).solver.entries@ == old(self).solver.entries@.remove(i),
            !old(self).has_entity(id) ==> final(self).entities@ == old(self).entities@
                && final(self).solver.entries@ == old(self).solver.entries@,
            forall|e: Identifier| final(self).has_entity(e) ==> old(self).has_entity(e),
    {
        let found = self.find_entity(id);
        match found {
            None => {
                proof {
                    assert(!self.has_entity(id));
                }
            },
            Some(i) => {
                self.entities.remove(i);
                self.solver.delete(id as u64);
                proof {
                    let oe = old(self).entities@;
                    let os = old(self).solver.entries@;
                    assert((#[trigger] old(self).entities@[i as int]).tank().id == id);
                    assert(os[i as int].id == id as u64);
                    assert(old(self).solver.contains_id(id as u64));
                    let j = choose|j: int|
                        0 <= j < os.len() && (#[trigger] os[j]).id == id as u64
                            && self.solver.entries@ == os.remove(j);
                    assert(os[j].id == os[i as int].id);
                    assert(j == i as int);
                    oe.remove_ensures(i as int);
                    os.remove_ensures(i as int);
                    assert forall|k: int| 0 <= k < self.entities@.len() implies (
                    #[trigger] self.entities@[k]).tank().id != id by {
                        if k < i {
                            assert(oe.remove(i as int)[k] == oe[k]);
                        } else {
                            assert(oe.remove(i as int)[k] == oe[k + 1]);
                            assert(oe[k + 1].tank().id != oe[i as int].tank().id);
                        }
                    }
                    assert forall|k: int, l: int|
                        0 <= k < l < self.entities@.len() implies (
                    #[trigger] self.entities@[k]).tank().id != (
                    #[trigger] self.entities@[l]).tank().id by {
                        let k0 = if k < i { k } else { k + 1 };
                        let l0 = if l < i { l } else { l + 1 };
                        assert(oe.remove(i as int)[k] == oe[k0]);
                        assert(oe.remove(i as int)[l] == oe[l0]);
                        assert(oe[k0].tank().id != oe[l0].tank().id);
                    }
                    assert forall|k: int| 0 <= k < self.entities@.len() implies (
                    #[trigger] self.solver.entries@[k]).id == (self.entities@[k]).tank().id
                        as u64 by {
                        let k0 = if k < i { k } else { k + 1 };
                        assert(oe.remove(i as int)[k] == oe[k0]);
                        assert(os.remove(i as int)[k] == os[k0]);
                    }
                    assert forall|k: int| 0 <= k < self.entities@.len() implies (
                    #[trigger] self.entities@[k]).wf() by {
                        let k0 = if k < i { k } else { k + 1 };
                        assert(oe.remove(i as int)[k] == oe[k0]);
                    }
                    assert forall|k: int| 0 <= k < self.entities@.len() implies (
                    #[trigger] self.entities@[k]).tank().id <= self.id by {
                        let k0 = if k < i { k } else { k + 1 };
                        assert(oe.remove(i as int)[k] == oe[k0]);
                    }
                    assert forall|e: Identifier| final(self).has_entity(e) implies old(
                        self,
                    ).has_entity(e) by {
                        let k = choose|k: int|
                            0 <= k < self.entities@.len()
                                && (#[trigger] self.entities@[k]).tank().id == e;
                        let k0 = if k < i { k } else { k + 1 };
                        assert(oe.remove(i as int)[k] == oe[k0]);
                        assert((#[trigger] oe[k0]).tank().id == e);
                    }
                }
            },
        }
    }

    /// Tear a connection down: best-effort close notice, then remove the
    /// connection entry and, if one was spawned, the entity and its
    /// spatial record.  On an identifier that is not registered it is a
    /// no-op that reports failure.
    pub fn kick_connection(&mut self, id: Identifier) -> (r: bool)
        requires
            old(self).wf(),
        ensures
            r == old(self).has_conn(id),
            !old(self).has_conn(id) ==> *final(self) == *old(self),
            final(self).frame == old(self).frame,
            final(self).width == old(self).width,
            final(self).height == old(self).height,
            final(self).id == old(self).id,
            final(self).wf(),
            !final(self).has_conn(id),
            r ==> !final(self).has_entity(id),
            old(self).has_conn(id) ==> exists|k: int|
                0 <= k < old(self).registered_connections@.len()
                    && (#[trigger] old(self).registered_connections@[k]).0 == id
                    && final(self).registered_connections@ == old(
                    self,
                ).registered_connections@.remove(k),
            forall|e: Identifier| final(self).has_entity(e) ==> old(self).has_entity(e),
            forall|e: Identifier| final(self).has_conn(e) ==> old(self).has_conn(e),
            !old(self).has_entity(id) || !r ==> final(self).entities@ == old(self).entities@
                && final(self).solver.entries@ == old(self).solver.entries@,
            r && old(self).has_entity(id) ==> exists|i: int|
                0 <= i < old(self).entities@.len()
                    && (#[trigger] old(self).entities@[i]).tank().id == id
                    && final(self).entities@ == old(self).entities@.remove(i)
                    && final(self).solver.entries@ == old(self).solver.entries@.remove(i),
    {
        let found = self.find_conn(id);
        let k = match found {
            None => {
                proof {
                    assert(!self.has_conn(id));
                }
                return false;
            },
            Some(k) => k,
        };
        proof {
            assert((#[trigger] old(self).registered_connections@[k as int]).0 == id);
        }
        let _ = channel_send(&self.registered_connections[k].1, ws_close());
        self.registered_connections.remove(k);
        proof {
            let oc = old(self).registered_connections@;
            oc.remove_ensures(k as int);
            assert forall|m: int| 0 <= m < self.registered_connections@.len() implies (
            #[trigger] self.registered_connections@[m]).0 != id by {
                let m0 = if m < k { m } else { m + 1 };
                assert(oc.remove(k as int)[m] == oc[m0]);
                if m0 != k {
                    assert(oc[m0].0 != oc[k as int].0);
                }
            }
            assert forall|m: int, l: int|
                0 <= m < l < self.registered_connections@.len() implies (
            #[trigger] self.registered_connections@[m]).0 != (
            #[trigger] self.registered_connections@[l]).0 by {
                let m0 = if m < k { m } else { m + 1 };
                let l0 = if l < k { l } else { l + 1 };
                assert(oc.remove(k as int)[m] == oc[m0]);
                assert(oc.remove(k as int)[l] == oc[l0]);
                assert(oc[m0].0 != oc[l0].0);
            }
            assert forall|m: int| 0 <= m < self.registered_connections@.len() implies (
            #[trigger] self.registered_connections@[m]).0 <= self.id by {
                let m0 = if m < k { m } else { m + 1 };
                assert(oc.remove(k as int)[m] == oc[m0]);
            }
            assert forall|e: Identifier| self.has_conn(e) implies old(self).has_conn(e) by {
                let m = choose|m: int|
                    0 <= m < self.registered_connections@.len() && (
                    #[trigger] self.registered_connections@[m]).0 == e;
                let m0 = if m < k { m } else { m + 1 };
                assert(oc.remove(k as int)[m] == oc[m0]);
                assert((#[trigger] oc[m0]).0 == e);
            }
        }
        self.delete_entity(id);
        true
    }

    /// Route an input snapshot to the entity carrying the identifier; a
    /// stale identifier is silently ignored, since the request may be a
    /// harmless race against a disconnect.
    pub fn input(
        &mut self,
        id: Identifier,
        left: bool,
        right: bool,
        up: bool,
        down: bool,
        angle_bits: u32,
        lmb: bool,
        mx: i16,
        my: i16,
        rmb: bool,
    )
        requires
            old(self).wf(),
        ensures
            final(self).registered_connections@ == old(self).registered_connections@,
            final(self).solver.entries@ == old(self).solver.entries@,
            final(self).frame == old(self).frame,
            final(self).width == old(self).width,
            final(self).height == old(self).height,
            final(self).id == old(self).id,
            final(self).wf(),
            !old(self).has_entity(id) ==> final(self).entities@ == old(self).entities@,
            old(self).has_entity(id) ==> exists|i: int|
                0 <= i < old(self).entities@.len()
                    && (#[trigger] old(self).entities@[i]).tank().id == id && final(self).entities@ == old(self).entities@.update(
                    i,
                    Entity::Tank(
                        (Tank {
                            input: Input { left, right, up, down, lmb, angle_bits, mx, my, rmb },
                            ..old(self).entities@[i].tank()
                        }),
                    ),
                ),
    {
        let found = self.find_entity(id);
        match found {
            None => {
                proof {
                    assert(!self.has_entity(id));
                }
            },
            Some(i) => {
                proof {
                    assert((#[trigger] old(self).entities@[i as int]).tank().id == id);
                }
                let mut e = self.entities.remove(i);
                e.input(left, right, up, down, angle_bits, lmb, mx, my, rmb);
                self.entities.insert(i, e);
                proof {
                    let oe = old(self).entities@;
                    let updated = Entity::Tank(
                        (Tank {
                            input: Input { left, right, up, down, lmb, angle_bits, mx, my, rmb },
                            ..oe[i as int].tank()
                        }),
                    );
                    assert(self.entities@ =~= oe.update(i as int, updated));
                    assert forall|k: int| 0 <= k < self.entities@.len() implies (
                    #[trigger] self.entities@[k]).tank().id == (oe[k]).tank().id by {
                        if k != i {
                            assert(oe.update(i as int, updated)[k] == oe[k]);
                        } else {
                            assert(oe.update(i as int, updated)[k] == updated);
                        }
                    }
                    assert forall|k: int| 0 <= k < self.entities@.len() implies (
                    #[trigger] self.entities@[k]).wf() by {
                        if k != i {
                            assert(oe.update(i as int, updated)[k] == oe[k]);
                        } else {
                            assert(oe.update(i as int, updated)[k] == updated);
                        }
                    }
                }
            },
        }
    }
}


/// The tick scale: how much of a nominal tick the elapsed time spans, in
/// fixed point; one whole unit at the nominal rate.
pub open spec fn spec_dt(elapsed_ms: u32) -> int {
    sat64(crate::fixed::tdiv(sat64(elapsed_ms as int) * (FP_ONE as u32 as int), TICK_MS as int))
}

/// The two tanks agree on everything but their velocity.
pub open spec fn same_but_velocity(a: Tank, b: Tank) -> bool {
    a == (Tank { vx: a.vx, vy: a.vy, ..b })
}

/// The census row `c` is the wire image of the tank `t` (the name compared
/// by content).
pub open spec fn census_matches(c: CensusEntry, t: Tank) -> bool {
    c.name@ == t.name@ && c == (CensusEntry { name: c.name, ..spec_census_entry(t) })
}

/// A tank freshly spawned for `id` under `name`: at the origin, at rest,
/// default radius and mass, zeroed score and neutral input, reached
/// through a player channel.
pub open spec fn spawned_tank_ok(t: Tank, id: Identifier, name: Seq<u8>) -> bool {
    &&& t.id == id
    &&& t.name@ == name
    &&& t.x == 0
    &&& t.y == 0
    &&& t.vx == 0
    &&& t.vy == 0
    &&& t.radius == SPAWN_RADIUS
    &&& t.mass == FP_ONE
    &&& t.score == 0
    &&& t.class == 0
    &&& t.tank_type is Player
    &&& t.input == spec_input_default()
}

/// The decimal digits of a non-negative value, most significant first.
pub open spec fn dec_digits(v: int) -> Seq<u8>
    decreases v, when v >= 0 via dec_digits_decreases
{
    if v < 10 {
        seq![(48 + v) as u8]
    } else {
        dec_digits(v / 10) + seq![(48 + v % 10) as u8]
    }
}

#[via_fn]
proof fn dec_digits_decreases(v: int) {
    if v >= 10 {
        vstd::arithmetic::div_mod::lemma_div_decreases(v, 10);
    }
}

/// A number never has more decimal digits than bits.
proof fn lemma_dec_digits_len(v: int)
    requires
        v >= 0,
    ensures
        dec_digits(v).len() <= crate::fixed::nbits(v),
    decreases v,
{
    crate::fixed::lemma_nbits_pos(v);
    if v >= 10 {
        lemma_dec_digits_len(v / 10);
        vstd::arithmetic::div_mod::lemma_div_is_ordered_by_denominator(v, 2, 10);
        crate::fixed::lemma_nbits_monotone(v / 10, v / 2);
    }
}

/// The label of the wall-clock leaderboard row: the text of
/// `"UNIX_TIME: "` in ASCII, followed by the seconds in decimal.
pub open spec fn time_row_name(unix_secs: u64) -> Seq<u8> {
    seq![85u8, 78, 73, 88, 95, 84, 73, 77, 69, 58, 32] + dec_digits(unix_secs as int)
}

/// The label of the tick-count leaderboard row: the text of `"TICK: "` in
/// ASCII, followed by the tick number in decimal.
pub open spec fn tick_row_name(frame: u64) -> Seq<u8> {
    seq![84u8, 73, 67, 75, 58, 32] + dec_digits(frame as int)
}

/// The decimal digits of a value, most significant first, exactly.
fn u64_decimal(v: u64) -> (r: Vec<u8>)
    ensures
        r@ == dec_digits(v as int),
    decreases v,
{
    if v < 10 {
        let mut out: Vec<u8> = Vec::new();
        out.push(48 + v as u8);
        proof {
            assert(out@ =~= dec_digits(v as int));
        }
        out
    } else {
        proof {
            assert(v / 10 < v) by (nonlinear_arith)
                requires
                    v >= 10u64,
            ;
        }
        let mut out = u64_decimal(v / 10);
        out.push(48 + (v % 10) as u8);
        proof {
            assert(out@ =~= dec_digits(v as int));
        }
        out
    }
}

/// The placeholder leaderboard: a wall-clock row and a tick-count row,
/// their labels pinned exactly.
pub fn leaderboard_packet(unix_secs: u64, frame: u64) -> (r: ClientboundPacket)
    ensures
        wf_clientbound(r),
        r matches ClientboundPacket::LeaderBoard { leaderboard } && leaderboard@.len() == 2
            && leaderboard@[0].id == 1 && leaderboard@[1].id == 2 && leaderboard@[0].score == 0
            && leaderboard@[1].score == 0 && leaderboard@[0].class == 0 && leaderboard@[1].class
            == 0 && leaderboard@[0].color == Color::CohortBlue && leaderboard@[1].color
            == Color::CohortBlue && leaderboard@[0].name@ == time_row_name(unix_secs)
            && leaderboard@[1].name@ == tick_row_name(frame),
{
    proof {
        vstd::arithmetic::power2::lemma2_to64();
        vstd::arithmetic::power2::lemma2_to64_rest();
        lemma_dec_digits_len(unix_secs as int);
        lemma_dec_digits_len(frame as int);
        crate::fixed::lemma_nbits_bound(unix_secs as int, 64);
        crate::fixed::lemma_nbits_bound(frame as int, 64);
    }
    let mut time_name: Vec<u8> = vec![85u8, 78, 73, 88, 95, 84, 73, 77, 69, 58, 32];
    let mut time_digits = u64_decimal(unix_secs);
    time_name.append(&mut time_digits);
    proof {
        assert(time_name@ =~= time_row_name(unix_secs));
    }
    let mut tick_name: Vec<u8> = vec![84u8, 73, 67, 75, 58, 32];
    let mut tick_digits = u64_decimal(frame);
    tick_name.append(&mut tick_digits);
    proof {
        assert(tick_name@ =~= tick_row_name(frame));
    }
    let mut rows: Vec<LeaderboardEntry> = Vec::new();
    rows.push(
        LeaderboardEntry {
            id: 1,
            score: 0,
            name: time_name,
            class: 0,
            color: Color::CohortBlue,
        },
    );
    rows.push(
        LeaderboardEntry {
            id: 2,
            score: 0,
            name: tick_name,
            class: 0,
            color: Color::CohortBlue,
        },
    );
    ClientboundPacket::LeaderBoard { leaderboard: rows }
}

/// Exactly the velocity adjustment a collision applies, as a function of
/// the center offsets toward the neighbor: half a unit vector away from
/// it, or half a unit along the negative horizontal axis when the centers
/// coincide.
pub open spec fn spec_push(dx: i64, dy: i64) -> (int, int) {
    let sdx = sat64(dx as int);
    let sdy = sat64(dy as int);
    let d = crate::fixed::spec_isqrt(sdx * sdx + sdy * sdy);
    if d == 0 {
        (-0x8000, 0)
    } else {
        let pxm = (mag_of(sdx) * 0x1_0000) / (2 * d);
        let pym = (mag_of(sdy) * 0x1_0000) / (2 * d);
        (
            if dx > 0 {
                -pxm
            } else {
                pxm
            },
            if dy > 0 {
                -pym
            } else {
                pym
            },
        )
    }
}

/// For non-negative components whose squared sum has integer square root
/// `d`, each component is at most `d`, and twice `d` is within a unit
/// scale of the larger one.
proof fn lemma_push_math(a: int, b: int, d: int)
    requires
        a >= 0,
        b >= 0,
        crate::fixed::is_isqrt(a * a + b * b, d),
        d >= 1,
    ensures
        a <= d,
        b <= d,
        a >= 1 || b >= 1,
        2 * d <= 0x1_0000 * a || 2 * d <= 0x1_0000 * b,
{
    assert(a <= d && b <= d) by (nonlinear_arith)
        requires
            a >= 0,
            b >= 0,
            d >= 0,
            a * a + b * b < (d + 1) * (d + 1),
    ;
    assert(a >= 1 || b >= 1) by (nonlinear_arith)
        requires
            a >= 0,
            b >= 0,
            d >= 1,
            d * d <= a * a + b * b,
    ;
    if a >= b {
        assert(2 * d <= 0x1_0000 * a) by (nonlinear_arith)
            requires
                a >= b >= 0,
                a >= 1,
                d >= 1,
                d * d <= a * a + b * b,
        ;
    } else {
        assert(2 * d <= 0x1_0000 * b) by (nonlinear_arith)
            requires
                b >= a >= 0,
                b >= 1,
                d >= 1,
                d * d <= a * a + b * b,
        ;
    }
}

/// The velocity adjustment a collision applies to the struck entity: half
/// a unit vector pointing away from the neighbor, computed from the
/// center offsets toward the neighbor.  With no offset at all the push is
/// along the negative horizontal axis, the direction a zero angle gives.
/// Law: the adjustment never points toward the neighbor, and whenever
/// there is any offset it points strictly away.
pub fn push_impulse(dx: i64, dy: i64) -> (r: (i64, i64))
    ensures
        r.0 as int == spec_push(dx, dy).0,
        r.1 as int == spec_push(dx, dy).1,
        (r.0 as int) * sat64(dx as int) <= 0,
        (r.1 as int) * sat64(dy as int) <= 0,
        sat64(dx as int) == 0 && sat64(dy as int) == 0 ==> r.0 as int == -0x8000 && r.1 as int
            == 0,
        !(sat64(dx as int) == 0 && sat64(dy as int) == 0) ==> (r.0 as int) * sat64(dx as int) + (
        r.1 as int) * sat64(dy as int) < 0,
{
    let d2v: u128 = crate::fixed::dist2(0, 0, dx, dy);
    let d: u64 = crate::fixed::isqrt(d2v);
    let ghost sdx = sat64(dx as int);
    let ghost sdy = sat64(dy as int);
    proof {
        assert(sat64(0int) == 0);
        assert(d2v as int == (sdx - 0) * (sdx - 0) + (sdy - 0) * (sdy - 0));
        assert((sdx - 0) * (sdx - 0) + (sdy - 0) * (sdy - 0) == sdx * sdx + sdy * sdy)
            by (nonlinear_arith);
        assert(d as int == crate::fixed::spec_isqrt(sdx * sdx + sdy * sdy));
    }
    if d == 0 {
        proof {
            assert((0 + 1) * (0 + 1) == 1) by (nonlinear_arith);
            assert(sdx == 0 && sdy == 0) by (nonlinear_arith)
                requires
                    (sdx - 0) * (sdx - 0) + (sdy - 0) * (sdy - 0) == 0,
            ;
        }
        (-0x8000, 0)
    } else {
        let mdx: u64 = crate::fixed::fp_abs(dx);
        let mdy: u64 = crate::fixed::fp_abs(dy);
        proof {
            assert((mdx as int) * (mdx as int) + (mdy as int) * (mdy as int) == (sdx - 0) * (sdx
                - 0) + (sdy - 0) * (sdy - 0)) by (nonlinear_arith)
                requires
                    mdx == mag_of(sdx),
                    mdy == mag_of(sdy),
            ;
            lemma_push_math(mdx as int, mdy as int, d as int);
            assert((mdx as u128) * 0x1_0000 <= u128::MAX) by (nonlinear_arith)
                requires
                    mdx <= u64::MAX,
            ;
            assert((mdy as u128) * 0x1_0000 <= u128::MAX) by (nonlinear_arith)
                requires
                    mdy <= u64::MAX,
            ;
        }
        let pxm: u128 = (mdx as u128 * 0x1_0000) / (2 * d as u128);
        let pym: u128 = (mdy as u128 * 0x1_0000) / (2 * d as u128);
        proof {
            vstd::arithmetic::div_mod::lemma_div_is_ordered(
                mdx as int * 0x1_0000,
                d as int * 0x1_0000,
                2 * d as int,
            );
            vstd::arithmetic::div_mod::lemma_div_multiples_vanish(0x8000, 2 * d as int);
            assert(d as int * 0x1_0000 == (2 * d as int) * 0x8000) by (nonlinear_arith);
            vstd::arithmetic::div_mod::lemma_div_is_ordered(
                mdy as int * 0x1_0000,
                d as int * 0x1_0000,
                2 * d as int,
            );
            assert(pxm <= 0x8000 && pym <= 0x8000);
            if 2 * (d as int) <= 0x1_0000 * (mdx as int) {
                vstd::arithmetic::div_mod::lemma_div_non_zero(
                    mdx as int * 0x1_0000,
                    2 * d as int,
                );
                assert(mdx >= 1) by (nonlinear_arith)
                    requires
                        2 * (d as int) <= 0x1_0000 * (mdx as int),
                        d >= 1,
                        mdx >= 0,
                ;
                assert(pxm >= 1 && mdx >= 1);
            } else {
                vstd::arithmetic::div_mod::lemma_div_non_zero(
                    mdy as int * 0x1_0000,
                    2 * d as int,
                );
                assert(mdy >= 1) by (nonlinear_arith)
                    requires
                        2 * (d as int) <= 0x1_0000 * (mdy as int),
                        d >= 1,
                        mdy >= 0,
                ;
                assert(pym >= 1 && mdy >= 1);
            }
        }
        let px: i64 = if dx > 0 {
            -(pxm as i64)
        } else {
            pxm as i64
        };
        let py: i64 = if dy > 0 {
            -(pym as i64)
        } else {
            pym as i64
        };
        proof {
            assert(mdx == mag_of(sdx) && mdy == mag_of(sdy));
            assert(mdx == 0 ==> pxm == 0) by {
                if mdx == 0 {
                    vstd::arithmetic::div_mod::lemma_div_of0(2 * d as int);
                }
            }
            assert(mdy == 0 ==> pym == 0) by {
                if mdy == 0 {
                    vstd::arithmetic::div_mod::lemma_div_of0(2 * d as int);
                }
            }
            assert((px as int) * sdx == -((pxm as int) * (mdx as int)) && (py as int) * sdy == -((
            pym as int) * (mdy as int))) by (nonlinear_arith)
                requires
                    mdx == mag_of(sdx),
                    mdy == mag_of(sdy),
                    dx > 0 ==> sdx > 0 && px as int == -(pxm as int),
                    dx <= 0 ==> sdx <= 0 && px as int == pxm as int,
                    dy > 0 ==> sdy > 0 && py as int == -(pym as int),
                    dy <= 0 ==> sdy <= 0 && py as int == pym as int,
                    sdx > 0 <==> dx > 0,
                    sdx < 0 <==> dx < 0,
                    sdy > 0 <==> dy > 0,
                    sdy < 0 <==> dy < 0,
                    pxm >= 0,
                    pym >= 0,
            ;
            assert((pxm as int) * (mdx as int) + (pym as int) * (mdy as int) >= 1)
                by (nonlinear_arith)
                requires
                    pxm >= 0,
                    pym >= 0,
                    mdx >= 0,
                    mdy >= 0,
                    (pxm >= 1 && mdx >= 1) || (pym >= 1 && mdy >= 1),
            ;
        }
        (px, py)
    }
}

impl Arena {
    /// The full-state census snapshot: one row for every live entity, in
    /// registry order.
    pub fn build_census(&self) -> (r: ClientboundPacket)
        requires
            self.wf(),
            self.entities@.len() <= 0xFFFF_FFFF,
        ensures
            wf_clientbound(r),
            r matches ClientboundPacket::Census { entities } && entities@.len()
                == self.entities@.len() && forall|i: int|
                0 <= i < self.entities@.len() ==> census_matches(
                    #[trigger] entities@[i],
                    self.entities@[i].tank(),
                ),
    {
        let mut rows: Vec<CensusEntry> = Vec::new();
        let n = self.entities.len();
        let mut i: usize = 0;
        while i < n
            invariant
                i <= n,
                n == self.entities@.len(),
                self.wf(),
                rows@.len() == i,
                forall|k: int|
                    0 <= k < i ==> census_matches(#[trigger] rows@[k], self.entities@[k].tank()),
            decreases n - i,
        {
            let row = self.entities[i].census_entry();
            rows.push(row);
            i = i + 1;
        }
        proof {
            assert forall|k: int| 0 <= k < rows@.len() implies (#[trigger] rows@[k]).name@.len()
                <= 0xFFFF by {
                assert(census_matches(rows@[k], self.entities@[k].tank()));
                assert(self.entities@[k].wf());
            }
        }
        ClientboundPacket::Census { entities: rows }
    }

    /// Spawn a tank for a registered connection that has none yet: send
    /// the joining notice, then create the entity at the origin.  An
    /// unregistered identifier, or one that already has an entity, is
    /// rejected without any change; a failed joining send tears the
    /// connection down.
    pub fn player_spawn(&mut self, id: Identifier, name: Vec<u8>) -> (r: bool)
        requires
            old(self).wf(),
            name@.len() <= 0xFFFF,
        ensures
            final(self).wf(),
            final(self).frame == old(self).frame,
            final(self).width == old(self).width,
            final(self).height == old(self).height,
            final(self).id == old(self).id,
            !old(self).has_conn(id) ==> !r && *final(self) == *old(self),
            old(self).has_conn(id) && old(self).has_entity(id) ==> !r && *final(self) == *old(
                self,
            ),
            r ==> old(self).has_conn(id) && !old(self).has_entity(id),
            r ==> final(self).registered_connections@ == old(self).registered_connections@
                && final(self).entities@.len() == old(self).entities@.len() + 1 && (forall|k: int|
                0 <= k < old(self).entities@.len() ==> final(self).entities@[k] == old(
                    self,
                ).entities@[k]) && spawned_tank_ok(
                final(self).entities@[old(self).entities@.len() as int].tank(),
                id,
                name@,
            ) && final(self).has_entity(id),
            r ==> final(self).solver.entries@ == old(self).solver.entries@.push(
                spec_solver_entry(final(self).entities@[old(self).entities@.len() as int].tank()),
            ),
            !r ==> final(self).entities@ == old(self).entities@ && final(self).solver.entries@
                == old(self).solver.entries@,
            !r && old(self).has_conn(id) && !old(self).has_entity(id) ==> exists|k: int|
                0 <= k < old(self).registered_connections@.len()
                    && (#[trigger] old(self).registered_connections@[k]).0 == id
                    && final(self).registered_connections@ == old(
                    self,
                ).registered_connections@.remove(k),
            forall|e: Identifier| final(self).has_conn(e) ==> old(self).has_conn(e),
    {
        let k = match self.find_conn(id) {
            None => {
                proof {
                    assert(!self.has_conn(id));
                }
                return false;
            },
            Some(k) => k,
        };
        proof {
            assert((#[trigger] old(self).registered_connections@[k as int]).0 == id);
        }
        match self.find_entity(id) {
            Some(_) => {
                return false;
            },
            None => {},
        }
        let joining = ClientboundPacket::Joining;
        let bytes = joining.to_bytes();
        let ok = channel_send(&self.registered_connections[k].1, ws_binary(bytes));
        if !ok {
            self.kick_connection(id);
            return false;
        }
        let socket = self.registered_connections[k].1.clone();
        let tank = Tank::new_player(id, name, 0, 0, 0, 0, SPAWN_RADIUS, FP_ONE, socket);
        self.add_entity(Entity::Tank(tank));
        proof {
            assert(self.entities@[self.entities@.len() - 1].tank().id == id);
        }
        true
    }

    /// One simulation tick: advance every entity, resolve collisions
    /// against broad-phase candidates, broadcast the census, camera and
    /// leaderboard to every connection, and tear down the connections
    /// whose sends failed.  No entity or connection appears during a
    /// tick; some may go.
    #[verifier::rlimit(100)]
    pub fn update(&mut self, elapsed_ms: u32, unix_secs: u64)
        requires
            old(self).wf(),
            old(self).frame < usize::MAX,
            old(self).entities@.len() <= 0xFFFF_FFFF,
        ensures
            final(self).wf(),
            final(self).frame == old(self).frame + 1,
            final(self).width == old(self).width,
            final(self).height == old(self).height,
            final(self).id == old(self).id,
            final(self).entities@.len() <= old(self).entities@.len(),
            final(self).registered_connections@.len() <= old(
                self,
            ).registered_connections@.len(),
            forall|e: Identifier| final(self).has_entity(e) ==> old(self).has_entity(e),
            forall|e: Identifier| final(self).has_conn(e) ==> old(self).has_conn(e),
            forall|k: int|
                0 <= k < final(self).entities@.len() ==> exists|j: int|
                    0 <= j < old(self).entities@.len() && same_but_velocity(
                        (#[trigger] final(self).entities@[k]).tank(),
                        spec_tank_step(old(self).entities@[j].tank(), spec_dt(elapsed_ms) as i64),
                    ),
    {
        self.frame = self.frame + 1;
        let dt: i64 = fp_muldiv(elapsed_ms as i64, 0x1_0000, TICK_MS);
        proof {
            assert(dt as int == spec_dt(elapsed_ms));
        }
        let n = self.entities.len();
        let mut i: usize = 0;
        while i < n
            invariant
                i <= n,
                n == self.entities@.len(),
                self.wf(),
                self.frame == old(self).frame + 1,
                self.width == old(self).width,
                self.height == old(self).height,
                self.id == old(self).id,
                self.registered_connections@ == old(self).registered_connections@,
                old(self).entities@.len() == n,
                dt as int == spec_dt(elapsed_ms),
                forall|k: int|
                    0 <= k < n ==> (#[trigger] self.entities@[k]).tank().id == old(
                        self,
                    ).entities@[k].tank().id,
                forall|k: int|
                    0 <= k < i ==> same_but_velocity(
                        (#[trigger] self.entities@[k]).tank(),
                        spec_tank_step(old(self).entities@[k].tank(), dt),
                    ),
                forall|k: int|
                    i <= k < n ==> (#[trigger] self.entities@[k]) == old(self).entities@[k],
            decreases n - i,
        {
            let ghost pre = *self;
            let mut e = self.entities.remove(i);
            let ghost eid = e.tank().id;
            let rec = match e.update(dt) {
                Some(changed) => {
                    proof {
                        assert(pre.solver.entries@[i as int].id == eid as u64);
                        assert(pre.solver.contains_id(changed.id));
                    }
                    self.solver.mutate(&changed);
                    proof {
                        let j = choose|j: int|
                            0 <= j < pre.solver.entries@.len()
                                && (#[trigger] pre.solver.entries@[j]).id == changed.id
                                && self.solver.entries@ == pre.solver.entries@.update(j, changed);
                        assert(pre.solver.entries@[j].id == pre.solver.entries@[i as int].id);
                        assert(j == i as int);
                    }
                    changed
                },
                None => e.solver_entry(),
            };
            let candidates = self.solver.solve(
                &Query { x: rec.x, y: rec.y, width: rec.width, height: rec.height },
            );
            let nc = candidates.len();
            let mut j: usize = 0;
            let ghost mid = *self;
            let ghost stepped_tank = spec_tank_step(old(self).entities@[i as int].tank(), dt);
            proof {
                assert(e.tank() == stepped_tank);
                assert(same_but_velocity(e.tank(), stepped_tank));
            }
            while j < nc
                invariant
                    j <= nc,
                    nc == candidates@.len(),
                    *self == mid,
                    e.tank().id == eid,
                    e.wf(),
                    same_but_velocity(e.tank(), stepped_tank),
                decreases nc - j,
            {
                let c = candidates[j];
                if c.id != rec.id {
                    let cx = fp_add(c.x, c.radius);
                    let cy = fp_add(c.y, c.radius);
                    let ex = e.tank_ref().x;
                    let ey = e.tank_ref().y;
                    let er = e.tank_ref().radius;
                    if test_circular_collision(cx, cy, c.radius, ex, ey, er) {
                        let p = push_impulse(fp_sub(cx, ex), fp_sub(cy, ey));
                        let vx = fp_add(e.tank_ref().vx, p.0);
                        let vy = fp_add(e.tank_ref().vy, p.1);
                        e.set_velocity(vx, vy);
                    }
                }
                j = j + 1;
            }
            self.entities.insert(i, e);
            proof {
                let oe = pre.entities@;
                assert(self.entities@ =~= oe.update(i as int, e));
                assert forall|k: int| 0 <= k < n implies (#[trigger] self.entities@[k]).tank().id
                    == oe[k].tank().id by {
                    if k != i {
                        assert(oe.update(i as int, e)[k] == oe[k]);
                    } else {
                        assert(oe.update(i as int, e)[k] == e);
                    }
                }
                assert forall|k: int| 0 <= k < n implies (#[trigger] self.entities@[k]).wf() by {
                    if k != i {
                        assert(oe.update(i as int, e)[k] == oe[k]);
                    } else {
                        assert(oe.update(i as int, e)[k] == e);
                    }
                }
                assert forall|k: int| 0 <= k < n implies (#[trigger] self.solver.entries@[k]).id
                    == (self.entities@[k]).tank().id as u64 by {
                    if k != i {
                        assert(oe.update(i as int, e)[k] == oe[k]);
                    } else {
                        assert(oe.update(i as int, e)[k] == e);
                    }
                }
                assert forall|k: int| 0 <= k < i + 1 implies same_but_velocity(
                    (#[trigger] self.entities@[k]).tank(),
                    spec_tank_step(old(self).entities@[k].tank(), dt),
                ) by {
                    if k != i {
                        assert(oe.update(i as int, e)[k] == oe[k]);
                    } else {
                        assert(oe.update(i as int, e)[k] == e);
                    }
                }
                assert forall|k: int| i + 1 <= k < n implies (#[trigger] self.entities@[k]) == old(
                    self,
                ).entities@[k] by {
                    assert(oe.update(i as int, e)[k] == oe[k]);
                }
            }
            i = i + 1;
        }
        let ghost stepped = *self;
        let mut disconnected: Vec<Identifier> = Vec::new();
        let nconn = self.registered_connections.len();
        let mut k: usize = 0;
        while k < nconn
            invariant
                k <= nconn,
                *self == stepped,
                nconn == self.registered_connections@.len(),
                self.wf(),
                self.entities@.len() <= 0xFFFF_FFFF,
            decreases nconn - k,
        {
            let cid = self.registered_connections[k].0;
            let mut cam_failed = false;
            match self.find_entity(cid) {
                Some(ei) => {
                    let ex = self.entities[ei].tank_ref().x;
                    let ey = self.entities[ei].tank_ref().y;
                    let cam = ClientboundPacket::CameraUpdate {
                        x: to_pixels(ex),
                        y: to_pixels(ey),
                        fov_bits: CAMERA_FOV_BITS,
                    };
                    let bytes = cam.to_bytes();
                    if !channel_send(&self.registered_connections[k].1, ws_binary(bytes)) {
                        disconnected.push(cid);
                        cam_failed = true;
                    }
                },
                None => {},
            }
            if !cam_failed {
                let census = self.build_census();
                let bytes = census.to_bytes();
                if !channel_send(&self.registered_connections[k].1, ws_binary(bytes)) {
                    disconnected.push(cid);
                } else {
                    let lb = leaderboard_packet(unix_secs, self.frame as u64);
                    let lb_bytes = lb.to_bytes();
                    if !channel_send(&self.registered_connections[k].1, ws_binary(lb_bytes)) {
                        disconnected.push(cid);
                    }
                }
            }
            k = k + 1;
        }
        let ghost n0 = old(self).entities@.len() as int;
        proof {
            assert forall|k: int| 0 <= k < self.entities@.len() implies exists|j: int|
                0 <= j < n0 && same_but_velocity(
                    (#[trigger] self.entities@[k]).tank(),
                    spec_tank_step(old(self).entities@[j].tank(), dt),
                ) by {
                assert(same_but_velocity(
                    self.entities@[k].tank(),
                    spec_tank_step(old(self).entities@[k].tank(), dt),
                ));
            }
        }
        let nd = disconnected.len();
        let mut m: usize = 0;
        while m < nd
            invariant
                m <= nd,
                nd == disconnected@.len(),
                dt as int == spec_dt(elapsed_ms),
                self.wf(),
                self.entities@.len() <= old(self).entities@.len(),
                self.registered_connections@.len() <= old(self).registered_connections@.len(),
                forall|k: int|
                    0 <= k < self.entities@.len() ==> exists|j: int|
                        0 <= j < old(self).entities@.len() && same_but_velocity(
                            (#[trigger] self.entities@[k]).tank(),
                            spec_tank_step(old(self).entities@[j].tank(), dt),
                        ),
                self.frame == old(self).frame + 1,
                self.width == old(self).width,
                self.height == old(self).height,
                self.id == old(self).id,
                forall|e: Identifier| self.has_entity(e) ==> old(self).has_entity(e),
                forall|e: Identifier| self.has_conn(e) ==> old(self).has_conn(e),
            decreases nd - m,
        {
            let ghost before_kick = *self;
            let did = disconnected[m];
            self.kick_connection(did);
            proof {
                if self.entities@ != before_kick.entities@ {
                    let i = choose|i: int|
                        0 <= i < before_kick.entities@.len()
                            && (#[trigger] before_kick.entities@[i]).tank().id == did
                            && self.entities@ == before_kick.entities@.remove(i);
                    before_kick.entities@.remove_ensures(i);
                    assert forall|k: int| 0 <= k < self.entities@.len() implies exists|j: int|
                        0 <= j < old(self).entities@.len() && same_but_velocity(
                            (#[trigger] self.entities@[k]).tank(),
                            spec_tank_step(old(self).entities@[j].tank(), dt),
                        ) by {
                        let k0 = if k < i { k } else { k + 1 };
                        assert(before_kick.entities@.remove(i)[k] == before_kick.entities@[k0]);
                        assert(exists|j: int|
                            0 <= j < old(self).entities@.len() && same_but_velocity(
                                (#[trigger] before_kick.entities@[k0]).tank(),
                                spec_tank_step(old(self).entities@[j].tank(), dt),
                            ));
                    }
                }
            }
            m = m + 1;
        }
        proof {
            assert forall|e: Identifier| self.has_entity(e) implies old(self).has_entity(e) by {}
            assert forall|e: Identifier| self.has_conn(e) implies old(self).has_conn(e) by {}
        }
    }

    /// Decode one client frame and dispatch it: a spawn request spawns, an
    /// input snapshot is routed to the entity, other kinds are
    /// acknowledged by doing nothing, and any decode failure tears the
    /// connection down.  The result says whether the connection should
    /// keep reading.
    pub fn handle_client_frame(&mut self, id: Identifier, bytes: &[u8]) -> (keep: bool)
        requires
            old(self).wf(),
        ensures
            final(self).wf(),
            final(self).frame == old(self).frame,
            final(self).width == old(self).width,
            final(self).height == old(self).height,
            final(self).id == old(self).id,
            spec_parse(bytes@) is Err ==> !keep && !final(self).has_conn(id),
            forall|e: Identifier| final(self).has_conn(e) ==> old(self).has_conn(e),
            (spec_parse(bytes@) matches Ok(p) && !(p is Spawn) ==> keep),
            (spec_parse(bytes@) matches Ok(p) && !(p is Spawn) && !(p is Input) ==> *final(self)
                == *old(self)),
            (spec_parse(bytes@) matches Ok(SbPacket::Input {
                left,
                right,
                up,
                down,
                angle_bits,
                lmb,
                mx,
                my,
                rmb,
            }) ==> ({
                &&& final(self).registered_connections@ == old(self).registered_connections@
                &&& final(self).solver.entries@ == old(self).solver.entries@
                &&& !old(self).has_entity(id) ==> final(self).entities@ == old(self).entities@
                &&& old(self).has_entity(id) ==> exists|i: int|
                    0 <= i < old(self).entities@.len()
                        && (#[trigger] old(self).entities@[i]).tank().id == id
                        && final(self).entities@ == old(self).entities@.update(
                        i,
                        Entity::Tank(
                            (Tank {
                                input: Input {
                                    left,
                                    right,
                                    up,
                                    down,
                                    lmb,
                                    angle_bits,
                                    mx,
                                    my,
                                    rmb,
                                },
                                ..old(self).entities@[i].tank()
                            }),
                        ),
                    )
            })),
            (spec_parse(bytes@) matches Ok(SbPacket::Spawn(name)) ==> ({
                &&& keep ==> final(self).entities@.len() == old(self).entities@.len() + 1
                    && spawned_tank_ok(
                        final(self).entities@[old(self).entities@.len() as int].tank(),
                        id,
                        name,
                    )
                &&& !keep ==> final(self).entities@ == old(self).entities@
                &&& !old(self).has_conn(id) ==> !keep && *final(self) == *old(self)
            })),
    {
        let parsed = ServerboundPacket::from_bytes(bytes);
        match parsed {
            Err(_) => {
                self.kick_connection(id);
                false
            },
            Ok(packet) => {
                match packet {
                    ServerboundPacket::Spawn(name) => {
                        proof {
                            assert(spec_parse(bytes@) matches Ok(p) && p == SbPacket::Spawn(
                                name@,
                            ));
                        }
                        self.player_spawn(id, name)
                    },
                    ServerboundPacket::Input {
                        left,
                        right,
                        up,
                        down,
                        angle_bits,
                        lmb,
                        mx,
                        my,
                        rmb,
                    } => {
                        self.input(id, left, right, up, down, angle_bits, lmb, mx, my, rmb);
                        true
                    },
                    _ => true,
                }
            },
        }
    }
}

} // verus!
