//! The tank: the one populated entity kind.
//!
//! A tank owns a per-player input snapshot, integrates velocity from the
//! input each tick, and, when player-controlled, holds a handle to the
//! connection's outbound channel; a bot holds none and is excluded from
//! network fan-out.

use vstd::prelude::*;
use crate::fixed::{FP_ONE, SAT, sat64, tdiv, single_bits_of, px_of, fp_add, fp_mul, fp_muldiv,
    fp_sub, to_single_bits, to_pixels};
use crate::net::{Connection, ChannelClosed, channel_send, ws_binary};
use crate::protocol::{CensusEntry, ClientboundPacket, wf_clientbound};
use crate::spatial::SolverEntry;
use crate::types::{Color, Identifier};

verus! {

/// The per-tick velocity retention factor: nine tenths survive the drag.
pub const DRAG_NUM: u32 = 9;

/// The denominator of the drag factor.
pub const DRAG_DEN: u32 = 10;

/// One player's input snapshot: directional flags, pointer angle (the bit
/// pattern of an IEEE single, stored and echoed, never computed with),
/// pointer offsets and the two mouse buttons.
#[derive(Clone, Copy, PartialEq, Eq, Structural, Debug)]
pub struct Input {
    pub left: bool,
    pub right: bool,
    pub up: bool,
    pub down: bool,
    pub lmb: bool,
    pub angle_bits: u32,
    pub mx: i16,
    pub my: i16,
    pub rmb: bool,
}

/// The neutral input: nothing pressed, pointer at rest.
pub open spec fn spec_input_default() -> Input {
    Input {
        left: false,
        right: false,
        up: false,
        down: false,
        lmb: false,
        angle_bits: 0,
        mx: 0,
        my: 0,
        rmb: false,
    }
}

impl Default for Input {
    /// The neutral input.
    fn default() -> (r: Self)
        ensures
            r == spec_input_default(),
    {
        Input {
            left: false,
            right: false,
            up: false,
            down: false,
            lmb: false,
            angle_bits: 0,
            mx: 0,
            my: 0,
            rmb: false,
        }
    }
}

/// Who steers the tank: a connected player, reached through its outbound
/// channel, or a bot with no channel at all.
pub enum TankType {
    Player(Connection),
    Bot,
}

/// The player- or bot-controlled entity.  All world quantities are
/// fixed-point; `angle_bits` and `input.angle_bits` carry IEEE single bit
/// patterns through unchanged.
pub struct Tank {
    pub id: Identifier,
    pub name: Vec<u8>,
    pub x: i64,
    pub y: i64,
    pub vx: i64,
    pub vy: i64,
    pub angle_bits: u32,
    pub radius: i64,
    pub mass: i64,
    pub tank_type: TankType,
    pub score: u32,
    pub class: u16,
    pub color: Color,
    pub alpha: i64,
    pub health: i64,
    pub input: Input,
    pub speed: i64,
}

/// The acceleration sign of one axis: opposing flags cancel.
pub open spec fn dir_value(pos: bool, neg: bool) -> i64 {
    if pos == neg {
        0
    } else if pos {
        FP_ONE
    } else {
        (-FP_ONE) as i64
    }
}

/// Saturating sum, at the spec level.
pub open spec fn sadd(a: int, b: int) -> int {
    sat64(a + b)
}

/// Saturating fixed-point product, at the spec level.
pub open spec fn smul(a: int, b: int) -> int {
    sat64(tdiv(sat64(a) * sat64(b), FP_ONE as int))
}

/// The drag applied to a velocity component after integration.
pub open spec fn sdamp(a: int) -> int {
    sat64(tdiv(sat64(a) * DRAG_NUM, DRAG_DEN as int))
}

/// The velocity after the input-driven acceleration, before drag.
pub open spec fn accel_vx(t: Tank) -> int {
    sadd(t.vx as int, smul(dir_value(t.input.right, t.input.left) as int, t.speed as int))
}

/// The vertical twin of [`accel_vx`].
pub open spec fn accel_vy(t: Tank) -> int {
    sadd(t.vy as int, smul(dir_value(t.input.down, t.input.up) as int, t.speed as int))
}

/// Exactly what one tick does to a tank: accelerate from input, advance
/// position by the new velocity times `dt`, then damp the velocity.
pub open spec fn spec_tank_step(t: Tank, dt: i64) -> Tank {
    Tank {
        x: sadd(t.x as int, smul(accel_vx(t), dt as int)) as i64,
        y: sadd(t.y as int, smul(accel_vy(t), dt as int)) as i64,
        vx: sdamp(accel_vx(t)) as i64,
        vy: sdamp(accel_vy(t)) as i64,
        ..t
    }
}

/// The axis-aligned box a tank occupies in the spatial index.
pub open spec fn spec_solver_entry(t: Tank) -> SolverEntry {
    SolverEntry {
        id: t.id as u64,
        x: sat64(t.x - t.radius) as i64,
        y: sat64(t.y - t.radius) as i64,
        width: sat64(t.radius + t.radius) as i64,
        height: sat64(t.radius + t.radius) as i64,
        radius: t.radius,
    }
}

/// The saturated alpha byte sent on the wire: opacity times one hundred.
pub open spec fn alpha_byte(a: i64) -> u8 {
    let v = sat64(tdiv(sat64(a as int) * 100, FP_ONE as int));
    if v < 0 {
        0u8
    } else if v > 255 {
        255u8
    } else {
        v as u8
    }
}

/// The census row a tank contributes: every field reduced to its wire
/// form.
pub open spec fn spec_census_entry(t: Tank) -> CensusEntry {
    CensusEntry {
        id: t.id as u32,
        x: px_of(t.x as int),
        y: px_of(t.y as int),
        name: t.name,
        angle_bits: t.angle_bits,
        radius_bits: single_bits_of(t.radius as int),
        level: t.score / 600,
        score: t.score,
        class: t.class,
        color: t.color,
        show_name: true,
        show_health: true,
        alpha_scaled: alpha_byte(t.alpha),
        vx_bits: single_bits_of(t.vx as int),
        vy_bits: single_bits_of(t.vy as int),
        health_bits: single_bits_of(t.health as int),
        barrel_flash: false,
        shield_flash: false,
        can_cross_border: false,
    }
}

impl Tank {
    /// The display name fits the wire's 16-bit length prefix.
    pub open spec fn wf(&self) -> bool {
        self.name@.len() <= 0xFFFF
    }

    /// A freshly spawned player tank: default visual fields, full health,
    /// neutral input, and the connection's outbound channel.
    pub fn new_player(
        id: Identifier,
        name: Vec<u8>,
        x: i64,
        y: i64,
        vx: i64,
        vy: i64,
        radius: i64,
        mass: i64,
        socket: Connection,
    ) -> (r: Tank)
        ensures
            r.id == id,
            r.name == name,
            r.x == x,
            r.y == y,
            r.vx == vx,
            r.vy == vy,
            r.angle_bits == 0,
            r.radius == radius,
            r.mass == mass,
            r.tank_type == TankType::Player(socket),
            r.score == 0,
            r.class == 0,
            r.color == Color::ChargingCyan,
            r.alpha == FP_ONE,
            r.health == 1000 * FP_ONE,
            r.input == spec_input_default(),
            r.speed == FP_ONE,
    {
        Tank {
            id,
            name,
            x,
            y,
            vx,
            vy,
            angle_bits: 0,
            radius,
            mass,
            tank_type: TankType::Player(socket),
            score: 0,
            class: 0,
            color: Color::ChargingCyan,
            alpha: FP_ONE,
            health: 1000 * FP_ONE,
            input: Default::default(),
            speed: FP_ONE,
        }
    }

    /// Replace the stored input snapshot wholesale.
    pub fn input(
        &mut self,
        left: bool,
        right: bool,
        up: bool,
        down: bool,
        angle_bits: u32,
        lmb: bool,
        mx: i16,
        my: i16,
        rmb: bool,
    )
        ensures
            *final(self) == (Tank {
                input: Input { left, right, up, down, lmb, angle_bits, mx, my, rmb },
                ..*old(self)
            }),
    {
        self.input.left = left;
        self.input.right = right;
        self.input.up = up;
        self.input.down = down;
        self.input.angle_bits = angle_bits;
        self.input.lmb = lmb;
        self.input.mx = mx;
        self.input.my = my;
        self.input.rmb = rmb;
    }

    /// One tick of motion: exactly [`spec_tank_step`], reporting the new
    /// spatial box only when position or radius actually changed.
    pub fn update(&mut self, dt: i64) -> (r: Option<SolverEntry>)
        ensures
            *final(self) == spec_tank_step(*old(self), dt),
            ({
                let before = spec_solver_entry(*old(self));
                let after = spec_solver_entry(spec_tank_step(*old(self), dt));
                if after.x != before.x || after.y != before.y || after.radius != before.radius {
                    r == Some(after)
                } else {
                    r == None::<SolverEntry>
                }
            }),
    {
        let before = self.solver_entry();
        let dx = dir_of(self.input.right, self.input.left);
        let dy = dir_of(self.input.down, self.input.up);
        self.vx = fp_add(self.vx, fp_mul(dx, self.speed));
        self.vy = fp_add(self.vy, fp_mul(dy, self.speed));
        self.x = fp_add(self.x, fp_mul(self.vx, dt));
        self.y = fp_add(self.y, fp_mul(self.vy, dt));
        self.vx = fp_muldiv(self.vx, DRAG_NUM, DRAG_DEN);
        self.vy = fp_muldiv(self.vy, DRAG_NUM, DRAG_DEN);
        let after = self.solver_entry();
        if after.x != before.x || after.y != before.y || after.radius != before.radius {
            Some(after)
        } else {
            None
        }
    }

    /// The box this tank occupies in the spatial index.
    pub fn solver_entry(&self) -> (r: SolverEntry)
        ensures
            r == spec_solver_entry(*self),
    {
        SolverEntry {
            id: self.id as u64,
            x: fp_sub(self.x, self.radius),
            y: fp_sub(self.y, self.radius),
            width: fp_add(self.radius, self.radius),
            height: fp_add(self.radius, self.radius),
            radius: self.radius,
        }
    }

    /// This tank's row of a census snapshot.
    pub fn census_entry(&self) -> (r: CensusEntry)
        ensures
            r.name@ == self.name@,
            r == (CensusEntry { name: r.name, ..spec_census_entry(*self) }),
    {
        let name_copy = self.name.clone();
        proof {
            assert forall|i: int| 0 <= i < self.name@.len() implies name_copy@[i]
                == self.name@[i] by {}
            assert(name_copy@ =~= self.name@);
        }
        CensusEntry {
            id: self.id as u32,
            x: to_pixels(self.x),
            y: to_pixels(self.y),
            name: name_copy,
            angle_bits: self.angle_bits,
            radius_bits: to_single_bits(self.radius),
            level: self.score / 600,
            score: self.score,
            class: self.class,
            color: self.color,
            show_name: true,
            show_health: true,
            alpha_scaled: alpha_byte_exec(self.alpha),
            vx_bits: to_single_bits(self.vx),
            vy_bits: to_single_bits(self.vy),
            health_bits: to_single_bits(self.health),
            barrel_flash: false,
            shield_flash: false,
            can_cross_border: false,
        }
    }

    /// Deliver a pre-serialized packet through the owned channel handle;
    /// a bot silently succeeds.  Failure means the paired delivery task
    /// has exited and the caller should tear the connection down.
    pub fn send_network_packet(&self, packet: &ClientboundPacket) -> (r: Result<(), ChannelClosed>)
        requires
            wf_clientbound(*packet),
        ensures
            self.tank_type is Bot ==> r is Ok,
    {
        match &self.tank_type {
            TankType::Player(tx) => {
                if channel_send(tx, ws_binary(packet.to_bytes())) {
                    Ok(())
                } else {
                    Err(ChannelClosed)
                }
            },
            TankType::Bot => Ok(()),
        }
    }

    /// A player-controlled tank takes part in network fan-out; a bot does
    /// not.
    pub fn networkable(&self) -> (r: bool)
        ensures
            r == (self.tank_type is Player),
    {
        match &self.tank_type {
            TankType::Player(_) => true,
            TankType::Bot => false,
        }
    }

    pub fn get_id(&self) -> (r: Identifier)
        ensures
            r == self.id,
    {
        self.id
    }

    pub fn get_x(&self) -> (r: i64)
        ensures
            r == self.x,
    {
        self.x
    }

    pub fn get_y(&self) -> (r: i64)
        ensures
            r == self.y,
    {
        self.y
    }

    pub fn get_position(&self) -> (r: (i64, i64))
        ensures
            r.0 == self.x,
            r.1 == self.y,
    {
        (self.x, self.y)
    }

    pub fn get_velocity(&self) -> (r: (i64, i64))
        ensures
            r.0 == self.vx,
            r.1 == self.vy,
    {
        (self.vx, self.vy)
    }

    pub fn get_radius(&self) -> (r: i64)
        ensures
            r == self.radius,
    {
        self.radius
    }

    pub fn get_mass(&self) -> (r: i64)
        ensures
            r == self.mass,
    {
        self.mass
    }

    pub fn get_name(&self) -> (r: &Vec<u8>)
        ensures
            r == self.name,
    {
        &self.name
    }

    pub fn get_angle(&self) -> (r: u32)
        ensures
            r == self.angle_bits,
    {
        self.angle_bits
    }

    /// The level derived from the score: six hundred points per level,
    /// truncating.
    pub fn get_level(&self) -> (r: u32)
        ensures
            r == self.score / 600,
    {
        self.score / 600
    }

    pub fn get_score(&self) -> (r: u32)
        ensures
            r == self.score,
    {
        self.score
    }

    pub fn get_class(&self) -> (r: u16)
        ensures
            r == self.class,
    {
        self.class
    }

    pub fn get_color(&self) -> (r: Color)
        ensures
            r == self.color,
    {
        self.color
    }

    pub fn get_alpha(&self) -> (r: i64)
        ensures
            r == self.alpha,
    {
        self.alpha
    }

    pub fn get_health(&self) -> (r: i64)
        ensures
            r == self.health,
    {
        self.health
    }

    pub fn set_x(&mut self, x: i64)
        ensures
            *final(self) == (Tank { x, ..*old(self) }),
    {
        self.x = x;
    }

    pub fn set_y(&mut self, y: i64)
        ensures
            *final(self) == (Tank { y, ..*old(self) }),
    {
        self.y = y;
    }

    pub fn set_position(&mut self, x: i64, y: i64)
        ensures
            *final(self) == (Tank { x, y, ..*old(self) }),
    {
        self.x = x;
        self.y = y;
    }

    pub fn set_velocity(&mut self, vx: i64, vy: i64)
        ensures
            *final(self) == (Tank { vx, vy, ..*old(self) }),
    {
        self.vx = vx;
        self.vy = vy;
    }

    pub fn set_radius(&mut self, radius: i64)
        ensures
            *final(self) == (Tank { radius, ..*old(self) }),
    {
        self.radius = radius;
    }

    pub fn set_mass(&mut self, mass: i64)
        ensures
            *final(self) == (Tank { mass, ..*old(self) }),
    {
        self.mass = mass;
    }

    pub fn set_name(&mut self, name: Vec<u8>)
        ensures
            *final(self) == (Tank { name, ..*old(self) }),
    {
        self.name = name;
    }

    pub fn set_angle(&mut self, angle_bits: u32)
        ensures
            *final(self) == (Tank { angle_bits, ..*old(self) }),
    {
        self.angle_bits = angle_bits;
    }

    /// Recompute the score from a level: six hundred points per level, the
    /// remainder of the old score discarded.
    pub fn set_level(&mut self, level: u32)
        requires
            level * 600 <= u32::MAX,
        ensures
            *final(self) == (Tank { score: (level * 600) as u32, ..*old(self) }),
    {
        self.score = level * 600;
    }

    pub fn set_score(&mut self, score: u32)
        ensures
            *final(self) == (Tank { score, ..*old(self) }),
    {
        self.score = score;
    }

    pub fn set_class(&mut self, class: u16)
        ensures
            *final(self) == (Tank { class, ..*old(self) }),
    {
        self.class = class;
    }

    pub fn set_color(&mut self, color: Color)
        ensures
            *final(self) == (Tank { color, ..*old(self) }),
    {
        self.color = color;
    }

    pub fn set_alpha(&mut self, alpha: i64)
        ensures
            *final(self) == (Tank { alpha, ..*old(self) }),
    {
        self.alpha = alpha;
    }

    pub fn set_health(&mut self, health: i64)
        ensures
            *final(self) == (Tank { health, ..*old(self) }),
    {
        self.health = health;
    }

    pub fn show_name(&self) -> (r: bool)
        ensures
            r,
    {
        true
    }

    pub fn show_health(&self) -> (r: bool)
        ensures
            r,
    {
        true
    }

    pub fn barrel_flash(&self) -> (r: bool)
        ensures
            !r,
    {
        false
    }

    pub fn shield_flash(&self) -> (r: bool)
        ensures
            !r,
    {
        false
    }

    pub fn can_move_through_border(&self) -> (r: bool)
        ensures
            !r,
    {
        false
    }
}

/// The acceleration sign of one axis, executed.
fn dir_of(pos: bool, neg: bool) -> (r: i64)
    ensures
        r == dir_value(pos, neg),
{
    if pos == neg {
        0
    } else if pos {
        FP_ONE
    } else {
        -FP_ONE
    }
}

/// Compute [`alpha_byte`].
fn alpha_byte_exec(a: i64) -> (r: u8)
    ensures
        r == alpha_byte(a),
{
    let v = fp_muldiv(a, 100, 0x1_0000);
    if v < 0 {
        0
    } else if v > 255 {
        255
    } else {
        v as u8
    }
}


/// Law: the level/score mapping is an exact, deliberately lossy pair.
/// Setting the level recomputes the score as the level times six hundred,
/// so the score read back is exactly that product and the level read back
/// is the level again; setting the score makes the level read back the
/// score divided by six hundred, truncating.
pub proof fn lemma_level_score(t: Tank, level: u32, score: u32)
    requires
        level * 600 <= u32::MAX,
    ensures
        (Tank { score: (level * 600) as u32, ..t }).score == level * 600,
        (Tank { score: (level * 600) as u32, ..t }).score / 600 == level,
        (Tank { score, ..t }).score / 600 == score / 600,
{
    assert(((level * 600) as u32) / 600 == level) by (nonlinear_arith)
        requires
            level * 600 <= u32::MAX,
    ;
}


/// Law: while only the rightward flag is held, a tank that is not
/// drifting left moves strictly to the right in one tick at no less than
/// the nominal rate and speed, as long as its position has room below the
/// saturation bound.  (With a slower rate or a smaller speed the
/// truncating fixed-point step can be zero, just as a sub-unit float step
/// can be lost to rounding, so the unrestricted form does not hold.)
pub proof fn lemma_held_right_moves_right(t: Tank, dt: i64)
    requires
        t.input.right,
        !t.input.left,
        t.vx >= 0,
        t.speed >= FP_ONE,
        dt >= FP_ONE,
        t.x < crate::fixed::SAT,
    ensures
        spec_tank_step(t, dt).x > t.x,
{
    let accel = accel_vx(t);
    assert(dir_value(t.input.right, t.input.left) == FP_ONE);
    assert(smul(FP_ONE as int, t.speed as int) >= FP_ONE) by {
        assert(tdiv(sat64(FP_ONE as int) * sat64(t.speed as int), FP_ONE as int) >= FP_ONE)
            by (nonlinear_arith)
            requires
                sat64(FP_ONE as int) == FP_ONE as int,
                FP_ONE as int <= sat64(t.speed as int) <= SAT as int,
        ;
    }
    assert(accel >= FP_ONE);
    let step = smul(accel, dt as int);
    assert(step >= 1) by {
        assert(tdiv(sat64(accel) * sat64(dt as int), FP_ONE as int) >= 1) by (nonlinear_arith)
            requires
                FP_ONE as int <= sat64(accel) <= SAT as int,
                FP_ONE as int <= sat64(dt as int) <= SAT as int,
        ;
    }
    assert(sadd(t.x as int, step) > t.x);
}

} // verus!
