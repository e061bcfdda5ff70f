//! The wire protocol: the exact byte layout of every message exchanged with
//! a client.
//!
//! Every message is one opaque binary blob whose first byte is a packet-kind
//! tag, followed by big-endian fixed-width fields and 16-bit
//! length-prefixed UTF-8 strings.  Fractional fields (angles, radii,
//! velocities, health, field of view) travel as the four big-endian bytes of
//! an IEEE 754 single; the library carries them as their bit patterns
//! (`u32`), so the layout below is bit-exact.

use vstd::prelude::*;
use crate::binary::{StreamPeerBuffer, be2, be4, from2, from4, str16_bytes, lemma_be2_round, lemma_be4_round};
use crate::types::{Color, DecodeError, spec_color_code};
use crate::utf8::is_utf8;

verus! {

/// The byte that encodes a boolean: one for true, zero for false.
pub open spec fn bool_byte(b: bool) -> u8 {
    if b {
        1
    } else {
        0
    }
}

/// One entity of a census snapshot, already reduced to its wire fields.
#[derive(Debug, Clone, PartialEq, Eq)]
pub struct CensusEntry {
    pub id: u32,
    pub x: i32,
    pub y: i32,
    pub name: Vec<u8>,
    pub angle_bits: u32,
    pub radius_bits: u32,
    pub level: u32,
    pub score: u32,
    pub class: u16,
    pub color: Color,
    pub show_name: bool,
    pub show_health: bool,
    pub alpha_scaled: u8,
    pub vx_bits: u32,
    pub vy_bits: u32,
    pub health_bits: u32,
    pub barrel_flash: bool,
    pub shield_flash: bool,
    pub can_cross_border: bool,
}

/// One row of the leaderboard packet.
#[derive(Debug, Clone, PartialEq, Eq)]
pub struct LeaderboardEntry {
    pub id: u32,
    pub score: u32,
    pub name: Vec<u8>,
    pub class: u16,
    pub color: Color,
}

/// A server-to-client message.
#[derive(Debug, Clone, PartialEq, Eq)]
pub enum ClientboundPacket {
    RoomInfo { width: u16, height: u16, mode: Vec<u8>, accounts_enabled: bool, border_style: u16 },
    Identifier(u32),
    Census { entities: Vec<CensusEntry> },
    Joining,
    CameraUpdate { x: i32, y: i32, fov_bits: u32 },
    CmdOutput(Vec<u8>),
    EntityTypes(Vec<u8>),
    Death(u16),
    Message { message: Vec<u8>, color: Color },
    TankUpgrade(u16),
    UpgradeReset,
    LeaderBoard { leaderboard: Vec<LeaderboardEntry> },
    Kill,
    Skill(u8),
    /// Reserved for accounts; encoding it is a defined failure, so it is
    /// excluded from every well-formed packet.
    Account,
    DominationColors([Color; 4]),
    Audio(u8),
    GameEvent(u8),
}

/// The wire bytes of one census entity.
pub open spec fn census_entry_bytes(e: CensusEntry) -> Seq<u8> {
    be4(e.id) + be4(e.x as u32) + be4(e.y as u32) + str16_bytes(e.name@) + be4(e.angle_bits)
        + be4(e.radius_bits) + be4(e.level) + be4(e.score) + be2(e.class) + seq![
        spec_color_code(e.color),
        bool_byte(e.show_name),
        bool_byte(e.show_health),
    ] + be2(0) + seq![e.alpha_scaled] + be4(e.vx_bits) + be4(e.vy_bits) + be4(e.health_bits)
        + seq![bool_byte(e.barrel_flash), bool_byte(e.shield_flash), bool_byte(e.can_cross_border)]
}

/// The wire bytes of one leaderboard row.
pub open spec fn leaderboard_entry_bytes(e: LeaderboardEntry) -> Seq<u8> {
    be4(e.id) + be4(e.score) + str16_bytes(e.name@) + be2(e.class) + seq![spec_color_code(e.color)]
}

/// Concatenation of byte sequences is associative.
pub proof fn lemma_add_assoc(a: Seq<u8>, b: Seq<u8>, c: Seq<u8>)
    ensures
        (a + b) + c == a + (b + c),
{
    assert((a + b) + c =~= a + (b + c));
}

/// The wire bytes of a whole census list.
pub open spec fn census_list_bytes(s: Seq<CensusEntry>) -> Seq<u8>
    decreases s.len(),
{
    if s.len() == 0 {
        Seq::empty()
    } else {
        census_entry_bytes(s[0]) + census_list_bytes(s.skip(1))
    }
}

/// Extending the encoded prefix by one entity appends that entity's image.
pub proof fn lemma_census_list_snoc(s: Seq<CensusEntry>, i: int)
    requires
        0 <= i < s.len(),
    ensures
        census_list_bytes(s.take(i + 1)) == census_list_bytes(s.take(i))
            + census_entry_bytes(s[i]),
    decreases i,
{
    if i == 0 {
        assert(s.take(1)[0] == s[0]);
        assert(s.take(1).skip(1) =~= Seq::<CensusEntry>::empty());
        assert(census_list_bytes(Seq::<CensusEntry>::empty()) == Seq::<u8>::empty());
        assert(census_list_bytes(s.take(1).skip(1)) == Seq::<u8>::empty());
        assert(census_list_bytes(s.take(1)) == census_entry_bytes(s[0]) + Seq::<u8>::empty());
        assert(census_entry_bytes(s[0]) + Seq::<u8>::empty() =~= census_entry_bytes(s[0]));
        assert(s.take(0) =~= Seq::<CensusEntry>::empty());
        assert(Seq::<u8>::empty() + census_entry_bytes(s[0]) =~= census_entry_bytes(s[0]));
    } else {
        let t = s.skip(1);
        lemma_census_list_snoc(t, i - 1);
        assert(s.take(i + 1)[0] == s[0]);
        assert(s.take(i)[0] == s[0]);
        assert(s.take(i + 1).skip(1) =~= t.take(i));
        assert(s.take(i).skip(1) =~= t.take(i - 1));
        assert(t[i - 1] == s[i]);
        assert(census_list_bytes(s.take(i + 1)) == census_entry_bytes(s[0]) + census_list_bytes(
            t.take(i),
        ));
        assert(census_list_bytes(s.take(i)) == census_entry_bytes(s[0]) + census_list_bytes(
            t.take(i - 1),
        ));
        lemma_add_assoc(
            census_entry_bytes(s[0]),
            census_list_bytes(t.take(i - 1)),
            census_entry_bytes(s[i]),
        );
    }
}

/// The wire bytes of a whole leaderboard.
pub open spec fn leaderboard_list_bytes(s: Seq<LeaderboardEntry>) -> Seq<u8>
    decreases s.len(),
{
    if s.len() == 0 {
        Seq::empty()
    } else {
        leaderboard_entry_bytes(s[0]) + leaderboard_list_bytes(s.skip(1))
    }
}

/// Extending the encoded prefix by one row appends that row's image.
pub proof fn lemma_leaderboard_list_snoc(s: Seq<LeaderboardEntry>, i: int)
    requires
        0 <= i < s.len(),
    ensures
        leaderboard_list_bytes(s.take(i + 1)) == leaderboard_list_bytes(s.take(i))
            + leaderboard_entry_bytes(s[i]),
    decreases i,
{
    if i == 0 {
        assert(s.take(1)[0] == s[0]);
        assert(s.take(1).skip(1) =~= Seq::<LeaderboardEntry>::empty());
        assert(leaderboard_list_bytes(Seq::<LeaderboardEntry>::empty()) == Seq::<u8>::empty());
        assert(leaderboard_list_bytes(s.take(1).skip(1)) == Seq::<u8>::empty());
        assert(leaderboard_list_bytes(s.take(1)) == leaderboard_entry_bytes(s[0])
            + Seq::<u8>::empty());
        assert(leaderboard_entry_bytes(s[0]) + Seq::<u8>::empty() =~= leaderboard_entry_bytes(
            s[0],
        ));
        assert(s.take(0) =~= Seq::<LeaderboardEntry>::empty());
        assert(Seq::<u8>::empty() + leaderboard_entry_bytes(s[0]) =~= leaderboard_entry_bytes(
            s[0],
        ));
    } else {
        let t = s.skip(1);
        lemma_leaderboard_list_snoc(t, i - 1);
        assert(s.take(i + 1)[0] == s[0]);
        assert(s.take(i)[0] == s[0]);
        assert(s.take(i + 1).skip(1) =~= t.take(i));
        assert(s.take(i).skip(1) =~= t.take(i - 1));
        assert(t[i - 1] == s[i]);
        assert(leaderboard_list_bytes(s.take(i + 1)) == leaderboard_entry_bytes(s[0])
            + leaderboard_list_bytes(t.take(i)));
        assert(leaderboard_list_bytes(s.take(i)) == leaderboard_entry_bytes(s[0])
            + leaderboard_list_bytes(t.take(i - 1)));
        lemma_add_assoc(
            leaderboard_entry_bytes(s[0]),
            leaderboard_list_bytes(t.take(i - 1)),
            leaderboard_entry_bytes(s[i]),
        );
    }
}

/// A packet the encoder owes a byte image: every string fits its 16-bit
/// length prefix, every list fits its count field, and the reserved
/// account packet never appears.
pub open spec fn wf_clientbound(p: ClientboundPacket) -> bool {
    match p {
        ClientboundPacket::RoomInfo { mode, .. } => mode@.len() <= 0xFFFF,
        ClientboundPacket::Census { entities } => entities@.len() <= 0xFFFF_FFFF && forall|i: int|
            0 <= i < entities@.len() ==> (#[trigger] entities@[i]).name@.len() <= 0xFFFF,
        ClientboundPacket::CmdOutput(s) => s@.len() <= 0xFFFF,
        ClientboundPacket::EntityTypes(s) => s@.len() <= 0xFFFF,
        ClientboundPacket::Message { message, .. } => message@.len() <= 0xFFFF,
        ClientboundPacket::LeaderBoard { leaderboard } => leaderboard@.len() <= 0xFF && forall|i: int|
            0 <= i < leaderboard@.len() ==> (#[trigger] leaderboard@[i]).name@.len() <= 0xFFFF,
        ClientboundPacket::Account => false,
        _ => true,
    }
}

/// The exact wire image of a server-to-client packet.
pub open spec fn clientbound_bytes(p: ClientboundPacket) -> Seq<u8> {
    match p {
        ClientboundPacket::RoomInfo { width, height, mode, accounts_enabled, border_style } => seq![
            0x0u8,
        ] + be2(width) + be2(height) + str16_bytes(mode@) + seq![bool_byte(accounts_enabled)]
            + be2(border_style),
        ClientboundPacket::Identifier(id) => seq![0x1u8] + be4(id),
        ClientboundPacket::Census { entities } => seq![0x2u8] + be4(entities@.len() as u32)
            + census_list_bytes(entities@),
        ClientboundPacket::Joining => seq![0x3u8],
        ClientboundPacket::CameraUpdate { x, y, fov_bits } => seq![0x4u8] + be4(x as u32) + be4(
            y as u32,
        ) + be4(fov_bits),
        ClientboundPacket::CmdOutput(output) => seq![0x5u8] + str16_bytes(output@),
        ClientboundPacket::EntityTypes(kinds) => seq![0x6u8] + str16_bytes(kinds@),
        ClientboundPacket::Death(id) => seq![0x7u8] + be2(id),
        ClientboundPacket::Message { message, color } => seq![0x8u8] + str16_bytes(message@)
            + seq![spec_color_code(color)],
        ClientboundPacket::TankUpgrade(id) => seq![0x9u8] + be2(id),
        ClientboundPacket::UpgradeReset => seq![0xAu8],
        ClientboundPacket::LeaderBoard { leaderboard } => seq![0xBu8, leaderboard@.len() as u8]
            + leaderboard_list_bytes(leaderboard@),
        ClientboundPacket::Kill => seq![0xCu8],
        ClientboundPacket::Skill(skill) => seq![0xDu8, skill],
        ClientboundPacket::Account => Seq::empty(),
        ClientboundPacket::DominationColors(colors) => seq![
            0xFu8,
            spec_color_code(colors@[0]),
            spec_color_code(colors@[1]),
            spec_color_code(colors@[2]),
            spec_color_code(colors@[3]),
        ],
        ClientboundPacket::Audio(id) => seq![0x10u8, id],
        ClientboundPacket::GameEvent(event) => seq![0x11u8, event],
    }
}

/// Append the wire image of one census entity.
fn put_census_entry(buf: &mut StreamPeerBuffer, e: &CensusEntry)
    requires
        e.name@.len() <= 0xFFFF,
    ensures
        final(buf).data@ == old(buf).data@ + census_entry_bytes(*e),
        final(buf).pos == old(buf).pos,
{
    let ghost d0 = buf.data@;
    let ghost mut acc = Seq::<u8>::empty();
    buf.put_u32(e.id);
    proof {
        acc = be4(e.id);
    }
    buf.put_32(e.x);
    proof {
        lemma_add_assoc(d0, acc, be4(e.x as u32));
        acc = acc + be4(e.x as u32);
    }
    buf.put_32(e.y);
    proof {
        lemma_add_assoc(d0, acc, be4(e.y as u32));
        acc = acc + be4(e.y as u32);
    }
    buf.put_utf8(e.name.as_slice());
    proof {
        lemma_add_assoc(d0, acc, str16_bytes(e.name@));
        acc = acc + str16_bytes(e.name@);
    }
    buf.put_u32(e.angle_bits);
    proof {
        lemma_add_assoc(d0, acc, be4(e.angle_bits));
        acc = acc + be4(e.angle_bits);
    }
    buf.put_u32(e.radius_bits);
    proof {
        lemma_add_assoc(d0, acc, be4(e.radius_bits));
        acc = acc + be4(e.radius_bits);
    }
    buf.put_u32(e.level);
    proof {
        lemma_add_assoc(d0, acc, be4(e.level));
        acc = acc + be4(e.level);
    }
    buf.put_u32(e.score);
    proof {
        lemma_add_assoc(d0, acc, be4(e.score));
        acc = acc + be4(e.score);
    }
    buf.put_u16(e.class);
    proof {
        lemma_add_assoc(d0, acc, be2(e.class));
        acc = acc + be2(e.class);
    }
    buf.put_u8(e.color.code());
    buf.put_u8(if e.show_name { 1 } else { 0 });
    buf.put_u8(if e.show_health { 1 } else { 0 });
    proof {
        let flags = seq![
            spec_color_code(e.color),
            bool_byte(e.show_name),
            bool_byte(e.show_health),
        ];
        assert(buf.data@ =~= (d0 + acc) + flags);
        lemma_add_assoc(d0, acc, flags);
        acc = acc + flags;
    }
    buf.put_u16(0);
    proof {
        lemma_add_assoc(d0, acc, be2(0));
        acc = acc + be2(0);
    }
    buf.put_u8(e.alpha_scaled);
    proof {
        lemma_add_assoc(d0, acc, seq![e.alpha_scaled]);
        acc = acc + seq![e.alpha_scaled];
    }
    buf.put_u32(e.vx_bits);
    proof {
        lemma_add_assoc(d0, acc, be4(e.vx_bits));
        acc = acc + be4(e.vx_bits);
    }
    buf.put_u32(e.vy_bits);
    proof {
        lemma_add_assoc(d0, acc, be4(e.vy_bits));
        acc = acc + be4(e.vy_bits);
    }
    buf.put_u32(e.health_bits);
    proof {
        lemma_add_assoc(d0, acc, be4(e.health_bits));
        acc = acc + be4(e.health_bits);
    }
    buf.put_u8(if e.barrel_flash { 1 } else { 0 });
    buf.put_u8(if e.shield_flash { 1 } else { 0 });
    buf.put_u8(if e.can_cross_border { 1 } else { 0 });
    proof {
        let tail = seq![
            bool_byte(e.barrel_flash),
            bool_byte(e.shield_flash),
            bool_byte(e.can_cross_border),
        ];
        assert(buf.data@ =~= (d0 + acc) + tail);
        lemma_add_assoc(d0, acc, tail);
        acc = acc + tail;
        assert(acc == census_entry_bytes(*e));
    }
}

/// Append the wire image of one leaderboard row.
fn put_leaderboard_entry(buf: &mut StreamPeerBuffer, e: &LeaderboardEntry)
    requires
        e.name@.len() <= 0xFFFF,
    ensures
        final(buf).data@ == old(buf).data@ + leaderboard_entry_bytes(*e),
        final(buf).pos == old(buf).pos,
{
    buf.put_u32(e.id);
    buf.put_u32(e.score);
    buf.put_utf8(e.name.as_slice());
    buf.put_u16(e.class);
    buf.put_u8(e.color.code());
    proof {
        assert(buf.data@ =~= old(buf).data@ + leaderboard_entry_bytes(*e));
    }
}

impl ClientboundPacket {
    /// Serialize this packet into its exact wire image.
    #[verifier::rlimit(100)]
    pub fn to_bytes(&self) -> (r: Vec<u8>)
        requires
            wf_clientbound(*self),
        ensures
            r@ == clientbound_bytes(*self),
    {
        let mut buf = StreamPeerBuffer::new();
        match self {
            ClientboundPacket::RoomInfo { width, height, mode, accounts_enabled, border_style } => {
                buf.put_u8(0x0);
                buf.put_u16(*width);
                buf.put_u16(*height);
                buf.put_utf8(mode.as_slice());
                buf.put_u8(if *accounts_enabled { 1 } else { 0 });
                buf.put_u16(*border_style);
                proof {
                    assert(buf.data@ =~= clientbound_bytes(*self));
                }
            },
            ClientboundPacket::Identifier(id) => {
                buf.put_u8(0x1);
                buf.put_u32(*id);
                proof {
                    assert(buf.data@ =~= clientbound_bytes(*self));
                }
            },
            ClientboundPacket::Census { entities } => {
                buf.put_u8(0x2);
                buf.put_u32(entities.len() as u32);
                let ghost header = buf.data@;
                let mut i: usize = 0;
                proof {
                    assert(entities@.take(0) =~= Seq::<CensusEntry>::empty());
                    assert(header + census_list_bytes(entities@.take(0)) =~= header);
                }
                while i < entities.len()
                    invariant
                        i <= entities@.len(),
                        buf.pos == 0,
                        buf.data@ == header + census_list_bytes(entities@.take(i as int)),
                        header == seq![0x2u8] + be4(entities@.len() as u32),
                        forall|k: int|
                            0 <= k < entities@.len() ==> (#[trigger] entities@[k]).name@.len()
                                <= 0xFFFF,
                    decreases entities@.len() - i,
                {
                    put_census_entry(&mut buf, &entities[i]);
                    proof {
                        lemma_census_list_snoc(entities@, i as int);
                        lemma_add_assoc(
                            header,
                            census_list_bytes(entities@.take(i as int)),
                            census_entry_bytes(entities@[i as int]),
                        );
                    }
                    i = i + 1;
                }
                proof {
                    assert(entities@.take(entities@.len() as int) =~= entities@);
                }
            },
            ClientboundPacket::Joining => {
                buf.put_u8(0x3);
                proof {
                    assert(buf.data@ =~= clientbound_bytes(*self));
                }
            },
            ClientboundPacket::CameraUpdate { x, y, fov_bits } => {
                buf.put_u8(0x4);
                buf.put_32(*x);
                buf.put_32(*y);
                buf.put_u32(*fov_bits);
                proof {
                    assert(buf.data@ =~= clientbound_bytes(*self));
                }
            },
            ClientboundPacket::CmdOutput(output) => {
                buf.put_u8(0x5);
                buf.put_utf8(output.as_slice());
                proof {
                    assert(buf.data@ =~= clientbound_bytes(*self));
                }
            },
            ClientboundPacket::EntityTypes(kinds) => {
                buf.put_u8(0x6);
                buf.put_utf8(kinds.as_slice());
                proof {
                    assert(buf.data@ =~= clientbound_bytes(*self));
                }
            },
            ClientboundPacket::Death(id) => {
                buf.put_u8(0x7);
                buf.put_u16(*id);
                proof {
                    assert(buf.data@ =~= clientbound_bytes(*self));
                }
            },
            ClientboundPacket::Message { message, color } => {
                buf.put_u8(0x8);
                buf.put_utf8(message.as_slice());
                buf.put_u8(color.code());
                proof {
                    assert(buf.data@ =~= clientbound_bytes(*self));
                }
            },
            ClientboundPacket::TankUpgrade(id) => {
                buf.put_u8(0x9);
                buf.put_u16(*id);
                proof {
                    assert(buf.data@ =~= clientbound_bytes(*self));
                }
            },
            ClientboundPacket::UpgradeReset => {
                buf.put_u8(0xA);
                proof {
                    assert(buf.data@ =~= clientbound_bytes(*self));
                }
            },
            ClientboundPacket::LeaderBoard { leaderboard } => {
                buf.put_u8(0xB);
                buf.put_u8(leaderboard.len() as u8);
                let ghost header = buf.data@;
                let mut i: usize = 0;
                proof {
                    assert(leaderboard@.take(0) =~= Seq::<LeaderboardEntry>::empty());
                    assert(header + leaderboard_list_bytes(leaderboard@.take(0)) =~= header);
                }
                while i < leaderboard.len()
                    invariant
                        i <= leaderboard@.len(),
                        buf.pos == 0,
                        buf.data@ == header + leaderboard_list_bytes(leaderboard@.take(i as int)),
                        header == seq![0xBu8, leaderboard@.len() as u8],
                        forall|k: int|
                            0 <= k < leaderboard@.len() ==> (#[trigger] leaderboard@[k]).name@.len()
                                <= 0xFFFF,
                    decreases leaderboard@.len() - i,
                {
                    put_leaderboard_entry(&mut buf, &leaderboard[i]);
                    proof {
                        lemma_leaderboard_list_snoc(leaderboard@, i as int);
                        lemma_add_assoc(
                            header,
                            leaderboard_list_bytes(leaderboard@.take(i as int)),
                            leaderboard_entry_bytes(leaderboard@[i as int]),
                        );
                    }
                    i = i + 1;
                }
                proof {
                    assert(leaderboard@.take(leaderboard@.len() as int) =~= leaderboard@);
                }
            },
            ClientboundPacket::Kill => {
                buf.put_u8(0xC);
                proof {
                    assert(buf.data@ =~= clientbound_bytes(*self));
                }
            },
            ClientboundPacket::Skill(skill) => {
                buf.put_u8(0xD);
                buf.put_u8(*skill);
                proof {
                    assert(buf.data@ =~= clientbound_bytes(*self));
                }
            },
            ClientboundPacket::Account => {
                proof {
                    assert(false);
                }
            },
            ClientboundPacket::DominationColors(colors) => {
                buf.put_u8(0xF);
                buf.put_u8(colors[0].code());
                buf.put_u8(colors[1].code());
                buf.put_u8(colors[2].code());
                buf.put_u8(colors[3].code());
                proof {
                    assert(buf.data@ =~= clientbound_bytes(*self));
                }
            },
            ClientboundPacket::Audio(id) => {
                buf.put_u8(0x10);
                buf.put_u8(*id);
                proof {
                    assert(buf.data@ =~= clientbound_bytes(*self));
                }
            },
            ClientboundPacket::GameEvent(event) => {
                buf.put_u8(0x11);
                buf.put_u8(*event);
                proof {
                    assert(buf.data@ =~= clientbound_bytes(*self));
                }
            },
        }
        buf.data
    }
}

/// Which account action a login request asks for.
#[derive(Clone, Copy, PartialEq, Eq, Structural, Debug)]
pub enum LoginType {
    Login,
    Register,
}

impl LoginType {
    /// Decode the wire byte: one asks to log in, zero to register; anything
    /// else is a protocol violation.
    pub fn try_from_byte(value: u8) -> (r: Result<LoginType, DecodeError>)
        ensures
            value == 1 ==> r == Ok::<LoginType, DecodeError>(LoginType::Login),
            value == 0 ==> r == Ok::<LoginType, DecodeError>(LoginType::Register),
            value != 0 && value != 1 ==> r == Err::<LoginType, DecodeError>(
                DecodeError::InvalidLoginType,
            ),
    {
        match value {
            1 => Ok(LoginType::Login),
            0 => Ok(LoginType::Register),
            _ => Err(DecodeError::InvalidLoginType),
        }
    }
}

/// The wire byte of a login type.
pub open spec fn login_type_byte(t: LoginType) -> u8 {
    match t {
        LoginType::Login => 1,
        LoginType::Register => 0,
    }
}

/// A client-to-server message.
#[derive(Debug, Clone, PartialEq, Eq)]
pub enum ServerboundPacket {
    Input {
        left: bool,
        right: bool,
        up: bool,
        down: bool,
        angle_bits: u32,
        lmb: bool,
        mx: i16,
        my: i16,
        rmb: bool,
    },
    Spawn(Vec<u8>),
    Cmd(Vec<u8>),
    LevelUp,
    Ping,
    SkillUpgrade(u8),
    TankUpgrade(u8),
    Login { typ: LoginType, name: Vec<u8>, password: Vec<u8> },
    Version(u16),
}

/// The mathematical image of a client-to-server message, with strings as
/// byte sequences.  Decoding is specified against this type.
pub enum SbPacket {
    Input {
        left: bool,
        right: bool,
        up: bool,
        down: bool,
        angle_bits: u32,
        lmb: bool,
        mx: i16,
        my: i16,
        rmb: bool,
    },
    Spawn(Seq<u8>),
    Cmd(Seq<u8>),
    LevelUp,
    Ping,
    SkillUpgrade(u8),
    TankUpgrade(u8),
    Login { typ: LoginType, name: Seq<u8>, password: Seq<u8> },
    Version(u16),
}

impl View for ServerboundPacket {
    type V = SbPacket;

    open spec fn view(&self) -> SbPacket {
        match self {
            ServerboundPacket::Input { left, right, up, down, angle_bits, lmb, mx, my, rmb } => (
            SbPacket::Input {
                left: *left,
                right: *right,
                up: *up,
                down: *down,
                angle_bits: *angle_bits,
                lmb: *lmb,
                mx: *mx,
                my: *my,
                rmb: *rmb,
            }),
            ServerboundPacket::Spawn(name) => SbPacket::Spawn(name@),
            ServerboundPacket::Cmd(cmd) => SbPacket::Cmd(cmd@),
            ServerboundPacket::LevelUp => SbPacket::LevelUp,
            ServerboundPacket::Ping => SbPacket::Ping,
            ServerboundPacket::SkillUpgrade(v) => SbPacket::SkillUpgrade(*v),
            ServerboundPacket::TankUpgrade(v) => SbPacket::TankUpgrade(*v),
            ServerboundPacket::Login { typ, name, password } => (SbPacket::Login {
                typ: *typ,
                name: name@,
                password: password@,
            }),
            ServerboundPacket::Version(v) => SbPacket::Version(*v),
        }
    }
}

/// Every string of the packet fits its 16-bit length prefix and is
/// well-formed UTF-8.
pub open spec fn wf_serverbound(p: SbPacket) -> bool {
    match p {
        SbPacket::Spawn(name) => name.len() <= 0xFFFF && is_utf8(name),
        SbPacket::Cmd(cmd) => cmd.len() <= 0xFFFF && is_utf8(cmd),
        SbPacket::Login { name, password, .. } => name.len() <= 0xFFFF && is_utf8(name)
            && password.len() <= 0xFFFF && is_utf8(password),
        _ => true,
    }
}

/// The exact wire image of a client-to-server packet.
pub open spec fn serverbound_bytes(p: SbPacket) -> Seq<u8> {
    match p {
        SbPacket::Input { left, right, up, down, angle_bits, lmb, mx, my, rmb } => seq![
            0x0u8,
            bool_byte(left),
            bool_byte(right),
            bool_byte(up),
            bool_byte(down),
        ] + be4(angle_bits) + seq![bool_byte(lmb)] + be2(mx as u16) + be2(my as u16) + seq![
            bool_byte(rmb),
        ],
        SbPacket::Spawn(name) => seq![0x1u8] + str16_bytes(name),
        SbPacket::Cmd(cmd) => seq![0x2u8] + str16_bytes(cmd),
        SbPacket::LevelUp => seq![0x3u8],
        SbPacket::Ping => seq![0x4u8],
        SbPacket::SkillUpgrade(v) => seq![0x5u8, v],
        SbPacket::TankUpgrade(v) => seq![0x6u8, v],
        SbPacket::Login { typ, name, password } => seq![0x7u8, login_type_byte(typ)]
            + str16_bytes(name) + str16_bytes(password),
        SbPacket::Version(v) => seq![0x8u8] + be2(v),
    }
}

/// Read a length-prefixed string at position `p`: the string's bytes and
/// the position just past them, or the error the reader reports.
pub open spec fn read_str_at(b: Seq<u8>, p: int) -> Result<(Seq<u8>, int), DecodeError> {
    if p + 2 > b.len() {
        Err(DecodeError::Truncated)
    } else {
        let n = from2(b[p], b[p + 1]) as int;
        if p + 2 + n > b.len() {
            Err(DecodeError::Truncated)
        } else if !is_utf8(b.subrange(p + 2, p + 2 + n)) {
            Err(DecodeError::InvalidUtf8)
        } else {
            Ok((b.subrange(p + 2, p + 2 + n), p + 2 + n))
        }
    }
}

/// The packet a byte blob decodes to, or exactly why it is rejected.
pub open spec fn spec_parse(b: Seq<u8>) -> Result<SbPacket, DecodeError> {
    if b.len() < 1 {
        Err(DecodeError::Truncated)
    } else {
        let tag = b[0];
        if tag == 0x0 {
            if b.len() < 15 {
                Err(DecodeError::Truncated)
            } else {
                Ok(SbPacket::Input {
                    left: b[1] != 0,
                    right: b[2] != 0,
                    up: b[3] != 0,
                    down: b[4] != 0,
                    angle_bits: from4(b[5], b[6], b[7], b[8]),
                    lmb: b[9] != 0,
                    mx: from2(b[10], b[11]) as i16,
                    my: from2(b[12], b[13]) as i16,
                    rmb: b[14] != 0,
                })
            }
        } else if tag == 0x1 {
            match read_str_at(b, 1) {
                Ok((name, _)) => Ok(SbPacket::Spawn(name)),
                Err(e) => Err(e),
            }
        } else if tag == 0x2 {
            match read_str_at(b, 1) {
                Ok((cmd, _)) => Ok(SbPacket::Cmd(cmd)),
                Err(e) => Err(e),
            }
        } else if tag == 0x3 {
            Ok(SbPacket::LevelUp)
        } else if tag == 0x4 {
            Ok(SbPacket::Ping)
        } else if tag == 0x5 {
            if b.len() < 2 {
                Err(DecodeError::Truncated)
            } else {
                Ok(SbPacket::SkillUpgrade(b[1]))
            }
        } else if tag == 0x6 {
            if b.len() < 2 {
                Err(DecodeError::Truncated)
            } else {
                Ok(SbPacket::TankUpgrade(b[1]))
            }
        } else if tag == 0x7 {
            if b.len() < 2 {
                Err(DecodeError::Truncated)
            } else if b[1] == 1 || b[1] == 0 {
                let typ = if b[1] == 1 {
                    LoginType::Login
                } else {
                    LoginType::Register
                };
                match read_str_at(b, 2) {
                    Ok((name, p2)) => match read_str_at(b, p2) {
                        Ok((password, _)) => Ok(SbPacket::Login { typ, name, password }),
                        Err(e) => Err(e),
                    },
                    Err(e) => Err(e),
                }
            } else {
                Err(DecodeError::InvalidLoginType)
            }
        } else if tag == 0x8 {
            if b.len() < 3 {
                Err(DecodeError::Truncated)
            } else {
                Ok(SbPacket::Version(from2(b[1], b[2])))
            }
        } else {
            Err(DecodeError::UnknownTag)
        }
    }
}

/// The decoder's result seen at the level the parse is specified at.
pub open spec fn parse_result_view(r: Result<ServerboundPacket, DecodeError>) -> Result<
    SbPacket,
    DecodeError,
> {
    match r {
        Ok(p) => Ok(p@),
        Err(e) => Err(e),
    }
}

/// Decode the fixed-width input payload after its tag byte.
#[verifier::rlimit(100)]
fn decode_input(buf: &mut StreamPeerBuffer) -> (r: Result<ServerboundPacket, DecodeError>)
    requires
        old(buf).wf(),
        old(buf).pos == 1,
        old(buf).data@.len() >= 1,
        old(buf).data@[0] == 0x0,
    ensures
        parse_result_view(r) == spec_parse(old(buf).data@),
{
    let left = match buf.get_u8() {
        Ok(v) => v != 0,
        Err(e) => {
            return Err(e);
        },
    };
    let right = match buf.get_u8() {
        Ok(v) => v != 0,
        Err(e) => {
            return Err(e);
        },
    };
    let up = match buf.get_u8() {
        Ok(v) => v != 0,
        Err(e) => {
            return Err(e);
        },
    };
    let down = match buf.get_u8() {
        Ok(v) => v != 0,
        Err(e) => {
            return Err(e);
        },
    };
    let angle_bits = match buf.get_u32() {
        Ok(v) => v,
        Err(e) => {
            return Err(e);
        },
    };
    let lmb = match buf.get_u8() {
        Ok(v) => v != 0,
        Err(e) => {
            return Err(e);
        },
    };
    let mx = match buf.get_16() {
        Ok(v) => v,
        Err(e) => {
            return Err(e);
        },
    };
    let my = match buf.get_16() {
        Ok(v) => v,
        Err(e) => {
            return Err(e);
        },
    };
    let rmb = match buf.get_u8() {
        Ok(v) => v != 0,
        Err(e) => {
            return Err(e);
        },
    };
    Ok(ServerboundPacket::Input { left, right, up, down, angle_bits, lmb, mx, my, rmb })
}

/// Decode the login payload after its tag byte.
#[verifier::rlimit(100)]
fn decode_login(buf: &mut StreamPeerBuffer) -> (r: Result<ServerboundPacket, DecodeError>)
    requires
        old(buf).wf(),
        old(buf).pos == 1,
        old(buf).data@.len() >= 1,
        old(buf).data@[0] == 0x7,
    ensures
        parse_result_view(r) == spec_parse(old(buf).data@),
{
    let type_byte = match buf.get_u8() {
        Ok(v) => v,
        Err(e) => {
            return Err(e);
        },
    };
    let typ = match LoginType::try_from_byte(type_byte) {
        Ok(t) => t,
        Err(e) => {
            return Err(e);
        },
    };
    let name = match buf.get_utf8() {
        Ok(v) => v,
        Err(e) => {
            return Err(e);
        },
    };
    let password = match buf.get_utf8() {
        Ok(v) => v,
        Err(e) => {
            return Err(e);
        },
    };
    Ok(ServerboundPacket::Login { typ, name, password })
}

impl ServerboundPacket {
    /// Serialize this packet into its exact wire image.
    #[verifier::rlimit(50)]
    pub fn to_bytes(&self) -> (r: Vec<u8>)
        requires
            wf_serverbound(self@),
        ensures
            r@ == serverbound_bytes(self@),
    {
        let mut buf = StreamPeerBuffer::new();
        match self {
            ServerboundPacket::Input { left, right, up, down, angle_bits, lmb, mx, my, rmb } => {
                buf.put_u8(0x0);
                buf.put_u8(if *left { 1 } else { 0 });
                buf.put_u8(if *right { 1 } else { 0 });
                buf.put_u8(if *up { 1 } else { 0 });
                buf.put_u8(if *down { 1 } else { 0 });
                buf.put_u32(*angle_bits);
                buf.put_u8(if *lmb { 1 } else { 0 });
                buf.put_16(*mx);
                buf.put_16(*my);
                buf.put_u8(if *rmb { 1 } else { 0 });
                proof {
                    assert(buf.data@ =~= serverbound_bytes(self@));
                }
            },
            ServerboundPacket::Spawn(name) => {
                buf.put_u8(0x1);
                buf.put_utf8(name.as_slice());
                proof {
                    assert(buf.data@ =~= serverbound_bytes(self@));
                }
            },
            ServerboundPacket::Cmd(cmd) => {
                buf.put_u8(0x2);
                buf.put_utf8(cmd.as_slice());
                proof {
                    assert(buf.data@ =~= serverbound_bytes(self@));
                }
            },
            ServerboundPacket::LevelUp => {
                buf.put_u8(0x3);
                proof {
                    assert(buf.data@ =~= serverbound_bytes(self@));
                }
            },
            ServerboundPacket::Ping => {
                buf.put_u8(0x4);
                proof {
                    assert(buf.data@ =~= serverbound_bytes(self@));
                }
            },
            ServerboundPacket::SkillUpgrade(v) => {
                buf.put_u8(0x5);
                buf.put_u8(*v);
                proof {
                    assert(buf.data@ =~= serverbound_bytes(self@));
                }
            },
            ServerboundPacket::TankUpgrade(v) => {
                buf.put_u8(0x6);
                buf.put_u8(*v);
                proof {
                    assert(buf.data@ =~= serverbound_bytes(self@));
                }
            },
            ServerboundPacket::Login { typ, name, password } => {
                buf.put_u8(0x7);
                buf.put_u8(match typ {
                    LoginType::Login => 1,
                    LoginType::Register => 0,
                });
                buf.put_utf8(name.as_slice());
                buf.put_utf8(password.as_slice());
                proof {
                    assert(buf.data@ =~= serverbound_bytes(self@));
                }
            },
            ServerboundPacket::Version(v) => {
                buf.put_u8(0x8);
                buf.put_u16(*v);
                proof {
                    assert(buf.data@ =~= serverbound_bytes(self@));
                }
            },
        }
        buf.data
    }

    /// Decode one client frame.  Succeeds and fails exactly as
    /// [`spec_parse`] says; trailing bytes after a complete payload are
    /// ignored.
    #[verifier::rlimit(100)]
    pub fn from_bytes(bytes: &[u8]) -> (r: Result<ServerboundPacket, DecodeError>)
        ensures
            parse_result_view(r) == spec_parse(bytes@),
    {
        let mut buf = StreamPeerBuffer::new();
        buf.set_data_array(vstd::slice::slice_to_vec(bytes));
        let packet_id = match buf.get_u8() {
            Ok(v) => v,
            Err(e) => {
                return Err(e);
            },
        };
        match packet_id {
            0x0 => decode_input(&mut buf),
            0x1 => {
                match buf.get_utf8() {
                    Ok(name) => Ok(ServerboundPacket::Spawn(name)),
                    Err(e) => Err(e),
                }
            },
            0x2 => {
                match buf.get_utf8() {
                    Ok(cmd) => Ok(ServerboundPacket::Cmd(cmd)),
                    Err(e) => Err(e),
                }
            },
            0x3 => Ok(ServerboundPacket::LevelUp),
            0x4 => Ok(ServerboundPacket::Ping),
            0x5 => {
                match buf.get_u8() {
                    Ok(v) => Ok(ServerboundPacket::SkillUpgrade(v)),
                    Err(e) => Err(e),
                }
            },
            0x6 => {
                match buf.get_u8() {
                    Ok(v) => Ok(ServerboundPacket::TankUpgrade(v)),
                    Err(e) => Err(e),
                }
            },
            0x7 => decode_login(&mut buf),
            0x8 => {
                match buf.get_u16() {
                    Ok(v) => Ok(ServerboundPacket::Version(v)),
                    Err(e) => Err(e),
                }
            },
            _ => Err(DecodeError::UnknownTag),
        }
    }
}


/// Law: decoding the bytes an equivalent encoder produced gives back the
/// packet, exactly, for every client-to-server packet kind and all valid
/// field values.
pub proof fn lemma_serverbound_round_trip(p: SbPacket)
    requires
        wf_serverbound(p),
    ensures
        spec_parse(serverbound_bytes(p)) == Ok::<SbPacket, DecodeError>(p),
{
    let b = serverbound_bytes(p);
    match p {
        SbPacket::Input { left, right, up, down, angle_bits, lmb, mx, my, rmb } => {
            assert(b.len() == 15);
            assert(b[0] == 0x0u8);
            assert(b[1] == bool_byte(left));
            assert(b[2] == bool_byte(right));
            assert(b[3] == bool_byte(up));
            assert(b[4] == bool_byte(down));
            assert(b[5] == be4(angle_bits)[0]);
            assert(b[6] == be4(angle_bits)[1]);
            assert(b[7] == be4(angle_bits)[2]);
            assert(b[8] == be4(angle_bits)[3]);
            assert(b[9] == bool_byte(lmb));
            assert(b[10] == be2(mx as u16)[0]);
            assert(b[11] == be2(mx as u16)[1]);
            assert(b[12] == be2(my as u16)[0]);
            assert(b[13] == be2(my as u16)[1]);
            assert(b[14] == bool_byte(rmb));
            lemma_be4_round(angle_bits);
            lemma_be2_round(mx as u16);
            lemma_be2_round(my as u16);
            assert((mx as u16) as i16 == mx) by (bit_vector);
            assert((my as u16) as i16 == my) by (bit_vector);
        },
        SbPacket::Spawn(name) => {
            let n = name.len() as u16;
            assert(b.len() == 3 + name.len());
            assert(b[0] == 0x1u8);
            assert(b[1] == be2(n)[0]);
            assert(b[2] == be2(n)[1]);
            lemma_be2_round(n);
            assert(b.subrange(3, 3 + name.len() as int) =~= name);
        },
        SbPacket::Cmd(cmd) => {
            let n = cmd.len() as u16;
            assert(b.len() == 3 + cmd.len());
            assert(b[0] == 0x2u8);
            assert(b[1] == be2(n)[0]);
            assert(b[2] == be2(n)[1]);
            lemma_be2_round(n);
            assert(b.subrange(3, 3 + cmd.len() as int) =~= cmd);
        },
        SbPacket::LevelUp => {
        },
        SbPacket::Ping => {
        },
        SbPacket::SkillUpgrade(v) => {
        },
        SbPacket::TankUpgrade(v) => {
        },
        SbPacket::Login { typ, name, password } => {
            let nn = name.len() as u16;
            let pn = password.len() as u16;
            let p2 = 4 + name.len() as int;
            assert(b.len() == p2 + 2 + password.len());
            assert(b[0] == 0x7u8);
            assert(b[1] == login_type_byte(typ));
            assert(b[2] == be2(nn)[0]);
            assert(b[3] == be2(nn)[1]);
            lemma_be2_round(nn);
            assert(b.subrange(4, 4 + name.len() as int) =~= name);
            assert(b[p2] == be2(pn)[0]);
            assert(b[p2 + 1] == be2(pn)[1]);
            lemma_be2_round(pn);
            assert(b.subrange(p2 + 2, p2 + 2 + password.len() as int) =~= password);
        },
        SbPacket::Version(v) => {
            assert(b.len() == 3);
            assert(b[0] == 0x8u8);
            assert(b[1] == be2(v)[0]);
            assert(b[2] == be2(v)[1]);
            lemma_be2_round(v);
        },
    }
}

/// Law: a leading tag byte that names no packet kind is always a decode
/// failure, never a default packet.
pub proof fn lemma_unknown_tag_rejected(b: Seq<u8>)
    requires
        b.len() >= 1,
        b[0] > 0x8,
    ensures
        spec_parse(b) == Err::<SbPacket, DecodeError>(DecodeError::UnknownTag),
{
}

/// Law: a login type byte other than zero or one is always a decode
/// failure.
pub proof fn lemma_bad_login_type_rejected(b: Seq<u8>)
    requires
        b.len() >= 2,
        b[0] == 0x7,
        b[1] != 0,
        b[1] != 1,
    ensures
        spec_parse(b) == Err::<SbPacket, DecodeError>(DecodeError::InvalidLoginType),
{
}


/// The mathematical image of one census row as a client reads it back:
/// strings as byte sequences, the color as its wire code, booleans as
/// their truth value.
pub struct CbRow {
    pub id: u32,
    pub x: i32,
    pub y: i32,
    pub name: Seq<u8>,
    pub angle_bits: u32,
    pub radius_bits: u32,
    pub level: u32,
    pub score: u32,
    pub class: u16,
    pub color_code: u8,
    pub show_name: bool,
    pub show_health: bool,
    pub alpha_scaled: u8,
    pub vx_bits: u32,
    pub vy_bits: u32,
    pub health_bits: u32,
    pub barrel_flash: bool,
    pub shield_flash: bool,
    pub can_cross_border: bool,
}

/// The mathematical image of one leaderboard row as a client reads it.
pub struct CbLbRow {
    pub id: u32,
    pub score: u32,
    pub name: Seq<u8>,
    pub class: u16,
    pub color_code: u8,
}

/// The mathematical image of a server-to-client message as a client reads
/// it back.
pub enum CbPacket {
    RoomInfo { width: u16, height: u16, mode: Seq<u8>, accounts_enabled: bool, border_style: u16 },
    Identifier(u32),
    Census(Seq<CbRow>),
    Joining,
    CameraUpdate { x: i32, y: i32, fov_bits: u32 },
    CmdOutput(Seq<u8>),
    EntityTypes(Seq<u8>),
    Death(u16),
    Message { message: Seq<u8>, color_code: u8 },
    TankUpgrade(u16),
    UpgradeReset,
    LeaderBoard(Seq<CbLbRow>),
    Kill,
    Skill(u8),
    DominationColors(u8, u8, u8, u8),
    Audio(u8),
    GameEvent(u8),
}

/// What a client reads back from one encoded census entity.
pub open spec fn row_view(e: CensusEntry) -> CbRow {
    CbRow {
        id: e.id,
        x: e.x,
        y: e.y,
        name: e.name@,
        angle_bits: e.angle_bits,
        radius_bits: e.radius_bits,
        level: e.level,
        score: e.score,
        class: e.class,
        color_code: spec_color_code(e.color),
        show_name: e.show_name,
        show_health: e.show_health,
        alpha_scaled: e.alpha_scaled,
        vx_bits: e.vx_bits,
        vy_bits: e.vy_bits,
        health_bits: e.health_bits,
        barrel_flash: e.barrel_flash,
        shield_flash: e.shield_flash,
        can_cross_border: e.can_cross_border,
    }
}

/// What a client reads back from one encoded leaderboard row.
pub open spec fn lb_row_view(e: LeaderboardEntry) -> CbLbRow {
    CbLbRow {
        id: e.id,
        score: e.score,
        name: e.name@,
        class: e.class,
        color_code: spec_color_code(e.color),
    }
}

/// What a client reads back from an encoded packet; for the reserved
/// account packet, which is never encoded, nothing in particular.
pub open spec fn cb_view(p: ClientboundPacket) -> CbPacket {
    match p {
        ClientboundPacket::RoomInfo { width, height, mode, accounts_enabled, border_style } => (
        CbPacket::RoomInfo {
            width,
            height,
            mode: mode@,
            accounts_enabled,
            border_style,
        }),
        ClientboundPacket::Identifier(id) => CbPacket::Identifier(id),
        ClientboundPacket::Census { entities } => CbPacket::Census(
            Seq::new(entities@.len(), |i: int| row_view(entities@[i])),
        ),
        ClientboundPacket::Joining => CbPacket::Joining,
        ClientboundPacket::CameraUpdate { x, y, fov_bits } => CbPacket::CameraUpdate {
            x,
            y,
            fov_bits,
        },
        ClientboundPacket::CmdOutput(output) => CbPacket::CmdOutput(output@),
        ClientboundPacket::EntityTypes(kinds) => CbPacket::EntityTypes(kinds@),
        ClientboundPacket::Death(id) => CbPacket::Death(id),
        ClientboundPacket::Message { message, color } => CbPacket::Message {
            message: message@,
            color_code: spec_color_code(color),
        },
        ClientboundPacket::TankUpgrade(id) => CbPacket::TankUpgrade(id),
        ClientboundPacket::UpgradeReset => CbPacket::UpgradeReset,
        ClientboundPacket::LeaderBoard { leaderboard } => CbPacket::LeaderBoard(
            Seq::new(leaderboard@.len(), |i: int| lb_row_view(leaderboard@[i])),
        ),
        ClientboundPacket::Kill => CbPacket::Kill,
        ClientboundPacket::Skill(skill) => CbPacket::Skill(skill),
        ClientboundPacket::Account => arbitrary(),
        ClientboundPacket::DominationColors(colors) => CbPacket::DominationColors(
            spec_color_code(colors@[0]),
            spec_color_code(colors@[1]),
            spec_color_code(colors@[2]),
            spec_color_code(colors@[3]),
        ),
        ClientboundPacket::Audio(id) => CbPacket::Audio(id),
        ClientboundPacket::GameEvent(event) => CbPacket::GameEvent(event),
    }
}

/// Read a length-prefixed string at `p` the way a client does: the length
/// and the bytes, with no constraint on their content.
pub open spec fn read_raw_str_at(b: Seq<u8>, p: int) -> Result<(Seq<u8>, int), DecodeError> {
    if p + 2 > b.len() {
        Err(DecodeError::Truncated)
    } else {
        let n = from2(b[p], b[p + 1]) as int;
        if p + 2 + n > b.len() {
            Err(DecodeError::Truncated)
        } else {
            Ok((b.subrange(p + 2, p + 2 + n), p + 2 + n))
        }
    }
}

/// Read one census row at `p` the way a client does.
pub open spec fn parse_row_at(b: Seq<u8>, p: int) -> Result<(CbRow, int), DecodeError> {
    if p + 12 > b.len() {
        Err(DecodeError::Truncated)
    } else {
        match read_raw_str_at(b, p + 12) {
            Err(e) => Err(e),
            Ok((name, q)) => {
                if q + 39 > b.len() {
                    Err(DecodeError::Truncated)
                } else {
                    Ok(
                        (
                            CbRow {
                                id: from4(b[p], b[p + 1], b[p + 2], b[p + 3]),
                                x: from4(b[p + 4], b[p + 5], b[p + 6], b[p + 7]) as i32,
                                y: from4(b[p + 8], b[p + 9], b[p + 10], b[p + 11]) as i32,
                                name: name,
                                angle_bits: from4(b[q], b[q + 1], b[q + 2], b[q + 3]),
                                radius_bits: from4(b[q + 4], b[q + 5], b[q + 6], b[q + 7]),
                                level: from4(b[q + 8], b[q + 9], b[q + 10], b[q + 11]),
                                score: from4(b[q + 12], b[q + 13], b[q + 14], b[q + 15]),
                                class: from2(b[q + 16], b[q + 17]),
                                color_code: b[q + 18],
                                show_name: b[q + 19] != 0,
                                show_health: b[q + 20] != 0,
                                alpha_scaled: b[q + 23],
                                vx_bits: from4(b[q + 24], b[q + 25], b[q + 26], b[q + 27]),
                                vy_bits: from4(b[q + 28], b[q + 29], b[q + 30], b[q + 31]),
                                health_bits: from4(b[q + 32], b[q + 33], b[q + 34], b[q + 35]),
                                barrel_flash: b[q + 36] != 0,
                                shield_flash: b[q + 37] != 0,
                                can_cross_border: b[q + 38] != 0,
                            },
                            q + 39,
                        ),
                    )
                }
            },
        }
    }
}

/// Read `n` census rows starting at `p` the way a client does.
pub open spec fn parse_rows(b: Seq<u8>, p: int, n: nat) -> Result<(Seq<CbRow>, int), DecodeError>
    decreases n,
{
    if n == 0 {
        Ok((Seq::empty(), p))
    } else {
        match parse_row_at(b, p) {
            Err(e) => Err(e),
            Ok((row, q)) => match parse_rows(b, q, (n - 1) as nat) {
                Err(e) => Err(e),
                Ok((rest, end)) => Ok((seq![row] + rest, end)),
            },
        }
    }
}

/// Read one leaderboard row at `p` the way a client does.
pub open spec fn parse_lb_row_at(b: Seq<u8>, p: int) -> Result<(CbLbRow, int), DecodeError> {
    if p + 8 > b.len() {
        Err(DecodeError::Truncated)
    } else {
        match read_raw_str_at(b, p + 8) {
            Err(e) => Err(e),
            Ok((name, q)) => {
                if q + 3 > b.len() {
                    Err(DecodeError::Truncated)
                } else {
                    Ok(
                        (
                            CbLbRow {
                                id: from4(b[p], b[p + 1], b[p + 2], b[p + 3]),
                                score: from4(b[p + 4], b[p + 5], b[p + 6], b[p + 7]),
                                name: name,
                                class: from2(b[q], b[q + 1]),
                                color_code: b[q + 2],
                            },
                            q + 3,
                        ),
                    )
                }
            },
        }
    }
}

/// Read `n` leaderboard rows starting at `p` the way a client does.
pub open spec fn parse_lb_rows(b: Seq<u8>, p: int, n: nat) -> Result<
    (Seq<CbLbRow>, int),
    DecodeError,
>
    decreases n,
{
    if n == 0 {
        Ok((Seq::empty(), p))
    } else {
        match parse_lb_row_at(b, p) {
            Err(e) => Err(e),
            Ok((row, q)) => match parse_lb_rows(b, q, (n - 1) as nat) {
                Err(e) => Err(e),
                Ok((rest, end)) => Ok((seq![row] + rest, end)),
            },
        }
    }
}

/// The packet a client reads back from a server-to-client byte blob, or
/// exactly why it would be rejected.
pub open spec fn cb_parse(b: Seq<u8>) -> Result<CbPacket, DecodeError> {
    if b.len() < 1 {
        Err(DecodeError::Truncated)
    } else {
        let tag = b[0];
        if tag == 0x0 {
            if b.len() < 5 {
                Err(DecodeError::Truncated)
            } else {
                match read_raw_str_at(b, 5) {
                    Err(e) => Err(e),
                    Ok((mode, q)) => {
                        if q + 3 > b.len() {
                            Err(DecodeError::Truncated)
                        } else {
                            Ok(
                                CbPacket::RoomInfo {
                                    width: from2(b[1], b[2]),
                                    height: from2(b[3], b[4]),
                                    mode: mode,
                                    accounts_enabled: b[q] != 0,
                                    border_style: from2(b[q + 1], b[q + 2]),
                                },
                            )
                        }
                    },
                }
            }
        } else if tag == 0x1 {
            if b.len() < 5 {
                Err(DecodeError::Truncated)
            } else {
                Ok(CbPacket::Identifier(from4(b[1], b[2], b[3], b[4])))
            }
        } else if tag == 0x2 {
            if b.len() < 5 {
                Err(DecodeError::Truncated)
            } else {
                match parse_rows(b, 5, from4(b[1], b[2], b[3], b[4]) as nat) {
                    Err(e) => Err(e),
                    Ok((rows, _)) => Ok(CbPacket::Census(rows)),
                }
            }
        } else if tag == 0x3 {
            Ok(CbPacket::Joining)
        } else if tag == 0x4 {
            if b.len() < 13 {
                Err(DecodeError::Truncated)
            } else {
                Ok(
                    CbPacket::CameraUpdate {
                        x: from4(b[1], b[2], b[3], b[4]) as i32,
                        y: from4(b[5], b[6], b[7], b[8]) as i32,
                        fov_bits: from4(b[9], b[10], b[11], b[12]),
                    },
                )
            }
        } else if tag == 0x5 {
            match read_raw_str_at(b, 1) {
                Err(e) => Err(e),
                Ok((output, _)) => Ok(CbPacket::CmdOutput(output)),
            }
        } else if tag == 0x6 {
            match read_raw_str_at(b, 1) {
                Err(e) => Err(e),
                Ok((kinds, _)) => Ok(CbPacket::EntityTypes(kinds)),
            }
        } else if tag == 0x7 {
            if b.len() < 3 {
                Err(DecodeError::Truncated)
            } else {
                Ok(CbPacket::Death(from2(b[1], b[2])))
            }
        } else if tag == 0x8 {
            match read_raw_str_at(b, 1) {
                Err(e) => Err(e),
                Ok((message, q)) => {
                    if q + 1 > b.len() {
                        Err(DecodeError::Truncated)
                    } else {
                        Ok(CbPacket::Message { message: message, color_code: b[q] })
                    }
                },
            }
        } else if tag == 0x9 {
            if b.len() < 3 {
                Err(DecodeError::Truncated)
            } else {
                Ok(CbPacket::TankUpgrade(from2(b[1], b[2])))
            }
        } else if tag == 0xA {
            Ok(CbPacket::UpgradeReset)
        } else if tag == 0xB {
            if b.len() < 2 {
                Err(DecodeError::Truncated)
            } else {
                match parse_lb_rows(b, 2, b[1] as nat) {
                    Err(e) => Err(e),
                    Ok((rows, _)) => Ok(CbPacket::LeaderBoard(rows)),
                }
            }
        } else if tag == 0xC {
            Ok(CbPacket::Kill)
        } else if tag == 0xD {
            if b.len() < 2 {
                Err(DecodeError::Truncated)
            } else {
                Ok(CbPacket::Skill(b[1]))
            }
        } else if tag == 0xF {
            if b.len() < 5 {
                Err(DecodeError::Truncated)
            } else {
                Ok(CbPacket::DominationColors(b[1], b[2], b[3], b[4]))
            }
        } else if tag == 0x10 {
            if b.len() < 2 {
                Err(DecodeError::Truncated)
            } else {
                Ok(CbPacket::Audio(b[1]))
            }
        } else if tag == 0x11 {
            if b.len() < 2 {
                Err(DecodeError::Truncated)
            } else {
                Ok(CbPacket::GameEvent(b[1]))
            }
        } else {
            Err(DecodeError::UnknownTag)
        }
    }
}


/// One encoded census row reads back as its view, consuming exactly its
/// bytes, wherever it stands inside a larger blob.
#[verifier::rlimit(100)]
pub proof fn lemma_row_round(b: Seq<u8>, p: int, e: CensusEntry)
    requires
        0 <= p,
        e.name@.len() <= 0xFFFF,
        p + 53 + e.name@.len() <= b.len(),
        b.subrange(p, p + 53 + e.name@.len()) == census_entry_bytes(e),
    ensures
        parse_row_at(b, p) == Ok::<(CbRow, int), DecodeError>(
            (row_view(e), p + 53 + e.name@.len()),
        ),
{
    let w = census_entry_bytes(e);
    let n = e.name@.len() as int;
    assert(str16_bytes(e.name@).len() == 2 + n);
    assert(w.len() == 53 + n);
    assert forall|k: int| 0 <= k < 53 + n implies b[p + k] == w[k] by {
        assert(b.subrange(p, p + 53 + n)[k] == b[p + k]);
    }
    assert(w[0] == be4(e.id)[0] && w[1] == be4(e.id)[1] && w[2] == be4(e.id)[2] && w[3] == be4(
        e.id,
    )[3]);
    assert(w[4] == be4(e.x as u32)[0] && w[5] == be4(e.x as u32)[1] && w[6] == be4(e.x as u32)[2]
        && w[7] == be4(e.x as u32)[3]);
    assert(w[8] == be4(e.y as u32)[0] && w[9] == be4(e.y as u32)[1] && w[10] == be4(e.y as u32)[2]
        && w[11] == be4(e.y as u32)[3]);
    assert(w[12] == be2(n as u16)[0] && w[13] == be2(n as u16)[1]);
    assert forall|j: int| 0 <= j < n implies w[14 + j] == e.name@[j] by {
        assert(str16_bytes(e.name@)[2 + j] == e.name@[j]);
    }
    let q = 14 + n;
    assert(w[q] == be4(e.angle_bits)[0] && w[q + 1] == be4(e.angle_bits)[1] && w[q + 2] == be4(
        e.angle_bits,
    )[2] && w[q + 3] == be4(e.angle_bits)[3]);
    assert(w[q + 4] == be4(e.radius_bits)[0] && w[q + 5] == be4(e.radius_bits)[1] && w[q + 6]
        == be4(e.radius_bits)[2] && w[q + 7] == be4(e.radius_bits)[3]);
    assert(w[q + 8] == be4(e.level)[0] && w[q + 9] == be4(e.level)[1] && w[q + 10] == be4(
        e.level,
    )[2] && w[q + 11] == be4(e.level)[3]);
    assert(w[q + 12] == be4(e.score)[0] && w[q + 13] == be4(e.score)[1] && w[q + 14] == be4(
        e.score,
    )[2] && w[q + 15] == be4(e.score)[3]);
    assert(w[q + 16] == be2(e.class)[0] && w[q + 17] == be2(e.class)[1]);
    assert(w[q + 18] == spec_color_code(e.color));
    assert(w[q + 19] == bool_byte(e.show_name) && w[q + 20] == bool_byte(e.show_health));
    assert(w[q + 21] == be2(0)[0] && w[q + 22] == be2(0)[1]);
    assert(w[q + 23] == e.alpha_scaled);
    assert(w[q + 24] == be4(e.vx_bits)[0] && w[q + 25] == be4(e.vx_bits)[1] && w[q + 26] == be4(
        e.vx_bits,
    )[2] && w[q + 27] == be4(e.vx_bits)[3]);
    assert(w[q + 28] == be4(e.vy_bits)[0] && w[q + 29] == be4(e.vy_bits)[1] && w[q + 30] == be4(
        e.vy_bits,
    )[2] && w[q + 31] == be4(e.vy_bits)[3]);
    assert(w[q + 32] == be4(e.health_bits)[0] && w[q + 33] == be4(e.health_bits)[1] && w[q + 34]
        == be4(e.health_bits)[2] && w[q + 35] == be4(e.health_bits)[3]);
    assert(w[q + 36] == bool_byte(e.barrel_flash) && w[q + 37] == bool_byte(e.shield_flash) && w[q
        + 38] == bool_byte(e.can_cross_border));
    lemma_be2_round(n as u16);
    assert(from2(b[p + 12], b[p + 13]) == n as u16);
    assert((n as u16) as int == n);
    assert(read_raw_str_at(b, p + 12) matches Ok(pair) && pair.1 == p + 14 + n && pair.0
        =~= e.name@) by {
        assert(b.subrange(p + 14, p + 14 + n) =~= e.name@);
    }
    lemma_be4_round(e.id);
    lemma_be4_round(e.x as u32);
    lemma_be4_round(e.y as u32);
    lemma_be4_round(e.angle_bits);
    lemma_be4_round(e.radius_bits);
    lemma_be4_round(e.level);
    lemma_be4_round(e.score);
    lemma_be4_round(e.vx_bits);
    lemma_be4_round(e.vy_bits);
    lemma_be4_round(e.health_bits);
    lemma_be2_round(e.class);
    let xv = e.x;
    let yv = e.y;
    assert((xv as u32) as i32 == xv) by (bit_vector);
    assert((yv as u32) as i32 == yv) by (bit_vector);
}

/// A run of encoded census rows reads back as its views, consuming
/// exactly its bytes.
pub proof fn lemma_rows_round(b: Seq<u8>, p: int, entities: Seq<CensusEntry>)
    requires
        0 <= p,
        forall|i: int| 0 <= i < entities.len() ==> (#[trigger] entities[i]).name@.len() <= 0xFFFF,
        p + census_list_bytes(entities).len() <= b.len(),
        b.subrange(p, p + census_list_bytes(entities).len()) == census_list_bytes(entities),
    ensures
        parse_rows(b, p, entities.len()) == Ok::<(Seq<CbRow>, int), DecodeError>(
            (
                Seq::new(entities.len(), |i: int| row_view(entities[i])),
                p + census_list_bytes(entities).len(),
            ),
        ),
    decreases entities.len(),
{
    if entities.len() == 0 {
        assert(Seq::new(0, |i: int| row_view(entities[i])) =~= Seq::<CbRow>::empty());
    } else {
        let e0 = entities[0];
        let rest = entities.skip(1);
        let l0 = 53 + e0.name@.len() as int;
        let lw = census_list_bytes(entities).len() as int;
        assert(census_entry_bytes(e0).len() == l0);
        assert(census_list_bytes(entities) == census_entry_bytes(e0) + census_list_bytes(rest));
        assert(b.subrange(p, p + l0) =~= census_entry_bytes(e0)) by {
            assert forall|k: int| 0 <= k < l0 implies b.subrange(p, p + l0)[k]
                == census_entry_bytes(e0)[k] by {
                assert(b.subrange(p, p + lw)[k] == b[p + k]);
                assert(census_list_bytes(entities)[k] == census_entry_bytes(e0)[k]);
            }
        }
        lemma_row_round(b, p, e0);
        let lr = census_list_bytes(rest).len() as int;
        assert(b.subrange(p + l0, p + l0 + lr) =~= census_list_bytes(rest)) by {
            assert forall|k: int| 0 <= k < lr implies b.subrange(p + l0, p + l0 + lr)[k]
                == census_list_bytes(rest)[k] by {
                assert(b.subrange(p, p + lw)[l0 + k] == b[p + l0 + k]);
                assert(census_list_bytes(entities)[l0 + k] == census_list_bytes(rest)[k]);
            }
        }
        assert forall|i: int| 0 <= i < rest.len() implies (#[trigger] rest[i]).name@.len()
            <= 0xFFFF by {
            assert(entities[i + 1].name@.len() <= 0xFFFF);
        }
        lemma_rows_round(b, p + l0, rest);
        assert(seq![row_view(e0)] + Seq::new(rest.len(), |i: int| row_view(rest[i])) =~= Seq::new(
            entities.len(),
            |i: int| row_view(entities[i]),
        ));
    }
}

/// One encoded leaderboard row reads back as its view, consuming exactly
/// its bytes.
pub proof fn lemma_lb_row_round(b: Seq<u8>, p: int, e: LeaderboardEntry)
    requires
        0 <= p,
        e.name@.len() <= 0xFFFF,
        p + 13 + e.name@.len() <= b.len(),
        b.subrange(p, p + 13 + e.name@.len()) == leaderboard_entry_bytes(e),
    ensures
        parse_lb_row_at(b, p) == Ok::<(CbLbRow, int), DecodeError>(
            (lb_row_view(e), p + 13 + e.name@.len()),
        ),
{
    let w = leaderboard_entry_bytes(e);
    let n = e.name@.len() as int;
    assert(str16_bytes(e.name@).len() == 2 + n);
    assert(w.len() == 13 + n);
    assert forall|k: int| 0 <= k < 13 + n implies b[p + k] == w[k] by {
        assert(b.subrange(p, p + 13 + n)[k] == b[p + k]);
    }
    assert(w[0] == be4(e.id)[0] && w[1] == be4(e.id)[1] && w[2] == be4(e.id)[2] && w[3] == be4(
        e.id,
    )[3]);
    assert(w[4] == be4(e.score)[0] && w[5] == be4(e.score)[1] && w[6] == be4(e.score)[2] && w[7]
        == be4(e.score)[3]);
    assert(w[8] == be2(n as u16)[0] && w[9] == be2(n as u16)[1]);
    assert forall|j: int| 0 <= j < n implies w[10 + j] == e.name@[j] by {
        assert(str16_bytes(e.name@)[2 + j] == e.name@[j]);
    }
    let q = 10 + n;
    assert(w[q] == be2(e.class)[0] && w[q + 1] == be2(e.class)[1]);
    assert(w[q + 2] == spec_color_code(e.color));
    lemma_be2_round(n as u16);
    assert((n as u16) as int == n);
    assert(read_raw_str_at(b, p + 8) matches Ok(pair) && pair.1 == p + 10 + n && pair.0
        =~= e.name@) by {
        assert(b.subrange(p + 10, p + 10 + n) =~= e.name@);
    }
    lemma_be4_round(e.id);
    lemma_be4_round(e.score);
    lemma_be2_round(e.class);
}

/// A run of encoded leaderboard rows reads back as its views, consuming
/// exactly its bytes.
pub proof fn lemma_lb_rows_round(b: Seq<u8>, p: int, rows: Seq<LeaderboardEntry>)
    requires
        0 <= p,
        forall|i: int| 0 <= i < rows.len() ==> (#[trigger] rows[i]).name@.len() <= 0xFFFF,
        p + leaderboard_list_bytes(rows).len() <= b.len(),
        b.subrange(p, p + leaderboard_list_bytes(rows).len()) == leaderboard_list_bytes(rows),
    ensures
        parse_lb_rows(b, p, rows.len()) == Ok::<(Seq<CbLbRow>, int), DecodeError>(
            (
                Seq::new(rows.len(), |i: int| lb_row_view(rows[i])),
                p + leaderboard_list_bytes(rows).len(),
            ),
        ),
    decreases rows.len(),
{
    if rows.len() == 0 {
        assert(Seq::new(0, |i: int| lb_row_view(rows[i])) =~= Seq::<CbLbRow>::empty());
    } else {
        let e0 = rows[0];
        let rest = rows.skip(1);
        let l0 = 13 + e0.name@.len() as int;
        let lw = leaderboard_list_bytes(rows).len() as int;
        assert(leaderboard_entry_bytes(e0).len() == l0);
        assert(leaderboard_list_bytes(rows) == leaderboard_entry_bytes(e0)
            + leaderboard_list_bytes(rest));
        assert(b.subrange(p, p + l0) =~= leaderboard_entry_bytes(e0)) by {
            assert forall|k: int| 0 <= k < l0 implies b.subrange(p, p + l0)[k]
                == leaderboard_entry_bytes(e0)[k] by {
                assert(b.subrange(p, p + lw)[k] == b[p + k]);
                assert(leaderboard_list_bytes(rows)[k] == leaderboard_entry_bytes(e0)[k]);
            }
        }
        lemma_lb_row_round(b, p, e0);
        let lr = leaderboard_list_bytes(rest).len() as int;
        assert(b.subrange(p + l0, p + l0 + lr) =~= leaderboard_list_bytes(rest)) by {
            assert forall|k: int| 0 <= k < lr implies b.subrange(p + l0, p + l0 + lr)[k]
                == leaderboard_list_bytes(rest)[k] by {
                assert(b.subrange(p, p + lw)[l0 + k] == b[p + l0 + k]);
                assert(leaderboard_list_bytes(rows)[l0 + k] == leaderboard_list_bytes(rest)[k]);
            }
        }
        assert forall|i: int| 0 <= i < rest.len() implies (#[trigger] rest[i]).name@.len()
            <= 0xFFFF by {
            assert(rows[i + 1].name@.len() <= 0xFFFF);
        }
        lemma_lb_rows_round(b, p + l0, rest);
        assert(seq![lb_row_view(e0)] + Seq::new(rest.len(), |i: int| lb_row_view(rest[i]))
            =~= Seq::new(rows.len(), |i: int| lb_row_view(rows[i])));
    }
}


#[verifier::rlimit(100)]
proof fn lemma_cb_round_roominfo(p: ClientboundPacket)
    requires
        wf_clientbound(p),
        p is RoomInfo,
    ensures
        cb_parse(clientbound_bytes(p)) == Ok::<CbPacket, DecodeError>(cb_view(p)),
{
    let b = clientbound_bytes(p);
    match p {
        ClientboundPacket::RoomInfo { width, height, mode, accounts_enabled, border_style } => {
            let n = mode@.len() as int;
            assert(b.len() == 10 + n);
            assert(b[0] == 0x0u8);
            assert(b[1] == be2(width)[0] && b[2] == be2(width)[1]);
            assert(b[3] == be2(height)[0] && b[4] == be2(height)[1]);
            assert(b[5] == be2(n as u16)[0] && b[6] == be2(n as u16)[1]);
            assert forall|j: int| 0 <= j < n implies b[7 + j] == mode@[j] by {
                assert(str16_bytes(mode@)[2 + j] == mode@[j]);
            }
            let q = 7 + n;
            assert(b[q] == bool_byte(accounts_enabled));
            assert(b[q + 1] == be2(border_style)[0] && b[q + 2] == be2(border_style)[1]);
            lemma_be2_round(n as u16);
            assert((n as u16) as int == n);
            assert(read_raw_str_at(b, 5) matches Ok(pair) && pair.1 == 7 + n && pair.0
                =~= mode@) by {
                assert(b.subrange(7, 7 + n) =~= mode@);
            }
            lemma_be2_round(width);
            lemma_be2_round(height);
            lemma_be2_round(border_style);
        },
        _ => {
        },
    }
}

#[verifier::rlimit(100)]
proof fn lemma_cb_round_census(p: ClientboundPacket)
    requires
        wf_clientbound(p),
        p is Census,
    ensures
        cb_parse(clientbound_bytes(p)) == Ok::<CbPacket, DecodeError>(cb_view(p)),
{
    let b = clientbound_bytes(p);
    match p {
        ClientboundPacket::Census { entities } => {
            let count = entities@.len() as u32;
            let lw = census_list_bytes(entities@).len() as int;
            assert(b.len() == 5 + lw);
            assert(b[0] == 0x2u8);
            assert(b[1] == be4(count)[0] && b[2] == be4(count)[1] && b[3] == be4(count)[2] && b[4]
                == be4(count)[3]);
            lemma_be4_round(count);
            assert(count as int == entities@.len());
            assert(b.subrange(5, 5 + lw) =~= census_list_bytes(entities@)) by {
                assert forall|k: int| 0 <= k < lw implies b.subrange(5, 5 + lw)[k]
                    == census_list_bytes(entities@)[k] by {
                    assert(b[5 + k] == census_list_bytes(entities@)[k]);
                }
            }
            lemma_rows_round(b, 5, entities@);
        },
        _ => {
        },
    }
}

#[verifier::rlimit(100)]
proof fn lemma_cb_round_cameraupdate(p: ClientboundPacket)
    requires
        wf_clientbound(p),
        p is CameraUpdate,
    ensures
        cb_parse(clientbound_bytes(p)) == Ok::<CbPacket, DecodeError>(cb_view(p)),
{
    let b = clientbound_bytes(p);
    match p {
        ClientboundPacket::CameraUpdate { x, y, fov_bits } => {
            assert(b.len() == 13);
            assert(b[0] == 0x4u8);
            assert(b[1] == be4(x as u32)[0] && b[2] == be4(x as u32)[1] && b[3] == be4(
                x as u32,
            )[2] && b[4] == be4(x as u32)[3]);
            assert(b[5] == be4(y as u32)[0] && b[6] == be4(y as u32)[1] && b[7] == be4(
                y as u32,
            )[2] && b[8] == be4(y as u32)[3]);
            assert(b[9] == be4(fov_bits)[0] && b[10] == be4(fov_bits)[1] && b[11] == be4(
                fov_bits,
            )[2] && b[12] == be4(fov_bits)[3]);
            lemma_be4_round(x as u32);
            lemma_be4_round(y as u32);
            lemma_be4_round(fov_bits);
            assert((x as u32) as i32 == x) by (bit_vector);
            assert((y as u32) as i32 == y) by (bit_vector);
        },
        _ => {
        },
    }
}

#[verifier::rlimit(100)]
proof fn lemma_cb_round_cmdoutput(p: ClientboundPacket)
    requires
        wf_clientbound(p),
        p is CmdOutput,
    ensures
        cb_parse(clientbound_bytes(p)) == Ok::<CbPacket, DecodeError>(cb_view(p)),
{
    let b = clientbound_bytes(p);
    match p {
        ClientboundPacket::CmdOutput(output) => {
            let n = output@.len() as int;
            assert(b.len() == 3 + n);
            assert(b[0] == 0x5u8);
            assert(b[1] == be2(n as u16)[0] && b[2] == be2(n as u16)[1]);
            assert forall|j: int| 0 <= j < n implies b[3 + j] == output@[j] by {
                assert(str16_bytes(output@)[2 + j] == output@[j]);
            }
            lemma_be2_round(n as u16);
            assert((n as u16) as int == n);
            assert(read_raw_str_at(b, 1) matches Ok(pair) && pair.0 =~= output@) by {
                assert(b.subrange(3, 3 + n) =~= output@);
            }
        },
        _ => {
        },
    }
}

#[verifier::rlimit(100)]
proof fn lemma_cb_round_entitytypes(p: ClientboundPacket)
    requires
        wf_clientbound(p),
        p is EntityTypes,
    ensures
        cb_parse(clientbound_bytes(p)) == Ok::<CbPacket, DecodeError>(cb_view(p)),
{
    let b = clientbound_bytes(p);
    match p {
        ClientboundPacket::EntityTypes(kinds) => {
            let n = kinds@.len() as int;
            assert(b.len() == 3 + n);
            assert(b[0] == 0x6u8);
            assert(b[1] == be2(n as u16)[0] && b[2] == be2(n as u16)[1]);
            assert forall|j: int| 0 <= j < n implies b[3 + j] == kinds@[j] by {
                assert(str16_bytes(kinds@)[2 + j] == kinds@[j]);
            }
            lemma_be2_round(n as u16);
            assert((n as u16) as int == n);
            assert(read_raw_str_at(b, 1) matches Ok(pair) && pair.0 =~= kinds@) by {
                assert(b.subrange(3, 3 + n) =~= kinds@);
            }
        },
        _ => {
        },
    }
}

#[verifier::rlimit(100)]
proof fn lemma_cb_round_message(p: ClientboundPacket)
    requires
        wf_clientbound(p),
        p is Message,
    ensures
        cb_parse(clientbound_bytes(p)) == Ok::<CbPacket, DecodeError>(cb_view(p)),
{
    let b = clientbound_bytes(p);
    match p {
        ClientboundPacket::Message { message, color } => {
            let n = message@.len() as int;
            assert(b.len() == 4 + n);
            assert(b[0] == 0x8u8);
            assert(b[1] == be2(n as u16)[0] && b[2] == be2(n as u16)[1]);
            assert forall|j: int| 0 <= j < n implies b[3 + j] == message@[j] by {
                assert(str16_bytes(message@)[2 + j] == message@[j]);
            }
            assert(b[3 + n] == spec_color_code(color));
            lemma_be2_round(n as u16);
            assert((n as u16) as int == n);
            assert(read_raw_str_at(b, 1) matches Ok(pair) && pair.1 == 3 + n && pair.0
                =~= message@) by {
                assert(b.subrange(3, 3 + n) =~= message@);
            }
        },
        _ => {
        },
    }
}

#[verifier::rlimit(100)]
proof fn lemma_cb_round_leaderboard(p: ClientboundPacket)
    requires
        wf_clientbound(p),
        p is LeaderBoard,
    ensures
        cb_parse(clientbound_bytes(p)) == Ok::<CbPacket, DecodeError>(cb_view(p)),
{
    let b = clientbound_bytes(p);
    match p {
        ClientboundPacket::LeaderBoard { leaderboard } => {
            let lw = leaderboard_list_bytes(leaderboard@).len() as int;
            assert(b.len() == 2 + lw);
            assert(b[0] == 0xBu8);
            assert(b[1] == leaderboard@.len() as u8);
            assert((leaderboard@.len() as u8) as int == leaderboard@.len());
            assert(b.subrange(2, 2 + lw) =~= leaderboard_list_bytes(leaderboard@)) by {
                assert forall|k: int| 0 <= k < lw implies b.subrange(2, 2 + lw)[k]
                    == leaderboard_list_bytes(leaderboard@)[k] by {
                    assert(b[2 + k] == leaderboard_list_bytes(leaderboard@)[k]);
                }
            }
            lemma_lb_rows_round(b, 2, leaderboard@);
        },
        _ => {
        },
    }
}

/// Law: decoding the bytes the encoder produced gives back the packet,
/// exactly, for every server-to-client packet kind and all valid field
/// values.
#[verifier::rlimit(100)]
pub proof fn lemma_clientbound_round_trip(p: ClientboundPacket)
    requires
        wf_clientbound(p),
    ensures
        cb_parse(clientbound_bytes(p)) == Ok::<CbPacket, DecodeError>(cb_view(p)),
{
    let b = clientbound_bytes(p);
    match p {
        ClientboundPacket::RoomInfo { .. } => {
            lemma_cb_round_roominfo(p);
        },
        ClientboundPacket::Identifier(id) => {
            assert(b[0] == 0x1u8);
            assert(b[1] == be4(id)[0] && b[2] == be4(id)[1] && b[3] == be4(id)[2] && b[4] == be4(
                id,
            )[3]);
            lemma_be4_round(id);
        },
        ClientboundPacket::Census { .. } => {
            lemma_cb_round_census(p);
        },
        ClientboundPacket::Joining => {
        },
        ClientboundPacket::CameraUpdate { .. } => {
            lemma_cb_round_cameraupdate(p);
        },
        ClientboundPacket::CmdOutput(_) => {
            lemma_cb_round_cmdoutput(p);
        },
        ClientboundPacket::EntityTypes(_) => {
            lemma_cb_round_entitytypes(p);
        },
        ClientboundPacket::Death(id) => {
            assert(b[0] == 0x7u8);
            assert(b[1] == be2(id)[0] && b[2] == be2(id)[1]);
            lemma_be2_round(id);
        },
        ClientboundPacket::Message { .. } => {
            lemma_cb_round_message(p);
        },
        ClientboundPacket::TankUpgrade(id) => {
            assert(b[0] == 0x9u8);
            assert(b[1] == be2(id)[0] && b[2] == be2(id)[1]);
            lemma_be2_round(id);
        },
        ClientboundPacket::UpgradeReset => {
        },
        ClientboundPacket::LeaderBoard { .. } => {
            lemma_cb_round_leaderboard(p);
        },
        ClientboundPacket::Kill => {
        },
        ClientboundPacket::Skill(skill) => {
        },
        ClientboundPacket::Account => {
        },
        ClientboundPacket::DominationColors(colors) => {
            assert(b.len() == 5);
            assert(b[0] == 0xFu8);
        },
        ClientboundPacket::Audio(id) => {
        },
        ClientboundPacket::GameEvent(event) => {
        },
    }
}

} // verus!
