use kanono::protocol::{
    CensusEntry, ClientboundPacket, LeaderboardEntry, LoginType, ServerboundPacket,
};
use kanono::types::{Color, DecodeError};

fn round_trip(p: ServerboundPacket) {
    let bytes = p.to_bytes();
    let back = ServerboundPacket::from_bytes(&bytes).expect("decode failed");
    assert_eq!(back, p);
}

#[test]
fn serverbound_round_trip_every_kind() {
    round_trip(ServerboundPacket::Input {
        left: true,
        right: false,
        up: true,
        down: false,
        angle_bits: 1.25f32.to_bits(),
        lmb: true,
        mx: -123,
        my: 456,
        rmb: false,
    });
    round_trip(ServerboundPacket::Spawn(b"Ace".to_vec()));
    round_trip(ServerboundPacket::Spawn(Vec::new()));
    round_trip(ServerboundPacket::Cmd(b"help me".to_vec()));
    round_trip(ServerboundPacket::LevelUp);
    round_trip(ServerboundPacket::Ping);
    round_trip(ServerboundPacket::SkillUpgrade(7));
    round_trip(ServerboundPacket::TankUpgrade(3));
    round_trip(ServerboundPacket::Login {
        typ: LoginType::Login,
        name: b"user".to_vec(),
        password: b"opensesame".to_vec(),
    });
    round_trip(ServerboundPacket::Login {
        typ: LoginType::Register,
        name: "ünïcode".as_bytes().to_vec(),
        password: Vec::new(),
    });
    round_trip(ServerboundPacket::Version(42));
}

#[test]
fn nonzero_bytes_decode_as_true() {
    // booleans preserve truth regardless of which nonzero byte encoded true
    let bytes = vec![
        0x00, // tag
        0x07, 0x00, 0xFF, 0x01, // left, right, up, down
        0x3F, 0xA0, 0x00, 0x00, // angle
        0x02, // lmb
        0x00, 0x05, // mx
        0xFF, 0xFB, // my
        0x00, // rmb
    ];
    let p = ServerboundPacket::from_bytes(&bytes).unwrap();
    match p {
        ServerboundPacket::Input { left, right, up, down, angle_bits, lmb, mx, my, rmb } => {
            assert!(left && !right && up && down && lmb && !rmb);
            assert_eq!(f32::from_bits(angle_bits), 1.25);
            assert_eq!(mx, 5);
            assert_eq!(my, -5);
        }
        other => panic!("wrong packet: {:?}", other),
    }
}

#[test]
fn unknown_tag_is_rejected() {
    assert_eq!(
        ServerboundPacket::from_bytes(&[0xFF]),
        Err(DecodeError::UnknownTag)
    );
    assert_eq!(
        ServerboundPacket::from_bytes(&[0x09, 1, 2, 3]),
        Err(DecodeError::UnknownTag)
    );
}

#[test]
fn empty_frame_is_truncated() {
    assert_eq!(
        ServerboundPacket::from_bytes(&[]),
        Err(DecodeError::Truncated)
    );
}

#[test]
fn truncated_input_is_rejected() {
    assert_eq!(
        ServerboundPacket::from_bytes(&[0x00, 1, 0, 1]),
        Err(DecodeError::Truncated)
    );
}

#[test]
fn bad_login_type_is_rejected() {
    // type byte 2 is neither login (1) nor register (0)
    let bytes = vec![0x07, 0x02, 0x00, 0x01, b'a', 0x00, 0x01, b'b'];
    assert_eq!(
        ServerboundPacket::from_bytes(&bytes),
        Err(DecodeError::InvalidLoginType)
    );
}

#[test]
fn login_type_bytes() {
    assert_eq!(LoginType::try_from_byte(1), Ok(LoginType::Login));
    assert_eq!(LoginType::try_from_byte(0), Ok(LoginType::Register));
    assert_eq!(
        LoginType::try_from_byte(7),
        Err(DecodeError::InvalidLoginType)
    );
}

#[test]
fn spawn_with_invalid_utf8_is_rejected() {
    let bytes = vec![0x01, 0x00, 0x01, 0xC0];
    assert_eq!(
        ServerboundPacket::from_bytes(&bytes),
        Err(DecodeError::InvalidUtf8)
    );
}

#[test]
fn room_info_exact_bytes() {
    let p = ClientboundPacket::RoomInfo {
        width: 4000,
        height: 4000,
        mode: b"ffa".to_vec(),
        accounts_enabled: true,
        border_style: 0,
    };
    assert_eq!(
        p.to_bytes(),
        vec![0x00, 0x0F, 0xA0, 0x0F, 0xA0, 0x00, 0x03, b'f', b'f', b'a', 0x01, 0x00, 0x00]
    );
}

#[test]
fn simple_clientbound_exact_bytes() {
    assert_eq!(
        ClientboundPacket::Identifier(7).to_bytes(),
        vec![0x01, 0, 0, 0, 7]
    );
    assert_eq!(ClientboundPacket::Joining.to_bytes(), vec![0x03]);
    assert_eq!(
        ClientboundPacket::CmdOutput(b"ok".to_vec()).to_bytes(),
        vec![0x05, 0x00, 0x02, b'o', b'k']
    );
    assert_eq!(
        ClientboundPacket::EntityTypes(b"[]".to_vec()).to_bytes(),
        vec![0x06, 0x00, 0x02, b'[', b']']
    );
    assert_eq!(
        ClientboundPacket::Death(300).to_bytes(),
        vec![0x07, 0x01, 0x2C]
    );
    assert_eq!(
        ClientboundPacket::Message {
            message: b"hi".to_vec(),
            color: Color::Black,
        }
        .to_bytes(),
        vec![0x08, 0x00, 0x02, b'h', b'i', 3]
    );
    assert_eq!(
        ClientboundPacket::TankUpgrade(9).to_bytes(),
        vec![0x09, 0x00, 0x09]
    );
    assert_eq!(ClientboundPacket::UpgradeReset.to_bytes(), vec![0x0A]);
    assert_eq!(ClientboundPacket::Kill.to_bytes(), vec![0x0C]);
    assert_eq!(ClientboundPacket::Skill(2).to_bytes(), vec![0x0D, 2]);
    assert_eq!(
        ClientboundPacket::DominationColors([
            Color::Red,
            Color::Green,
            Color::Blue,
            Color::Yellow,
        ])
        .to_bytes(),
        vec![0x0F, 9, 11, 6, 12]
    );
    assert_eq!(ClientboundPacket::Audio(1).to_bytes(), vec![0x10, 1]);
    assert_eq!(ClientboundPacket::GameEvent(5).to_bytes(), vec![0x11, 5]);
}

#[test]
fn camera_update_exact_bytes() {
    let p = ClientboundPacket::CameraUpdate {
        x: -1,
        y: 2,
        fov_bits: 1.5f32.to_bits(),
    };
    assert_eq!(
        p.to_bytes(),
        vec![0x04, 0xFF, 0xFF, 0xFF, 0xFF, 0x00, 0x00, 0x00, 0x02, 0x3F, 0xC0, 0x00, 0x00]
    );
}

#[test]
fn census_exact_bytes_single_entity() {
    let entry = CensusEntry {
        id: 4,
        x: -2,
        y: 3,
        name: b"Ace".to_vec(),
        angle_bits: 0.0f32.to_bits(),
        radius_bits: 100.0f32.to_bits(),
        level: 1,
        score: 600,
        class: 2,
        color: Color::ChargingCyan,
        show_name: true,
        show_health: true,
        alpha_scaled: 100,
        vx_bits: 0.5f32.to_bits(),
        vy_bits: (-0.5f32).to_bits(),
        health_bits: 1000.0f32.to_bits(),
        barrel_flash: false,
        shield_flash: false,
        can_cross_border: false,
    };
    let p = ClientboundPacket::Census {
        entities: vec![entry],
    };
    let mut expected: Vec<u8> = vec![0x02, 0, 0, 0, 1];
    expected.extend_from_slice(&4u32.to_be_bytes());
    expected.extend_from_slice(&(-2i32).to_be_bytes());
    expected.extend_from_slice(&3i32.to_be_bytes());
    expected.extend_from_slice(&[0x00, 0x03, b'A', b'c', b'e']);
    expected.extend_from_slice(&0.0f32.to_be_bytes());
    expected.extend_from_slice(&100.0f32.to_be_bytes());
    expected.extend_from_slice(&1u32.to_be_bytes());
    expected.extend_from_slice(&600u32.to_be_bytes());
    expected.extend_from_slice(&2u16.to_be_bytes());
    expected.extend_from_slice(&[19, 1, 1, 0, 0, 100]);
    expected.extend_from_slice(&0.5f32.to_be_bytes());
    expected.extend_from_slice(&(-0.5f32).to_be_bytes());
    expected.extend_from_slice(&1000.0f32.to_be_bytes());
    expected.extend_from_slice(&[0, 0, 0]);
    assert_eq!(p.to_bytes(), expected);
}

#[test]
fn leaderboard_exact_bytes() {
    let p = ClientboundPacket::LeaderBoard {
        leaderboard: vec![LeaderboardEntry {
            id: 1,
            score: 50,
            name: b"top".to_vec(),
            class: 0,
            color: Color::CohortBlue,
        }],
    };
    let mut expected: Vec<u8> = vec![0x0B, 1];
    expected.extend_from_slice(&1u32.to_be_bytes());
    expected.extend_from_slice(&50u32.to_be_bytes());
    expected.extend_from_slice(&[0x00, 0x03, b't', b'o', b'p']);
    expected.extend_from_slice(&0u16.to_be_bytes());
    expected.push(18);
    assert_eq!(p.to_bytes(), expected);
}

#[test]
fn color_codes_cover_palette() {
    assert_eq!(Color::TrueWhite.code(), 0);
    assert_eq!(Color::Black.code(), 3);
    assert_eq!(Color::CohortBlue.code(), 18);
    assert_eq!(Color::ChargingCyan.code(), 19);
}

#[test]
fn single_bits_encoder_matches_hardware() {
    let cases: Vec<i64> = vec![
        0,
        1,
        -1,
        0x1_0000,              // one
        -0x1_0000,             // minus one
        0x8000,                // a half
        100 * 0x1_0000,        // one hundred
        1000 * 0x1_0000,       // one thousand
        3 * 0x1_0000 / 2,      // one and a half
        0x1_0000_0001,         // needs rounding
        0x1_0000_0003,
        -0x1_0000_0001,
        123456789,
        -987654321,
        i64::MAX / 7,
        0x7FFF_FFFF_FFFF_FFFF,
        -0x7FFF_FFFF_FFFF_FFFF,
    ];
    for m in cases {
        let exact = (m as f64) / 65536.0;
        let expected = (exact as f32).to_bits();
        assert_eq!(
            kanono::fixed::to_single_bits(m),
            expected,
            "mismatch for {}",
            m
        );
    }
}
