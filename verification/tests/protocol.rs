use cells_server::framing::{decode_frame_length, encode_frame, frame_header, FrameError, MAX_FRAME_LEN};
use cells_server::grid::{decode_coords, encode_coords};
use cells_server::tile::{TilePos, TileType};
use cells_server::world::TransferError;
use cells_server::zone::{WorldId, ZoneType};

#[test]
fn tile_pos_new_keeps_coordinates() {
    let p = TilePos::new(-3, 7);
    assert_eq!(p.x, -3);
    assert_eq!(p.y, 7);
    assert_eq!(p, TilePos { x: -3, y: 7 });
}

#[test]
fn respawn_ticks_per_type() {
    assert_eq!(TileType::Stone.respawn_ticks(), 200);
    assert_eq!(TileType::Wood.respawn_ticks(), 400);
    assert_eq!(TileType::Air.respawn_ticks(), 0);
}

#[test]
fn mine_ticks_per_type() {
    assert_eq!(TileType::Stone.mine_ticks(), Some(20));
    assert_eq!(TileType::Wood.mine_ticks(), Some(40));
    assert_eq!(TileType::Air.mine_ticks(), None);
}

#[test]
fn tile_codes_round_trip_at_the_extremes() {
    for &(x, y) in &[(0, 0), (-1, 1), (i32::MIN, i32::MAX), (i32::MAX, i32::MIN), (123, -456)] {
        let k = encode_coords(x, y);
        assert_eq!(decode_coords(k), (x, y));
        let p = TilePos::new(x, y);
        assert_eq!(TilePos::from_code(p.to_code()), p);
    }
    assert_eq!(encode_coords(i32::MIN, i32::MIN), 0);
    assert_eq!(encode_coords(i32::MAX, i32::MAX), u64::MAX);
    assert_eq!(encode_coords(0, 0), 0x8000_0000_8000_0000);
}

#[test]
fn tile_codes_differ_for_different_positions() {
    assert_ne!(encode_coords(1, 0), encode_coords(0, 1));
    assert_ne!(encode_coords(-1, 0), encode_coords(0, -1));
}

#[test]
fn frame_header_is_little_endian_length() {
    assert_eq!(frame_header(5), [5, 0, 0, 0]);
    assert_eq!(frame_header(0x0102_0304), [4, 3, 2, 1]);
    assert_eq!(frame_header(0), [0, 0, 0, 0]);
    assert_eq!(frame_header(MAX_FRAME_LEN), [0, 0, 16, 0]);
}

#[test]
fn frame_header_length_is_cut_to_32_bits() {
    if usize::BITS > 32 {
        let len = (1usize << 32) + 7;
        assert_eq!(frame_header(len), [7, 0, 0, 0]);
    }
}

#[test]
fn decode_frame_length_accepts_up_to_one_mebibyte() {
    assert_eq!(decode_frame_length([5, 0, 0, 0]), Ok(5));
    assert_eq!(decode_frame_length([0, 0, 0, 0]), Ok(0));
    assert_eq!(decode_frame_length([0, 0, 16, 0]), Ok(1_048_576));
}

#[test]
fn decode_frame_length_refuses_larger_frames() {
    assert_eq!(decode_frame_length([1, 0, 16, 0]), Err(FrameError::TooLarge));
    assert_eq!(decode_frame_length([255, 255, 255, 255]), Err(FrameError::TooLarge));
}

#[test]
fn encode_frame_round_trips() {
    let payload = vec![9u8, 8, 7];
    let frame = encode_frame(&payload);
    assert_eq!(frame, vec![3, 0, 0, 0, 9, 8, 7]);
    let header = [frame[0], frame[1], frame[2], frame[3]];
    let len = decode_frame_length(header).unwrap();
    assert_eq!(&frame[4..4 + len], &payload[..]);
}

#[test]
fn encode_empty_frame() {
    assert_eq!(encode_frame(&[]), vec![0, 0, 0, 0]);
}

#[test]
fn world_id_display_text() {
    assert_eq!(WorldId::new("kremwood_1", 2).to_display_string(), "kremwood_1:2");
    assert_eq!(WorldId::new("cells_hub", 1).to_display_string(), "cells_hub:1");
    assert_eq!(WorldId::new("", 0).to_display_string(), ":0");
    assert_eq!(WorldId::new("w", 10).to_display_string(), "w:10");
    assert_eq!(WorldId::new("w", u32::MAX).to_display_string(), "w:4294967295");
}

#[test]
fn world_id_equality_and_copies() {
    let a = WorldId::new("kremwood_1", 1);
    let b = WorldId::new("kremwood_1", 2);
    let c = WorldId::new("kremwood_2", 1);
    assert!(a.same_as(&a.duplicate()));
    assert!(!a.same_as(&b));
    assert!(!a.same_as(&c));
    assert!(a == a.clone());
    assert!(a != b);
    assert_eq!(a.world_name, "kremwood_1");
    assert_eq!(a.instance_id, 1);
}

#[test]
fn zone_and_transfer_error_values() {
    assert_eq!(ZoneType::Safe, ZoneType::Safe);
    assert_ne!(ZoneType::PvE, ZoneType::PvP);
    match TransferError::WorldNotFound("x".to_string()).clone() {
        TransferError::WorldNotFound(name) => assert_eq!(name, "x"),
        _ => panic!("wrong variant"),
    }
}
