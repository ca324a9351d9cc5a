use replay_decoder::orders::is_set;
use replay_decoder::{
    decode_cell, flags_are_short, get_game_information, next_packet, parse_order, parse_orders,
    DecodeError, FieldsOrder, Order, OrderBody, OrderFields, OrderType, Packet, ReplayReader,
    Target, TargetType,
};

fn string(s: &str) -> Vec<u8> {
    let mut out = vec![s.len() as u8];
    out.extend_from_slice(s.as_bytes());
    out
}

fn packet(client: i32, payload: &[u8]) -> Vec<u8> {
    let mut out = client.to_le_bytes().to_vec();
    out.extend_from_slice(&(payload.len() as i32).to_le_bytes());
    out.extend_from_slice(payload);
    out
}

fn frame(frame: i32, orders: &[u8]) -> Vec<u8> {
    let mut out = frame.to_le_bytes().to_vec();
    out.extend_from_slice(orders);
    out
}

fn move_order_narrow(cell: u32, subcell: u8) -> Vec<u8> {
    let mut out = vec![0xFF];
    out.extend_from_slice(&string("Move"));
    out.push(0x41);
    out.push(2);
    out.extend_from_slice(&cell.to_le_bytes());
    out.push(subcell);
    out
}

fn plain(name: &str, flags: i16) -> FieldsOrder {
    FieldsOrder {
        name: String::from(name),
        flags,
        subject: None,
        target: None,
        target_string: None,
        extra_actors: None,
        extra_location: None,
        extra_data: None,
        grouped: None,
    }
}

#[test]
fn cell_is_unpacked_from_its_bit_fields() {
    assert_eq!(
        decode_cell(0x12345678, 3),
        Target::Cell { world_x: 0x123, world_y: 0x456, world_z: 0x78, subcell: 3 }
    );
    assert_eq!(
        decode_cell(0xFFFF_FFFF, 0),
        Target::Cell { world_x: 0xFFF, world_y: 0xFFF, world_z: 0xFF, subcell: 0 }
    );
    assert_eq!(
        decode_cell(0, 255),
        Target::Cell { world_x: 0, world_y: 0, world_z: 0, subcell: 255 }
    );
}

#[test]
fn terrain_cell_target_of_an_order() {
    let bytes = move_order_narrow(0x12345678, 0);
    let mut reader = ReplayReader::new(&bytes);
    let order = parse_order(&mut reader, false).unwrap();
    assert_eq!(reader.pos(), bytes.len());
    match order {
        OrderBody::Fields(fields) => {
            assert_eq!(fields.name, "Move");
            assert_eq!(fields.flags, 0x41);
            assert_eq!(
                fields.target,
                Some(Target::Cell { world_x: 0x123, world_y: 0x456, world_z: 0x78, subcell: 0 })
            );
        }
        other => panic!("unexpected order {:?}", other),
    }
}

#[test]
fn two_packet_stream_gives_one_move_order() {
    let mut bytes = packet(1, &[0, 0, 0, 0, 0xBF]);
    let cell = (7u32 << 20) | (9 << 8) | 2;
    bytes.extend_from_slice(&packet(4, &frame(17, &move_order_narrow(cell, 1))));
    bytes.extend_from_slice(&(-1i32).to_le_bytes());

    let mut reader = ReplayReader::new(&bytes);
    assert_eq!(next_packet(&mut reader, false), Ok(Packet::Control { client_id: 1 }));
    assert_eq!(reader.pos(), 13);
    let second = next_packet(&mut reader, false).unwrap();
    let mut expected = plain("Move", 0x41);
    expected.target = Some(Target::Cell { world_x: 7, world_y: 9, world_z: 2, subcell: 1 });
    let expected_order = Order { client_id: 4, frame: 17, body: OrderBody::Fields(expected) };
    match second {
        Packet::Orders { client_id, frame, orders } => {
            assert_eq!((client_id, frame), (4, 17));
            assert_eq!(orders.len(), 1);
            assert_eq!(orders[0], expected_order);
        }
        other => panic!("unexpected packet {:?}", other),
    }
    assert_eq!(reader.pos(), bytes.len() - 4);
    assert_eq!(next_packet(&mut reader, false), Ok(Packet::End));
    assert_eq!(reader.pos(), bytes.len());

    let mut reader = ReplayReader::new(&bytes);
    assert_eq!(parse_orders(&mut reader, false), Ok(vec![expected_order]));
    assert_eq!(reader.pos(), bytes.len());
}

#[test]
fn cursor_lands_on_the_end_of_every_packet() {
    let mut orders = move_order_narrow(5, 0);
    orders.push(0x65);
    orders.push(0xFE);
    orders.extend_from_slice(&string("Alice"));
    orders.extend_from_slice(&string("pw"));
    let first = packet(2, &frame(1, &orders));
    let second = packet(3, &frame(2, &[]));
    let third = packet(3, &[9, 9, 9, 9, 0x65, 1, 2, 3]);
    let mut bytes = first.clone();
    bytes.extend_from_slice(&second);
    bytes.extend_from_slice(&third);
    bytes.extend_from_slice(&(-1i32).to_le_bytes());
    bytes.extend_from_slice(&[0xAA; 9]);

    let mut reader = ReplayReader::new(&bytes);
    match next_packet(&mut reader, false).unwrap() {
        Packet::Orders { client_id, frame, orders } => {
            assert_eq!((client_id, frame), (2, 1));
            assert_eq!(orders.len(), 3);
            assert_eq!(orders[1].body, OrderBody::SyncHash);
            assert_eq!(
                orders[2].body,
                OrderBody::Handshake { name: String::from("Alice"), target: String::from("pw") }
            );
        }
        other => panic!("unexpected packet {:?}", other),
    }
    assert_eq!(reader.pos(), first.len());
    assert_eq!(
        next_packet(&mut reader, false),
        Ok(Packet::Orders { client_id: 3, frame: 2, orders: vec![] })
    );
    assert_eq!(reader.pos(), first.len() + second.len());
    assert_eq!(next_packet(&mut reader, false), Ok(Packet::Control { client_id: 3 }));
    assert_eq!(reader.pos(), first.len() + second.len() + third.len());
    assert_eq!(next_packet(&mut reader, false), Ok(Packet::End));

    let mut reader = ReplayReader::new(&bytes);
    let all = parse_orders(&mut reader, false).unwrap();
    assert_eq!(all.len(), 3);
    assert!(all.iter().all(|o| o.client_id == 2 && o.frame == 1));
    assert_eq!(reader.pos(), bytes.len() - 9);
}

#[test]
fn orders_keep_the_sequence_of_the_stream() {
    let mut bytes = Vec::new();
    for i in 0..5 {
        let mut orders = Vec::new();
        for j in 0..3 {
            orders.push(0xFF);
            orders.extend_from_slice(&string(&format!("o{}_{}", i, j)));
            orders.push(0);
        }
        bytes.extend_from_slice(&packet(i, &frame(100 + i, &orders)));
        bytes.extend_from_slice(&packet(i, &[0, 0, 0, 0, 0x65, 0, 0, 0, 0]));
    }
    bytes.extend_from_slice(&(-1i32).to_le_bytes());
    let mut reader = ReplayReader::new(&bytes);
    let all = parse_orders(&mut reader, false).unwrap();
    assert_eq!(all.len(), 15);
    for (k, order) in all.iter().enumerate() {
        let (i, j) = ((k / 3) as i32, k % 3);
        assert_eq!(order.client_id, i);
        assert_eq!(order.frame, 100 + i);
        assert_eq!(order.body, OrderBody::Fields(plain(&format!("o{}_{}", i, j), 0)));
    }
}

#[test]
fn every_field_is_read_in_its_place() {
    let mut bytes = vec![0xFF];
    bytes.extend_from_slice(&string("Everything"));
    bytes.extend_from_slice(&0x01FFi16.to_le_bytes());
    bytes.extend_from_slice(&11u32.to_le_bytes());
    bytes.push(3);
    bytes.extend_from_slice(&21u32.to_le_bytes());
    bytes.extend_from_slice(&22u32.to_le_bytes());
    bytes.extend_from_slice(&string("target"));
    bytes.extend_from_slice(&2u32.to_le_bytes());
    bytes.extend_from_slice(&31u32.to_le_bytes());
    bytes.extend_from_slice(&32u32.to_le_bytes());
    bytes.extend_from_slice(&(-41i32).to_le_bytes());
    bytes.extend_from_slice(&0xFFFF_FFFFu32.to_le_bytes());
    bytes.extend_from_slice(&3i32.to_le_bytes());
    bytes.extend_from_slice(&61u32.to_le_bytes());
    bytes.extend_from_slice(&62u32.to_le_bytes());
    bytes.extend_from_slice(&63u32.to_le_bytes());
    bytes.push(0x65);
    let mut reader = ReplayReader::new(&bytes);
    let expected = FieldsOrder {
        name: String::from("Everything"),
        flags: 0x01FF,
        subject: Some(11),
        target: Some(Target::FrozenActor { player_actor_id: 21, frozen_actor_id: 22 }),
        target_string: Some(String::from("target")),
        extra_actors: Some(vec![31, 32]),
        extra_location: Some(-41),
        extra_data: Some(0xFFFF_FFFF),
        grouped: Some(vec![61, 62, 63]),
    };
    assert_eq!(parse_order(&mut reader, true), Ok(OrderBody::Fields(expected)));
    assert_eq!(reader.pos(), bytes.len() - 1);
    assert_eq!(parse_order(&mut reader, true), Ok(OrderBody::SyncHash));
}

#[test]
fn narrow_flags_are_read_as_a_number_without_sign() {
    let mut bytes = vec![0xFF];
    bytes.extend_from_slice(&string("S"));
    bytes.push(0x88);
    bytes.extend_from_slice(&77u32.to_le_bytes());
    let mut reader = ReplayReader::new(&bytes);
    let mut expected = plain("S", 0x88);
    expected.subject = Some(77);
    assert_eq!(parse_order(&mut reader, false), Ok(OrderBody::Fields(expected)));
    assert_eq!(reader.pos(), bytes.len());
}

#[test]
fn wide_flags_take_two_bytes() {
    let mut bytes = vec![0xFF];
    bytes.extend_from_slice(&string("G"));
    bytes.extend_from_slice(&[0x00, 0x01]);
    bytes.extend_from_slice(&1i32.to_le_bytes());
    bytes.extend_from_slice(&5u32.to_le_bytes());
    let mut reader = ReplayReader::new(&bytes);
    let mut expected = plain("G", 0x100);
    expected.grouped = Some(vec![5]);
    assert_eq!(parse_order(&mut reader, true), Ok(OrderBody::Fields(expected)));
    assert_eq!(reader.pos(), bytes.len());

    let mut reader = ReplayReader::new(&bytes);
    assert_eq!(parse_order(&mut reader, false), Ok(OrderBody::Fields(plain("G", 0))));
    assert_eq!(reader.pos(), 4);
}

#[test]
fn wide_flags_with_the_top_bit_set_are_negative() {
    let mut bytes = vec![0xFF];
    bytes.extend_from_slice(&string("N"));
    bytes.extend_from_slice(&[0x08, 0x80]);
    let mut reader = ReplayReader::new(&bytes);
    assert_eq!(parse_order(&mut reader, true), Ok(OrderBody::Fields(plain("N", i16::MIN + 8))));
}

#[test]
fn queued_and_cell_bits_carry_no_bytes() {
    let mut bytes = vec![0xFF];
    bytes.extend_from_slice(&string("Q"));
    bytes.push(0x48);
    let mut reader = ReplayReader::new(&bytes);
    assert_eq!(parse_order(&mut reader, false), Ok(OrderBody::Fields(plain("Q", 0x48))));
    assert_eq!(reader.pos(), bytes.len());
}

#[test]
fn each_kind_of_target() {
    let cases: Vec<(u8, Vec<u8>, Target)> = vec![
        (0x01, vec![0], Target::Invalid),
        (0x01, vec![1, 5, 0, 0, 0], Target::Actor { actor_id: 5 }),
        (
            0x01,
            vec![3, 5, 0, 0, 0, 6, 0, 0, 0],
            Target::FrozenActor { player_actor_id: 5, frozen_actor_id: 6 },
        ),
        (
            0x01,
            vec![2, 1, 0, 0, 0, 2, 0, 0, 0, 0xFF, 0xFF, 0xFF, 0xFF],
            Target::Position { x: 1, y: 2, z: 0xFFFF_FFFF },
        ),
        (
            0x41,
            vec![2, 0x78, 0x56, 0x34, 0x12, 9],
            Target::Cell { world_x: 0x123, world_y: 0x456, world_z: 0x78, subcell: 9 },
        ),
        (0x41, vec![1, 5, 0, 0, 0], Target::Actor { actor_id: 5 }),
    ];
    for (flags, payload, target) in cases {
        let mut bytes = vec![0xFF];
        bytes.extend_from_slice(&string("T"));
        bytes.push(flags);
        bytes.extend_from_slice(&payload);
        let mut reader = ReplayReader::new(&bytes);
        let mut expected = plain("T", flags as i16);
        expected.target = Some(target);
        assert_eq!(parse_order(&mut reader, false), Ok(OrderBody::Fields(expected)));
        assert_eq!(reader.pos(), bytes.len());
    }
}

#[test]
fn negative_group_count_gives_an_empty_group() {
    let mut bytes = vec![0xFF];
    bytes.extend_from_slice(&string("G"));
    bytes.extend_from_slice(&0x100i16.to_le_bytes());
    bytes.extend_from_slice(&(-3i32).to_le_bytes());
    let mut reader = ReplayReader::new(&bytes);
    let mut expected = plain("G", 0x100);
    expected.grouped = Some(vec![]);
    assert_eq!(parse_order(&mut reader, true), Ok(OrderBody::Fields(expected)));
    assert_eq!(reader.pos(), bytes.len());
}

#[test]
fn list_that_runs_past_the_end_is_out_of_bounds() {
    let mut bytes = vec![0xFF];
    bytes.extend_from_slice(&string("A"));
    bytes.push(0x02);
    bytes.extend_from_slice(&0xFFFF_FFFFu32.to_le_bytes());
    bytes.extend_from_slice(&[1, 2, 3, 4, 5, 6, 7]);
    let mut reader = ReplayReader::new(&bytes);
    assert_eq!(parse_order(&mut reader, false), Err(DecodeError::OutOfBounds));
    assert_eq!(reader.pos(), 0);
}

#[test]
fn order_name_with_malformed_utf8_is_replaced() {
    let bytes = [0xFF, 2, 0xC3, 0x28, 0];
    let mut reader = ReplayReader::new(&bytes);
    match parse_order(&mut reader, false).unwrap() {
        OrderBody::Fields(fields) => assert!(fields.name.contains('\u{FFFD}')),
        other => panic!("unexpected order {:?}", other),
    }
}

#[test]
fn unknown_order_tag_is_refused() {
    for tag in [0u8, 1, 0x64, 0x66, 0xBF, 0xFD] {
        let bytes = [tag, 0, 0, 0, 0];
        let mut reader = ReplayReader::new(&bytes);
        assert_eq!(parse_order(&mut reader, false), Err(DecodeError::UnknownOrderType));
        assert_eq!(reader.pos(), 0);
    }
}

#[test]
fn unknown_target_tag_is_refused() {
    let mut bytes = vec![0xFF];
    bytes.extend_from_slice(&string("T"));
    bytes.push(0x01);
    bytes.push(4);
    bytes.extend_from_slice(&[0; 16]);
    let mut reader = ReplayReader::new(&bytes);
    assert_eq!(parse_order(&mut reader, false), Err(DecodeError::UnknownTargetType));
    assert_eq!(reader.pos(), 0);
}

#[test]
fn truncated_order_is_out_of_bounds() {
    let full = move_order_narrow(0x12345678, 0);
    for n in 0..full.len() {
        let mut reader = ReplayReader::new(&full[..n]);
        assert_eq!(parse_order(&mut reader, false), Err(DecodeError::OutOfBounds));
        assert_eq!(reader.pos(), 0);
    }
}

#[test]
fn order_that_overshoots_its_packet_is_a_framing_failure() {
    let order = move_order_narrow(1, 0);
    let mut payload = frame(1, &order);
    payload.truncate(payload.len() - 2);
    let mut bytes = packet(1, &payload);
    bytes.extend_from_slice(&[0, 0, 0xFF, 0xFF, 0xFF, 0xFF]);
    let mut reader = ReplayReader::new(&bytes);
    assert_eq!(next_packet(&mut reader, false), Err(DecodeError::Framing));
    assert_eq!(reader.pos(), 0);
    assert_eq!(parse_orders(&mut reader, false), Err(DecodeError::Framing));
    assert_eq!(reader.pos(), 0);
}

#[test]
fn packet_too_short_for_a_frame_number_is_a_framing_failure() {
    for len in 0..4usize {
        let mut bytes = packet(1, &vec![0u8; len]);
        bytes.extend_from_slice(&[0xFF; 8]);
        let mut reader = ReplayReader::new(&bytes);
        assert_eq!(next_packet(&mut reader, false), Err(DecodeError::Framing));
    }
}

#[test]
fn negative_packet_length_is_a_framing_failure() {
    let mut bytes = 1i32.to_le_bytes().to_vec();
    bytes.extend_from_slice(&(-1i32).to_le_bytes());
    bytes.extend_from_slice(&[0; 16]);
    let mut reader = ReplayReader::new(&bytes);
    assert_eq!(next_packet(&mut reader, false), Err(DecodeError::Framing));
    assert_eq!(reader.pos(), 0);
}

#[test]
fn disconnect_is_a_control_packet_only_at_five_bytes() {
    let bytes = packet(1, &[0, 0, 0, 0, 0xBF, 0]);
    let mut reader = ReplayReader::new(&bytes);
    assert_eq!(next_packet(&mut reader, false), Err(DecodeError::UnknownOrderType));
    let bytes = packet(1, &[0, 0, 0, 0, 0xBF]);
    let mut reader = ReplayReader::new(&bytes);
    assert_eq!(next_packet(&mut reader, false), Ok(Packet::Control { client_id: 1 }));
    assert_eq!(reader.pos(), 13);
}

#[test]
fn sync_hash_packet_is_skipped_whatever_its_length() {
    let bytes = packet(6, &[1, 2, 3, 4, 0x65, 0xFF, 0xFF, 0xFF, 0xFF]);
    let mut reader = ReplayReader::new(&bytes);
    assert_eq!(next_packet(&mut reader, false), Ok(Packet::Control { client_id: 6 }));
    assert_eq!(reader.pos(), bytes.len());
}

#[test]
fn control_packet_that_leaves_the_buffer_is_out_of_bounds() {
    let mut bytes = 1i32.to_le_bytes().to_vec();
    bytes.extend_from_slice(&9i32.to_le_bytes());
    bytes.extend_from_slice(&[0, 0, 0, 0, 0x65, 0]);
    let mut reader = ReplayReader::new(&bytes);
    assert_eq!(next_packet(&mut reader, false), Err(DecodeError::OutOfBounds));
    assert_eq!(reader.pos(), 0);
}

#[test]
fn stream_without_terminator_is_out_of_bounds() {
    let bytes = packet(1, &frame(1, &[0x65]));
    let mut reader = ReplayReader::new(&bytes);
    assert_eq!(parse_orders(&mut reader, false), Err(DecodeError::OutOfBounds));
    assert_eq!(reader.pos(), 0);
    let empty: [u8; 0] = [];
    let mut reader = ReplayReader::new(&empty);
    assert_eq!(parse_orders(&mut reader, false), Err(DecodeError::OutOfBounds));
}

#[test]
fn terminator_alone_is_an_empty_stream() {
    let bytes = (-1i32).to_le_bytes();
    let mut reader = ReplayReader::new(&bytes);
    assert_eq!(parse_orders(&mut reader, true), Ok(vec![]));
    assert_eq!(reader.pos(), 4);
}

#[test]
fn tag_bytes_of_the_kinds() {
    assert_eq!(OrderType::SyncHash.to_byte(), 0x65);
    assert_eq!(OrderType::Disconnect.to_byte(), 0xBF);
    assert_eq!(OrderType::Handshake.to_byte(), 0xFE);
    assert_eq!(OrderType::Fields.to_byte(), 0xFF);
    for b in 0..=255u8 {
        match OrderType::from_byte(b) {
            Some(kind) => assert_eq!(kind.to_byte(), b),
            None => assert!(![0x65, 0xBF, 0xFE, 0xFF].contains(&b)),
        }
    }
    assert_eq!(TargetType::from_byte(0), Some(TargetType::Invalid));
    assert_eq!(TargetType::from_byte(1), Some(TargetType::Actor));
    assert_eq!(TargetType::from_byte(2), Some(TargetType::Terrain));
    assert_eq!(TargetType::from_byte(3), Some(TargetType::FrozenActor));
    for b in 4..=255u8 {
        assert_eq!(TargetType::from_byte(b), None);
    }
}

#[test]
fn bits_of_the_fields() {
    assert_eq!(OrderFields::Target.bit(), 0x01);
    assert_eq!(OrderFields::ExtraActors.bit(), 0x02);
    assert_eq!(OrderFields::TargetString.bit(), 0x04);
    assert_eq!(OrderFields::Queued.bit(), 0x08);
    assert_eq!(OrderFields::ExtraLocation.bit(), 0x10);
    assert_eq!(OrderFields::ExtraData.bit(), 0x20);
    assert_eq!(OrderFields::TargetIsCell.bit(), 0x40);
    assert_eq!(OrderFields::Subject.bit(), 0x80);
    assert_eq!(OrderFields::Grouped.bit(), 0x100);
    assert!(is_set(0x41, OrderFields::Target));
    assert!(is_set(0x41, OrderFields::TargetIsCell));
    assert!(!is_set(0x41, OrderFields::Subject));
    assert!(is_set(-1, OrderFields::Grouped));
    assert!(!is_set(0, OrderFields::Queued));
}

#[test]
fn whole_recording_metadata_first_then_orders() {
    let text = "MapUid: m1\nVersion: release-20210321\nPlayer@0:\nClientIndex: 4\nName: A\nColor: 00FF00\n";
    let mut order = vec![0xFF];
    order.extend_from_slice(&string("Move"));
    order.extend_from_slice(&0x41i16.to_le_bytes());
    order.push(2);
    order.extend_from_slice(&0x00100203u32.to_le_bytes());
    order.push(0);
    let mut bytes = packet(4, &[0, 0, 0, 0, 0xBF]);
    bytes.extend_from_slice(&packet(4, &frame(3, &order)));
    bytes.extend_from_slice(&(-1i32).to_le_bytes());
    bytes.extend_from_slice(&1i32.to_le_bytes());
    bytes.extend_from_slice(&(text.len() as i32).to_le_bytes());
    bytes.extend_from_slice(text.as_bytes());
    bytes.extend_from_slice(&(text.len() as i32 + 4).to_le_bytes());
    bytes.extend_from_slice(&(-2i32).to_le_bytes());

    let mut reader = ReplayReader::new(&bytes);
    let info = get_game_information(&mut reader).unwrap();
    assert_eq!(reader.pos(), 0);
    let wide = flags_are_short(&info.version);
    assert!(wide);
    let orders = parse_orders(&mut reader, wide).unwrap();
    assert_eq!(orders.len(), 1);
    assert_eq!(orders[0].client_id, 4);
    assert!(info.players.contains_key(&orders[0].client_id));
    let mut expected = plain("Move", 0x41);
    expected.target = Some(Target::Cell { world_x: 1, world_y: 2, world_z: 3, subcell: 0 });
    assert_eq!(orders[0].body, OrderBody::Fields(expected));
}
