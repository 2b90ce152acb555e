use bytes::BytesMut;
use mavlink::common::{MavMessage, MISSION_CLEAR_ALL_DATA};
use mavlink::error::ParserError;
use mavlink_extras::codec::{
    covered_bytes, deliver, locate, write_header, write_packet, MavMessageSerde, MessageReadError,
    MAV_STX, MAV_STX_V2,
};
use mavlink_extras::mavconn::MavConnInner;
use mavlink_extras::message::{MavFrame, MavHeader, MavlinkVersion, Message};
use mavlink_extras::{MavMsgRaw, MaybeRawMsg};

const HEARTBEAT_PAYLOAD: [u8; 9] = [0, 0, 0, 0, 18, 8, 128, 4, 3];

const HEARTBEAT_V2: [u8; 21] = [
    253, 9, 0, 0, 0, 16, 1, 0, 0, 0, 0, 0, 0, 0, 18, 8, 128, 4, 3, 182, 21,
];

const HEARTBEAT_V1: [u8; 17] = [
    254, 9, 7, 1, 1, 0, 0, 0, 0, 0, 18, 8, 128, 4, 3, 101, 76,
];

fn decode(src: &mut BytesMut) -> Result<Option<MavFrame<MavMessage>>, MessageReadError> {
    MavMessageSerde::<MavMessage>::new().decode_common(src)
}

fn decode_one(src: &mut BytesMut) -> MavFrame<MavMessage> {
    match decode(src) {
        Ok(Some(frame)) => frame,
        _ => panic!("there is no frame"),
    }
}

fn decode_none(src: &mut BytesMut) {
    assert!(matches!(decode(src), Ok(None)));
}

fn encode(frame: MavFrame<MaybeRawMsg<MavMessage>>, dst: &mut BytesMut) {
    assert!(MavMessageSerde::<MavMessage>::new().encode_common(frame, dst).is_ok());
}

fn clear_all() -> MavMessage {
    MavMessage::MISSION_CLEAR_ALL(MISSION_CLEAR_ALL_DATA { target_system: 1, target_component: 1 })
}

#[test]
fn heartbeat_is_written_to_the_byte() {
    let conn = MavConnInner::new(16, 1);
    let mut dst = BytesMut::new();
    encode(conn.heartbeat_frame(), &mut dst);
    assert_eq!(&dst[..], &HEARTBEAT_V2[..]);
}

#[test]
fn encode_appends() {
    let mut dst = BytesMut::from(&[1u8, 2, 3][..]);
    encode(MavConnInner::new(16, 1).frame(MaybeRawMsg::Standard(clear_all())), &mut dst);
    assert_eq!(&dst[..], &[1, 2, 3, 253, 2, 0, 0, 0, 16, 1, 45, 0, 0, 1, 1, 202, 193][..]);
}

#[test]
fn written_frame_is_read_back() {
    for version in [MavlinkVersion::V1, MavlinkVersion::V2] {
        let header = MavHeader { system_id: 3, component_id: 4, sequence: 200 };
        let mut buffer = BytesMut::new();
        encode(
            MavFrame {
                header,
                msg: MaybeRawMsg::Standard(clear_all()),
                protocol_version: version,
            },
            &mut buffer,
        );
        buffer.extend_from_slice(&[9, 8, 7]);
        let frame = decode_one(&mut buffer);
        assert_eq!(frame.protocol_version, version);
        assert_eq!(frame.header, header);
        assert_eq!(frame.msg, clear_all());
        assert_eq!(&buffer[..], &[9, 8, 7][..]);
    }
}

#[test]
fn first_version_is_read() {
    let mut src = BytesMut::from(&HEARTBEAT_V1[..]);
    let frame = decode_one(&mut src);
    assert_eq!(frame.protocol_version, MavlinkVersion::V1);
    assert_eq!(frame.header, MavHeader { system_id: 1, component_id: 1, sequence: 7 });
    assert_eq!(frame.msg.message_id(), 0);
    assert_eq!(frame.msg.ser(), HEARTBEAT_PAYLOAD.to_vec());
    assert!(src.is_empty());
}

#[test]
fn relayed_message_is_kept() {
    let mut src = BytesMut::from(&HEARTBEAT_V2[..]);
    let frame = decode_one(&mut src);
    let mut again = BytesMut::new();
    let expected = frame.msg.clone();
    encode(MavConnInner::new(2, 2).frame(MaybeRawMsg::from(frame.msg)), &mut again);
    let relayed = decode_one(&mut again);
    assert_eq!(relayed.msg, expected);
    assert_eq!(relayed.header, MavHeader { system_id: 2, component_id: 2, sequence: 0 });
}

#[test]
fn signature_is_dropped() {
    let mut src = BytesMut::from(
        &[253u8, 9, 1, 0, 5, 1, 1, 0, 0, 0, 0, 0, 0, 0, 18, 8, 128, 4, 3, 237, 161][..],
    );
    decode_none(&mut src);
    assert_eq!(src.len(), 21);
    src.extend_from_slice(&[0xFE; 13]);
    src.extend_from_slice(&HEARTBEAT_V2);
    let frame = decode_one(&mut src);
    assert_eq!(frame.header.sequence, 5);
    assert_eq!(&src[..], &HEARTBEAT_V2[..]);
}

#[test]
fn noise_is_skipped() {
    let mut src = BytesMut::from(&[0u8, 1, 2, 255, 252][..]);
    decode_none(&mut src);
    assert!(src.is_empty());
    src.extend_from_slice(&[5, 6]);
    src.extend_from_slice(&HEARTBEAT_V2);
    let frame = decode_one(&mut src);
    assert_eq!(frame.header, MavHeader { system_id: 16, component_id: 1, sequence: 0 });
    assert!(src.is_empty());
}

#[test]
fn pieces_are_put_together() {
    let mut src = BytesMut::new();
    for byte in &HEARTBEAT_V2[..20] {
        src.extend_from_slice(&[*byte]);
        decode_none(&mut src);
    }
    assert_eq!(&src[..], &HEARTBEAT_V2[..20]);
    src.extend_from_slice(&HEARTBEAT_V2[20..]);
    assert_eq!(decode_one(&mut src).msg.message_id(), 0);
}

#[test]
fn wrong_checksum_drops_the_packet() {
    let mut broken = HEARTBEAT_V2;
    broken[12] = 1;
    let mut src = BytesMut::from(&broken[..]);
    src.extend_from_slice(&HEARTBEAT_V1);
    decode_none(&mut src);
    assert_eq!(&src[..], &HEARTBEAT_V1[..]);
    assert_eq!(decode_one(&mut src).header.sequence, 7);
}

#[test]
fn payload_that_is_no_message_is_an_error() {
    let mut src = BytesMut::from(
        &[253u8, 9, 0, 0, 1, 1, 1, 0, 0, 0, 0, 0, 0, 0, 250, 8, 128, 4, 3, 35, 210, 1][..],
    );
    match decode(&mut src) {
        Err(MessageReadError::Parse(ParserError::InvalidEnum { enum_type, value })) => {
            assert_eq!(enum_type, "MavType");
            assert_eq!(value, 250);
        }
        _ => panic!("the type is not known"),
    }
    assert_eq!(&src[..], &[1][..]);
}

#[test]
fn unknown_message_is_an_error() {
    let mut src = BytesMut::new();
    let raw = MavMsgRaw::from_bytes(0x030201, &[1, 2, 3]);
    encode(
        MavFrame {
            header: MavHeader { system_id: 2, component_id: 3, sequence: 9 },
            msg: MaybeRawMsg::from(raw),
            protocol_version: MavlinkVersion::V2,
        },
        &mut src,
    );
    assert_eq!(&src[..], &[253, 3, 0, 0, 9, 2, 3, 1, 2, 3, 1, 2, 3, 227, 99][..]);
    match decode(&mut src) {
        Err(MessageReadError::Parse(ParserError::UnknownMessage { id })) => {
            assert_eq!(id, 0x030201)
        }
        _ => panic!("there is no such message"),
    }
    assert!(src.is_empty());
}

#[test]
fn truncated_payload_is_filled_up() {
    let mut src =
        BytesMut::from(&[253u8, 1, 0, 0, 1, 1, 1, 47, 0, 0, 255, 30, 67][..]);
    let frame = decode_one(&mut src);
    assert_eq!(frame.msg.ser(), vec![255, 0, 0]);
}

#[test]
fn raw_message_is_sent_as_its_template() {
    let mut standard = BytesMut::new();
    let mut raw = BytesMut::new();
    let conn = MavConnInner::new(1, 1);
    encode(conn.frame(MaybeRawMsg::Standard(clear_all())), &mut standard);
    encode(conn.frame(MaybeRawMsg::Raw(MavMsgRaw::from_template(clear_all()))), &mut raw);
    assert_eq!(standard, raw);
}

#[test]
fn locate_finds_the_parts() {
    let mut bytes = vec![1, 2];
    bytes.extend_from_slice(&HEARTBEAT_V2);
    match locate(&bytes) {
        (2, Some(located)) => {
            assert_eq!(located.version, MavlinkVersion::V2);
            assert_eq!(located.id, 0);
            assert_eq!(located.header_len, 10);
            assert_eq!(located.payload_len, 9);
            assert!(!located.is_signed);
            assert_eq!(covered_bytes(&bytes[2..], &located), HEARTBEAT_V2[1..19].to_vec());
        }
        _ => panic!("there is a packet"),
    }
    assert!(matches!(locate(&[]), (0, None)));
    assert!(matches!(locate(&[1, 2]), (2, None)));
    assert!(matches!(locate(&[1, MAV_STX]), (1, None)));
    assert!(matches!(locate(&[MAV_STX_V2, 0, 0, 0, 0, 0, 0, 0, 0]), (0, None)));
}

#[test]
fn parts_make_a_packet() {
    let header = MavHeader { system_id: 16, component_id: 1, sequence: 0 };
    let head = write_header(MavlinkVersion::V2, header, 0, 9);
    assert_eq!(head, HEARTBEAT_V2[..10].to_vec());
    assert_eq!(write_packet(head, &HEARTBEAT_PAYLOAD, 0x15B6), HEARTBEAT_V2.to_vec());
    assert_eq!(
        write_header(MavlinkVersion::V1, header, 0x1_02, 0x103),
        vec![MAV_STX, 3, 0, 16, 1, 2]
    );
    assert_eq!(
        write_header(MavlinkVersion::V2, header, 0xFF03_0201, 0),
        vec![MAV_STX_V2, 0, 0, 0, 0, 16, 1, 1, 2, 3]
    );
}

#[test]
fn delivered_frame_has_its_header() {
    let header = MavHeader { system_id: 1, component_id: 2, sequence: 3 };
    match deliver(MavlinkVersion::V1, header, Ok(5)) {
        Ok(Some(frame)) => {
            assert_eq!(frame.header, header);
            assert_eq!(frame.msg, 5);
            assert_eq!(frame.protocol_version, MavlinkVersion::V1);
        }
        _ => panic!("there is a message"),
    }
    let failed = deliver::<u8>(MavlinkVersion::V1, header, Err(ParserError::UnknownMessage { id: 4 }));
    assert!(matches!(failed, Err(MessageReadError::Parse(ParserError::UnknownMessage { id: 4 }))));
}

#[test]
fn packets_come_in_order() {
    let mut buffer = BytesMut::new();
    for sequence in 0..50 {
        encode(
            MavFrame {
                header: MavHeader { system_id: 1, component_id: 2, sequence },
                msg: MaybeRawMsg::Standard(clear_all()),
                protocol_version: if sequence % 3 == 0 { MavlinkVersion::V1 } else { MavlinkVersion::V2 },
            },
            &mut buffer,
        );
    }
    for sequence in 0..50 {
        assert_eq!(decode_one(&mut buffer).header.sequence, sequence);
    }
    decode_none(&mut buffer);
}

#[test]
fn packets_are_those_of_the_mavlink_crate() {
    let mut written = 0;
    for id in 0..400 {
        let message = match MavMessage::parse(MavlinkVersion::V2, id, &[]) {
            Ok(message) => message,
            Err(_) => continue,
        };
        let header = MavHeader { system_id: 3, component_id: 4, sequence: 5 };
        let expected_header = mavlink::MavHeader { system_id: 3, component_id: 4, sequence: 5 };
        for version in [MavlinkVersion::V1, MavlinkVersion::V2] {
            let mut expected: Vec<u8> = Vec::new();
            let result = match version {
                MavlinkVersion::V1 => mavlink::write_v1_msg(&mut expected, expected_header, &message),
                MavlinkVersion::V2 => mavlink::write_v2_msg(&mut expected, expected_header, &message),
            };
            assert!(result.is_ok());
            let mut dst = BytesMut::new();
            encode(
                MavFrame {
                    header,
                    msg: MaybeRawMsg::Standard(message.clone()),
                    protocol_version: version,
                },
                &mut dst,
            );
            assert_eq!(&dst[..], &expected[..]);
            if version == MavlinkVersion::V2 {
                assert_eq!(decode_one(&mut dst).msg, message);
                written += 1;
            }
        }
    }
    assert!(written > 100);
}

#[test]
fn broken_packet_is_not_parsed() {
    // Its payload has not the size of a raw payload.
    let mut packet = vec![253, 3, 0, 0, 9, 2, 3, 1, 2, 3, 1, 2, 3, 227, 98];
    packet.extend_from_slice(&[253, 1]);
    let mut src = BytesMut::from(&packet[..]);
    let decoded = MavMessageSerde::<MaybeRawMsg<MavMessage>>::new().decode(&mut src);
    assert!(matches!(decoded, Ok(None)));
    assert_eq!(&src[..], &[253, 1][..]);
}

#[test]
fn raw_message_is_read_back() {
    let payload = [7u8; 48];
    let mut src = BytesMut::new();
    encode(
        MavConnInner::new(1, 2).frame(MaybeRawMsg::Raw(MavMsgRaw::from_bytes(0x030201, &payload))),
        &mut src,
    );
    match MavMessageSerde::<MaybeRawMsg<MavMessage>>::new().decode(&mut src) {
        Ok(Some(MavFrame { msg: MaybeRawMsg::Raw(raw), .. })) => {
            assert_eq!(raw.id, 0x030201);
            assert_eq!(raw.payload, payload);
        }
        _ => panic!("the message is raw"),
    }
    assert!(src.is_empty());
}

#[test]
fn used_codec_is_as_a_fresh_one() {
    let mut used = MavMessageSerde::<MavMessage>::new();
    let mut broken = BytesMut::from(&HEARTBEAT_V2[..12]);
    assert!(matches!(used.decode(&mut broken), Ok(None)));
    let mut dst = BytesMut::new();
    assert!(used.encode(MavConnInner::new(16, 1).heartbeat_frame(), &mut dst).is_ok());
    assert_eq!(&dst[..], &HEARTBEAT_V2[..]);
    match used.decode(&mut dst) {
        Ok(Some(frame)) => {
            let mut src = BytesMut::from(&HEARTBEAT_V2[..]);
            let fresh = decode_one(&mut src);
            assert_eq!(frame.msg, fresh.msg);
            assert_eq!(frame.header, fresh.header);
        }
        _ => panic!("there is a frame"),
    }
    assert!(dst.is_empty());
}

#[test]
fn bytes_before_a_marker_change_nothing() {
    for bytes in [&HEARTBEAT_V2[..], &HEARTBEAT_V1[..9], &[253, 0, 0][..], &[][..]] {
        let mut noisy = BytesMut::from(&[0u8, 200, 255][..]);
        noisy.extend_from_slice(bytes);
        let mut clean = BytesMut::from(bytes);
        let (with, without) = (decode(&mut noisy), decode(&mut clean));
        assert_eq!(format!("{:?}", with), format!("{:?}", without));
        assert_eq!(noisy, clean);
    }
}
