use bee_wire::message_id::MessageId;
use bee_wire::packets::{
    HeaderPacket, HeartbeatPacket, MessagePacket, MessageRequestPacket, MilestoneRequestPacket,
    Packet, TlvError, tlv_from_bytes, tlv_to_bytes, HEADER_SIZE, HEARTBEAT_SIZE,
    MESSAGE_REQUEST_SIZE, MESSAGE_SIZE_MAX, MESSAGE_SIZE_MIN, MILESTONE_REQUEST_SIZE,
};

fn id(first: u8) -> MessageId {
    let mut b = [0u8; 32];
    b[0] = first;
    MessageId::new(b)
}

#[test]
fn heartbeat_tlv_round_trip() {
    let hb = HeartbeatPacket { solid_milestone_index: 3, pruned_index: 1 };
    let frame = tlv_to_bytes(&Packet::Heartbeat(hb));
    assert_eq!(frame, vec![4u8, 0, 8, 0, 0, 0, 3, 0, 0, 0, 1]);
    let decoded = tlv_from_bytes(&frame).unwrap();
    assert_eq!(decoded, Packet::Heartbeat(hb));
}

#[test]
fn heartbeat_wrong_length_rejected() {
    // A heartbeat payload of 3 bytes where the registered fixed size is 8.
    let frame = vec![4u8, 0, 3, 1, 2, 3];
    assert_eq!(tlv_from_bytes(&frame).unwrap_err(), TlvError::InvalidTlvLength);
}

#[test]
fn message_at_size_bounds() {
    let min_payload = vec![7u8; MESSAGE_SIZE_MIN];
    let frame = tlv_to_bytes(&Packet::Message(MessagePacket::new(min_payload.clone())));
    let decoded = tlv_from_bytes(&frame).unwrap();
    assert_eq!(decoded, Packet::Message(MessagePacket::new(min_payload)));

    let max_payload = vec![9u8; MESSAGE_SIZE_MAX];
    let frame = tlv_to_bytes(&Packet::Message(MessagePacket::new(max_payload.clone())));
    let decoded = tlv_from_bytes(&frame).unwrap();
    assert_eq!(decoded, Packet::Message(MessagePacket::new(max_payload)));
}

#[test]
fn message_outside_size_bounds_rejected() {
    // Zero-length payload, below the declared minimum.
    let frame = vec![2u8, 0, 0];
    assert_eq!(tlv_from_bytes(&frame).unwrap_err(), TlvError::InvalidTlvLength);
    // One byte above the declared maximum.
    let over = MESSAGE_SIZE_MAX + 1;
    let mut frame = vec![2u8, (over >> 8) as u8, over as u8];
    frame.extend(std::iter::repeat(0u8).take(over));
    assert_eq!(tlv_from_bytes(&frame).unwrap_err(), TlvError::InvalidTlvLength);
}

#[test]
fn unknown_packet_type_rejected() {
    let frame = vec![5u8, 0, 0];
    assert_eq!(tlv_from_bytes(&frame).unwrap_err(), TlvError::UnknownPacketType(5));
    let frame = vec![200u8, 0, 4, 1, 2, 3, 4];
    assert_eq!(tlv_from_bytes(&frame).unwrap_err(), TlvError::UnknownPacketType(200));
}

#[test]
fn truncated_frames_rejected() {
    assert_eq!(tlv_from_bytes(&[]).unwrap_err(), TlvError::InvalidTlvLength);
    assert_eq!(tlv_from_bytes(&[2u8]).unwrap_err(), TlvError::InvalidTlvLength);
    assert_eq!(tlv_from_bytes(&[2u8, 0]).unwrap_err(), TlvError::InvalidTlvLength);
    // Announces four payload bytes but carries two.
    let frame = vec![1u8, 0, 4, 0, 0];
    assert_eq!(tlv_from_bytes(&frame).unwrap_err(), TlvError::InvalidTlvLength);
    // Carries more bytes than announced.
    let frame = vec![1u8, 0, 4, 0, 0, 0, 1, 99];
    assert_eq!(tlv_from_bytes(&frame).unwrap_err(), TlvError::InvalidTlvLength);
}

#[test]
fn milestone_request_layout_and_round_trip() {
    let p = MilestoneRequestPacket { index: 0xDEADBEEF };
    assert_eq!(p.to_bytes(), vec![0xDEu8, 0xAD, 0xBE, 0xEF]);
    let back = MilestoneRequestPacket::from_bytes(&p.to_bytes());
    assert_eq!(back, p);
    let frame = tlv_to_bytes(&Packet::MilestoneRequest(p));
    assert_eq!(frame, vec![1u8, 0, 4, 0xDE, 0xAD, 0xBE, 0xEF]);
    assert_eq!(tlv_from_bytes(&frame).unwrap(), Packet::MilestoneRequest(p));
}

#[test]
fn header_round_trip() {
    let header = HeaderPacket { protocol_version: 2, coordinator: [0xABu8; 32] };
    let bytes = header.to_bytes();
    assert_eq!(bytes.len(), HEADER_SIZE);
    assert_eq!(bytes[0], 2);
    assert_eq!(&bytes[1..], &[0xABu8; 32]);
    let back = HeaderPacket::from_bytes(&bytes);
    assert_eq!(back, header);
    let frame = tlv_to_bytes(&Packet::Header(header));
    assert_eq!(tlv_from_bytes(&frame).unwrap(), Packet::Header(header));
}

#[test]
fn message_request_round_trip() {
    let p = MessageRequestPacket::new(id(0x42));
    let bytes = p.to_bytes();
    assert_eq!(bytes, id(0x42).as_bytes().to_vec());
    let back = MessageRequestPacket::from_bytes(&bytes);
    assert_eq!(back, p);
    let frame = tlv_to_bytes(&Packet::MessageRequest(p));
    assert_eq!(tlv_from_bytes(&frame).unwrap(), Packet::MessageRequest(p));
}

#[test]
fn packet_sizes() {
    let header = HeaderPacket { protocol_version: 0, coordinator: [0u8; 32] };
    assert_eq!(header.size(), HEADER_SIZE);
    let hb = HeartbeatPacket { solid_milestone_index: 0, pruned_index: 0 };
    assert_eq!(hb.size(), HEARTBEAT_SIZE);
    let mr = MilestoneRequestPacket { index: 0 };
    assert_eq!(mr.size(), MILESTONE_REQUEST_SIZE);
    let req = MessageRequestPacket::new(id(1));
    assert_eq!(req.size(), MESSAGE_REQUEST_SIZE);
    let msg = MessagePacket::new(vec![1, 2, 3]);
    assert_eq!(msg.size(), 3);
    assert_eq!(msg.message(), &vec![1, 2, 3]);
}

#[test]
fn heartbeat_fixed_layout() {
    let hb = HeartbeatPacket { solid_milestone_index: 0x01020304, pruned_index: 0x0A0B0C0D };
    assert_eq!(hb.to_bytes(), vec![0x01u8, 0x02, 0x03, 0x04, 0x0A, 0x0B, 0x0C, 0x0D]);
    let back = HeartbeatPacket::from_bytes(&hb.to_bytes());
    assert_eq!(back, hb);
}
