use bee_wire::error::{MessageUnpackError, ValidationError};
use bee_wire::message_id::MessageId;
use bee_wire::parents::{ParentsBlock, ParentsKind, MESSAGE_MIN_STRONG_PARENTS};

fn id(first: u8) -> MessageId {
    let mut b = [0u8; 32];
    b[0] = first;
    MessageId::new(b)
}

#[test]
fn parents_round_trip() {
    let block = ParentsBlock::new(ParentsKind::Weak, vec![id(1), id(2), id(5)]).unwrap();
    let bytes = block.pack();
    let (decoded, consumed) = ParentsBlock::unpack(&bytes).unwrap();
    assert_eq!(consumed, bytes.len());
    assert_eq!(decoded, block);
}

#[test]
fn parents_round_trip_single_reference() {
    let block = ParentsBlock::new(ParentsKind::Liked, vec![id(9)]).unwrap();
    let bytes = block.pack();
    assert_eq!(bytes.len(), block.packed_len());
    let (decoded, consumed) = ParentsBlock::unpack(&bytes).unwrap();
    assert_eq!(consumed, 2 + 32);
    assert_eq!(decoded, block);
}

#[test]
fn parents_round_trip_full_block() {
    let refs: Vec<MessageId> = (1..=8).map(id).collect();
    let block = ParentsBlock::new(ParentsKind::Strong, refs).unwrap();
    let bytes = block.pack();
    let (decoded, _) = ParentsBlock::unpack(&bytes).unwrap();
    assert_eq!(decoded, block);
}

#[test]
fn construct_rejects_zero_references() {
    let r = ParentsBlock::new(ParentsKind::Strong, vec![]);
    assert_eq!(r.unwrap_err(), ValidationError::InvalidParentsCount(0));
}

#[test]
fn construct_rejects_nine_references() {
    let refs: Vec<MessageId> = (1..=9).map(id).collect();
    let r = ParentsBlock::new(ParentsKind::Strong, refs);
    assert_eq!(r.unwrap_err(), ValidationError::InvalidParentsCount(9));
}

#[test]
fn construct_rejects_unsorted_references() {
    let r = ParentsBlock::new(ParentsKind::Strong, vec![id(2), id(1)]);
    assert_eq!(r.unwrap_err(), ValidationError::ParentsNotUniqueSorted);
}

#[test]
fn construct_rejects_duplicate_references() {
    let r = ParentsBlock::new(ParentsKind::Strong, vec![id(1), id(1)]);
    assert_eq!(r.unwrap_err(), ValidationError::ParentsNotUniqueSorted);
}

#[test]
fn decode_rejects_zero_count() {
    let bytes = vec![0u8, 0u8];
    let e = ParentsBlock::unpack(&bytes).unwrap_err();
    assert_eq!(
        e,
        MessageUnpackError::Validation(ValidationError::InvalidParentsCount(0))
    );
}

#[test]
fn decode_rejects_count_of_nine() {
    let bytes = vec![0u8, 9u8];
    let e = ParentsBlock::unpack(&bytes).unwrap_err();
    assert_eq!(
        e,
        MessageUnpackError::Validation(ValidationError::InvalidParentsCount(9))
    );
}

#[test]
fn decode_rejects_unsorted_stream() {
    let mut bytes = vec![0u8, 2u8];
    bytes.extend_from_slice(id(2).as_bytes());
    bytes.extend_from_slice(id(1).as_bytes());
    let e = ParentsBlock::unpack(&bytes).unwrap_err();
    assert_eq!(
        e,
        MessageUnpackError::Validation(ValidationError::ParentsNotUniqueSorted)
    );
}

#[test]
fn decode_rejects_duplicate_stream() {
    let mut bytes = vec![0u8, 2u8];
    bytes.extend_from_slice(id(7).as_bytes());
    bytes.extend_from_slice(id(7).as_bytes());
    let e = ParentsBlock::unpack(&bytes).unwrap_err();
    assert_eq!(
        e,
        MessageUnpackError::Validation(ValidationError::ParentsNotUniqueSorted)
    );
}

#[test]
fn decode_rejects_unknown_kind() {
    let mut bytes = vec![4u8, 1u8];
    bytes.extend_from_slice(id(1).as_bytes());
    let e = ParentsBlock::unpack(&bytes).unwrap_err();
    assert_eq!(
        e,
        MessageUnpackError::Validation(ValidationError::InvalidParentsKind(4))
    );
    let e = ParentsBlock::unpack(&[255u8, 1u8]).unwrap_err();
    assert_eq!(
        e,
        MessageUnpackError::Validation(ValidationError::InvalidParentsKind(255))
    );
}

#[test]
fn decode_rejects_truncated_stream() {
    assert_eq!(
        ParentsBlock::unpack(&[]).unwrap_err(),
        MessageUnpackError::UnexpectedEof
    );
    assert_eq!(
        ParentsBlock::unpack(&[0u8]).unwrap_err(),
        MessageUnpackError::UnexpectedEof
    );
    let mut bytes = vec![0u8, 2u8];
    bytes.extend_from_slice(id(1).as_bytes());
    assert_eq!(
        ParentsBlock::unpack(&bytes).unwrap_err(),
        MessageUnpackError::UnexpectedEof
    );
}

#[test]
fn accepted_block_is_strictly_ascending() {
    let block = ParentsBlock::new(ParentsKind::Strong, vec![id(1), id(3), id(4)]).unwrap();
    let refs = block.references();
    for w in refs.windows(2) {
        assert!(w[0].as_bytes() < w[1].as_bytes());
    }
    assert_eq!(block.len(), 3);
    assert_eq!(block.parents_kind(), ParentsKind::Strong);
    assert_eq!(block.get(1), &id(3));
}

#[test]
fn kind_byte_mapping() {
    assert_eq!(ParentsKind::try_from(0).unwrap(), ParentsKind::Strong);
    assert_eq!(ParentsKind::try_from(1).unwrap(), ParentsKind::Weak);
    assert_eq!(ParentsKind::try_from(2).unwrap(), ParentsKind::Disliked);
    assert_eq!(ParentsKind::try_from(3).unwrap(), ParentsKind::Liked);
    assert_eq!(
        ParentsKind::try_from(4).unwrap_err(),
        ValidationError::InvalidParentsKind(4)
    );
    assert_eq!(ParentsKind::Disliked.to_u8(), 2);
}

#[test]
fn strong_three_ids_end_to_end() {
    let block =
        ParentsBlock::new(ParentsKind::Strong, vec![id(0x01), id(0x02), id(0x03)]).unwrap();
    let bytes = block.pack();
    let mut expected = vec![0x00u8, 0x03u8];
    expected.extend_from_slice(id(0x01).as_bytes());
    expected.extend_from_slice(id(0x02).as_bytes());
    expected.extend_from_slice(id(0x03).as_bytes());
    assert_eq!(bytes, expected);
    let (decoded, consumed) = ParentsBlock::unpack(&bytes).unwrap();
    assert_eq!(consumed, bytes.len());
    assert_eq!(decoded, block);
}

#[test]
fn minimum_strong_parents_constant() {
    assert_eq!(MESSAGE_MIN_STRONG_PARENTS, 1);
}

#[test]
fn decode_with_trailing_bytes_reports_consumed() {
    let block = ParentsBlock::new(ParentsKind::Weak, vec![id(1)]).unwrap();
    let mut bytes = block.pack();
    bytes.push(0xAA);
    bytes.push(0xBB);
    let (decoded, consumed) = ParentsBlock::unpack(&bytes).unwrap();
    assert_eq!(consumed, 34);
    assert_eq!(decoded, block);
}
