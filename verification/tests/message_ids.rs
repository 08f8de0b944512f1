use bee_wire::message_id::{ids_to_strings, MessageId, MESSAGE_ID_LENGTH};

#[test]
fn identifier_length_constant() {
    assert_eq!(MESSAGE_ID_LENGTH, 32);
    let id = MessageId::new([3u8; 32]);
    assert_eq!(id.as_bytes(), &[3u8; 32]);
}

#[test]
fn hex_rendering_is_two_lowercase_digits_per_byte() {
    let mut bytes = [0u8; 32];
    for (i, b) in bytes.iter_mut().enumerate() {
        *b = i as u8;
    }
    bytes[31] = 0xFE;
    let rendered = MessageId::new(bytes).to_string();
    let mut expected = String::new();
    for b in bytes.iter() {
        expected.push_str(&format!("{:02x}", b));
    }
    assert_eq!(rendered, expected);
    assert_eq!(rendered.len(), 64);
}

#[test]
fn hex_rendering_of_zero_identifier() {
    let rendered = MessageId::new([0u8; 32]).to_string();
    assert_eq!(rendered, "0".repeat(64));
}

#[test]
fn id_lists_render_in_order() {
    let a = MessageId::new([0x01u8; 32]);
    let b = MessageId::new([0xA0u8; 32]);
    let c = MessageId::new([0xFFu8; 32]);
    let rendered = ids_to_strings(&vec![a, b], &vec![c]);
    assert_eq!(
        rendered,
        vec!["01".repeat(32), "a0".repeat(32), "ff".repeat(32)]
    );
    let empty = ids_to_strings(&vec![], &vec![]);
    assert_eq!(empty, Vec::<String>::new());
}
