use wayland_2_gnome::proxy::wire::{next_message_size, Message};

#[test]
fn encode_parse_roundtrip() {
    let m = Message::new(5, 3, vec![1, 2, 3, 4, 9, 9, 9, 9]);
    let b = m.encode();
    assert_eq!(b.len(), 16);
    assert_eq!(&b[0..4], &5u32.to_le_bytes());
    assert_eq!(&b[4..8], &((16u32 << 16) | 3).to_le_bytes());
    let p = Message::parse(&b).unwrap();
    assert_eq!((p.object_id, p.opcode, p.payload.clone()), (5, 3, vec![1, 2, 3, 4, 9, 9, 9, 9]));
    assert_eq!(p.encode(), b);
}

#[test]
fn framing_waits_for_whole_message() {
    let b = Message::new(1, 1, vec![0; 4]).encode();
    assert_eq!(next_message_size(&b[..7].to_vec()), None);
    assert_eq!(next_message_size(&b[..11].to_vec()), None);
    assert_eq!(next_message_size(&b), Some(12));
    let mut two = b.clone();
    two.extend_from_slice(&b);
    assert_eq!(next_message_size(&two), Some(12));
    // a size field below a header is refused
    let bad = vec![1, 0, 0, 0, 0, 0, 4, 0];
    assert_eq!(next_message_size(&bad), None);
    // parse needs exactly the message's bytes
    assert!(Message::parse(&two).is_none());
}
