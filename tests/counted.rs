use claymore::counted::{Root, NAME_LENGTH};

fn le_header(name: &[u8], size: u32) -> Vec<u8> {
    let mut out = name.to_vec();
    out.resize(NAME_LENGTH as usize, 0);
    out.extend_from_slice(&size.to_le_bytes());
    out
}

#[test]
fn reads_integers_little_endian() {
    let mut root = Root::new("f".to_string(), vec![0x78, 0x56, 0x34, 0x12, 9, 1]);
    assert!(root.has_bytes(6));
    assert!(!root.has_bytes(7));
    assert_eq!(root.read_u32(), 0x1234_5678);
    assert_eq!(root.read_u8(), 9);
    assert!(root.read_bool());
    assert!(!root.has_bytes(1));
}

#[test]
fn reads_strings_and_bytes() {
    let mut root = Root::new("f".to_string(), vec![2, b'o', b'k', 1, 0x80, 4, 5]);
    assert_eq!(root.read_string(), Some("ok".to_string()));
    assert_eq!(root.read_string(), None);
    assert_eq!(root.read_bytes(2), &[4, 5]);
}

#[test]
fn chunks_count_down_their_content() {
    let mut bytes = le_header(b"outer", 21);
    bytes.extend_from_slice(&[7, 1, 0, 0, 0, 3]);
    bytes.extend_from_slice(&[2, b'h', b'i']);
    bytes.extend_from_slice(&le_header(b"in", 2));
    bytes.extend_from_slice(&[0xaa, 0xbb]);
    let mut root = Root::new("f".to_string(), bytes);
    let mut outer = root.enter();
    assert_eq!(outer.get_name(), "outer");
    assert!(outer.has_more());
    assert_eq!(outer.read_u8(&mut root), 7);
    assert_eq!(outer.read_u32(&mut root), 1);
    assert!(outer.read_bool(&mut root));
    assert_eq!(outer.read_string(&mut root), Some("hi".to_string()));
    let mut inner = outer.enter(&mut root);
    assert_eq!(inner.get_name(), "in");
    assert!(!outer.has_more());
    assert_eq!(inner.read_bytes(&mut root, 1), &[0xaa]);
    inner.skip(&mut root);
    assert!(!inner.has_more());
    assert!(!root.has_bytes(1));
}
