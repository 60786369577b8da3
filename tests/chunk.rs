use claymore::chunk::{Root, NAME_LENGTH};

fn header(name: &[u8], size: u32) -> Vec<u8> {
    let mut out = name.to_vec();
    out.resize(NAME_LENGTH as usize, 0);
    out.extend_from_slice(&size.to_be_bytes());
    out
}

#[test]
fn reads_integers_big_endian() {
    let mut root = Root::new("file".to_string(), vec![0x12, 0x34, 0x56, 0x78, 0xff, 0, 2]);
    assert_eq!(root.read_u32(), 0x1234_5678);
    assert_eq!(root.get_pos(), 4);
    assert_eq!(root.read_u8(), 0xff);
    assert!(!root.read_bool());
    assert!(root.read_bool());
    assert_eq!(root.get_pos(), 7);
    assert_eq!(root.name, "file");
}

#[test]
fn reads_zeros_past_the_end() {
    let mut root = Root::new("f".to_string(), vec![1]);
    assert_eq!(root.read_u32(), 0x0100_0000);
    assert_eq!(root.read_u8(), 0);
    assert_eq!(root.get_pos(), 5);
}

#[test]
fn read_bytes_hands_out_the_bytes() {
    let mut root = Root::new("f".to_string(), vec![1, 2, 3, 4, 5]);
    root.skip(1);
    assert_eq!(root.read_bytes(3), &[2, 3, 4]);
    assert_eq!(root.read_bytes(0), &[] as &[u8]);
    assert_eq!(root.get_pos(), 4);
}

#[test]
fn reads_length_prefixed_strings() {
    let mut root = Root::new("f".to_string(), vec![3, b'a', b'b', b'c', 2, 0xc3, 0xa9, 1, 0xff]);
    assert_eq!(root.read_str(), Some("abc".to_string()));
    assert_eq!(root.read_str(), Some("\u{e9}".to_string()));
    assert_eq!(root.get_pos(), 7);
    assert_eq!(root.read_str(), None);
    assert_eq!(root.get_pos(), 9);
}

#[test]
fn enters_and_leaves_chunks() {
    let mut bytes = header(b"mesh", 6);
    bytes.extend_from_slice(&[1, 2, 3, 4, 5, 6]);
    bytes.extend_from_slice(&header(b"material", 1));
    bytes.push(1);
    let mut root = Root::new("f".to_string(), bytes);
    let mesh = root.enter();
    assert_eq!(mesh.get_name(), "mesh");
    assert_eq!(mesh.size, 6);
    assert_eq!(root.get_pos(), 12);
    assert!(mesh.has_more(&root));
    assert_eq!(root.read_u8(), 1);
    mesh.ignore(&mut root);
    assert_eq!(root.get_pos(), 18);
    let mat = root.enter();
    assert_eq!(mat.get_name(), "material");
    assert!(root.read_bool());
    assert!(!mat.has_more(&root));
}

#[test]
fn chunk_name_with_bad_bytes_is_replaced() {
    let mut root = Root::new("f".to_string(), header(&[b'a', 0xff, b'b'], 0));
    let c = root.enter();
    assert_eq!(c.get_name(), "a\u{fffd}b");
    assert!(!c.has_more(&root));
}
