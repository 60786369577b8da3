use claymore::chunk::Root;
use claymore::mesh::{
    load, parse_topology, parse_type, AttribType, Error, FloatSize, IndexSize, IntSize, Topology,
};

fn chunk(name: &str, content: &[u8]) -> Vec<u8> {
    let mut out = name.as_bytes().to_vec();
    out.resize(8, 0);
    out.extend_from_slice(&(content.len() as u32).to_be_bytes());
    out.extend_from_slice(content);
    out
}

fn text(s: &[u8]) -> Vec<u8> {
    let mut out = vec![s.len() as u8];
    out.extend_from_slice(s);
    out
}

fn mesh_bytes(name: &str, topology: &[u8], subs: &[Vec<u8>]) -> Vec<u8> {
    let mut content = text(b"cube");
    content.extend_from_slice(&3u32.to_be_bytes());
    content.extend_from_slice(&text(topology));
    for s in subs {
        content.extend_from_slice(s);
    }
    chunk(name, &content)
}

fn position_buffer(format: &[u8], stride: u8) -> Vec<u8> {
    let mut content = vec![stride];
    content.extend_from_slice(&text(format));
    content.extend(std::iter::repeat(7u8).take(3 * stride as usize));
    content.extend_from_slice(&text(b"a_Pos"));
    content.push(0);
    chunk("buffer", &content)
}

fn index_chunk(letter: u8, width: usize) -> Vec<u8> {
    let mut content = 3u32.to_be_bytes().to_vec();
    content.push(letter);
    content.extend(std::iter::repeat(1u8).take(3 * width));
    chunk("index", &content)
}

#[test]
fn loads_a_mesh_with_buffer_and_indices() {
    let bytes = mesh_bytes("k3mesh", b"3", &[position_buffer(&[2, b'f'], 8), index_chunk(b'S', 2)]);
    let total = bytes.len() as u32;
    let mut root = Root::new("m".to_string(), bytes);
    let mesh = load(&mut root).unwrap();
    assert_eq!(root.get_pos(), total);
    assert_eq!(mesh.name, "cube");
    assert_eq!(mesh.vertex_count, 3);
    assert_eq!(mesh.topology, Topology::TriangleList);
    assert_eq!(mesh.buffers.len(), 1);
    let b = &mesh.buffers[0];
    assert_eq!(b.stride, 8);
    assert_eq!(b.data.len(), 24);
    assert_eq!(b.attributes.len(), 1);
    assert_eq!(b.attributes[0].name, "a_Pos");
    assert_eq!(b.attributes[0].elem_count, 2);
    assert_eq!(b.attributes[0].elem_type, AttribType::Float(FloatSize::F32));
    assert_eq!(b.attributes[0].offset, 0);
    let ind = mesh.indices.unwrap();
    assert_eq!(ind.size, IndexSize::U16);
    assert_eq!(ind.count, 3);
    assert_eq!(ind.data.len(), 6);
}

#[test]
fn rejects_wrong_signature() {
    let mut root = Root::new("m".to_string(), mesh_bytes("k3mush", b"3", &[]));
    assert!(matches!(load(&mut root), Err(Error::Signature(n)) if n == "k3mush"));
}

#[test]
fn rejects_unknown_topology() {
    let mut root = Root::new("m".to_string(), mesh_bytes("k3mesh", b"4", &[]));
    assert!(matches!(load(&mut root), Err(Error::Topology(t)) if t == "4"));
}

#[test]
fn rejects_stride_mismatch() {
    let mut root = Root::new("m".to_string(), mesh_bytes("k3mesh", b"3", &[position_buffer(&[3, b'f'], 8)]));
    assert!(matches!(load(&mut root), Err(Error::Stride(12))));
}

#[test]
fn rejects_unknown_attribute_type() {
    let mut root = Root::new("m".to_string(), mesh_bytes("k3mesh", b"3", &[position_buffer(&[2, b'x'], 8)]));
    assert!(matches!(load(&mut root), Err(Error::AttribType('x', 0))));
}

#[test]
fn rejects_odd_vertex_format() {
    let mut root = Root::new("m".to_string(), mesh_bytes("k3mesh", b"3", &[position_buffer(&[2], 8)]));
    assert!(matches!(load(&mut root), Err(Error::Other)));
}

#[test]
fn rejects_second_index_chunk() {
    let subs = [index_chunk(b'B', 1), index_chunk(b'L', 4)];
    let mut root = Root::new("m".to_string(), mesh_bytes("k3mesh", b"2", &subs));
    assert!(matches!(load(&mut root), Err(Error::DoubleIndex)));
}

#[test]
fn rejects_unknown_index_width() {
    let mut root = Root::new("m".to_string(), mesh_bytes("k3mesh", b"1", &[index_chunk(b'Q', 0)]));
    assert!(matches!(load(&mut root), Err(Error::IndexType('Q'))));
}

#[test]
fn rejects_unknown_sub_chunk() {
    let mut root = Root::new("m".to_string(), mesh_bytes("k3mesh", b"1", &[chunk("bogus", &[])]));
    assert!(matches!(load(&mut root), Err(Error::Chunk(n)) if n == "bogus"));
}

#[test]
fn rejects_sub_chunk_with_bytes_left() {
    let mut sub = index_chunk(b'B', 1);
    sub[11] += 2;
    sub.extend_from_slice(&[0, 0]);
    let mut root = Root::new("m".to_string(), mesh_bytes("k3mesh", b"1", &[sub]));
    assert!(matches!(load(&mut root), Err(Error::Leftover(n)) if n == "index"));
}

#[test]
fn rejects_names_that_are_not_utf8() {
    let mut content = text(&[0xff, 0xfe]);
    content.extend_from_slice(&3u32.to_be_bytes());
    let mut root = Root::new("m".to_string(), chunk("k3mesh", &content));
    assert!(matches!(load(&mut root), Err(Error::Text)));
}

#[test]
fn attribute_type_table() {
    let int = |normalized, size, signed| Some(AttribType::Int { normalized, size, signed });
    assert_eq!(parse_type('b', 0), int(false, IntSize::U8, true));
    assert_eq!(parse_type('B', 1), int(true, IntSize::U8, false));
    assert_eq!(parse_type('s', 1), int(true, IntSize::U16, true));
    assert_eq!(parse_type('S', 0), int(false, IntSize::U16, false));
    assert_eq!(parse_type('l', 0), int(false, IntSize::U32, true));
    assert_eq!(parse_type('L', 1), int(true, IntSize::U32, false));
    assert_eq!(parse_type('h', 0), Some(AttribType::Float(FloatSize::F16)));
    assert_eq!(parse_type('f', 0), Some(AttribType::Float(FloatSize::F32)));
    assert_eq!(parse_type('f', 1), None);
    assert_eq!(parse_type('b', 2), None);
    assert_eq!(parse_type('q', 0), None);
    assert_eq!(AttribType::Float(FloatSize::F16).get_size(), 2);
    assert_eq!(parse_type('L', 0).unwrap().get_size(), 4);
}

#[test]
fn topology_codes() {
    assert_eq!(parse_topology(&"1".to_string()), Some(Topology::Point));
    assert_eq!(parse_topology(&"2".to_string()), Some(Topology::Line));
    assert_eq!(parse_topology(&"2s".to_string()), Some(Topology::LineStrip));
    assert_eq!(parse_topology(&"3".to_string()), Some(Topology::TriangleList));
    assert_eq!(parse_topology(&"3s".to_string()), Some(Topology::TriangleStrip));
    assert_eq!(parse_topology(&"3f".to_string()), Some(Topology::TriangleFan));
    assert_eq!(parse_topology(&"3x".to_string()), None);
    assert_eq!(parse_topology(&"".to_string()), None);
}
