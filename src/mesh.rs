use vstd::prelude::*;
use vstd::slice::slice_to_vec;
use vstd::utf8::decode_utf8;
use crate::chunk::{Root, NAME_LENGTH, be_u32, byte_at, bytes_at, lossy_text, up_to_nul};

verus! {

/// Size of one integer component.
#[derive(Clone, Copy, Debug, PartialEq, Eq, Structural)]
pub enum IntSize {
    U8,
    U16,
    U32,
}

/// Size of one floating-point component.
#[derive(Clone, Copy, Debug, PartialEq, Eq, Structural)]
pub enum FloatSize {
    F16,
    F32,
}

/// Type of the components of a vertex attribute.
#[derive(Clone, Copy, Debug, PartialEq, Eq, Structural)]
pub enum AttribType {
    /// Integer components; `normalized` ones are read as fractions of
    /// their range.
    Int { normalized: bool, size: IntSize, signed: bool },
    Float(FloatSize),
}

/// The attribute type that a format letter and a normalization flag stand
/// for: `b`/`B`, `s`/`S`, `l`/`L` for signed/unsigned 8, 16 and 32 bit
/// integers (flag 0 raw, 1 normalized), `h` and `f` for 16 and 32 bit
/// floats (flag 0 only).
pub open spec fn attrib_type_of(c: char, normalized: u8) -> Option<AttribType> {
    let int_size = if c == 'b' || c == 'B' {
        Some(IntSize::U8)
    } else if c == 's' || c == 'S' {
        Some(IntSize::U16)
    } else if c == 'l' || c == 'L' {
        Some(IntSize::U32)
    } else {
        None
    };
    match int_size {
        Some(size) => if normalized <= 1 {
            Some(
                AttribType::Int {
                    normalized: normalized == 1,
                    size,
                    signed: c == 'b' || c == 's' || c == 'l',
                },
            )
        } else {
            None
        },
        None => if normalized == 0 && c == 'h' {
            Some(AttribType::Float(FloatSize::F16))
        } else if normalized == 0 && c == 'f' {
            Some(AttribType::Float(FloatSize::F32))
        } else {
            None
        },
    }
}

/// Bytes taken by one component.
pub open spec fn type_size(t: AttribType) -> nat {
    match t {
        AttribType::Int { size, .. } => match size {
            IntSize::U8 => 1,
            IntSize::U16 => 2,
            IntSize::U32 => 4,
        },
        AttribType::Float(size) => match size {
            FloatSize::F16 => 2,
            FloatSize::F32 => 4,
        },
    }
}

pub fn parse_type(type_: char, normalized: u8) -> (r: Option<AttribType>)
    ensures
        r == attrib_type_of(type_, normalized),
{
    let size = if type_ == 'b' || type_ == 'B' {
        IntSize::U8
    } else if type_ == 's' || type_ == 'S' {
        IntSize::U16
    } else if type_ == 'l' || type_ == 'L' {
        IntSize::U32
    } else if normalized == 0 && type_ == 'h' {
        return Some(AttribType::Float(FloatSize::F16));
    } else if normalized == 0 && type_ == 'f' {
        return Some(AttribType::Float(FloatSize::F32));
    } else {
        return None;
    };
    if normalized <= 1 {
        Some(
            AttribType::Int {
                normalized: normalized == 1,
                size,
                signed: type_ == 'b' || type_ == 's' || type_ == 'l',
            },
        )
    } else {
        None
    }
}

impl AttribType {
    pub fn get_size(&self) -> (r: u8)
        ensures
            r == type_size(*self),
    {
        match self {
            AttribType::Int { size, .. } => match size {
                IntSize::U8 => 1,
                IntSize::U16 => 2,
                IntSize::U32 => 4,
            },
            AttribType::Float(size) => match size {
                FloatSize::F16 => 2,
                FloatSize::F32 => 4,
            },
        }
    }
}

/// How vertices are assembled into primitives.
#[derive(Clone, Copy, Debug, PartialEq, Eq, Structural)]
pub enum Topology {
    Point,
    Line,
    LineStrip,
    TriangleList,
    TriangleStrip,
    TriangleFan,
}

/// The topology that a code stands for: `1`, `2`, `2s`, `3`, `3s`, `3f`.
pub open spec fn topology_of(code: Seq<char>) -> Option<Topology> {
    if code == seq!['1'] {
        Some(Topology::Point)
    } else if code == seq!['2'] {
        Some(Topology::Line)
    } else if code == seq!['2', 's'] {
        Some(Topology::LineStrip)
    } else if code == seq!['3'] {
        Some(Topology::TriangleList)
    } else if code == seq!['3', 's'] {
        Some(Topology::TriangleStrip)
    } else if code == seq!['3', 'f'] {
        Some(Topology::TriangleFan)
    } else {
        None
    }
}

fn same_text(a: &String, lit: &str) -> (r: bool)
    ensures
        r == (a@ == lit@),
{
    *a == lit.to_owned()
}

pub fn parse_topology(code: &String) -> (r: Option<Topology>)
    ensures
        r == topology_of(code@),
{
    proof {
        reveal_strlit("1");
        reveal_strlit("2");
        reveal_strlit("2s");
        reveal_strlit("3");
        reveal_strlit("3s");
        reveal_strlit("3f");
        assert("1"@ =~= seq!['1']);
        assert("2"@ =~= seq!['2']);
        assert("2s"@ =~= seq!['2', 's']);
        assert("3"@ =~= seq!['3']);
        assert("3s"@ =~= seq!['3', 's']);
        assert("3f"@ =~= seq!['3', 'f']);
    }
    if same_text(code, "1") {
        Some(Topology::Point)
    } else if same_text(code, "2") {
        Some(Topology::Line)
    } else if same_text(code, "2s") {
        Some(Topology::LineStrip)
    } else if same_text(code, "3") {
        Some(Topology::TriangleList)
    } else if same_text(code, "3s") {
        Some(Topology::TriangleStrip)
    } else if same_text(code, "3f") {
        Some(Topology::TriangleFan)
    } else {
        None
    }
}

/// One vertex attribute: `elem_count` components of `elem_type`, at
/// `offset` bytes into each vertex of its buffer.
#[derive(Debug)]
pub struct Attribute {
    pub name: String,
    pub elem_count: u8,
    pub elem_type: AttribType,
    pub offset: u32,
}

/// Bytes of a sequence of attributes laid out one after the other.
pub open spec fn span(attrs: Seq<Attribute>) -> nat
    decreases attrs.len(),
{
    if attrs.len() == 0 {
        0
    } else {
        span(attrs.drop_last()) + attrs.last().elem_count as nat * type_size(attrs.last().elem_type)
    }
}

/// Interleaved vertex data: `stride` bytes per vertex.
#[derive(Debug)]
pub struct Buffer {
    pub stride: u8,
    pub data: Vec<u8>,
    pub attributes: Vec<Attribute>,
}

impl Buffer {
    /// Holds `vertex_count` vertices, whose attributes are packed in order
    /// and fill the stride exactly.
    pub open spec fn wf(&self, vertex_count: nat) -> bool {
        &&& self.data@.len() == vertex_count * self.stride
        &&& forall|k: int|
            0 <= k < self.attributes@.len() ==> (#[trigger] self.attributes@[k]).offset == span(
                self.attributes@.take(k),
            )
        &&& span(self.attributes@) == self.stride
    }
}

/// Width of one index.
#[derive(Clone, Copy, Debug, PartialEq, Eq, Structural)]
pub enum IndexSize {
    U8,
    U16,
    U32,
}

pub open spec fn index_width(size: IndexSize) -> nat {
    match size {
        IndexSize::U8 => 1,
        IndexSize::U16 => 2,
        IndexSize::U32 => 4,
    }
}

/// Index data: `count` indices of one width.
#[derive(Debug)]
pub struct Indices {
    pub size: IndexSize,
    pub count: u32,
    pub data: Vec<u8>,
}

/// A mesh as stored in a `k3mesh` chunk, ready to be uploaded.
#[derive(Debug)]
pub struct Mesh {
    pub name: String,
    pub vertex_count: u32,
    pub topology: Topology,
    pub buffers: Vec<Buffer>,
    pub indices: Option<Indices>,
}

impl Mesh {
    pub open spec fn wf(&self) -> bool {
        &&& forall|b: int|
            0 <= b < self.buffers@.len() ==> (#[trigger] self.buffers@[b]).wf(self.vertex_count as nat)
        &&& self.indices matches Some(ind) ==> ind.data@.len() == ind.count * index_width(ind.size)
    }
}

/// Why a mesh could not be read.
#[derive(Debug)]
pub enum Error {
    /// A sub-chunk of unknown kind.
    Chunk(String),
    /// The outer chunk is not a mesh.
    Signature(String),
    Topology(String),
    /// A second index sub-chunk.
    DoubleIndex,
    AttribType(char, u8),
    IndexType(char),
    /// The attributes do not fill the stride: the bytes they take.
    Stride(u32),
    /// A vertex format with a count and no type.
    Other,
    /// A string that is not UTF-8.
    Text,
    /// Positions past what the reader can count.
    TooLarge,
    /// A sub-chunk with bytes left after its content.
    Leftover(String),
}

/// The reader can consume `n` more bytes.
fn room(root: &Root, n: u32) -> (r: bool)
    ensures
        r == (root.pos() + n <= u32::MAX),
{
    (root.get_pos() as u64) + (n as u64) <= u32::MAX as u64
}

/// Name of the chunk whose header starts where `root` stands.
pub open spec fn header_name(root: Root) -> Seq<char> {
    lossy_text(up_to_nul(bytes_at(root.input(), root.pos(), NAME_LENGTH as nat)))
}

/// Reads the content of a `buffer` sub-chunk: stride, vertex format, the
/// data, then name and flags of each attribute.
fn read_buffer(root: &mut Root, vertex_count: u32) -> (r: Result<Buffer, Error>)
    requires
        old(root).wf(),
    ensures
        final(root).wf(),
        final(root).input() == old(root).input(),
        final(root).pos() >= old(root).pos(),
        r matches Ok(b) ==> b.wf(vertex_count as nat),
        !(r matches Err(Error::Signature(_))),
        !(r matches Err(Error::Topology(_))),
        r matches Err(Error::AttribType(c, f)) ==> attrib_type_of(c, f % 2) is None,
        !(r matches Err(Error::IndexType(_))),
{
    if !room(root, 1 + 256) {
        return Err(Error::TooLarge);
    }
    let stride = root.read_u8();
    let format = match root.read_str() {
        Some(s) => s,
        None => return Err(Error::Text),
    };
    proof {
        assert(vertex_count as int * stride as int <= 0xffff_ffff * 0xff) by (nonlinear_arith)
            requires
                vertex_count <= 0xffff_ffff,
                stride <= 0xff,
        ;
    }
    let total = vertex_count as u64 * stride as u64;
    if root.get_pos() as u64 + total > u32::MAX as u64 {
        return Err(Error::TooLarge);
    }
    let data = slice_to_vec(root.read_bytes(total as u32));
    let fbytes = format.as_str().as_bytes();
    let mut attributes: Vec<Attribute> = Vec::new();
    let mut offset: u32 = 0;
    let mut k: usize = 0;
    let ghost start = root.pos();
    while k < fbytes.len()
        invariant
            root.wf(),
            root.input() == old(root).input(),
            root.pos() >= start >= old(root).pos(),
            offset <= 255,
            offset == span(attributes@),
            forall|a: int|
                0 <= a < attributes@.len() ==> (#[trigger] attributes@[a]).offset == span(
                    attributes@.take(a),
                ),
        decreases fbytes@.len() - k,
    {
        let el_count = fbytes[k];
        if k + 1 >= fbytes.len() {
            return Err(Error::Other);
        }
        let type_ = fbytes[k + 1] as char;
        if !room(root, 256 + 1) {
            return Err(Error::TooLarge);
        }
        let name = match root.read_str() {
            Some(s) => s,
            None => return Err(Error::Text),
        };
        let flags = root.read_u8();
        let elem_type = match parse_type(type_, flags % 2) {
            Some(t) => t,
            None => return Err(Error::AttribType(type_, flags)),
        };
        let ghost before = attributes@;
        attributes.push(Attribute { name, elem_count: el_count, elem_type, offset });
        proof {
            assert(attributes@.drop_last() =~= before);
            assert forall|a: int|
                0 <= a < attributes@.len() implies (#[trigger] attributes@[a]).offset == span(
                attributes@.take(a),
            ) by {
                if a < before.len() {
                    assert(attributes@.take(a) =~= before.take(a));
                } else {
                    assert(attributes@.take(a) =~= before);
                }
            }
        }
        let width = elem_type.get_size();
        proof {
            assert(el_count as int * width as int <= 0xff * 4) by (nonlinear_arith)
                requires
                    el_count <= 0xff,
                    width <= 4,
            ;
        }
        offset = offset + el_count as u32 * width as u32;
        if offset > 255 {
            return Err(Error::Stride(offset));
        }
        k = k + 2;
    }
    if offset != stride as u32 {
        return Err(Error::Stride(offset));
    }
    Ok(Buffer { stride, data, attributes })
}

/// Reads the content of an `index` sub-chunk: count, width letter (`B`,
/// `S`, `L`), then the indices.
fn read_indices(root: &mut Root) -> (r: Result<Indices, Error>)
    requires
        old(root).wf(),
    ensures
        final(root).wf(),
        final(root).input() == old(root).input(),
        final(root).pos() >= old(root).pos(),
        r matches Ok(ind) ==> ind.data@.len() == ind.count * index_width(ind.size),
        !(r matches Err(Error::Signature(_))),
        !(r matches Err(Error::Topology(_))),
        r matches Err(Error::IndexType(c)) ==> c != 'B' && c != 'S' && c != 'L',
        !(r matches Err(Error::AttribType(_, _))),
{
    if !room(root, 5) {
        return Err(Error::TooLarge);
    }
    let count = root.read_u32();
    let format = root.read_u8() as char;
    let (size, width): (IndexSize, u64) = if format == 'B' {
        (IndexSize::U8, 1)
    } else if format == 'S' {
        (IndexSize::U16, 2)
    } else if format == 'L' {
        (IndexSize::U32, 4)
    } else {
        return Err(Error::IndexType(format));
    };
    proof {
        assert(count as int * width as int <= 0xffff_ffff * 4) by (nonlinear_arith)
            requires
                count <= 0xffff_ffff,
                width <= 4,
        ;
    }
    let total = count as u64 * width;
    if root.get_pos() as u64 + total > u32::MAX as u64 {
        return Err(Error::TooLarge);
    }
    let data = slice_to_vec(root.read_bytes(total as u32));
    Ok(Indices { size, count, data })
}

/// The bytes of the length-prefixed string stored at `pos`.
pub open spec fn str_at(input: Seq<u8>, pos: int) -> Seq<u8> {
    bytes_at(input, pos + 1, byte_at(input, pos) as nat)
}

fn next_str(root: &mut Root) -> (r: Result<String, Error>)
    requires
        old(root).wf(),
    ensures
        final(root).wf(),
        final(root).input() == old(root).input(),
        final(root).pos() >= old(root).pos(),
        !(r matches Err(Error::Signature(_))),
        !(r matches Err(Error::Topology(_))),
        !(r matches Err(Error::AttribType(_, _))),
        !(r matches Err(Error::IndexType(_))),
        r matches Ok(s) ==> s@ == decode_utf8(str_at(old(root).input(), old(root).pos()))
            && final(root).pos() == old(root).pos() + 1 + byte_at(old(root).input(), old(root).pos()),
{
    if !room(root, 256) {
        return Err(Error::TooLarge);
    }
    match root.read_str() {
        Some(s) => Ok(s),
        None => Err(Error::Text),
    }
}

/// Reads one mesh: a `k3mesh` chunk holding the mesh name, the vertex
/// count and the topology code, then `buffer` and at most one `index`
/// sub-chunk.
pub fn load(root: &mut Root) -> (r: Result<Mesh, Error>)
    requires
        old(root).wf(),
    ensures
        final(root).wf(),
        final(root).input() == old(root).input(),
        (r matches Err(Error::TooLarge)) || old(root).pos() + NAME_LENGTH + 4 <= u32::MAX,
        (r matches Err(Error::Signature(n))) <==> (old(root).pos() + NAME_LENGTH + 4 <= u32::MAX
            && header_name(*old(root)) != "k3mesh"@),
        r matches Err(Error::Signature(n)) ==> n@ == header_name(*old(root)),
        r matches Err(Error::Topology(c)) ==> topology_of(c@) is None,
        r matches Err(Error::AttribType(c, f)) ==> attrib_type_of(c, f % 2) is None,
        r matches Err(Error::IndexType(c)) ==> c != 'B' && c != 'S' && c != 'L',
        r matches Ok(m) ==> m.wf(),
        r matches Ok(m) ==> {
            let input = old(root).input();
            let p = old(root).pos() + NAME_LENGTH + 4;
            let q = p + 1 + byte_at(input, p);
            &&& m.name@ == decode_utf8(str_at(input, p))
            &&& m.vertex_count == be_u32(
                byte_at(input, q),
                byte_at(input, q + 1),
                byte_at(input, q + 2),
                byte_at(input, q + 3),
            )
            &&& topology_of(decode_utf8(str_at(input, q + 4))) == Some(m.topology)
        },
{
    if !room(root, NAME_LENGTH + 4) {
        return Err(Error::TooLarge);
    }
    let cmesh = root.enter();
    if !same_text(&cmesh.name, "k3mesh") {
        return Err(Error::Signature(cmesh.name));
    }
    let name = match next_str(root) {
        Ok(s) => s,
        Err(e) => return Err(e),
    };
    if !room(root, 4) {
        return Err(Error::TooLarge);
    }
    let vertex_count = root.read_u32();
    let code = match next_str(root) {
        Ok(s) => s,
        Err(e) => return Err(e),
    };
    let topology = match parse_topology(&code) {
        Some(t) => t,
        None => return Err(Error::Topology(code)),
    };
    let mut buffers: Vec<Buffer> = Vec::new();
    let mut indices: Option<Indices> = None;
    while cmesh.has_more(root)
        invariant
            root.wf(),
            root.input() == old(root).input(),
            old(root).pos() + NAME_LENGTH + 4 <= u32::MAX,
            !(header_name(*old(root)) != "k3mesh"@),
            forall|b: int|
                0 <= b < buffers@.len() ==> (#[trigger] buffers@[b]).wf(vertex_count as nat),
            indices matches Some(ind) ==> ind.data@.len() == ind.count * index_width(ind.size),
        decreases u32::MAX - root.pos(),
    {
        if !room(root, NAME_LENGTH + 4) {
            return Err(Error::TooLarge);
        }
        let cbuf = root.enter();
        if same_text(&cbuf.name, "buffer") {
            match read_buffer(root, vertex_count) {
                Ok(b) => buffers.push(b),
                Err(e) => return Err(e),
            }
        } else if same_text(&cbuf.name, "index") {
            if indices.is_some() {
                return Err(Error::DoubleIndex);
            }
            match read_indices(root) {
                Ok(ind) => indices = Some(ind),
                Err(e) => return Err(e),
            }
        } else {
            return Err(Error::Chunk(cbuf.name));
        }
        if cbuf.has_more(root) {
            return Err(Error::Leftover(cbuf.name));
        }
    }
    Ok(Mesh { name, vertex_count, topology, buffers, indices })
}

} // verus!
