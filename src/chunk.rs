use vstd::prelude::*;
use vstd::utf8::{valid_utf8, decode_utf8};

verus! {

/// Bytes of a chunk name on disk, padded with zeros.
pub const NAME_LENGTH: u32 = 8;

/// The byte at offset `i` of the input; past the end the input reads as
/// zeros, as an exhausted stream leaves its buffer untouched.
pub open spec fn byte_at(input: Seq<u8>, i: int) -> u8 {
    if 0 <= i < input.len() {
        input[i]
    } else {
        0
    }
}

/// `num` bytes of the input from offset `start`.
pub open spec fn bytes_at(input: Seq<u8>, start: int, num: nat) -> Seq<u8> {
    Seq::new(num, |k: int| byte_at(input, start + k))
}

/// A 32-bit integer stored most significant byte first.
pub open spec fn be_u32(b0: u8, b1: u8, b2: u8, b3: u8) -> int {
    b0 as int * 0x100_0000 + b1 as int * 0x1_0000 + b2 as int * 0x100 + b3 as int
}

/// The bytes of `raw` before its first zero byte, or all of them.
pub open spec fn up_to_nul(raw: Seq<u8>) -> Seq<u8>
    decreases raw.len(),
{
    if raw.len() == 0 {
        raw
    } else if raw[0] == 0 {
        Seq::empty()
    } else {
        seq![raw[0]] + up_to_nul(raw.drop_first())
    }
}

/// Characters that `String::from_utf8_lossy` makes of the bytes.
pub uninterp spec fn lossy_text(bytes: Seq<u8>) -> Seq<char>;

/// Relies on `std::str::from_utf8`: `Ok` exactly when the bytes are valid
/// UTF-8, holding the characters they encode.
#[verifier::external_body]
pub(crate) fn text_from_utf8(bytes: &[u8]) -> (r: Option<String>)
    ensures
        r is Some <==> valid_utf8(bytes@),
        r matches Some(s) ==> s@ == decode_utf8(bytes@),
{
    match std::str::from_utf8(bytes) {
        Ok(s) => Some(s.to_owned()),
        Err(_) => None,
    }
}

/// Relies on `String::from_utf8_lossy`: valid UTF-8 is decoded as it is,
/// anything else has its bad sequences replaced.
#[verifier::external_body]
pub(crate) fn text_from_utf8_lossy(bytes: &[u8]) -> (r: String)
    ensures
        r@ == lossy_text(bytes@),
        valid_utf8(bytes@) ==> r@ == decode_utf8(bytes@),
{
    String::from_utf8_lossy(bytes).into_owned()
}

/// Reader of the chunked binary asset format over the bytes of one file.
///
/// It counts the bytes consumed, which is what chunk boundaries are
/// measured against.
#[derive(Debug)]
pub struct Root {
    pub name: String,
    input: Vec<u8>,
    offset: usize,
    buffer: Vec<u8>,
    position: u32,
}

impl Root {
    pub closed spec fn input(&self) -> Seq<u8> {
        self.input@
    }

    /// Bytes consumed so far.
    pub closed spec fn pos(&self) -> int {
        self.position as int
    }

    pub closed spec fn label(&self) -> Seq<char> {
        self.name@
    }

    /// The reader's own bookkeeping agrees with itself.
    pub closed spec fn consistent(&self) -> bool {
        self.offset == self.position
    }

    pub open spec fn wf(&self) -> bool {
        self.consistent() && 0 <= self.pos() <= u32::MAX
    }

    pub fn new(name: String, input: Vec<u8>) -> (r: Root)
        ensures
            r.wf(),
            r.label() == name@,
            r.input() == input@,
            r.pos() == 0,
    {
        Root { name, input, offset: 0, buffer: Vec::new(), position: 0 }
    }

    pub fn get_pos(&self) -> (r: u32)
        ensures
            r == self.pos(),
    {
        self.position
    }

    fn next_byte(&mut self) -> (r: u8)
        requires
            old(self).wf(),
            old(self).pos() < u32::MAX,
        ensures
            final(self).wf(),
            r == byte_at(old(self).input(), old(self).pos()),
            final(self).pos() == old(self).pos() + 1,
            final(self).input() == old(self).input(),
            final(self).label() == old(self).label(),
            final(self).buffer == old(self).buffer,
    {
        let b = if self.offset < self.input.len() {
            self.input[self.offset]
        } else {
            0
        };
        self.offset = self.offset + 1;
        self.position = self.position + 1;
        b
    }

    /// Consumes `num` bytes.
    pub fn skip(&mut self, num: u32)
        requires
            old(self).wf(),
            old(self).pos() + num <= u32::MAX,
        ensures
            final(self).wf(),
            final(self).pos() == old(self).pos() + num,
            final(self).input() == old(self).input(),
            final(self).label() == old(self).label(),
    {
        self.read_bytes(num);
    }

    /// Consumes `num` bytes and hands them out.
    pub fn read_bytes(&mut self, num: u32) -> (r: &[u8])
        requires
            old(self).wf(),
            old(self).pos() + num <= u32::MAX,
        ensures
            final(self).wf(),
            r@ == bytes_at(old(self).input(), old(self).pos(), num as nat),
            final(self).pos() == old(self).pos() + num,
            final(self).input() == old(self).input(),
            final(self).label() == old(self).label(),
    {
        self.buffer.clear();
        let ghost start = self.pos();
        let mut k: u32 = 0;
        while k < num
            invariant
                self.wf(),
                k <= num,
                start + num <= u32::MAX,
                self.pos() == start + k,
                self.input() == old(self).input(),
                self.label() == old(self).label(),
                self.buffer@ == bytes_at(old(self).input(), start, k as nat),
            decreases num - k,
        {
            let b = self.next_byte();
            self.buffer.push(b);
            assert(self.buffer@ =~= bytes_at(old(self).input(), start, (k + 1) as nat));
            k = k + 1;
        }
        self.buffer.as_slice()
    }

    pub fn read_u8(&mut self) -> (r: u8)
        requires
            old(self).wf(),
            old(self).pos() + 1 <= u32::MAX,
        ensures
            final(self).wf(),
            r == byte_at(old(self).input(), old(self).pos()),
            final(self).pos() == old(self).pos() + 1,
            final(self).input() == old(self).input(),
            final(self).label() == old(self).label(),
    {
        self.next_byte()
    }

    /// Reads a 32-bit integer stored most significant byte first.
    pub fn read_u32(&mut self) -> (r: u32)
        requires
            old(self).wf(),
            old(self).pos() + 4 <= u32::MAX,
        ensures
            final(self).wf(),
            r == be_u32(
                byte_at(old(self).input(), old(self).pos()),
                byte_at(old(self).input(), old(self).pos() + 1),
                byte_at(old(self).input(), old(self).pos() + 2),
                byte_at(old(self).input(), old(self).pos() + 3),
            ),
            final(self).pos() == old(self).pos() + 4,
            final(self).input() == old(self).input(),
            final(self).label() == old(self).label(),
    {
        let b0 = self.next_byte() as u32;
        let b1 = self.next_byte() as u32;
        let b2 = self.next_byte() as u32;
        let b3 = self.next_byte() as u32;
        b0 * 0x100_0000 + b1 * 0x1_0000 + b2 * 0x100 + b3
    }

    pub fn read_bool(&mut self) -> (r: bool)
        requires
            old(self).wf(),
            old(self).pos() + 1 <= u32::MAX,
        ensures
            final(self).wf(),
            r == (byte_at(old(self).input(), old(self).pos()) != 0),
            final(self).pos() == old(self).pos() + 1,
            final(self).input() == old(self).input(),
            final(self).label() == old(self).label(),
    {
        self.next_byte() != 0
    }

    /// Reads a string stored as a length byte and that many bytes of UTF-8.
    /// `None` when the bytes are not valid UTF-8; they are consumed either
    /// way.
    pub fn read_str(&mut self) -> (r: Option<String>)
        requires
            old(self).wf(),
            old(self).pos() + 256 <= u32::MAX,
        ensures
            final(self).wf(),
            ({
                let size = byte_at(old(self).input(), old(self).pos());
                let raw = bytes_at(old(self).input(), old(self).pos() + 1, size as nat);
                &&& final(self).pos() == old(self).pos() + 1 + size
                &&& (r is Some <==> valid_utf8(raw))
                &&& (r matches Some(s) ==> s@ == decode_utf8(raw))
            }),
            final(self).input() == old(self).input(),
            final(self).label() == old(self).label(),
    {
        let size = self.next_byte() as u32;
        let raw = self.read_bytes(size);
        text_from_utf8(raw)
    }

    /// Reads a chunk header: a name of `NAME_LENGTH` zero-padded bytes and a
    /// 32-bit size. The chunk's content is the `size` bytes that follow.
    pub fn enter(&mut self) -> (r: Chunk)
        requires
            old(self).wf(),
            old(self).pos() + NAME_LENGTH + 4 <= u32::MAX,
        ensures
            final(self).wf(),
            ({
                let p = old(self).pos();
                let input = old(self).input();
                let raw = bytes_at(input, p, NAME_LENGTH as nat);
                &&& final(self).pos() == p + NAME_LENGTH + 4
                &&& r.name@ == lossy_text(up_to_nul(raw))
                &&& (valid_utf8(up_to_nul(raw)) ==> r.name@ == decode_utf8(up_to_nul(raw)))
                &&& r.size == be_u32(
                    byte_at(input, p + 8),
                    byte_at(input, p + 9),
                    byte_at(input, p + 10),
                    byte_at(input, p + 11),
                )
                &&& r.end_pos == final(self).pos() + r.size
            }),
            final(self).input() == old(self).input(),
            final(self).label() == old(self).label(),
    {
        let raw = self.read_bytes(NAME_LENGTH);
        let mut len: usize = 0;
        proof {
            assert(raw@.subrange(0, raw@.len() as int) =~= raw@);
            assert(raw@.subrange(0, 0) + raw@ =~= raw@);
        }
        while len < raw.len() && raw[len] != 0
            invariant
                0 <= len <= raw@.len(),
                forall|k: int| 0 <= k < len ==> raw@[k] != 0,
                up_to_nul(raw@) == raw@.subrange(0, len as int) + up_to_nul(raw@.subrange(len as int, raw@.len() as int)),
            decreases raw@.len() - len,
        {
            proof {
                let rest = raw@.subrange(len as int, raw@.len() as int);
                assert(rest.drop_first() =~= raw@.subrange(len + 1, raw@.len() as int));
                assert(raw@.subrange(0, len + 1) =~= raw@.subrange(0, len as int) + seq![raw@[len as int]]);
            }
            len = len + 1;
        }
        proof {
            let rest = raw@.subrange(len as int, raw@.len() as int);
            if len < raw@.len() {
                assert(rest[0] == 0);
            } else {
                assert(rest.len() == 0);
            }
            assert(up_to_nul(raw@) =~= raw@.subrange(0, len as int));
        }
        let name = text_from_utf8_lossy(slice_prefix(raw, len));
        let size = self.read_u32();
        Chunk { name, size, end_pos: self.position as u64 + size as u64 }
    }
}

/// The first `len` elements of a slice.
fn slice_prefix(s: &[u8], len: usize) -> (r: &[u8])
    requires
        len <= s@.len(),
    ensures
        r@ == s@.subrange(0, len as int),
{
    vstd::slice::slice_subrange(s, 0, len)
}

/// A chunk being read: its name, its size, and the reader position at
/// which its content ends.
#[derive(Debug)]
pub struct Chunk {
    pub name: String,
    pub size: u32,
    pub end_pos: u64,
}

impl Chunk {
    pub fn get_name(&self) -> (r: &str)
        ensures
            r@ == self.name@,
    {
        self.name.as_str()
    }

    /// Whether the reader has not yet reached the end of the chunk.
    pub fn has_more(&self, root: &Root) -> (r: bool)
        ensures
            r == (root.pos() < self.end_pos),
    {
        (root.get_pos() as u64) < self.end_pos
    }

    /// Skips what is left of the chunk's content.
    pub fn ignore(self, root: &mut Root)
        requires
            old(root).wf(),
            old(root).pos() <= self.end_pos <= u32::MAX,
        ensures
            final(root).wf(),
            final(root).pos() == self.end_pos,
            final(root).input() == old(root).input(),
            final(root).label() == old(root).label(),
    {
        let left = (self.end_pos - root.get_pos() as u64) as u32;
        root.skip(left);
    }
}

} // verus!
