use vstd::prelude::*;
use vstd::utf8::{valid_utf8, decode_utf8};
pub use crate::chunk::NAME_LENGTH;
use crate::chunk::{lossy_text, text_from_utf8, text_from_utf8_lossy, up_to_nul};

verus! {

/// A 32-bit integer stored least significant byte first.
pub open spec fn le_u32(b: Seq<u8>) -> int {
    b[0] as int + b[1] as int * 0x100 + b[2] as int * 0x1_0000 + b[3] as int * 0x100_0000
}

/// Reader of the chunked format in its little-endian variant, where each
/// chunk counts down the bytes of content it has left. Reading past the
/// end of the input is not allowed.
#[derive(Debug)]
pub struct Root {
    pub name: String,
    input: Vec<u8>,
    offset: usize,
    buffer: Vec<u8>,
}

impl Root {
    pub closed spec fn input(&self) -> Seq<u8> {
        self.input@
    }

    /// Bytes consumed so far.
    pub closed spec fn pos(&self) -> int {
        self.offset as int
    }

    pub closed spec fn label(&self) -> Seq<char> {
        self.name@
    }

    /// Bytes not yet consumed.
    pub open spec fn rest(&self) -> Seq<u8> {
        self.input().subrange(self.pos(), self.input().len() as int)
    }

    pub closed spec fn wf(&self) -> bool {
        self.offset <= self.input@.len() <= usize::MAX
    }

    pub fn new(name: String, input: Vec<u8>) -> (r: Root)
        ensures
            r.wf(),
            r.label() == name@,
            r.input() == input@,
            r.pos() == 0,
    {
        // Records that the input's length fits in `usize`.
        let _size = input.len();
        Root { name, input, offset: 0, buffer: Vec::new() }
    }

    /// Whether `num` more bytes can be read.
    pub fn has_bytes(&self, num: u32) -> (r: bool)
        requires
            self.wf(),
        ensures
            r == (num <= self.rest().len()),
    {
        num as usize <= self.input.len() - self.offset
    }

    /// Consumes `num` bytes and hands them out.
    pub fn read_bytes(&mut self, num: u32) -> (r: &[u8])
        requires
            old(self).wf(),
            num <= old(self).rest().len(),
        ensures
            final(self).wf(),
            r@ == old(self).rest().take(num as int),
            final(self).pos() == old(self).pos() + num,
            final(self).input() == old(self).input(),
            final(self).label() == old(self).label(),
    {
        self.buffer.clear();
        let end = self.offset + num as usize;
        while self.offset < end
            invariant
                self.wf(),
                old(self).pos() <= self.pos() <= end <= self.input().len(),
                end == old(self).pos() + num,
                self.input() == old(self).input(),
                self.label() == old(self).label(),
                self.buffer@ == old(self).input().subrange(old(self).pos(), self.pos()),
            decreases end - self.pos(),
        {
            let b = self.input[self.offset];
            self.buffer.push(b);
            self.offset = self.offset + 1;
            assert(self.buffer@ =~= old(self).input().subrange(old(self).pos(), self.pos()));
        }
        assert(old(self).rest().take(num as int) =~= old(self).input().subrange(
            old(self).pos(),
            end as int,
        ));
        self.buffer.as_slice()
    }

    pub fn read_u8(&mut self) -> (r: u8)
        requires
            old(self).wf(),
            1 <= old(self).rest().len(),
        ensures
            final(self).wf(),
            r == old(self).rest()[0],
            final(self).pos() == old(self).pos() + 1,
            final(self).input() == old(self).input(),
            final(self).label() == old(self).label(),
    {
        let b = self.input[self.offset];
        self.offset = self.offset + 1;
        b
    }

    /// Reads a 32-bit integer stored least significant byte first.
    pub fn read_u32(&mut self) -> (r: u32)
        requires
            old(self).wf(),
            4 <= old(self).rest().len(),
        ensures
            final(self).wf(),
            r == le_u32(old(self).rest()),
            final(self).pos() == old(self).pos() + 4,
            final(self).input() == old(self).input(),
            final(self).label() == old(self).label(),
    {
        let b0 = self.read_u8() as u32;
        let b1 = self.read_u8() as u32;
        let b2 = self.read_u8() as u32;
        let b3 = self.read_u8() as u32;
        b0 + b1 * 0x100 + b2 * 0x1_0000 + b3 * 0x100_0000
    }

    pub fn read_bool(&mut self) -> (r: bool)
        requires
            old(self).wf(),
            1 <= old(self).rest().len(),
        ensures
            final(self).wf(),
            r == (old(self).rest()[0] != 0),
            final(self).pos() == old(self).pos() + 1,
            final(self).input() == old(self).input(),
            final(self).label() == old(self).label(),
    {
        self.read_u8() != 0
    }

    /// Reads a length byte and that many bytes of UTF-8; `None` when they
    /// are not valid UTF-8, consumed either way.
    pub fn read_string(&mut self) -> (r: Option<String>)
        requires
            old(self).wf(),
            1 <= old(self).rest().len(),
            1 + old(self).rest()[0] <= old(self).rest().len(),
        ensures
            final(self).wf(),
            ({
                let size = old(self).rest()[0] as int;
                let raw = old(self).rest().subrange(1, 1 + size);
                &&& final(self).pos() == old(self).pos() + 1 + size
                &&& (r is Some <==> valid_utf8(raw))
                &&& (r matches Some(s) ==> s@ == decode_utf8(raw))
            }),
            final(self).input() == old(self).input(),
            final(self).label() == old(self).label(),
    {
        let size = self.read_u8() as u32;
        let ghost mid = self.rest();
        let raw = self.read_bytes(size);
        assert(mid.take(size as int) =~= old(self).rest().subrange(1, 1 + size));
        text_from_utf8(raw)
    }

    /// Reads a chunk header: a name of `NAME_LENGTH` zero-padded bytes and
    /// a 32-bit size, the count of content bytes that follow.
    pub fn enter(&mut self) -> (r: Chunk)
        requires
            old(self).wf(),
            NAME_LENGTH + 4 <= old(self).rest().len(),
        ensures
            final(self).wf(),
            final(self).pos() == old(self).pos() + NAME_LENGTH + 4,
            r.label() == lossy_text(up_to_nul(old(self).rest().take(NAME_LENGTH as int))),
            valid_utf8(up_to_nul(old(self).rest().take(NAME_LENGTH as int))) ==> r.label()
                == decode_utf8(up_to_nul(old(self).rest().take(NAME_LENGTH as int))),
            r.left() == le_u32(old(self).rest().subrange(NAME_LENGTH as int, NAME_LENGTH + 4)),
            final(self).input() == old(self).input(),
            final(self).label() == old(self).label(),
    {
        let raw = self.read_bytes(NAME_LENGTH);
        let mut len: usize = 0;
        proof {
            assert(raw@.subrange(0, raw@.len() as int) =~= raw@);
            assert(raw@.subrange(0, 0) + raw@ =~= raw@);
        }
        while len < raw.len() && raw[len] != 0
            invariant
                0 <= len <= raw@.len(),
                up_to_nul(raw@) == raw@.subrange(0, len as int) + up_to_nul(
                    raw@.subrange(len as int, raw@.len() as int),
                ),
            decreases raw@.len() - len,
        {
            proof {
                let rest = raw@.subrange(len as int, raw@.len() as int);
                assert(rest.drop_first() =~= raw@.subrange(len + 1, raw@.len() as int));
                assert(raw@.subrange(0, len + 1) =~= raw@.subrange(0, len as int) + seq![
                    raw@[len as int],
                ]);
            }
            len = len + 1;
        }
        proof {
            let rest = raw@.subrange(len as int, raw@.len() as int);
            if len < raw@.len() {
                assert(rest[0] == 0);
            } else {
                assert(rest.len() == 0);
            }
            assert(up_to_nul(raw@) =~= raw@.subrange(0, len as int));
        }
        let name = text_from_utf8_lossy(vstd::slice::slice_subrange(raw, 0, len));
        let ghost mid = self.rest();
        let size = self.read_u32();
        proof {
            assert(mid =~= old(self).rest().subrange(NAME_LENGTH as int, old(self).rest().len() as int));
        }
        Chunk { name, size }
    }
}

/// A chunk being read through its reader: its name and the bytes of its
/// content not yet read.
#[derive(Debug)]
pub struct Chunk {
    name: String,
    size: u32,
}

impl Chunk {
    pub closed spec fn label(&self) -> Seq<char> {
        self.name@
    }

    /// Content bytes left.
    pub closed spec fn left(&self) -> int {
        self.size as int
    }

    pub fn get_name(&self) -> (r: &str)
        ensures
            r@ == self.label(),
    {
        self.name.as_str()
    }

    pub fn has_more(&self) -> (r: bool)
        ensures
            r == (self.left() != 0),
    {
        self.size != 0
    }

    fn count(&mut self, num: u32)
        requires
            num <= old(self).left(),
        ensures
            final(self).left() == old(self).left() - num,
            final(self).label() == old(self).label(),
    {
        self.size = self.size - num;
    }

    /// Consumes what is left of the content.
    pub fn skip(&mut self, root: &mut Root)
        requires
            old(root).wf(),
            old(self).left() <= old(root).rest().len(),
        ensures
            final(root).wf(),
            final(root).pos() == old(root).pos() + old(self).left(),
            final(root).input() == old(root).input(),
            final(self).left() == 0,
            final(self).label() == old(self).label(),
    {
        root.read_bytes(self.size);
        self.size = 0;
    }

    pub fn read_bytes<'r>(&mut self, root: &'r mut Root, num: u32) -> (r: &'r [u8])
        requires
            old(root).wf(),
            num <= old(self).left(),
            num <= old(root).rest().len(),
        ensures
            final(root).wf(),
            r@ == old(root).rest().take(num as int),
            final(root).pos() == old(root).pos() + num,
            final(root).input() == old(root).input(),
            final(self).left() == old(self).left() - num,
            final(self).label() == old(self).label(),
    {
        self.count(num);
        root.read_bytes(num)
    }

    pub fn read_u8(&mut self, root: &mut Root) -> (r: u8)
        requires
            old(root).wf(),
            1 <= old(self).left(),
            1 <= old(root).rest().len(),
        ensures
            final(root).wf(),
            r == old(root).rest()[0],
            final(root).pos() == old(root).pos() + 1,
            final(root).input() == old(root).input(),
            final(self).left() == old(self).left() - 1,
            final(self).label() == old(self).label(),
    {
        self.count(1);
        root.read_u8()
    }

    pub fn read_u32(&mut self, root: &mut Root) -> (r: u32)
        requires
            old(root).wf(),
            4 <= old(self).left(),
            4 <= old(root).rest().len(),
        ensures
            final(root).wf(),
            r == le_u32(old(root).rest()),
            final(root).pos() == old(root).pos() + 4,
            final(root).input() == old(root).input(),
            final(self).left() == old(self).left() - 4,
            final(self).label() == old(self).label(),
    {
        self.count(4);
        root.read_u32()
    }

    pub fn read_bool(&mut self, root: &mut Root) -> (r: bool)
        requires
            old(root).wf(),
            1 <= old(self).left(),
            1 <= old(root).rest().len(),
        ensures
            final(root).wf(),
            r == (old(root).rest()[0] != 0),
            final(root).pos() == old(root).pos() + 1,
            final(root).input() == old(root).input(),
            final(self).left() == old(self).left() - 1,
            final(self).label() == old(self).label(),
    {
        self.count(1);
        root.read_bool()
    }

    /// Reads a length-prefixed UTF-8 string from the content.
    pub fn read_string(&mut self, root: &mut Root) -> (r: Option<String>)
        requires
            old(root).wf(),
            1 <= old(root).rest().len(),
            1 + old(root).rest()[0] <= old(root).rest().len(),
            1 + old(root).rest()[0] <= old(self).left(),
        ensures
            final(root).wf(),
            ({
                let size = old(root).rest()[0] as int;
                let raw = old(root).rest().subrange(1, 1 + size);
                &&& final(root).pos() == old(root).pos() + 1 + size
                &&& final(self).left() == old(self).left() - 1 - size
                &&& (r is Some <==> valid_utf8(raw))
                &&& (r matches Some(s) ==> s@ == decode_utf8(raw))
            }),
            final(root).input() == old(root).input(),
            final(self).label() == old(self).label(),
    {
        let size = root.input[root.offset] as u32;
        self.count(1 + size);
        root.read_string()
    }

    /// Enters a chunk nested in this one; its header counts against this
    /// chunk's content.
    pub fn enter(&mut self, root: &mut Root) -> (r: Chunk)
        requires
            old(root).wf(),
            NAME_LENGTH + 4 <= old(self).left(),
            NAME_LENGTH + 4 <= old(root).rest().len(),
        ensures
            final(root).wf(),
            final(root).pos() == old(root).pos() + NAME_LENGTH + 4,
            r.label() == lossy_text(up_to_nul(old(root).rest().take(NAME_LENGTH as int))),
            r.left() == le_u32(old(root).rest().subrange(NAME_LENGTH as int, NAME_LENGTH + 4)),
            final(root).input() == old(root).input(),
            final(self).left() == old(self).left() - NAME_LENGTH - 4,
            final(self).label() == old(self).label(),
    {
        self.count(NAME_LENGTH + 4);
        root.enter()
    }
}

} // verus!
