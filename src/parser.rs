use byteorder::ByteOrder;
use vstd::arithmetic::power2::pow2;
use vstd::prelude::*;

use crate::bits::{lemma_pow2_mono, pow2_u32};
use crate::error::GifError;
use crate::frame::{
    assemble_frame, deinterlaced, disposal_from_field, disposal_of, frame_model, pixels_wf, Color, Frame, FrameModel,
    GraphicsControlExtension, ImageDescriptor, LogicalScreenDescriptor,
};
use crate::lzw::{lzw_decode, lzw_decode_spec};

verus! {

/// The little-endian 16-bit value at `p`.
pub open spec fn le16(b: Seq<u8>, p: int) -> int {
    b[p] as int + 256 * b[p + 1] as int
}

/// Relies on byteorder's `LittleEndian::read_u16`: the two bytes at `pos`,
/// least significant first. It panics on fewer than two bytes, which
/// `requires` rules out.
#[verifier::external_body]
fn read_le_u16(buf: &[u8], pos: usize) -> (r: u16)
    requires
        pos + 2 <= buf@.len(),
    ensures
        r as int == le16(buf@, pos as int),
{
    byteorder::LittleEndian::read_u16(&buf[pos..])
}

/// The number of entries of a color table whose size field is `size`.
pub open spec fn table_entries(size: u8) -> nat {
    pow2(size as nat + 1)
}

/// The `n` colors stored as RGB triples from `p` on, each made opaque.
pub open spec fn colors_at(b: Seq<u8>, p: int, n: nat) -> Seq<Color> {
    Seq::new(
        n,
        |i: int| Color { red: b[p + 3 * i], green: b[p + 3 * i + 1], blue: b[p + 3 * i + 2], alpha: 255 },
    )
}

/// The logical screen descriptor stored from `p` on.
pub open spec fn screen_descriptor_at(b: Seq<u8>, p: int) -> LogicalScreenDescriptor {
    LogicalScreenDescriptor {
        width: le16(b, p) as u16,
        height: le16(b, p + 2) as u16,
        global_color_flag: b[p + 4] & 0x80 != 0,
        color_resolution: (b[p + 4] & 0x70) >> 4,
        sorted_flag: b[p + 4] & 0x08 != 0,
        global_color_size: b[p + 4] & 0x07,
        background_color_index: b[p + 5],
        pixel_aspect_ratio: b[p + 6],
    }
}

/// The graphics control extension whose block-size byte is at `p`.
pub open spec fn control_extension_at(b: Seq<u8>, p: int) -> GraphicsControlExtension {
    GraphicsControlExtension {
        disposal_method: disposal_of((b[p + 1] & 0x1c) >> 2),
        user_input_flag: b[p + 1] & 0x02 != 0,
        transparent_color_flag: b[p + 1] & 0x01 != 0,
        delay_time: le16(b, p + 2) as u16,
        transparent_color_index: b[p + 4],
    }
}

/// The image descriptor stored from `p` on, after the separator.
pub open spec fn image_descriptor_at(b: Seq<u8>, p: int) -> ImageDescriptor {
    ImageDescriptor {
        left: le16(b, p) as u16,
        top: le16(b, p + 2) as u16,
        width: le16(b, p + 4) as u16,
        height: le16(b, p + 6) as u16,
        local_color_table_flag: b[p + 8] & 0x80 != 0,
        interlace_flag: b[p + 8] & 0x40 != 0,
        sort_flag: b[p + 8] & 0x20 != 0,
        local_color_table_size: b[p + 8] & 0x07,
    }
}

/// The payload of the sub-blocks from `p` on, concatenated, and the position
/// after their zero-length terminator; `None` where the buffer ends first.
pub open spec fn sub_blocks(b: Seq<u8>, p: nat) -> Option<(Seq<u8>, nat)>
    decreases b.len() - p,
{
    if p >= b.len() {
        None
    } else if b[p as int] == 0 {
        Some((Seq::empty(), p + 1))
    } else {
        let q: nat = (p + 1 + b[p as int]) as nat;
        if q > b.len() {
            None
        } else {
            match sub_blocks(b, q) {
                Some(t) => Some((b.subrange(p + 1 as int, q as int) + t.0, t.1)),
                None => None,
            }
        }
    }
}

/// Where the minimum code size byte of the image block whose descriptor starts
/// at `p` stands: after the descriptor and the local table, if any.
pub open spec fn code_size_pos(b: Seq<u8>, p: int) -> int {
    let d = image_descriptor_at(b, p);
    if d.local_color_table_flag {
        p + 9 + 3 * table_entries(d.local_color_table_size)
    } else {
        p + 9
    }
}

/// The outcome of reading the image block whose descriptor starts at `p`,
/// for a frame that gets `gce` and a global table of `global_len` entries:
/// the frame and the position after its data.
pub open spec fn image_at(b: Seq<u8>, p: int, gce: GraphicsControlExtension, global_len: nat) -> Result<(FrameModel, nat), GifError> {
    let d = image_descriptor_at(b, p);
    let q = code_size_pos(b, p);
    if p + 9 > b.len() || q >= b.len() {
        Err(GifError::UnexpectedEof)
    } else if b[q] < 1 || b[q] > 8 {
        Err(GifError::MalformedBlock)
    } else {
        match sub_blocks(b, (q + 1) as nat) {
            None => Err(GifError::UnexpectedEof),
            Some(t) => match lzw_decode_spec(b[q] as nat, t.0) {
                Err(e) => Err(e),
                Ok(stream) => {
                    let n = table_entries(d.local_color_table_size);
                    let table_len = if d.local_color_table_flag { n } else { global_len };
                    if stream.len() != d.width * d.height {
                        Err(GifError::IndexStreamLengthMismatch)
                    } else if !pixels_wf(stream, d.width as nat, d.height as nat, table_len) {
                        Err(GifError::InvalidLzwCode)
                    } else {
                        Ok((
                            FrameModel {
                                gce,
                                descriptor: d,
                                local_table: if d.local_color_table_flag {
                                    Some(colors_at(b, p + 9, n))
                                } else {
                                    None
                                },
                                pixels: if d.interlace_flag {
                                    deinterlaced(stream, d.width as int, d.height as int)
                                } else {
                                    stream
                                },
                            },
                            t.1,
                        ))
                    }
                },
            },
        }
    }
}

pub open spec fn control_or_default(pending: Option<GraphicsControlExtension>) -> GraphicsControlExtension {
    match pending {
        Some(g) => g,
        None => GraphicsControlExtension::spec_default(),
    }
}

/// One top-level block, as values.
pub enum BlockModel {
    Control(GraphicsControlExtension),
    Skipped,
    Image(FrameModel),
    Trailer,
}

/// The block that starts at `p` and the position after it. `pending` is the
/// graphics control extension read since the last image, if any.
pub open spec fn block_at(b: Seq<u8>, p: nat, pending: Option<GraphicsControlExtension>, global_len: nat) -> Result<(BlockModel, nat), GifError> {
    if p >= b.len() {
        Err(GifError::UnexpectedEof)
    } else if b[p as int] == 0x21 {
        if p + 1 >= b.len() {
            Err(GifError::UnexpectedEof)
        } else {
            let label = b[p + 1 as int];
            let r: nat = p + 2;
            if label == 0xF9 {
                if r + 6 > b.len() {
                    Err(GifError::UnexpectedEof)
                } else if b[r as int] != 4 || b[r + 5 as int] != 0 {
                    Err(GifError::MalformedBlock)
                } else {
                    Ok((BlockModel::Control(control_extension_at(b, r as int)), r + 6))
                }
            } else if label == 0x01 || label == 0xFF {
                match headed_sub_blocks_end(b, r) {
                    None => Err(GifError::UnexpectedEof),
                    Some(q) => Ok((BlockModel::Skipped, q)),
                }
            } else if label == 0xFE {
                match sub_blocks(b, r) {
                    None => Err(GifError::UnexpectedEof),
                    Some(t) => Ok((BlockModel::Skipped, t.1)),
                }
            } else {
                Err(GifError::UnknownExtension)
            }
        }
    } else if b[p as int] == 0x2C {
        match image_at(b, p + 1 as int, control_or_default(pending), global_len) {
            Err(e) => Err(e),
            Ok(t) => Ok((BlockModel::Image(t.0), t.1)),
        }
    } else if b[p as int] == 0x3B {
        Ok((BlockModel::Trailer, p + 1))
    } else {
        Err(GifError::MalformedBlock)
    }
}

/// The frames of the block stream from `p` up to the trailer. Each image gets
/// the graphics control extension read since the previous image, if any.
pub open spec fn block_stream(b: Seq<u8>, p: nat, pending: Option<GraphicsControlExtension>, global_len: nat) -> Result<Seq<FrameModel>, GifError>
    decreases b.len() - p,
{
    match block_at(b, p, pending, global_len) {
        Err(e) => Err(e),
        Ok(t) => {
            let q = t.1;
            if !(p < q <= b.len()) {
                Err(GifError::MalformedBlock)
            } else {
                match t.0 {
                    BlockModel::Trailer => Ok(Seq::empty()),
                    BlockModel::Control(g) => block_stream(b, q, Some(g), global_len),
                    BlockModel::Skipped => block_stream(b, q, pending, global_len),
                    BlockModel::Image(f) => match block_stream(b, q, None, global_len) {
                        Ok(rest) => Ok(seq![f] + rest),
                        Err(e) => Err(e),
                    },
                }
            }
        },
    }
}

pub proof fn lemma_sub_blocks_end(b: Seq<u8>, p: nat)
    ensures
        sub_blocks(b, p) matches Some(t) ==> p < t.1 <= b.len(),
    decreases b.len() - p,
{
    if p < b.len() && b[p as int] != 0 {
        let q: nat = (p + 1 + b[p as int]) as nat;
        if q <= b.len() {
            lemma_sub_blocks_end(b, q);
        }
    }
}

/// A block made of a length-prefixed header and then sub-blocks, as plain text
/// and application extensions are: the position after it, if the buffer holds it.
pub open spec fn headed_sub_blocks_end(b: Seq<u8>, p: nat) -> Option<nat> {
    if p >= b.len() || p + 1 + b[p as int] > b.len() {
        None
    } else {
        match sub_blocks(b, (p + 1 + b[p as int]) as nat) {
            Some(t) => Some(t.1),
            None => None,
        }
    }
}

/// The length of the table that a frame's indices resolve against: its local
/// table if it has one, else the global table (or none at all).
pub open spec fn resolving_len(local: Option<Vec<Color>>, global_len: nat) -> nat {
    match local {
        Some(t) => t@.len(),
        None => global_len,
    }
}

pub open spec fn frame_wf(f: Frame, global_len: nat) -> bool {
    &&& pixels_wf(
        f.pixels@,
        f.descriptor.width as nat,
        f.descriptor.height as nat,
        resolving_len(f.local_table, global_len),
    )
    &&& (f.local_table is Some <==> f.descriptor.local_color_table_flag)
    &&& f.local_table is Some ==> f.local_table->Some_0@.len() == table_entries(f.descriptor.local_color_table_size)
}

/// A decoded GIF document.
#[derive(Debug, Clone)]
pub struct Gif {
    /// The three version bytes as they stand in the file (`87a`, `89a`, or other).
    pub version: Vec<u8>,
    pub lsd: LogicalScreenDescriptor,
    pub global_table: Option<Vec<Color>>,
    pub frames: Vec<Frame>,
}

pub open spec fn global_len(t: Option<Vec<Color>>) -> nat {
    match t {
        Some(v) => v@.len(),
        None => 0,
    }
}

impl Gif {
    /// Every frame has one index per pixel, each below the length of the table
    /// that resolves it.
    pub open spec fn wf(&self) -> bool {
        forall|i: int| 0 <= i < self.frames@.len() ==> frame_wf(#[trigger] self.frames@[i], global_len(self.global_table))
    }
}

pub open spec fn is_gif_signature(b: Seq<u8>) -> bool {
    b.len() >= 3 && b[0] == 0x47 && b[1] == 0x49 && b[2] == 0x46
}

/// Where the block stream starts: after the header, the screen descriptor
/// and the global table, if any.
pub open spec fn blocks_start(b: Seq<u8>) -> nat {
    let lsd = screen_descriptor_at(b, 6);
    if lsd.global_color_flag {
        13 + 3 * table_entries(lsd.global_color_size)
    } else {
        13
    }
}

/// The number of global table entries that the screen descriptor declares.
pub open spec fn declared_global_len(b: Seq<u8>) -> nat {
    let lsd = screen_descriptor_at(b, 6);
    if lsd.global_color_flag {
        table_entries(lsd.global_color_size)
    } else {
        0
    }
}

/// One top-level block as read.
pub enum Block {
    Control(GraphicsControlExtension),
    Skipped,
    Image(Frame),
    Trailer,
}

pub open spec fn block_model(k: Block) -> BlockModel {
    match k {
        Block::Control(g) => BlockModel::Control(g),
        Block::Skipped => BlockModel::Skipped,
        Block::Image(f) => BlockModel::Image(frame_model(f)),
        Block::Trailer => BlockModel::Trailer,
    }
}

/// The parser's cursor over a byte buffer.
pub struct Decoder {
    pub offset: usize,
}

impl Decoder {
    pub fn new() -> (r: Decoder)
        ensures
            r.offset == 0,
    {
        Decoder { offset: 0 }
    }

    pub fn increment_offset(&mut self, amount: usize)
        requires
            old(self).offset + amount <= usize::MAX,
        ensures
            final(self).offset == old(self).offset + amount,
    {
        self.offset = self.offset + amount;
    }

    /// `val` shifted left by `shift`, or `def` where the shift is eight or more.
    pub fn shl_or(&mut self, val: u8, shift: usize, def: u8) -> (r: u8)
        ensures
            shift < 8 ==> r == ((val as u32) << (shift as u32)) as u8,
            shift >= 8 ==> r == def,
            *final(self) == *old(self),
    {
        if shift < 8 {
            ((val as u32) << (shift as u32)) as u8
        } else {
            def
        }
    }

    /// `val` shifted right by `shift`, or `def` where the shift is eight or more.
    pub fn shr_or(&mut self, val: u8, shift: usize, def: u8) -> (r: u8)
        ensures
            shift < 8 ==> r == val >> (shift as u8),
            shift >= 8 ==> r == def,
            *final(self) == *old(self),
    {
        if shift < 8 {
            val >> (shift as u8)
        } else {
            def
        }
    }

    pub fn read_byte(&mut self, contents: &[u8]) -> (r: Result<u8, GifError>)
        ensures
            old(self).offset < contents@.len() ==> r == Ok::<u8, GifError>(contents@[old(self).offset as int])
                && final(self).offset == old(self).offset + 1,
            old(self).offset >= contents@.len() ==> r == Err::<u8, GifError>(GifError::UnexpectedEof)
                && final(self).offset == old(self).offset,
    {
        if self.offset >= contents.len() {
            return Err(GifError::UnexpectedEof);
        }
        let v = contents[self.offset];
        self.offset = self.offset + 1;
        Ok(v)
    }

    pub fn read_u16(&mut self, contents: &[u8]) -> (r: Result<u16, GifError>)
        ensures
            old(self).offset + 2 <= contents@.len() ==> r is Ok && r->Ok_0 as int == le16(
                contents@,
                old(self).offset as int,
            ) && final(self).offset == old(self).offset + 2,
            old(self).offset + 2 > contents@.len() ==> r == Err::<u16, GifError>(GifError::UnexpectedEof)
                && final(self).offset == old(self).offset,
    {
        if self.offset > contents.len() || contents.len() - self.offset < 2 {
            return Err(GifError::UnexpectedEof);
        }
        let v = read_le_u16(contents, self.offset);
        self.offset = self.offset + 2;
        Ok(v)
    }

    /// Reads the seven-byte logical screen descriptor at the cursor.
    pub fn handle_logical_screen_descriptor(&mut self, contents: &[u8]) -> (r: Result<LogicalScreenDescriptor, GifError>)
        ensures
            old(self).offset + 7 <= contents@.len() ==> r == Ok::<LogicalScreenDescriptor, GifError>(
                screen_descriptor_at(contents@, old(self).offset as int),
            ) && final(self).offset == old(self).offset + 7,
            old(self).offset + 7 > contents@.len() ==> r == Err::<LogicalScreenDescriptor, GifError>(
                GifError::UnexpectedEof,
            ),
    {
        if self.offset > contents.len() || contents.len() - self.offset < 7 {
            return Err(GifError::UnexpectedEof);
        }
        let width = self.read_u16(contents).unwrap();
        let height = self.read_u16(contents).unwrap();
        let packed = self.read_byte(contents).unwrap();
        let background_color_index = self.read_byte(contents).unwrap();
        let pixel_aspect_ratio = self.read_byte(contents).unwrap();
        Ok(LogicalScreenDescriptor {
            width,
            height,
            global_color_flag: packed & 0x80 != 0,
            color_resolution: (packed & 0x70) >> 4,
            sorted_flag: packed & 0x08 != 0,
            global_color_size: packed & 0x07,
            background_color_index,
            pixel_aspect_ratio,
        })
    }

    /// Reads a color table of `2^(size+1)` RGB triples at the cursor.
    pub fn read_color_table(&mut self, contents: &[u8], size: u8) -> (r: Result<Vec<Color>, GifError>)
        requires
            size <= 7,
        ensures
            old(self).offset + 3 * table_entries(size) <= contents@.len() ==> r is Ok && r->Ok_0@ == colors_at(
                contents@,
                old(self).offset as int,
                table_entries(size),
            ) && final(self).offset == old(self).offset + 3 * table_entries(size),
            old(self).offset + 3 * table_entries(size) > contents@.len() ==> r == Err::<Vec<Color>, GifError>(
                GifError::UnexpectedEof,
            ),
    {
        let n: usize = pow2_u32(size as u32 + 1) as usize;
        proof {
            lemma_pow2_mono(size as nat + 1, 8);
            vstd::arithmetic::power2::lemma2_to64();
        }
        if self.offset > contents.len() || contents.len() - self.offset < 3 * n {
            return Err(GifError::UnexpectedEof);
        }
        let start: usize = self.offset;
        let clen: usize = contents.len();
        let mut table: Vec<Color> = Vec::new();
        let mut i: usize = 0;
        while i < n
            invariant
                clen == contents@.len(),
                n == table_entries(size),
                n <= 256,
                start + 3 * n <= contents@.len(),
                i <= n,
                table@ == colors_at(contents@, start as int, n as nat).subrange(0, i as int),
            decreases n - i,
        {
            let p: usize = start + 3 * i;
            table.push(Color { red: contents[p], green: contents[p + 1], blue: contents[p + 2], alpha: 255 });
            i = i + 1;
            assert(table@ =~= colors_at(contents@, start as int, n as nat).subrange(0, i as int));
        }
        assert(table@ =~= colors_at(contents@, start as int, n as nat));
        self.offset = start + 3 * n;
        Ok(table)
    }

    /// Reads a graphics control extension, the cursor just after its label.
    pub fn handle_graphic_control_extension(&mut self, contents: &[u8]) -> (r: Result<GraphicsControlExtension, GifError>)
        ensures
            old(self).offset + 6 > contents@.len() ==> r == Err::<GraphicsControlExtension, GifError>(
                GifError::UnexpectedEof,
            ),
            old(self).offset + 6 <= contents@.len() ==> {
                let p = old(self).offset as int;
                if contents@[p] != 4 || contents@[p + 5] != 0 {
                    r == Err::<GraphicsControlExtension, GifError>(GifError::MalformedBlock)
                } else {
                    r == Ok::<GraphicsControlExtension, GifError>(control_extension_at(contents@, p))
                        && final(self).offset == p + 6
                }
            },
    {
        if self.offset > contents.len() || contents.len() - self.offset < 6 {
            return Err(GifError::UnexpectedEof);
        }
        let block_size = self.read_byte(contents).unwrap();
        if block_size != 4 {
            return Err(GifError::MalformedBlock);
        }
        let packed = self.read_byte(contents).unwrap();
        let delay_time = self.read_u16(contents).unwrap();
        let transparent_color_index = self.read_byte(contents).unwrap();
        let terminator = self.read_byte(contents).unwrap();
        if terminator != 0 {
            return Err(GifError::MalformedBlock);
        }
        Ok(GraphicsControlExtension {
            disposal_method: disposal_from_field((packed & 0x1c) >> 2),
            user_input_flag: packed & 0x02 != 0,
            transparent_color_flag: packed & 0x01 != 0,
            delay_time,
            transparent_color_index,
        })
    }

    /// Reads sub-blocks up to and including the zero-length terminator, and
    /// returns their payload.
    pub fn read_sub_blocks(&mut self, contents: &[u8]) -> (r: Result<Vec<u8>, GifError>)
        ensures
            match sub_blocks(contents@, old(self).offset as nat) {
                Some(t) => r is Ok && r->Ok_0@ == t.0 && final(self).offset == t.1,
                None => r == Err::<Vec<u8>, GifError>(GifError::UnexpectedEof),
            },
            r is Ok ==> old(self).offset < final(self).offset <= contents@.len(),
    {
        let ghost start = self.offset as nat;
        if self.offset >= contents.len() {
            return Err(GifError::UnexpectedEof);
        }
        let mut data: Vec<u8> = Vec::new();
        assert(data@ + Seq::<u8>::empty() =~= data@);
        loop
            invariant
                start == old(self).offset as nat,
                self.offset <= contents@.len() + 1,
                sub_blocks(contents@, start) == match sub_blocks(contents@, self.offset as nat) {
                    Some(t) => Some((data@ + t.0, t.1)),
                    None => None::<(Seq<u8>, nat)>,
                },
            decreases contents@.len() + 1 - self.offset,
        {
            let ghost here = self.offset as nat;
            let n = match self.read_byte(contents) {
                Ok(v) => v,
                Err(e) => {
                    return Err(e);
                },
            };
            if n == 0 {
                proof {
                    lemma_sub_blocks_end(contents@, start);
                }
                assert(data@ + Seq::<u8>::empty() =~= data@);
                return Ok(data);
            }
            let len: usize = n as usize;
            if contents.len() - self.offset < len {
                return Err(GifError::UnexpectedEof);
            }
            let ghost before = data@;
            let pos: usize = self.offset;
            let clen: usize = contents.len();
            let mut k: usize = 0;
            while k < len
                invariant
                    clen == contents@.len(),
                    pos + len <= contents@.len(),
                    k <= len,
                    data@ == before + contents@.subrange(pos as int, pos + k),
                decreases len - k,
            {
                data.push(contents[pos + k]);
                k = k + 1;
                assert(data@ =~= before + contents@.subrange(pos as int, pos + k));
            }
            self.offset = pos + len;
            proof {
                let q = self.offset as nat;
                assert(here + 1 + n == q);
                match sub_blocks(contents@, q) {
                    Some(t) => {
                        assert(before + (contents@.subrange(here + 1 as int, q as int) + t.0) =~= data@ + t.0);
                    },
                    None => {},
                }
            }
        }
    }

    /// Skips a length-prefixed header block and the sub-blocks after it.
    fn skip_headed_sub_blocks(&mut self, contents: &[u8]) -> (r: Result<(), GifError>)
        ensures
            match headed_sub_blocks_end(contents@, old(self).offset as nat) {
                Some(q) => r is Ok && final(self).offset == q,
                None => r == Err::<(), GifError>(GifError::UnexpectedEof),
            },
            r is Ok ==> old(self).offset < final(self).offset <= contents@.len(),
    {
        let n = match self.read_byte(contents) {
            Ok(v) => v,
            Err(e) => {
                return Err(e);
            },
        };
        if contents.len() - self.offset < n as usize {
            return Err(GifError::UnexpectedEof);
        }
        self.increment_offset(n as usize);
        match self.read_sub_blocks(contents) {
            Ok(_) => Ok(()),
            Err(e) => Err(e),
        }
    }

    /// Skips a plain text extension, the cursor just after its label.
    pub fn handle_plain_text_extension(&mut self, contents: &[u8]) -> (r: Result<(), GifError>)
        ensures
            match headed_sub_blocks_end(contents@, old(self).offset as nat) {
                Some(q) => r is Ok && final(self).offset == q,
                None => r == Err::<(), GifError>(GifError::UnexpectedEof),
            },
            r is Ok ==> old(self).offset < final(self).offset <= contents@.len(),
    {
        self.skip_headed_sub_blocks(contents)
    }

    /// Skips an application extension (identifier block, then its sub-blocks),
    /// the cursor just after its label.
    pub fn handle_application_extension(&mut self, contents: &[u8]) -> (r: Result<(), GifError>)
        ensures
            match headed_sub_blocks_end(contents@, old(self).offset as nat) {
                Some(q) => r is Ok && final(self).offset == q,
                None => r == Err::<(), GifError>(GifError::UnexpectedEof),
            },
            r is Ok ==> old(self).offset < final(self).offset <= contents@.len(),
    {
        self.skip_headed_sub_blocks(contents)
    }

    /// Skips a comment extension, the cursor just after its label.
    pub fn handle_comment_extension(&mut self, contents: &[u8]) -> (r: Result<(), GifError>)
        ensures
            match sub_blocks(contents@, old(self).offset as nat) {
                Some(t) => r is Ok && final(self).offset == t.1,
                None => r == Err::<(), GifError>(GifError::UnexpectedEof),
            },
            r is Ok ==> old(self).offset < final(self).offset <= contents@.len(),
    {
        match self.read_sub_blocks(contents) {
            Ok(_) => Ok(()),
            Err(e) => Err(e),
        }
    }

    /// Reads the top-level block at the cursor. An image gets `pending`, or
    /// the defaults where it is `None`.
    pub fn read_block(
        &mut self,
        contents: &[u8],
        pending: Option<GraphicsControlExtension>,
        global_len: usize,
    ) -> (r: Result<Block, GifError>)
        ensures
            match block_at(contents@, old(self).offset as nat, pending, global_len as nat) {
                Ok(t) => r is Ok && block_model(r->Ok_0) == t.0 && final(self).offset == t.1,
                Err(e) => r == Err::<Block, GifError>(e),
            },
            r is Ok ==> old(self).offset < final(self).offset <= contents@.len(),
            r matches Ok(Block::Image(f)) ==> frame_wf(f, global_len as nat),
    {
        let introducer = match self.read_byte(contents) {
            Ok(v) => v,
            Err(e) => {
                return Err(e);
            },
        };
        if introducer == 0x21 {
            let label = match self.read_byte(contents) {
                Ok(v) => v,
                Err(e) => {
                    return Err(e);
                },
            };
            if label == 0xF9 {
                match self.handle_graphic_control_extension(contents) {
                    Ok(g) => Ok(Block::Control(g)),
                    Err(e) => Err(e),
                }
            } else if label == 0x01 {
                match self.handle_plain_text_extension(contents) {
                    Ok(()) => Ok(Block::Skipped),
                    Err(e) => Err(e),
                }
            } else if label == 0xFF {
                match self.handle_application_extension(contents) {
                    Ok(()) => Ok(Block::Skipped),
                    Err(e) => Err(e),
                }
            } else if label == 0xFE {
                match self.handle_comment_extension(contents) {
                    Ok(()) => Ok(Block::Skipped),
                    Err(e) => Err(e),
                }
            } else {
                Err(GifError::UnknownExtension)
            }
        } else if introducer == 0x2C {
            let gce = match pending {
                Some(g) => g,
                None => GraphicsControlExtension::absent(),
            };
            match self.handle_image(contents, gce, global_len) {
                Ok(f) => Ok(Block::Image(f)),
                Err(e) => Err(e),
            }
        } else if introducer == 0x3B {
            Ok(Block::Trailer)
        } else {
            Err(GifError::MalformedBlock)
        }
    }

    /// Reads an image block, the cursor just after its separator: descriptor,
    /// optional local table, minimum code size and compressed data. The frame
    /// gets `gce`; its indices resolve against its local table, else against a
    /// global table of `global_len` entries.
    pub fn handle_image(
        &mut self,
        contents: &[u8],
        gce: GraphicsControlExtension,
        global_len: usize,
    ) -> (r: Result<Frame, GifError>)
        ensures
            match image_at(contents@, old(self).offset as int, gce, global_len as nat) {
                Ok(t) => r is Ok && frame_model(r->Ok_0) == t.0 && final(self).offset == t.1 && frame_wf(
                    r->Ok_0,
                    global_len as nat,
                ),
                Err(e) => r == Err::<Frame, GifError>(e),
            },
            r is Ok ==> old(self).offset < final(self).offset <= contents@.len(),
    {
        if self.offset > contents.len() || contents.len() - self.offset < 9 {
            return Err(GifError::UnexpectedEof);
        }
        let ghost start = self.offset as int;
        let left = self.read_u16(contents).unwrap();
        let top = self.read_u16(contents).unwrap();
        let width = self.read_u16(contents).unwrap();
        let height = self.read_u16(contents).unwrap();
        let packed = self.read_byte(contents).unwrap();
        let descriptor = ImageDescriptor {
            left,
            top,
            width,
            height,
            local_color_table_flag: packed & 0x80 != 0,
            interlace_flag: packed & 0x40 != 0,
            sort_flag: packed & 0x20 != 0,
            local_color_table_size: packed & 0x07,
        };
        assert(descriptor == image_descriptor_at(contents@, start));
        assert(packed & 0x07 <= 7) by (bit_vector);
        let local_table: Option<Vec<Color>> = if descriptor.local_color_table_flag {
            match self.read_color_table(contents, descriptor.local_color_table_size) {
                Ok(t) => Some(t),
                Err(e) => {
                    return Err(e);
                },
            }
        } else {
            None
        };
        let table_len: usize = match &local_table {
            Some(t) => t.len(),
            None => global_len,
        };
        let min_code_size = match self.read_byte(contents) {
            Ok(v) => v,
            Err(e) => {
                return Err(e);
            },
        };
        if min_code_size < 1 || min_code_size > 8 {
            return Err(GifError::MalformedBlock);
        }
        let data = match self.read_sub_blocks(contents) {
            Ok(d) => d,
            Err(e) => {
                return Err(e);
            },
        };
        let stream = match lzw_decode(min_code_size, &data) {
            Ok(s) => s,
            Err(e) => {
                return Err(e);
            },
        };
        assemble_frame(stream, descriptor, gce, local_table, table_len)
    }

    /// Decodes a whole GIF file held in `contents`. The cursor starts at the
    /// beginning of the buffer.
    pub fn decode(&mut self, contents: &[u8]) -> (r: Result<Gif, GifError>)
        ensures
            contents@.len() < 3 ==> r == Err::<Gif, GifError>(GifError::UnexpectedEof),
            contents@.len() >= 3 && !is_gif_signature(contents@) ==> r == Err::<Gif, GifError>(
                GifError::SignatureError,
            ) && final(self).offset == 0,
            is_gif_signature(contents@) && contents@.len() < 13 ==> r == Err::<Gif, GifError>(
                GifError::UnexpectedEof,
            ),
            is_gif_signature(contents@) && contents@.len() >= 13 && screen_descriptor_at(
                contents@,
                6,
            ).global_color_flag && contents@.len() < 13 + 3 * table_entries(
                screen_descriptor_at(contents@, 6).global_color_size,
            ) ==> r == Err::<Gif, GifError>(GifError::UnexpectedEof),
            is_gif_signature(contents@) && contents@.len() >= 13 && blocks_start(contents@) <= contents@.len() ==> match block_stream(
                contents@,
                blocks_start(contents@),
                None,
                declared_global_len(contents@),
            ) {
                Ok(fs) => r is Ok && r->Ok_0.frames@.map_values(|f: Frame| frame_model(f)) == fs,
                Err(e) => r == Err::<Gif, GifError>(e),
            },
            r is Ok ==> {
                let g = r->Ok_0;
                &&& is_gif_signature(contents@)
                &&& g.wf()
                &&& g.version@ == contents@.subrange(3, 6)
                &&& g.lsd == screen_descriptor_at(contents@, 6)
                &&& g.lsd.global_color_flag ==> g.global_table is Some && g.global_table->Some_0@ == colors_at(
                    contents@,
                    13,
                    table_entries(g.lsd.global_color_size),
                )
                &&& !g.lsd.global_color_flag ==> g.global_table is None
            },
    {
        self.offset = 0;
        if contents.len() < 3 {
            return Err(GifError::UnexpectedEof);
        }
        if !(contents[0] == 0x47 && contents[1] == 0x49 && contents[2] == 0x46) {
            return Err(GifError::SignatureError);
        }
        if contents.len() < 13 {
            return Err(GifError::UnexpectedEof);
        }
        let mut version: Vec<u8> = Vec::new();
        version.push(contents[3]);
        version.push(contents[4]);
        version.push(contents[5]);
        assert(version@ =~= contents@.subrange(3, 6));
        self.offset = 6;
        let lsd = match self.handle_logical_screen_descriptor(contents) {
            Ok(l) => l,
            Err(e) => {
                return Err(e);
            },
        };
        assert(lsd.global_color_size <= 7) by {
            let b = contents@[10];
            assert(b & 0x07 <= 7) by (bit_vector);
        }
        let global_table: Option<Vec<Color>> = if lsd.global_color_flag {
            match self.read_color_table(contents, lsd.global_color_size) {
                Ok(t) => Some(t),
                Err(e) => {
                    return Err(e);
                },
            }
        } else {
            None
        };
        let glen: usize = match &global_table {
            Some(t) => t.len(),
            None => 0,
        };
        let mut frames: Vec<Frame> = Vec::new();
        let mut pending: Option<GraphicsControlExtension> = None;
        proof {
            match block_stream(contents@, self.offset as nat, pending, glen as nat) {
                Ok(fs) => {
                    assert(frames@.map_values(|f: Frame| frame_model(f)) + fs =~= fs);
                },
                Err(e) => {},
            }
        }
        loop
            invariant_except_break
                block_stream(contents@, blocks_start(contents@), None, glen as nat) == match block_stream(
                    contents@,
                    self.offset as nat,
                    pending,
                    glen as nat,
                ) {
                    Ok(fs) => Ok(frames@.map_values(|f: Frame| frame_model(f)) + fs),
                    Err(e) => Err::<Seq<FrameModel>, GifError>(e),
                },
            invariant
                self.offset <= contents@.len(),
                is_gif_signature(contents@),
                contents@.len() >= 13,
                lsd == screen_descriptor_at(contents@, 6),
                version@ == contents@.subrange(3, 6),
                lsd.global_color_flag ==> global_table is Some && global_table->Some_0@ == colors_at(
                    contents@,
                    13,
                    table_entries(lsd.global_color_size),
                ),
                !lsd.global_color_flag ==> global_table is None,
                !(lsd.global_color_flag && contents@.len() < 13 + 3 * table_entries(lsd.global_color_size)),
                glen == global_len(global_table),
                glen == declared_global_len(contents@),
                forall|i: int| 0 <= i < frames@.len() ==> frame_wf(#[trigger] frames@[i], glen as nat),
            ensures
                block_stream(contents@, blocks_start(contents@), None, glen as nat) == Ok::<Seq<FrameModel>, GifError>(
                    frames@.map_values(|f: Frame| frame_model(f)),
                ),
            decreases contents@.len() - self.offset,
        {
            let ghost before = frames@;
            match self.read_block(contents, pending, glen) {
                Ok(Block::Control(g)) => {
                    pending = Some(g);
                },
                Ok(Block::Skipped) => {},
                Ok(Block::Image(f)) => {
                    pending = None;
                    let ghost fm = frame_model(f);
                    frames.push(f);
                    proof {
                        match block_stream(contents@, self.offset as nat, None, glen as nat) {
                            Ok(fs) => {
                                assert(frames@.map_values(|f: Frame| frame_model(f)) + fs
                                    =~= before.map_values(|f: Frame| frame_model(f)) + (seq![fm] + fs));
                            },
                            Err(e) => {},
                        }
                    }
                },
                Ok(Block::Trailer) => {
                    assert(frames@.map_values(|f: Frame| frame_model(f)) + Seq::<FrameModel>::empty()
                        =~= frames@.map_values(|f: Frame| frame_model(f)));
                    break;
                },
                Err(e) => {
                    return Err(e);
                },
            }
        }
        Ok(Gif { version, lsd, global_table, frames })
    }
}

} // verus!
