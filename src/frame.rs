use vstd::prelude::*;

use crate::error::GifError;

verus! {

/// An RGBA color; table entries read from the file have `alpha == 255`.
#[derive(Debug, Clone, Copy, PartialEq, Eq, Structural)]
pub struct Color {
    pub red: u8,
    pub green: u8,
    pub blue: u8,
    pub alpha: u8,
}

/// What a renderer should do with a frame before drawing the next one.
#[derive(Debug, Clone, Copy, PartialEq, Eq, Structural)]
pub enum DisposalMethod {
    NoAction,
    DoNotDispose,
    RestoreToBackground,
    RestoreToPrevious,
    /// Values 4 to 7 are reserved; they carry no obligation.
    Reserved(u8),
}

pub open spec fn disposal_of(v: u8) -> DisposalMethod {
    if v == 0 {
        DisposalMethod::NoAction
    } else if v == 1 {
        DisposalMethod::DoNotDispose
    } else if v == 2 {
        DisposalMethod::RestoreToBackground
    } else if v == 3 {
        DisposalMethod::RestoreToPrevious
    } else {
        DisposalMethod::Reserved(v)
    }
}

pub fn disposal_from_field(v: u8) -> (r: DisposalMethod)
    ensures
        r == disposal_of(v),
{
    if v == 0 {
        DisposalMethod::NoAction
    } else if v == 1 {
        DisposalMethod::DoNotDispose
    } else if v == 2 {
        DisposalMethod::RestoreToBackground
    } else if v == 3 {
        DisposalMethod::RestoreToPrevious
    } else {
        DisposalMethod::Reserved(v)
    }
}

/// The fixed seven-byte record after the header.
#[derive(Debug, Clone, Copy, PartialEq, Eq, Structural)]
pub struct LogicalScreenDescriptor {
    pub width: u16,
    pub height: u16,
    pub global_color_flag: bool,
    pub color_resolution: u8,
    pub sorted_flag: bool,
    pub global_color_size: u8,
    pub background_color_index: u8,
    pub pixel_aspect_ratio: u8,
}

#[derive(Debug, Clone, Copy, PartialEq, Eq, Structural)]
pub struct GraphicsControlExtension {
    pub disposal_method: DisposalMethod,
    pub user_input_flag: bool,
    pub transparent_color_flag: bool,
    /// In hundredths of a second.
    pub delay_time: u16,
    pub transparent_color_index: u8,
}

impl GraphicsControlExtension {
    /// The values a frame without a graphics control extension has.
    pub open spec fn spec_default() -> GraphicsControlExtension {
        GraphicsControlExtension {
            disposal_method: DisposalMethod::NoAction,
            user_input_flag: false,
            transparent_color_flag: false,
            delay_time: 0,
            transparent_color_index: 0,
        }
    }

    pub fn absent() -> (r: GraphicsControlExtension)
        ensures
            r == GraphicsControlExtension::spec_default(),
    {
        GraphicsControlExtension {
            disposal_method: DisposalMethod::NoAction,
            user_input_flag: false,
            transparent_color_flag: false,
            delay_time: 0,
            transparent_color_index: 0,
        }
    }
}

#[derive(Debug, Clone, Copy, PartialEq, Eq, Structural)]
pub struct ImageDescriptor {
    pub left: u16,
    pub top: u16,
    pub width: u16,
    pub height: u16,
    pub local_color_table_flag: bool,
    pub interlace_flag: bool,
    pub sort_flag: bool,
    pub local_color_table_size: u8,
}

/// One image of the file: its control data, placement, optional local table and
/// one color index per pixel, row-major.
#[derive(Debug, Clone)]
pub struct Frame {
    pub gce: GraphicsControlExtension,
    pub descriptor: ImageDescriptor,
    pub local_table: Option<Vec<Color>>,
    pub pixels: Vec<u8>,
}

/// Every pixel is an index below `table_len`, and there is one per pixel.
pub open spec fn pixels_wf(pixels: Seq<u8>, width: nat, height: nat, table_len: nat) -> bool {
    &&& pixels.len() == width * height
    &&& forall|i: int| 0 <= i < pixels.len() ==> (#[trigger] pixels[i]) < table_len
}

/// The index at column `x` of row `y` of a row-major grid `w` wide.
pub open spec fn cell(s: Seq<u8>, w: int, y: int, x: int) -> u8 {
    s[y * w + x]
}

/// Rows per pass of the interlaced order: rows `0 mod 8`, `4 mod 8`, `2 mod 4`, odd rows.
pub open spec fn pass0_rows(h: int) -> int {
    (h + 7) / 8
}

pub open spec fn pass1_rows(h: int) -> int {
    (h + 3) / 8
}

pub open spec fn pass2_rows(h: int) -> int {
    (h + 1) / 4
}

/// The row of an interlaced stream that holds image row `r`, for an image of
/// `h` rows.
pub open spec fn source_row(h: int, r: int) -> int {
    if r % 8 == 0 {
        r / 8
    } else if r % 8 == 4 {
        pass0_rows(h) + r / 8
    } else if r % 4 == 2 {
        pass0_rows(h) + pass1_rows(h) + r / 4
    } else {
        pass0_rows(h) + pass1_rows(h) + pass2_rows(h) + r / 2
    }
}

/// The image rows of an interlaced stream `w` wide and `h` high, top to bottom.
pub open spec fn deinterlaced(stream: Seq<u8>, w: int, h: int) -> Seq<u8> {
    Seq::new((w * h) as nat, |k: int| stream[source_row(h, k / w) * w + k % w])
}

/// A frame as values: what a `Frame` holds, with its vectors as sequences.
pub struct FrameModel {
    pub gce: GraphicsControlExtension,
    pub descriptor: ImageDescriptor,
    pub local_table: Option<Seq<Color>>,
    pub pixels: Seq<u8>,
}

pub open spec fn frame_model(f: Frame) -> FrameModel {
    FrameModel {
        gce: f.gce,
        descriptor: f.descriptor,
        local_table: match f.local_table {
            Some(t) => Some(t@),
            None => None,
        },
        pixels: f.pixels@,
    }
}

proof fn lemma_source_row_bound(h: int, r: int)
    requires
        0 <= r < h,
    ensures
        0 <= source_row(h, r) < h,
{
    assert(pass0_rows(h) + pass1_rows(h) + pass2_rows(h) + h / 2 == h);
}

/// The interlaced order stores rows `0, 8, 16, ...`, then `4, 12, 20, ...`, then
/// `2, 6, 10, ...`, then `1, 3, 5, ...`: the `j`-th row of each pass is the next
/// stream row after the rows of the earlier passes.
pub proof fn lemma_interlace_pass_order(h: int, j: int)
    requires
        0 <= j,
    ensures
        8 * j < h ==> source_row(h, 8 * j) == j,
        8 * j + 4 < h ==> source_row(h, 8 * j + 4) == pass0_rows(h) + j,
        4 * j + 2 < h ==> source_row(h, 4 * j + 2) == pass0_rows(h) + pass1_rows(h) + j,
        2 * j + 1 < h ==> source_row(h, 2 * j + 1) == pass0_rows(h) + pass1_rows(h) + pass2_rows(h) + j,
{
}

/// Puts the rows of an interlaced index stream in top-to-bottom order.
pub fn deinterlace(stream: &Vec<u8>, width: usize, height: usize) -> (r: Vec<u8>)
    requires
        width <= 65535,
        height <= 65535,
        stream@.len() == width * height,
    ensures
        r@.len() == width * height,
        forall|y: int, x: int|
            0 <= y < height && 0 <= x < width ==> #[trigger] cell(r@, width as int, y, x) == cell(
                stream@,
                width as int,
                source_row(height as int, y),
                x,
            ),
{
    let mut out: Vec<u8> = Vec::new();
    let p0: usize = (height + 7) / 8;
    let p1: usize = (height + 3) / 8;
    let p2: usize = (height + 1) / 4;
    let mut y: usize = 0;
    while y < height
        invariant
            width <= 65535,
            height <= 65535,
            y <= height,
            stream@.len() == width * height,
            p0 == pass0_rows(height as int),
            p1 == pass1_rows(height as int),
            p2 == pass2_rows(height as int),
            out@.len() == y * width,
            forall|yy: int, x: int|
                0 <= yy < y && 0 <= x < width ==> #[trigger] cell(out@, width as int, yy, x) == cell(
                    stream@,
                    width as int,
                    source_row(height as int, yy),
                    x,
                ),
        decreases height - y,
    {
        proof {
            lemma_source_row_bound(height as int, y as int);
        }
        let src: usize = if y % 8 == 0 {
            y / 8
        } else if y % 8 == 4 {
            p0 + y / 8
        } else if y % 4 == 2 {
            p0 + p1 + y / 4
        } else {
            p0 + p1 + p2 + y / 2
        };
        assert(src == source_row(height as int, y as int));
        let mut x: usize = 0;
        while x < width
            invariant
                width <= 65535,
                height <= 65535,
                y < height,
                src < height,
                x <= width,
                stream@.len() == width * height,
                out@.len() == y * width + x,
                forall|yy: int, xx: int|
                    0 <= yy < y && 0 <= xx < width ==> #[trigger] cell(out@, width as int, yy, xx) == cell(
                        stream@,
                        width as int,
                        source_row(height as int, yy),
                        xx,
                    ),
                forall|xx: int|
                    0 <= xx < x ==> #[trigger] cell(out@, width as int, y as int, xx) == cell(
                        stream@,
                        width as int,
                        src as int,
                        xx,
                    ),
            decreases width - x,
        {
            assert(src * width + x < width * height) by (nonlinear_arith)
                requires
                    src < height,
                    x < width,
            ;
            assert(width * height <= 65535 * 65535) by (nonlinear_arith)
                requires
                    width <= 65535,
                    height <= 65535,
            ;
            let ghost before = out@;
            out.push(stream[src * width + x]);
            proof {
                assert forall|yy: int, xx: int| 0 <= yy < y && 0 <= xx < width implies #[trigger] cell(
                    out@,
                    width as int,
                    yy,
                    xx,
                ) == cell(stream@, width as int, source_row(height as int, yy), xx) by {
                    assert(0 <= yy * width + xx < y * width) by (nonlinear_arith)
                        requires
                            0 <= yy < y,
                            0 <= xx < width,
                    ;
                    assert(cell(before, width as int, yy, xx) == cell(stream@, width as int, source_row(height as int, yy), xx));
                }
                assert forall|xx: int| 0 <= xx < x + 1 implies #[trigger] cell(out@, width as int, y as int, xx) == cell(
                    stream@,
                    width as int,
                    src as int,
                    xx,
                ) by {
                    if xx < x {
                        assert(cell(before, width as int, y as int, xx) == cell(stream@, width as int, src as int, xx));
                    }
                }
            }
            x = x + 1;
        }
        proof {
            assert((y + 1) * width == y * width + width) by (nonlinear_arith);
        }
        y = y + 1;
    }
    assert(y * width == width * height) by (nonlinear_arith)
        requires
            y == height,
    ;
    out
}

/// Builds a frame from its decompressed index stream. `table_len` is the length
/// of the color table its indices resolve against.
pub fn assemble_frame(
    stream: Vec<u8>,
    descriptor: ImageDescriptor,
    gce: GraphicsControlExtension,
    local_table: Option<Vec<Color>>,
    table_len: usize,
) -> (r: Result<Frame, GifError>)
    ensures
        stream@.len() != descriptor.width * descriptor.height ==> r == Err::<Frame, GifError>(
            GifError::IndexStreamLengthMismatch,
        ),
        stream@.len() == descriptor.width * descriptor.height ==> {
            if pixels_wf(stream@, descriptor.width as nat, descriptor.height as nat, table_len as nat) {
                &&& r is Ok
                &&& r->Ok_0.descriptor == descriptor
                &&& r->Ok_0.gce == gce
                &&& r->Ok_0.local_table == local_table
                &&& pixels_wf(r->Ok_0.pixels@, descriptor.width as nat, descriptor.height as nat, table_len as nat)
                &&& !descriptor.interlace_flag ==> r->Ok_0.pixels@ == stream@
                &&& descriptor.interlace_flag ==> r->Ok_0.pixels@ == deinterlaced(
                    stream@,
                    descriptor.width as int,
                    descriptor.height as int,
                )
            } else {
                r == Err::<Frame, GifError>(GifError::InvalidLzwCode)
            }
        },
{
    let w: usize = descriptor.width as usize;
    let h: usize = descriptor.height as usize;
    assert(w * h <= 65535 * 65535) by (nonlinear_arith)
        requires
            w <= 65535,
            h <= 65535,
    ;
    if stream.len() != w * h {
        return Err(GifError::IndexStreamLengthMismatch);
    }
    let mut i: usize = 0;
    while i < stream.len()
        invariant
            w == descriptor.width,
            h == descriptor.height,
            stream@.len() == w * h,
            i <= stream@.len(),
            forall|j: int| 0 <= j < i ==> (#[trigger] stream@[j]) < table_len,
        decreases stream.len() - i,
    {
        if stream[i] as usize >= table_len {
            return Err(GifError::InvalidLzwCode);
        }
        i = i + 1;
    }
    let pixels = if descriptor.interlace_flag {
        let p = deinterlace(&stream, w, h);
        proof {
            assert forall|k: int| 0 <= k < p@.len() implies (#[trigger] p@[k]) < table_len by {
                let y = k / (w as int);
                let x = k % (w as int);
                assert(k == y * w + x && 0 <= y < h && 0 <= x < w) by (nonlinear_arith)
                    requires
                        0 <= k < w * h,
                        y == k / (w as int),
                        x == k % (w as int),
                ;
                lemma_source_row_bound(h as int, y);
                assert(p@[k] == cell(p@, w as int, y, x));
                assert(0 <= source_row(h as int, y) * w + x < w * h) by (nonlinear_arith)
                    requires
                        0 <= source_row(h as int, y) < h,
                        0 <= x < w,
                ;
            }
            assert forall|k: int| 0 <= k < p@.len() implies p@[k] == #[trigger] deinterlaced(stream@, w as int, h as int)[k] by {
                let y = k / (w as int);
                let x = k % (w as int);
                assert(k == y * w + x && 0 <= y < h && 0 <= x < w) by (nonlinear_arith)
                    requires
                        0 <= k < w * h,
                        y == k / (w as int),
                        x == k % (w as int),
                ;
                assert(p@[k] == cell(p@, w as int, y, x));
            }
            assert(p@ =~= deinterlaced(stream@, w as int, h as int));
        }
        p
    } else {
        stream
    };
    Ok(Frame { gce, descriptor, local_table, pixels })
}

} // verus!
