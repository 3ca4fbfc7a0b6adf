//! A GIF (87a/89a) decoder: container parsing, LZW decompression and frame
//! assembly, with the decode pipeline specified and proved in Verus.

pub mod bits;
pub mod error;
pub mod frame;
pub mod lzw;
pub mod parser;

pub use bits::BitReader;
pub use error::GifError;
pub use frame::{
    assemble_frame, deinterlace, Color, DisposalMethod, Frame, GraphicsControlExtension,
    ImageDescriptor, LogicalScreenDescriptor,
};
pub use lzw::{lzw_decode, Lzw};
pub use parser::{Block, Decoder, Gif};
