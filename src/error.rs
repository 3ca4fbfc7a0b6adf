use vstd::prelude::*;

verus! {

/// The ways a decode can fail. Every failure aborts the whole decode.
#[derive(Debug, Clone, Copy, PartialEq, Eq, Structural)]
pub enum GifError {
    /// The first three bytes are not `GIF`.
    SignatureError,
    /// A read would go past the end of the buffer.
    UnexpectedEof,
    /// A structurally required constant (block size, terminator, separator) is wrong.
    MalformedBlock,
    /// An extension label other than graphics control, plain text, application or comment.
    UnknownExtension,
    /// A code, or a decoded pixel index, outside the range that is valid at that point.
    InvalidLzwCode,
    /// The image data sub-blocks ended before the end code was decoded.
    TruncatedLzwStream,
    /// The decompressed pixel count differs from the frame's width times height.
    IndexStreamLengthMismatch,
    /// The bit reader holds fewer bits than the code width asked for.
    InsufficientBits,
}

/// The description of each error.
pub open spec fn message_of(e: GifError) -> Seq<char> {
    match e {
        GifError::SignatureError => "Signature Error"@,
        GifError::UnexpectedEof => "Unexpected end of file"@,
        GifError::MalformedBlock => "Malformed block"@,
        GifError::UnknownExtension => "Unknown extension"@,
        GifError::InvalidLzwCode => "Invalid LZW code"@,
        GifError::TruncatedLzwStream => "Truncated LZW stream"@,
        GifError::IndexStreamLengthMismatch => "Index stream length mismatch"@,
        GifError::InsufficientBits => "Insufficient bits"@,
    }
}

impl GifError {
    /// A short human-readable description of the error.
    pub fn message(&self) -> (r: String)
        ensures
            r@ == message_of(*self),
    {
        let s = match self {
            GifError::SignatureError => "Signature Error",
            GifError::UnexpectedEof => "Unexpected end of file",
            GifError::MalformedBlock => "Malformed block",
            GifError::UnknownExtension => "Unknown extension",
            GifError::InvalidLzwCode => "Invalid LZW code",
            GifError::TruncatedLzwStream => "Truncated LZW stream",
            GifError::IndexStreamLengthMismatch => "Index stream length mismatch",
            GifError::InsufficientBits => "Insufficient bits",
        };
        proof {
            reveal_strlit("Signature Error");
            reveal_strlit("Unexpected end of file");
            reveal_strlit("Malformed block");
            reveal_strlit("Unknown extension");
            reveal_strlit("Invalid LZW code");
            reveal_strlit("Truncated LZW stream");
            reveal_strlit("Index stream length mismatch");
            reveal_strlit("Insufficient bits");
        }
        s.to_string()
    }
}

} // verus!
