//! The ways in which decoding can fail.

use vstd::prelude::*;
use vstd::string::StringExecFns;

verus! {

/// Why a decode was abandoned. Every failure is final: nothing is retried
/// and no partial image is handed out.
#[derive(Debug, PartialEq, Eq)]
pub enum LoadError {
    /// The byte stream itself failed; the field holds the cause as text.
    Io(String),
    /// A section asked for more bytes than the stream had left.
    UnexpectedEof,
    /// The stream does not start with the bytes `B`, `M`.
    BadMagic,
    /// The info block declares a length other than 40.
    UnsupportedDib,
    /// The image uses a bit depth other than 4.
    UnsupportedBpp,
}

impl LoadError {
    /// The text that [`LoadError::message`] renders.
    pub open spec fn text(self) -> Seq<char> {
        match self {
            LoadError::Io(cause) => "unexpected IO error: "@ + cause@,
            LoadError::UnexpectedEof => "unexpected end of file"@,
            LoadError::BadMagic => "invalid magic number in BMP header"@,
            LoadError::UnsupportedDib =>
                "unsupported DIP block (only BITMAPINFOHEADER is supported)"@,
            LoadError::UnsupportedBpp => "unsupported bits per pixel (only 4 bpp supported)"@,
        }
    }

    /// Renders the error for a human reader.
    pub fn message(&self) -> (msg: String)
        ensures
            msg@ == self.text(),
    {
        match self {
            LoadError::Io(cause) => String::from_str("unexpected IO error: ").concat(
                cause.as_str(),
            ),
            LoadError::UnexpectedEof => String::from_str("unexpected end of file"),
            LoadError::BadMagic => String::from_str("invalid magic number in BMP header"),
            LoadError::UnsupportedDib => String::from_str(
                "unsupported DIP block (only BITMAPINFOHEADER is supported)",
            ),
            LoadError::UnsupportedBpp => String::from_str(
                "unsupported bits per pixel (only 4 bpp supported)",
            ),
        }
    }
}

} // verus!
