use vstd::prelude::*;

verus! {

/// The error taxonomy of the library: parse-time failures are reported before
/// any server interaction, and protocol failures abort the publish attempt.
#[derive(Clone, Copy, Debug, PartialEq, Eq, Structural)]
pub enum WallError {
    /// A color string was not of the form `#RRGGBB`.
    InvalidColorFormat,
    /// A foreground or background buffer had a zero dimension.
    DegenerateGeometry,
    /// The external image-decode capability failed.
    ForegroundDecodeFailed,
    /// The display connection could not be established.
    DisplayConnectionFailed,
    /// A protocol request (atom intern, pixmap, image transfer, property write) failed.
    ProtocolRequestFailed,
    /// The composited image could not be written to the requested output path.
    OutputWriteFailed,
}

impl WallError {
    /// The user-facing description of the error.
    pub fn message(&self) -> (m: String)
        ensures
            m@ == match self {
                WallError::InvalidColorFormat => "colors must be in the form #RRGGBB"@,
                WallError::DegenerateGeometry => "image or canvas has a zero dimension"@,
                WallError::ForegroundDecodeFailed => "failed to decode the foreground image"@,
                WallError::DisplayConnectionFailed => "failed to connect to the display"@,
                WallError::ProtocolRequestFailed => "a display protocol request failed"@,
                WallError::OutputWriteFailed => "failed to write the output image"@,
            },
    {
        match self {
            WallError::InvalidColorFormat => "colors must be in the form #RRGGBB".to_owned(),
            WallError::DegenerateGeometry => "image or canvas has a zero dimension".to_owned(),
            WallError::ForegroundDecodeFailed => "failed to decode the foreground image".to_owned(),
            WallError::DisplayConnectionFailed => "failed to connect to the display".to_owned(),
            WallError::ProtocolRequestFailed => "a display protocol request failed".to_owned(),
            WallError::OutputWriteFailed => "failed to write the output image".to_owned(),
        }
    }
}

} // verus!
