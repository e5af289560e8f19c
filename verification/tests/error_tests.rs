use wallst::error::WallError;

#[test]
fn messages_describe_each_error() {
    assert_eq!(
        WallError::InvalidColorFormat.message(),
        "colors must be in the form #RRGGBB"
    );
    assert_eq!(
        WallError::DegenerateGeometry.message(),
        "image or canvas has a zero dimension"
    );
    assert_eq!(
        WallError::ForegroundDecodeFailed.message(),
        "failed to decode the foreground image"
    );
    assert_eq!(
        WallError::DisplayConnectionFailed.message(),
        "failed to connect to the display"
    );
    assert_eq!(
        WallError::ProtocolRequestFailed.message(),
        "a display protocol request failed"
    );
    assert_eq!(
        WallError::OutputWriteFailed.message(),
        "failed to write the output image"
    );
}
