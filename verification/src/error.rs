//! The ways a capture can fail.

use vstd::prelude::*;

verus! {

/// Why a capture did not produce a file. Every kind is final: nothing is
/// retried, and the first failure is the one reported.
#[derive(Clone, Copy, Debug, PartialEq, Eq, Structural)]
pub enum CaptureError {
    /// A rectangle without positive width and height, or a file name without
    /// an extension.
    InvalidArgument,
    /// The display reported a width or height that is not positive, or did not
    /// report the geometry that was asked for.
    GeometryUnavailable,
    /// The system declined to allocate the pixel buffer.
    AllocationFailed,
    /// The block copy from the desktop reported an error.
    CopyFailed,
    /// The installed encoders could not be listed.
    EncoderEnumerationFailed,
    /// The image subsystem reports no encoder at all.
    NoEncodersInstalled,
    /// No installed encoder claims the requested extension.
    UnsupportedFormat,
    /// The image subsystem rejected the captured bitmap.
    WrapFailed,
    /// Writing the file failed.
    SaveFailed,
    /// The image subsystem could not be started.
    SessionFailed,
    /// The desktop surface, or a surface compatible with it, could not be had.
    SurfaceUnavailable,
    /// The pixel buffer could not be made the drawing target of its surface.
    BindFailed,
}

} // verus!
