//! From a capture mode to the rectangle that is captured.

use vstd::prelude::*;
use crate::error::CaptureError;

verus! {

/// A rectangular pixel area in desktop coordinates. `x` and `y` may be
/// negative: displays left of or above the primary one lie there.
#[derive(Clone, Copy, Debug, PartialEq, Eq, Structural)]
pub struct Region {
    pub x: i32,
    pub y: i32,
    pub width: i32,
    pub height: i32,
}

impl Region {
    /// A region can be captured only if it has positive width and height.
    pub open spec fn valid(self) -> bool {
        self.width > 0 && self.height > 0
    }

    /// Whether the region can be captured.
    pub fn is_valid(&self) -> (ok: bool)
        ensures
            ok == self.valid(),
    {
        self.width > 0 && self.height > 0
    }
}

/// Where the rectangle comes from.
#[derive(Clone, Copy, Debug, PartialEq, Eq, Structural)]
pub enum CaptureMode {
    /// The caller names the rectangle.
    ExplicitRect { x: i32, y: i32, width: i32, height: i32 },
    /// The primary display, whose origin is `(0, 0)`.
    PrimaryDisplay,
    /// The bounding rectangle of all displays.
    FullVirtualDesktop,
}

/// A number that the display subsystem can be asked for.
#[derive(Clone, Copy, Debug, PartialEq, Eq, Structural)]
pub enum Metric {
    PrimaryWidth,
    PrimaryHeight,
    VirtualLeft,
    VirtualTop,
    VirtualWidth,
    VirtualHeight,
}

/// The metrics that `mode` needs, in the order in which their readings are
/// handed to [`resolve`].
pub open spec fn required_metrics(mode: CaptureMode) -> Seq<Metric> {
    match mode {
        CaptureMode::ExplicitRect { .. } => seq![],
        CaptureMode::PrimaryDisplay => seq![Metric::PrimaryWidth, Metric::PrimaryHeight],
        CaptureMode::FullVirtualDesktop => seq![
            Metric::VirtualLeft,
            Metric::VirtualTop,
            Metric::VirtualWidth,
            Metric::VirtualHeight,
        ],
    }
}

/// The region that `mode` stands for, given one reading per required metric.
///
/// An explicit rectangle is taken as it is; it is an invalid argument unless
/// its width and height are positive. A display mode needs exactly the readings
/// of [`required_metrics`], with positive width and height; anything else means
/// that the geometry is unavailable. Coordinates are never clamped.
pub open spec fn resolved(mode: CaptureMode, readings: Seq<i32>) -> Result<Region, CaptureError> {
    match mode {
        CaptureMode::ExplicitRect { x, y, width, height } => {
            if width > 0 && height > 0 {
                Ok(Region { x, y, width, height })
            } else {
                Err(CaptureError::InvalidArgument)
            }
        },
        CaptureMode::PrimaryDisplay => {
            if readings.len() == 2 && readings[0] > 0 && readings[1] > 0 {
                Ok(Region { x: 0, y: 0, width: readings[0], height: readings[1] })
            } else {
                Err(CaptureError::GeometryUnavailable)
            }
        },
        CaptureMode::FullVirtualDesktop => {
            if readings.len() == 4 && readings[2] > 0 && readings[3] > 0 {
                Ok(
                    Region {
                        x: readings[0],
                        y: readings[1],
                        width: readings[2],
                        height: readings[3],
                    },
                )
            } else {
                Err(CaptureError::GeometryUnavailable)
            }
        },
    }
}

/// Lists what has to be read from the display subsystem before `mode` can be
/// resolved. An explicit rectangle needs nothing.
pub fn metrics_for(mode: CaptureMode) -> (names: Vec<Metric>)
    ensures
        names@ == required_metrics(mode),
{
    let mut names: Vec<Metric> = Vec::new();
    match mode {
        CaptureMode::ExplicitRect { .. } => {},
        CaptureMode::PrimaryDisplay => {
            names.push(Metric::PrimaryWidth);
            names.push(Metric::PrimaryHeight);
        },
        CaptureMode::FullVirtualDesktop => {
            names.push(Metric::VirtualLeft);
            names.push(Metric::VirtualTop);
            names.push(Metric::VirtualWidth);
            names.push(Metric::VirtualHeight);
        },
    }
    assert(names@ =~= required_metrics(mode));
    names
}

/// Turns a capture mode into the region to capture. `readings` holds the
/// values of [`metrics_for`]`(mode)`, in that order.
///
/// A region that comes back is always valid; a rectangle or a display
/// geometry without positive width and height is an error and never a region.
pub fn resolve(mode: CaptureMode, readings: &Vec<i32>) -> (result: Result<Region, CaptureError>)
    ensures
        result == resolved(mode, readings@),
        result matches Ok(region) ==> region.valid(),
{
    match mode {
        CaptureMode::ExplicitRect { x, y, width, height } => {
            if width > 0 && height > 0 {
                Ok(Region { x, y, width, height })
            } else {
                Err(CaptureError::InvalidArgument)
            }
        },
        CaptureMode::PrimaryDisplay => {
            if readings.len() == 2 && readings[0] > 0 && readings[1] > 0 {
                Ok(Region { x: 0, y: 0, width: readings[0], height: readings[1] })
            } else {
                Err(CaptureError::GeometryUnavailable)
            }
        },
        CaptureMode::FullVirtualDesktop => {
            if readings.len() == 4 && readings[2] > 0 && readings[3] > 0 {
                Ok(
                    Region {
                        x: readings[0],
                        y: readings[1],
                        width: readings[2],
                        height: readings[3],
                    },
                )
            } else {
                Err(CaptureError::GeometryUnavailable)
            }
        },
    }
}

} // verus!
