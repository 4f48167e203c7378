//! The device kinds and orientations the rest of the library speaks of.

use vstd::prelude::*;

verus! {

/// The `UIDeviceFamily` an app can declare.
#[allow(non_camel_case_types)]
#[derive(Clone, Copy, Debug, PartialEq, Eq, Structural)]
pub enum DeviceFamily {
    iPhone,
    iPad,
}

/// The physical orientation of the device.
#[derive(Clone, Copy, Debug, PartialEq, Eq, Structural)]
pub enum DeviceOrientation {
    Portrait,
    PortraitUpsideDown,
    LandscapeLeft,
    LandscapeRight,
}

/// The device family that `UIDeviceFamily` numbers `n`, where it numbers one.
pub open spec fn family_numbered(n: u64) -> Option<DeviceFamily> {
    if n == 1 {
        Some(DeviceFamily::iPhone)
    } else if n == 2 {
        Some(DeviceFamily::iPad)
    } else {
        None
    }
}

impl DeviceFamily {
    /// The family numbered `n` in `UIDeviceFamily`: 1 for iPhone and iPod
    /// touch, 2 for iPad.
    pub fn from_number(n: u64) -> (r: Option<DeviceFamily>)
        ensures
            r == family_numbered(n),
    {
        if n == 1 {
            Some(DeviceFamily::iPhone)
        } else if n == 2 {
            Some(DeviceFamily::iPad)
        } else {
            None
        }
    }
}

} // verus!
