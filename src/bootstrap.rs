//! Quicker initialization of devices.
use vstd::prelude::*;

verus! {

/// [`DeviceBuilder`] makes various assumptions about the device building
/// process.
///
/// Firstly, every [`crate::requirements::PhysicalDeviceRequirements`] used to
/// select a physical device is also used to build the device: every queue
/// requirement passed must be met by the device's queues.
pub struct DeviceBuilder {}

} // verus!
