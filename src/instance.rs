//! Parameters for creating a Vulkan instance.
use vstd::prelude::*;

verus! {

/// What an instance is created with.
pub struct InstanceCreateInfo {
    /// Instance extensions that must be enabled.
    pub required_extensions: Vec<String>,
    /// Whether the validation layers are turned on.
    pub validation_enabled: bool,
}

} // verus!
