//! What a physical device must offer to be selected.
use vstd::prelude::*;

verus! {

/// One kind of queue the application needs.
#[derive(Clone, Copy, PartialEq, Eq, Structural, Debug)]
pub struct QueueRequirements {
    /// Capabilities the queues must have, as raw `VkQueueFlags` bits.
    pub queue_flags: u32,
    /// Whether the queue family's flags must equal `queue_flags` exactly.
    pub dedicated: bool,
    /// Number of queues wanted.
    pub count: u32,
}

/// Describes the requirements a physical device must meet to be selected.
pub struct PhysicalDeviceRequirements {
    /// Names of the device extensions that must be present.
    pub extensions: Vec<String>,
    /// Queues that must be obtainable all at once.
    pub queues: Vec<QueueRequirements>,
}

/// Name of the `VK_KHR_buffer_device_address` extension.
pub open spec fn buffer_device_address_ext() -> Seq<char> {
    "VK_KHR_buffer_device_address"@
}

/// Name of the `VK_KHR_dynamic_rendering` extension.
pub open spec fn dynamic_rendering_ext() -> Seq<char> {
    "VK_KHR_dynamic_rendering"@
}

/// Name of the `VK_KHR_synchronization2` extension.
pub open spec fn synchronization2_ext() -> Seq<char> {
    "VK_KHR_synchronization2"@
}

/// The extensions every usable device must offer.
pub open spec fn minimum_extension_names() -> Seq<Seq<char>> {
    seq![buffer_device_address_ext(), dynamic_rendering_ext(), synchronization2_ext()]
}

/// The names held by a list of strings.
pub open spec fn names_of(v: Seq<String>) -> Seq<Seq<char>> {
    v.map_values(|s: String| s@)
}

/// Relies on `ash::extensions::khr::BufferDeviceAddress::name`, the C string
/// `VK_KHR_buffer_device_address`.
#[verifier::external_body]
fn buffer_device_address_name() -> (r: String)
    ensures
        r@ == buffer_device_address_ext(),
{
    ash::extensions::khr::BufferDeviceAddress::name().to_string_lossy().into_owned()
}

/// Relies on `ash::extensions::khr::DynamicRendering::name`, the C string
/// `VK_KHR_dynamic_rendering`.
#[verifier::external_body]
fn dynamic_rendering_name() -> (r: String)
    ensures
        r@ == dynamic_rendering_ext(),
{
    ash::extensions::khr::DynamicRendering::name().to_string_lossy().into_owned()
}

/// Relies on `ash::extensions::khr::Synchronization2::name`, the C string
/// `VK_KHR_synchronization2`.
#[verifier::external_body]
fn synchronization2_name() -> (r: String)
    ensures
        r@ == synchronization2_ext(),
{
    ash::extensions::khr::Synchronization2::name().to_string_lossy().into_owned()
}

/// The minimum any GPU is expected to offer: buffer device addresses,
/// dynamic rendering and synchronization2, and no particular queues.
pub fn get_minimum_viable_requirements() -> (r: PhysicalDeviceRequirements)
    ensures
        names_of(r.extensions@) == minimum_extension_names(),
        r.queues@.len() == 0,
{
    let mut extensions: Vec<String> = Vec::new();
    extensions.push(buffer_device_address_name());
    extensions.push(dynamic_rendering_name());
    extensions.push(synchronization2_name());
    assert(names_of(extensions@) =~= minimum_extension_names());
    PhysicalDeviceRequirements { extensions, queues: Vec::new() }
}

impl Default for PhysicalDeviceRequirements {
    /// No extensions and no queues.
    fn default() -> (r: Self)
        ensures
            r.extensions@.len() == 0,
            r.queues@.len() == 0,
    {
        PhysicalDeviceRequirements { extensions: Vec::new(), queues: Vec::new() }
    }
}

} // verus!
