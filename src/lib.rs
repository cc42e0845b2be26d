//! Resource-lifecycle core beneath a Vulkan abstraction layer: a generational
//! handle arena, a deferred deletion queue, and a capacity-aware matcher that
//! binds queue requirements onto queue families, with the device selection
//! rules built on it.
pub mod bootstrap;
pub mod deletion_queue;
pub mod instance;
pub mod matcher;
pub mod physical_device;
pub mod requirements;
pub mod storage;
pub mod traits;
