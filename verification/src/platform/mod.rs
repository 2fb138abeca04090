//! Backend-independent platform policy: the decisions that the native
//! Vulkan, X11 and Win32 paths make, written over plain values.
pub mod clock;
pub mod cpu;
pub mod linux;
pub mod present;
pub mod swapchain;
pub mod thread_pool;
pub mod vulkan;
pub mod vulkan_policy;
pub mod windows;
