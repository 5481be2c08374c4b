//! The decisions that a render device makes on top of wgpu: which bind groups
//! it hands out again, how it tells them apart, how it makes shader modules,
//! and how it lays out and binds buffers.
//!
//! Everything here is verified against the contracts on the functions. What is
//! taken on trust about wgpu stands in [`wgpu_items`].

pub mod bind_group;
pub mod bind_group_cache;
pub mod bind_group_cache_laws;
pub mod bind_group_entry;
pub mod bind_group_hash;
pub mod bind_group_hash_laws;
pub mod render_device;
pub mod shader_module;
pub mod wgpu_items;

pub use crate::bind_group::BindGroup;
pub use crate::bind_group_cache::BindGroupCache;
pub use crate::render_device::RenderDevice;
