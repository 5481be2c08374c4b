use std::collections::hash_map::DefaultHasher;
use std::hash::Hash;

use vstd::prelude::*;
use wgpu::BindGroup as WgpuBindGroup;

verus! {

/// wgpu's handle to a GPU device.
#[verifier::external_type_specification]
#[verifier::external_body]
pub struct ExDevice(wgpu::Device);

/// wgpu's set of optional device features.
#[verifier::external_type_specification]
#[verifier::external_body]
pub struct ExFeatures(wgpu::Features);

/// wgpu's table of device limits.
#[verifier::external_type_specification]
#[verifier::external_body]
pub struct ExLimits(wgpu::Limits);

/// wgpu's handle to a bind group.
#[verifier::external_type_specification]
#[verifier::external_body]
pub struct ExBindGroup(WgpuBindGroup);

/// wgpu's handle to a buffer.
#[verifier::external_type_specification]
#[verifier::external_body]
pub struct ExBuffer(wgpu::Buffer);

/// wgpu's handle to a sampler.
#[verifier::external_type_specification]
#[verifier::external_body]
pub struct ExSampler(wgpu::Sampler);

/// wgpu's handle to a texture view.
#[verifier::external_type_specification]
#[verifier::external_body]
pub struct ExTextureView(wgpu::TextureView);

/// What a buffer writes to a hasher.
pub uninterp spec fn buffer_writes(buffer: wgpu::Buffer) -> Seq<Seq<u8>>;

/// What a sampler writes to a hasher.
pub uninterp spec fn sampler_writes(sampler: wgpu::Sampler) -> Seq<Seq<u8>>;

/// What a texture view writes to a hasher.
pub uninterp spec fn texture_view_writes(texture_view: wgpu::TextureView) -> Seq<Seq<u8>>;

/// The features that a device was created with.
pub uninterp spec fn device_features(device: wgpu::Device) -> wgpu::Features;

/// The limits that a device was created with.
pub uninterp spec fn device_limits(device: wgpu::Device) -> wgpu::Limits;

/// `EXPERIMENTAL_PASSTHROUGH_SHADERS` is among the features.
pub uninterp spec fn features_allow_passthrough_shaders(features: wgpu::Features) -> bool;

/// The `max_storage_buffers_per_shader_stage` of a table of limits.
pub uninterp spec fn limits_max_storage_buffers(limits: wgpu::Limits) -> u32;

/// `wgpu::Device::features` gives the features that the device was created
/// with. They are fixed for as long as the device lives.
pub assume_specification[ wgpu::Device::features ](device: &wgpu::Device) -> (features:
    wgpu::Features)
    ensures
        features == device_features(*device),
;

/// `wgpu::Device::limits` gives the limits that the device was created with.
/// They are fixed for as long as the device lives.
pub assume_specification[ wgpu::Device::limits ](device: &wgpu::Device) -> (limits: wgpu::Limits)
    ensures
        limits == device_limits(*device),
;

/// The clone of a `wgpu::Device` is another handle to the same device.
pub assume_specification[ <wgpu::Device as Clone>::clone ](device: &wgpu::Device) -> (copy:
    wgpu::Device)
    ensures
        copy == *device,
;

/// The clone of a `wgpu::BindGroup` is another handle to the same bind group.
pub assume_specification[ <WgpuBindGroup as Clone>::clone ](group: &WgpuBindGroup) -> (copy:
    WgpuBindGroup)
    ensures
        copy == *group,
;

/// `wgpu::Buffer`'s `Hash::hash`. wgpu hashes a buffer by the identifier that it
/// also tests for equality, so every handle to one buffer writes the same. That
/// handles to different ones write differently is left unsaid.
#[verifier::external_body]
pub(crate) fn feed_buffer(buffer: &wgpu::Buffer, hasher: &mut DefaultHasher)
    ensures
        final(hasher)@ == old(hasher)@ + buffer_writes(*buffer),
{
    buffer.hash(hasher)
}

/// `wgpu::Sampler`'s `Hash::hash`. wgpu hashes a sampler by the identifier that it
/// also tests for equality, so every handle to one sampler writes the same. That
/// handles to different ones write differently is left unsaid.
#[verifier::external_body]
pub(crate) fn feed_sampler(sampler: &wgpu::Sampler, hasher: &mut DefaultHasher)
    ensures
        final(hasher)@ == old(hasher)@ + sampler_writes(*sampler),
{
    sampler.hash(hasher)
}

/// `wgpu::TextureView`'s `Hash::hash`. wgpu hashes a texture view by the identifier that it
/// also tests for equality, so every handle to one texture view writes the same. That
/// handles to different ones write differently is left unsaid.
#[verifier::external_body]
pub(crate) fn feed_texture_view(texture_view: &wgpu::TextureView, hasher: &mut DefaultHasher)
    ensures
        final(hasher)@ == old(hasher)@ + texture_view_writes(*texture_view),
{
    texture_view.hash(hasher)
}

/// `wgpu::Features::contains`, asked for the one feature that lets shaders go
/// to the backend as they are.
#[verifier::external_body]
pub(crate) fn allows_passthrough_shaders(features: &wgpu::Features) -> (allowed: bool)
    ensures
        allowed == features_allow_passthrough_shaders(*features),
{
    features.contains(wgpu::Features::EXPERIMENTAL_PASSTHROUGH_SHADERS)
}

/// The field `max_storage_buffers_per_shader_stage` of `wgpu::Limits`.
#[verifier::external_body]
pub(crate) fn max_storage_buffers(limits: &wgpu::Limits) -> (count: u32)
    ensures
        count == limits_max_storage_buffers(*limits),
{
    limits.max_storage_buffers_per_shader_stage
}

/// The constant `wgpu::COPY_BYTES_PER_ROW_ALIGNMENT`, which is 256.
#[verifier::external_body]
pub(crate) fn copy_bytes_per_row_alignment() -> (align: u32)
    ensures
        align == 256,
{
    wgpu::COPY_BYTES_PER_ROW_ALIGNMENT
}

} // verus!
