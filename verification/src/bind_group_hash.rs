use std::collections::hash_map::DefaultHasher;
use std::hash::Hasher;

use vstd::bytes::{spec_u32_to_le_bytes, spec_u64_to_le_bytes, u32_to_le_bytes, u64_to_le_bytes};
use vstd::prelude::*;
use vstd::std_specs::hash::DefaultHasherAdditionalSpecFns;

use crate::bind_group_entry::{
    buffer_models, entry_models, BindGroupEntry, BindGroupLayoutId, BindingResource, BufferBinding,
    BufferModel, EntryModel, ResourceModel,
};
use crate::wgpu_items::{
    buffer_writes, feed_buffer, feed_sampler, feed_texture_view, sampler_writes,
    texture_view_writes,
};

verus! {

/// What is fed in place of a handle for a resource that has none.
pub const UNIDENTIFIED: u8 = 255;

/// The bytes of a number as wide as an address, as many as the target gives it.
pub open spec fn usize_bytes(number: usize) -> Seq<u8> {
    if usize::BITS == 32 {
        spec_u32_to_le_bytes(number as u32)
    } else {
        spec_u64_to_le_bytes(number as u64)
    }
}

/// What a binding size feeds to the hasher: whether there is one, then the size.
pub open spec fn fed_size(size: Option<u64>) -> Seq<Seq<u8>> {
    match size {
        None => seq![usize_bytes(0)],
        Some(bytes) => seq![usize_bytes(1), spec_u64_to_le_bytes(bytes)],
    }
}

/// What a buffer binding feeds to the hasher: the buffer, the offset, the size.
pub open spec fn fed_buffer(binding: BufferModel) -> Seq<Seq<u8>> {
    buffer_writes(binding.buffer) + (seq![spec_u64_to_le_bytes(binding.offset)] + fed_size(
        binding.size,
    ))
}

/// What the elements of a buffer array feed to the hasher, one after the other.
pub open spec fn fed_buffers(bindings: Seq<BufferModel>) -> Seq<Seq<u8>>
    decreases bindings.len(),
{
    if bindings.len() == 0 {
        Seq::empty()
    } else {
        fed_buffer(bindings.first()) + fed_buffers(bindings.drop_first())
    }
}

/// What the elements of a sampler array feed to the hasher, one after the other.
pub open spec fn fed_samplers(samplers: Seq<wgpu::Sampler>) -> Seq<Seq<u8>>
    decreases samplers.len(),
{
    if samplers.len() == 0 {
        Seq::empty()
    } else {
        sampler_writes(samplers.first()) + fed_samplers(samplers.drop_first())
    }
}

/// What the elements of a texture view array feed to the hasher, one after the other.
pub open spec fn fed_texture_views(texture_views: Seq<wgpu::TextureView>) -> Seq<Seq<u8>>
    decreases texture_views.len(),
{
    if texture_views.len() == 0 {
        Seq::empty()
    } else {
        texture_view_writes(texture_views.first()) + fed_texture_views(texture_views.drop_first())
    }
}

/// The place of the kind of a resource in the order of kinds.
pub open spec fn resource_kind(resource: ResourceModel) -> usize {
    match resource {
        ResourceModel::Buffer(_) => 0,
        ResourceModel::BufferArray(_) => 1,
        ResourceModel::Sampler(_) => 2,
        ResourceModel::SamplerArray(_) => 3,
        ResourceModel::TextureView(_) => 4,
        ResourceModel::TextureViewArray(_) => 5,
        ResourceModel::AccelerationStructure => 6,
        ResourceModel::ExternalTexture => 7,
        ResourceModel::Other(kind) => kind,
    }
}

/// What a resource feeds to the hasher after its kind.
pub open spec fn fed_contents(resource: ResourceModel) -> Seq<Seq<u8>> {
    match resource {
        ResourceModel::Buffer(binding) => fed_buffer(binding),
        ResourceModel::BufferArray(bindings) => seq![usize_bytes(bindings.len() as usize)]
            + fed_buffers(bindings),
        ResourceModel::Sampler(sampler) => sampler_writes(sampler),
        ResourceModel::SamplerArray(samplers) => seq![usize_bytes(samplers.len() as usize)]
            + fed_samplers(samplers),
        ResourceModel::TextureView(texture_view) => texture_view_writes(texture_view),
        ResourceModel::TextureViewArray(texture_views) => seq![
            usize_bytes(texture_views.len() as usize),
        ] + fed_texture_views(texture_views),
        ResourceModel::AccelerationStructure => seq![seq![UNIDENTIFIED]],
        ResourceModel::ExternalTexture => seq![seq![UNIDENTIFIED]],
        ResourceModel::Other(_) => seq![seq![UNIDENTIFIED]],
    }
}

/// What a resource feeds to the hasher: its kind, then its contents.
pub open spec fn fed_resource(resource: ResourceModel) -> Seq<Seq<u8>> {
    seq![usize_bytes(resource_kind(resource))] + fed_contents(resource)
}

/// What an entry feeds to the hasher: its slot, then its resource.
pub open spec fn fed_entry(entry: EntryModel) -> Seq<Seq<u8>> {
    seq![spec_u32_to_le_bytes(entry.binding)] + fed_resource(entry.resource)
}

/// What entries feed to the hasher, one after the other.
pub open spec fn fed_entries(entries: Seq<EntryModel>) -> Seq<Seq<u8>>
    decreases entries.len(),
{
    if entries.len() == 0 {
        Seq::empty()
    } else {
        fed_entry(entries.first()) + fed_entries(entries.drop_first())
    }
}

/// What a bind group feeds to the hasher: the number of its layout, how many
/// entries it has, and the entries.
pub open spec fn fed_group(layout: BindGroupLayoutId, entries: Seq<EntryModel>) -> Seq<Seq<u8>> {
    seq![spec_u32_to_le_bytes(layout.0), usize_bytes(entries.len() as usize)] + fed_entries(entries)
}

/// The key of a bind group: what the hasher makes of all that the group feeds it.
pub open spec fn bind_group_key(layout: BindGroupLayoutId, entries: Seq<EntryModel>) -> u64 {
    DefaultHasher::spec_finish(fed_group(layout, entries))
}

/// Feeds a number of 32 bits.
fn hash_u32(number: u32, hasher: &mut DefaultHasher)
    ensures
        final(hasher)@ == old(hasher)@.push(spec_u32_to_le_bytes(number)),
{
    let bytes = u32_to_le_bytes(number);
    hasher.write(bytes.as_slice());
}

/// Feeds a number of 64 bits.
fn hash_u64(number: u64, hasher: &mut DefaultHasher)
    ensures
        final(hasher)@ == old(hasher)@.push(spec_u64_to_le_bytes(number)),
{
    let bytes = u64_to_le_bytes(number);
    hasher.write(bytes.as_slice());
}

/// Feeds a number as wide as an address: a length, a kind, or whether there is
/// a size.
fn hash_usize(number: usize, hasher: &mut DefaultHasher)
    ensures
        final(hasher)@ == old(hasher)@.push(usize_bytes(number)),
{
    if usize::BITS == 32 {
        hash_u32(number as u32, hasher);
    } else {
        hash_u64(number as u64, hasher);
    }
}

/// Feeds a buffer binding.
fn hash_buffer_binding(binding: &BufferBinding, hasher: &mut DefaultHasher)
    ensures
        final(hasher)@ == old(hasher)@ + fed_buffer(binding@),
{
    feed_buffer(binding.buffer, hasher);
    hash_u64(binding.offset, hasher);
    match binding.size {
        None => hash_usize(0, hasher),
        Some(bytes) => {
            hash_usize(1, hasher);
            hash_u64(bytes, hasher);
        },
    }
    assert(hasher@ =~= old(hasher)@ + fed_buffer(binding@));
}

/// Feeds an array of buffer bindings: its length, then its elements.
fn hash_buffer_bindings(bindings: &Vec<BufferBinding>, hasher: &mut DefaultHasher)
    ensures
        final(hasher)@ == old(hasher)@ + (seq![usize_bytes(bindings.len())] + fed_buffers(
            buffer_models(bindings@),
        )),
{
    hash_usize(bindings.len(), hasher);
    let ghost before = hasher@;
    let ghost models = buffer_models(bindings@);
    let mut i: usize = 0;
    assert(models.skip(0) == models);
    while i < bindings.len()
        invariant
            i <= bindings.len(),
            models == buffer_models(bindings@),
            hasher@ + fed_buffers(models.skip(i as int)) == before + fed_buffers(models),
        decreases bindings.len() - i,
    {
        assert(models.skip(i as int).drop_first() == models.skip(i + 1));
        assert(models.skip(i as int).first() == bindings@[i as int]@);
        hash_buffer_binding(&bindings[i], hasher);
        i = i + 1;
    }
}

/// Feeds an array of samplers: its length, then its elements.
fn hash_samplers(samplers: &[&wgpu::Sampler], hasher: &mut DefaultHasher)
    ensures
        final(hasher)@ == old(hasher)@ + (seq![usize_bytes(samplers@.len() as usize)]
            + fed_samplers(samplers@.map_values(|sampler: &wgpu::Sampler| *sampler))),
{
    hash_usize(samplers.len(), hasher);
    let ghost before = hasher@;
    let ghost models = samplers@.map_values(|sampler: &wgpu::Sampler| *sampler);
    let mut i: usize = 0;
    assert(models.skip(0) == models);
    while i < samplers.len()
        invariant
            i <= samplers.len(),
            models == samplers@.map_values(|sampler: &wgpu::Sampler| *sampler),
            hasher@ + fed_samplers(models.skip(i as int)) == before + fed_samplers(models),
        decreases samplers.len() - i,
    {
        assert(models.skip(i as int).drop_first() == models.skip(i + 1));
        assert(models.skip(i as int).first() == *samplers@[i as int]);
        feed_sampler(samplers[i], hasher);
        i = i + 1;
    }
}

/// Feeds an array of texture views: its length, then its elements.
fn hash_texture_views(texture_views: &[&wgpu::TextureView], hasher: &mut DefaultHasher)
    ensures
        final(hasher)@ == old(hasher)@ + (seq![usize_bytes(texture_views@.len() as usize)]
            + fed_texture_views(
            texture_views@.map_values(|texture_view: &wgpu::TextureView| *texture_view),
        )),
{
    hash_usize(texture_views.len(), hasher);
    let ghost before = hasher@;
    let ghost models = texture_views@.map_values(|texture_view: &wgpu::TextureView| *texture_view);
    let mut i: usize = 0;
    assert(models.skip(0) == models);
    while i < texture_views.len()
        invariant
            i <= texture_views.len(),
            models == texture_views@.map_values(|texture_view: &wgpu::TextureView| *texture_view),
            hasher@ + fed_texture_views(models.skip(i as int)) == before + fed_texture_views(models),
        decreases texture_views.len() - i,
    {
        assert(models.skip(i as int).drop_first() == models.skip(i + 1));
        assert(models.skip(i as int).first() == *texture_views@[i as int]);
        feed_texture_view(texture_views[i], hasher);
        i = i + 1;
    }
}

/// Feeds the byte that stands for a resource without a handle.
fn hash_unidentified(hasher: &mut DefaultHasher)
    ensures
        final(hasher)@ == old(hasher)@.push(seq![UNIDENTIFIED]),
{
    let bytes: [u8; 1] = [UNIDENTIFIED];
    hasher.write(&bytes);
    assert(bytes@ =~= seq![UNIDENTIFIED]);
}

/// Feeds what is bound to a slot: its kind, then the handles, offsets and sizes
/// in it. An acceleration structure, an external texture or a resource of
/// another kind has none, and one byte takes their place.
pub fn hash_binding_resource(resource: &BindingResource, hasher: &mut DefaultHasher)
    ensures
        final(hasher)@ == old(hasher)@ + fed_resource(resource@),
{
    match resource {
        BindingResource::Buffer(binding) => {
            hash_usize(0, hasher);
            hash_buffer_binding(binding, hasher);
        },
        BindingResource::BufferArray(bindings) => {
            hash_usize(1, hasher);
            hash_buffer_bindings(bindings, hasher);
        },
        BindingResource::Sampler(sampler) => {
            hash_usize(2, hasher);
            feed_sampler(sampler, hasher);
        },
        BindingResource::SamplerArray(samplers) => {
            hash_usize(3, hasher);
            hash_samplers(samplers, hasher);
        },
        BindingResource::TextureView(texture_view) => {
            hash_usize(4, hasher);
            feed_texture_view(texture_view, hasher);
        },
        BindingResource::TextureViewArray(texture_views) => {
            hash_usize(5, hasher);
            hash_texture_views(texture_views, hasher);
        },
        BindingResource::AccelerationStructure => {
            hash_usize(6, hasher);
            hash_unidentified(hasher);
        },
        BindingResource::ExternalTexture => {
            hash_usize(7, hasher);
            hash_unidentified(hasher);
        },
        BindingResource::Other(kind) => {
            hash_usize(*kind, hasher);
            hash_unidentified(hasher);
        },
    }
    assert(hasher@ =~= old(hasher)@ + fed_resource(resource@));
}

/// The key under which a bind group is cached: a hash of its layout and entries.
pub fn compute_bind_group_hash(layout: BindGroupLayoutId, entries: &[BindGroupEntry]) -> (key: u64)
    ensures
        key == bind_group_key(layout, entry_models(entries@)),
{
    let mut hasher = DefaultHasher::new();
    hash_u32(layout.0, &mut hasher);
    hash_usize(entries.len(), &mut hasher);
    let ghost before = hasher@;
    let ghost models = entry_models(entries@);
    let mut i: usize = 0;
    assert(models.skip(0) == models);
    while i < entries.len()
        invariant
            i <= entries.len(),
            models == entry_models(entries@),
            hasher@ + fed_entries(models.skip(i as int)) == before + fed_entries(models),
        decreases entries.len() - i,
    {
        assert(models.skip(i as int).drop_first() == models.skip(i + 1));
        assert(models.skip(i as int).first() == entries@[i as int]@);
        hash_u32(entries[i].binding, &mut hasher);
        hash_binding_resource(&entries[i].resource, &mut hasher);
        i = i + 1;
    }
    assert(hasher@ =~= fed_group(layout, models));
    hasher.finish()
}

} // verus!
