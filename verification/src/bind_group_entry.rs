use vstd::prelude::*;

verus! {

/// The number that tells one bind group layout from every other.
#[derive(Clone, Copy, PartialEq, Eq, Structural, Debug, Hash)]
pub struct BindGroupLayoutId(pub u32);

/// The segment of a buffer that is bound. Without a size, it goes up to the end
/// of the buffer.
#[derive(Clone, Copy, Debug)]
pub struct BufferBinding<'a> {
    pub buffer: &'a wgpu::Buffer,
    pub offset: u64,
    pub size: Option<u64>,
}

/// What is bound to a slot. Which acceleration structure, external texture or
/// other resource is bound is left open: bind groups that differ in nothing
/// else count as the same. `Other` is for kinds beyond those listed, by their
/// place in the order of kinds.
#[derive(Debug)]
pub enum BindingResource<'a> {
    Buffer(BufferBinding<'a>),
    BufferArray(Vec<BufferBinding<'a>>),
    Sampler(&'a wgpu::Sampler),
    SamplerArray(&'a [&'a wgpu::Sampler]),
    TextureView(&'a wgpu::TextureView),
    TextureViewArray(&'a [&'a wgpu::TextureView]),
    AccelerationStructure,
    ExternalTexture,
    Other(usize),
}

/// A resource and the slot that it is bound to.
#[derive(Debug)]
pub struct BindGroupEntry<'a> {
    pub binding: u32,
    pub resource: BindingResource<'a>,
}

/// A [`BufferBinding`] as a mathematical value.
pub struct BufferModel {
    pub buffer: wgpu::Buffer,
    pub offset: u64,
    pub size: Option<u64>,
}

/// A [`BindingResource`] as a mathematical value.
#[verifier::ext_equal]
pub enum ResourceModel {
    Buffer(BufferModel),
    BufferArray(Seq<BufferModel>),
    Sampler(wgpu::Sampler),
    SamplerArray(Seq<wgpu::Sampler>),
    TextureView(wgpu::TextureView),
    TextureViewArray(Seq<wgpu::TextureView>),
    AccelerationStructure,
    ExternalTexture,
    Other(usize),
}

/// A [`BindGroupEntry`] as a mathematical value.
#[verifier::ext_equal]
pub struct EntryModel {
    pub binding: u32,
    pub resource: ResourceModel,
}

impl<'a> View for BufferBinding<'a> {
    type V = BufferModel;

    open spec fn view(&self) -> BufferModel {
        BufferModel { buffer: *self.buffer, offset: self.offset, size: self.size }
    }
}

impl<'a> View for BindingResource<'a> {
    type V = ResourceModel;

    open spec fn view(&self) -> ResourceModel {
        match *self {
            BindingResource::Buffer(binding) => ResourceModel::Buffer(binding@),
            BindingResource::BufferArray(bindings) => ResourceModel::BufferArray(
                buffer_models(bindings@),
            ),
            BindingResource::Sampler(sampler) => ResourceModel::Sampler(*sampler),
            BindingResource::SamplerArray(samplers) => ResourceModel::SamplerArray(
                samplers@.map_values(|sampler: &wgpu::Sampler| *sampler),
            ),
            BindingResource::TextureView(texture_view) => ResourceModel::TextureView(*texture_view),
            BindingResource::TextureViewArray(texture_views) => ResourceModel::TextureViewArray(
                texture_views@.map_values(|texture_view: &wgpu::TextureView| *texture_view),
            ),
            BindingResource::AccelerationStructure => ResourceModel::AccelerationStructure,
            BindingResource::ExternalTexture => ResourceModel::ExternalTexture,
            BindingResource::Other(kind) => ResourceModel::Other(kind),
        }
    }
}

impl<'a> View for BindGroupEntry<'a> {
    type V = EntryModel;

    open spec fn view(&self) -> EntryModel {
        EntryModel { binding: self.binding, resource: self.resource@ }
    }
}

/// The models of an array of buffer bindings.
pub open spec fn buffer_models(bindings: Seq<BufferBinding>) -> Seq<BufferModel> {
    bindings.map_values(|binding: BufferBinding| binding@)
}

/// The models of a list of entries.
pub open spec fn entry_models(entries: Seq<BindGroupEntry>) -> Seq<EntryModel> {
    entries.map_values(|entry: BindGroupEntry| entry@)
}

impl ResourceModel {
    /// Its array, if it has one, is no longer than an array can be, and a kind
    /// beyond those listed comes after them.
    pub open spec fn valid(self) -> bool {
        match self {
            ResourceModel::BufferArray(bindings) => bindings.len() <= usize::MAX,
            ResourceModel::SamplerArray(samplers) => samplers.len() <= usize::MAX,
            ResourceModel::TextureViewArray(texture_views) => texture_views.len() <= usize::MAX,
            ResourceModel::Other(kind) => kind > 7,
            _ => true,
        }
    }
}

} // verus!
