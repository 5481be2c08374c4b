use std::collections::hash_map::DefaultHasher;

use vstd::bytes::{lemma_auto_spec_u32_to_from_le_bytes, lemma_auto_spec_u64_to_from_le_bytes};
use vstd::bytes::{spec_u32_from_le_bytes, spec_u32_to_le_bytes};
use vstd::bytes::{spec_u64_from_le_bytes, spec_u64_to_le_bytes};
use vstd::prelude::*;
use vstd::std_specs::hash::DefaultHasherAdditionalSpecFns;

use crate::bind_group_entry::{
    buffer_models, entry_models, BindGroupEntry, BindGroupLayoutId, BindingResource, BufferBinding,
    BufferModel, EntryModel, ResourceModel,
};
use crate::bind_group_hash::{
    bind_group_key, fed_buffer, fed_buffers, fed_contents, fed_entries, fed_entry, fed_group,
    fed_resource, fed_samplers, fed_size, fed_texture_views, resource_kind, usize_bytes,
};
use crate::wgpu_items::{buffer_writes, sampler_writes, texture_view_writes};

verus! {

/// Two bindings of the same segment of one buffer. Handles count as handles to
/// one resource if they write the same to a hasher; here and below.
pub open spec fn same_buffer(a: BufferModel, b: BufferModel) -> bool {
    &&& buffer_writes(a.buffer) == buffer_writes(b.buffer)
    &&& a.offset == b.offset
    &&& a.size == b.size
}

/// Two arrays with the same buffer bindings.
pub open spec fn same_buffers(a: Seq<BufferModel>, b: Seq<BufferModel>) -> bool {
    a.len() == b.len() && forall|i: int|
        0 <= i < a.len() ==> #[trigger] same_buffer(a[i], b[i])
}

/// Two arrays with the same samplers.
pub open spec fn same_samplers(a: Seq<wgpu::Sampler>, b: Seq<wgpu::Sampler>) -> bool {
    a.len() == b.len() && forall|i: int|
        0 <= i < a.len() ==> sampler_writes(#[trigger] a[i]) == sampler_writes(#[trigger] b[i])
}

/// Two arrays with the same texture views.
pub open spec fn same_texture_views(a: Seq<wgpu::TextureView>, b: Seq<wgpu::TextureView>) -> bool {
    a.len() == b.len() && forall|i: int|
        0 <= i < a.len() ==> texture_view_writes(#[trigger] a[i]) == texture_view_writes(
            #[trigger] b[i],
        )
}

/// Two resources that are the same, as far as a resource says.
pub open spec fn same_resource(a: ResourceModel, b: ResourceModel) -> bool {
    match (a, b) {
        (ResourceModel::Buffer(x), ResourceModel::Buffer(y)) => same_buffer(x, y),
        (ResourceModel::BufferArray(x), ResourceModel::BufferArray(y)) => same_buffers(x, y),
        (ResourceModel::Sampler(x), ResourceModel::Sampler(y)) => sampler_writes(x)
            == sampler_writes(y),
        (ResourceModel::SamplerArray(x), ResourceModel::SamplerArray(y)) => same_samplers(x, y),
        (ResourceModel::TextureView(x), ResourceModel::TextureView(y)) => texture_view_writes(x)
            == texture_view_writes(y),
        (
            ResourceModel::TextureViewArray(x),
            ResourceModel::TextureViewArray(y),
        ) => same_texture_views(x, y),
        (ResourceModel::AccelerationStructure, ResourceModel::AccelerationStructure) => true,
        (ResourceModel::ExternalTexture, ResourceModel::ExternalTexture) => true,
        (ResourceModel::Other(x), ResourceModel::Other(y)) => x == y,
        _ => false,
    }
}

/// Two entries that bind the same resource to the same slot.
pub open spec fn same_entry(a: EntryModel, b: EntryModel) -> bool {
    a.binding == b.binding && same_resource(a.resource, b.resource)
}

/// Two lists of the same entries.
pub open spec fn same_entries(a: Seq<EntryModel>, b: Seq<EntryModel>) -> bool {
    a.len() == b.len() && forall|i: int| 0 <= i < a.len() ==> #[trigger] same_entry(a[i], b[i])
}

/// Every handle in a resource writes to a hasher `count` times.
pub open spec fn handles_write(resource: ResourceModel, count: nat) -> bool {
    match resource {
        ResourceModel::Buffer(binding) => buffer_writes(binding.buffer).len() == count,
        ResourceModel::BufferArray(bindings) => forall|i: int|
            0 <= i < bindings.len() ==> buffer_writes((#[trigger] bindings[i]).buffer).len()
                == count,
        ResourceModel::Sampler(sampler) => sampler_writes(sampler).len() == count,
        ResourceModel::SamplerArray(samplers) => forall|i: int|
            0 <= i < samplers.len() ==> sampler_writes(#[trigger] samplers[i]).len() == count,
        ResourceModel::TextureView(texture_view) => texture_view_writes(texture_view).len()
            == count,
        ResourceModel::TextureViewArray(texture_views) => forall|i: int|
            0 <= i < texture_views.len() ==> texture_view_writes(#[trigger] texture_views[i]).len()
                == count,
        _ => true,
    }
}

/// The entries are valid, and each of their handles writes `count` times.
pub open spec fn entries_write(entries: Seq<EntryModel>, count: nat) -> bool {
    &&& entries.len() <= usize::MAX
    &&& forall|i: int|
        0 <= i < entries.len() ==> (#[trigger] entries[i]).resource.valid() && handles_write(
            entries[i].resource,
            count,
        )
}

/// Two sequences with beginnings of one length agree only if both parts do.
proof fn lemma_same_parts(
    a: Seq<Seq<u8>>,
    rest_a: Seq<Seq<u8>>,
    b: Seq<Seq<u8>>,
    rest_b: Seq<Seq<u8>>,
)
    requires
        a + rest_a == b + rest_b,
        a.len() == b.len(),
    ensures
        a == b,
        rest_a == rest_b,
{
    let whole = a + rest_a;
    assert(a =~= whole.take(a.len() as int));
    assert(b =~= whole.take(a.len() as int));
    assert(rest_a =~= whole.skip(a.len() as int));
    assert(rest_b =~= whole.skip(a.len() as int));
}

/// Different numbers of 64 bits have different bytes.
proof fn lemma_u64_bytes(a: u64, b: u64)
    requires
        spec_u64_to_le_bytes(a) == spec_u64_to_le_bytes(b),
    ensures
        a == b,
{
    lemma_auto_spec_u64_to_from_le_bytes();
    assert(spec_u64_from_le_bytes(spec_u64_to_le_bytes(a)) == a);
}

/// Different numbers of 32 bits have different bytes.
proof fn lemma_u32_bytes(a: u32, b: u32)
    requires
        spec_u32_to_le_bytes(a) == spec_u32_to_le_bytes(b),
    ensures
        a == b,
{
    lemma_auto_spec_u32_to_from_le_bytes();
    assert(spec_u32_to_le_bytes(a).len() == 4);
    assert(spec_u32_to_le_bytes(b).len() == 4);
    assert(spec_u32_from_le_bytes(spec_u32_to_le_bytes(a)) == a);
}

/// Different numbers as wide as an address have different bytes.
proof fn lemma_usize_bytes(a: usize, b: usize)
    requires
        usize_bytes(a) == usize_bytes(b),
    ensures
        a == b,
{
    if usize::BITS == 32 {
        lemma_u32_bytes(a as u32, b as u32);
    } else {
        lemma_u64_bytes(a as u64, b as u64);
    }
}

/// A number that is fed first can be read back.
proof fn lemma_usize_read_back(a: usize, rest_a: Seq<Seq<u8>>, b: usize, rest_b: Seq<Seq<u8>>)
    requires
        seq![usize_bytes(a)] + rest_a == seq![usize_bytes(b)] + rest_b,
    ensures
        a == b,
        rest_a == rest_b,
{
    let first_a = seq![usize_bytes(a)];
    let first_b = seq![usize_bytes(b)];
    lemma_same_parts(first_a, rest_a, first_b, rest_b);
    assert(first_a[0] == first_b[0]);
    lemma_usize_bytes(a, b);
}

/// A buffer binding that is fed first can be read back.
proof fn lemma_buffer_read_back(
    a: BufferModel,
    rest_a: Seq<Seq<u8>>,
    b: BufferModel,
    rest_b: Seq<Seq<u8>>,
)
    requires
        buffer_writes(a.buffer).len() == buffer_writes(b.buffer).len(),
        fed_buffer(a) + rest_a == fed_buffer(b) + rest_b,
    ensures
        same_buffer(a, b),
        rest_a == rest_b,
{
    let tail_a = seq![spec_u64_to_le_bytes(a.offset)] + fed_size(a.size);
    let tail_b = seq![spec_u64_to_le_bytes(b.offset)] + fed_size(b.size);
    assert(fed_buffer(a) + rest_a =~= buffer_writes(a.buffer) + (tail_a + rest_a));
    assert(fed_buffer(b) + rest_b =~= buffer_writes(b.buffer) + (tail_b + rest_b));
    lemma_same_parts(
        buffer_writes(a.buffer),
        tail_a + rest_a,
        buffer_writes(b.buffer),
        tail_b + rest_b,
    );
    let whole = tail_a + rest_a;
    assert(whole[0] == spec_u64_to_le_bytes(a.offset));
    assert(whole[0] == spec_u64_to_le_bytes(b.offset));
    lemma_u64_bytes(a.offset, b.offset);
    let sized_a: usize = if a.size is Some { 1 } else { 0 };
    let sized_b: usize = if b.size is Some { 1 } else { 0 };
    assert(whole[1] == usize_bytes(sized_a));
    assert(whole[1] == usize_bytes(sized_b));
    lemma_usize_bytes(sized_a, sized_b);
    lemma_same_parts(tail_a, rest_a, tail_b, rest_b);
    if a.size is Some {
        assert(whole[2] == spec_u64_to_le_bytes(a.size->0));
        assert(whole[2] == spec_u64_to_le_bytes(b.size->0));
        lemma_u64_bytes(a.size->0, b.size->0);
    }
}

/// A buffer array of known length that is fed first can be read back.
proof fn lemma_buffers_read_back(
    a: Seq<BufferModel>,
    rest_a: Seq<Seq<u8>>,
    b: Seq<BufferModel>,
    rest_b: Seq<Seq<u8>>,
    count: nat,
)
    requires
        a.len() == b.len(),
        handles_write(ResourceModel::BufferArray(a), count),
        handles_write(ResourceModel::BufferArray(b), count),
        fed_buffers(a) + rest_a == fed_buffers(b) + rest_b,
    ensures
        same_buffers(a, b),
        rest_a == rest_b,
    decreases a.len(),
{
    if a.len() > 0 {
        let more_a = fed_buffers(a.drop_first()) + rest_a;
        let more_b = fed_buffers(b.drop_first()) + rest_b;
        assert(fed_buffers(a) + rest_a =~= fed_buffer(a.first()) + more_a);
        assert(fed_buffers(b) + rest_b =~= fed_buffer(b.first()) + more_b);
        assert(buffer_writes(a[0].buffer).len() == buffer_writes(b[0].buffer).len());
        lemma_buffer_read_back(a.first(), more_a, b.first(), more_b);
        lemma_buffers_read_back(a.drop_first(), rest_a, b.drop_first(), rest_b, count);
        assert forall|i: int| 0 <= i < a.len() implies #[trigger] same_buffer(a[i], b[i]) by {
            if i > 0 {
                assert(same_buffer(a.drop_first()[i - 1], b.drop_first()[i - 1]));
            }
        }
    } else {
        assert(fed_buffers(a) + rest_a =~= rest_a);
        assert(fed_buffers(b) + rest_b =~= rest_b);
    }
}

/// A sampler array of known length that is fed first can be read back.
proof fn lemma_samplers_read_back(
    a: Seq<wgpu::Sampler>,
    rest_a: Seq<Seq<u8>>,
    b: Seq<wgpu::Sampler>,
    rest_b: Seq<Seq<u8>>,
    count: nat,
)
    requires
        a.len() == b.len(),
        forall|i: int| 0 <= i < a.len() ==> sampler_writes(#[trigger] a[i]).len() == count,
        forall|i: int| 0 <= i < b.len() ==> sampler_writes(#[trigger] b[i]).len() == count,
        fed_samplers(a) + rest_a == fed_samplers(b) + rest_b,
    ensures
        same_samplers(a, b),
        rest_a == rest_b,
    decreases a.len(),
{
    if a.len() > 0 {
        let more_a = fed_samplers(a.drop_first()) + rest_a;
        let more_b = fed_samplers(b.drop_first()) + rest_b;
        assert(fed_samplers(a) + rest_a =~= sampler_writes(a[0]) + more_a);
        assert(fed_samplers(b) + rest_b =~= sampler_writes(b[0]) + more_b);
        lemma_same_parts(sampler_writes(a[0]), more_a, sampler_writes(b[0]), more_b);
        lemma_samplers_read_back(a.drop_first(), rest_a, b.drop_first(), rest_b, count);
        assert forall|i: int| 0 <= i < a.len() implies sampler_writes(#[trigger] a[i])
            == sampler_writes(#[trigger] b[i]) by {
            if i > 0 {
                assert(a.drop_first()[i - 1] == a[i]);
                assert(b.drop_first()[i - 1] == b[i]);
            }
        }
    } else {
        assert(fed_samplers(a) + rest_a =~= rest_a);
        assert(fed_samplers(b) + rest_b =~= rest_b);
    }
}

/// A texture view array of known length that is fed first can be read back.
proof fn lemma_texture_views_read_back(
    a: Seq<wgpu::TextureView>,
    rest_a: Seq<Seq<u8>>,
    b: Seq<wgpu::TextureView>,
    rest_b: Seq<Seq<u8>>,
    count: nat,
)
    requires
        a.len() == b.len(),
        forall|i: int| 0 <= i < a.len() ==> texture_view_writes(#[trigger] a[i]).len() == count,
        forall|i: int| 0 <= i < b.len() ==> texture_view_writes(#[trigger] b[i]).len() == count,
        fed_texture_views(a) + rest_a == fed_texture_views(b) + rest_b,
    ensures
        same_texture_views(a, b),
        rest_a == rest_b,
    decreases a.len(),
{
    if a.len() > 0 {
        let more_a = fed_texture_views(a.drop_first()) + rest_a;
        let more_b = fed_texture_views(b.drop_first()) + rest_b;
        assert(fed_texture_views(a) + rest_a =~= texture_view_writes(a[0]) + more_a);
        assert(fed_texture_views(b) + rest_b =~= texture_view_writes(b[0]) + more_b);
        lemma_same_parts(texture_view_writes(a[0]), more_a, texture_view_writes(b[0]), more_b);
        lemma_texture_views_read_back(a.drop_first(), rest_a, b.drop_first(), rest_b, count);
        assert forall|i: int| 0 <= i < a.len() implies texture_view_writes(#[trigger] a[i])
            == texture_view_writes(#[trigger] b[i]) by {
            if i > 0 {
                assert(a.drop_first()[i - 1] == a[i]);
                assert(b.drop_first()[i - 1] == b[i]);
            }
        }
    } else {
        assert(fed_texture_views(a) + rest_a =~= rest_a);
        assert(fed_texture_views(b) + rest_b =~= rest_b);
    }
}

/// A resource that is fed first can be read back.
proof fn lemma_resource_read_back(
    a: ResourceModel,
    rest_a: Seq<Seq<u8>>,
    b: ResourceModel,
    rest_b: Seq<Seq<u8>>,
    count: nat,
)
    requires
        a.valid(),
        b.valid(),
        handles_write(a, count),
        handles_write(b, count),
        fed_resource(a) + rest_a == fed_resource(b) + rest_b,
    ensures
        same_resource(a, b),
        rest_a == rest_b,
{
    let after_kind_a = fed_contents(a) + rest_a;
    let after_kind_b = fed_contents(b) + rest_b;
    assert(fed_resource(a) + rest_a =~= seq![usize_bytes(resource_kind(a))] + after_kind_a);
    assert(fed_resource(b) + rest_b =~= seq![usize_bytes(resource_kind(b))] + after_kind_b);
    lemma_usize_read_back(resource_kind(a), after_kind_a, resource_kind(b), after_kind_b);
    match (a, b) {
        (ResourceModel::Buffer(x), ResourceModel::Buffer(y)) => {
            lemma_buffer_read_back(x, rest_a, y, rest_b);
        },
        (ResourceModel::BufferArray(x), ResourceModel::BufferArray(y)) => {
            let more_x = fed_buffers(x) + rest_a;
            let more_y = fed_buffers(y) + rest_b;
            assert(after_kind_a =~= seq![usize_bytes(x.len() as usize)] + more_x);
            assert(after_kind_b =~= seq![usize_bytes(y.len() as usize)] + more_y);
            lemma_usize_read_back(x.len() as usize, more_x, y.len() as usize, more_y);
            lemma_buffers_read_back(x, rest_a, y, rest_b, count);
        },
        (ResourceModel::SamplerArray(x), ResourceModel::SamplerArray(y)) => {
            let more_x = fed_samplers(x) + rest_a;
            let more_y = fed_samplers(y) + rest_b;
            assert(after_kind_a =~= seq![usize_bytes(x.len() as usize)] + more_x);
            assert(after_kind_b =~= seq![usize_bytes(y.len() as usize)] + more_y);
            lemma_usize_read_back(x.len() as usize, more_x, y.len() as usize, more_y);
            lemma_samplers_read_back(x, rest_a, y, rest_b, count);
        },
        (ResourceModel::TextureViewArray(x), ResourceModel::TextureViewArray(y)) => {
            let more_x = fed_texture_views(x) + rest_a;
            let more_y = fed_texture_views(y) + rest_b;
            assert(after_kind_a =~= seq![usize_bytes(x.len() as usize)] + more_x);
            assert(after_kind_b =~= seq![usize_bytes(y.len() as usize)] + more_y);
            lemma_usize_read_back(x.len() as usize, more_x, y.len() as usize, more_y);
            lemma_texture_views_read_back(x, rest_a, y, rest_b, count);
        },
        _ => {
            lemma_same_parts(fed_contents(a), rest_a, fed_contents(b), rest_b);
        },
    }
}

/// Entries that are fed, as many as are known to be, can be read back.
proof fn lemma_entries_read_back(a: Seq<EntryModel>, b: Seq<EntryModel>, count: nat)
    requires
        a.len() == b.len(),
        entries_write(a, count),
        entries_write(b, count),
        fed_entries(a) == fed_entries(b),
    ensures
        same_entries(a, b),
    decreases a.len(),
{
    if a.len() > 0 {
        let first_a = a[0];
        let first_b = b[0];
        let after_slot_a = fed_resource(first_a.resource) + fed_entries(a.drop_first());
        let after_slot_b = fed_resource(first_b.resource) + fed_entries(b.drop_first());
        let slot_a = seq![spec_u32_to_le_bytes(first_a.binding)];
        let slot_b = seq![spec_u32_to_le_bytes(first_b.binding)];
        assert(fed_entries(a) =~= slot_a + after_slot_a);
        assert(fed_entries(b) =~= slot_b + after_slot_b);
        lemma_same_parts(slot_a, after_slot_a, slot_b, after_slot_b);
        assert(slot_a[0] == slot_b[0]);
        lemma_u32_bytes(first_a.binding, first_b.binding);
        lemma_resource_read_back(
            first_a.resource,
            fed_entries(a.drop_first()),
            first_b.resource,
            fed_entries(b.drop_first()),
            count,
        );
        lemma_entries_read_back(a.drop_first(), b.drop_first(), count);
        assert forall|i: int| 0 <= i < a.len() implies #[trigger] same_entry(a[i], b[i]) by {
            if i > 0 {
                assert(same_entry(a.drop_first()[i - 1], b.drop_first()[i - 1]));
            }
        }
    }
}

/// The same buffer bindings feed the same.
proof fn lemma_same_buffers(a: Seq<BufferModel>, b: Seq<BufferModel>)
    requires
        same_buffers(a, b),
    ensures
        fed_buffers(a) == fed_buffers(b),
    decreases a.len(),
{
    if a.len() > 0 {
        assert(same_buffer(a[0], b[0]));
        assert forall|i: int| 0 <= i < a.len() - 1 implies #[trigger] same_buffer(
            a.drop_first()[i],
            b.drop_first()[i],
        ) by {
            assert(same_buffer(a[i + 1], b[i + 1]));
        }
        lemma_same_buffers(a.drop_first(), b.drop_first());
    }
}

/// The same samplers feed the same.
proof fn lemma_same_samplers(a: Seq<wgpu::Sampler>, b: Seq<wgpu::Sampler>)
    requires
        same_samplers(a, b),
    ensures
        fed_samplers(a) == fed_samplers(b),
    decreases a.len(),
{
    if a.len() > 0 {
        assert(sampler_writes(a[0]) == sampler_writes(b[0]));
        lemma_same_samplers(a.drop_first(), b.drop_first());
    }
}

/// The same texture views feed the same.
proof fn lemma_same_texture_views(a: Seq<wgpu::TextureView>, b: Seq<wgpu::TextureView>)
    requires
        same_texture_views(a, b),
    ensures
        fed_texture_views(a) == fed_texture_views(b),
    decreases a.len(),
{
    if a.len() > 0 {
        assert(texture_view_writes(a[0]) == texture_view_writes(b[0]));
        lemma_same_texture_views(a.drop_first(), b.drop_first());
    }
}

/// The same entries feed the same.
proof fn lemma_same_entries(a: Seq<EntryModel>, b: Seq<EntryModel>)
    requires
        same_entries(a, b),
    ensures
        fed_entries(a) == fed_entries(b),
    decreases a.len(),
{
    if a.len() > 0 {
        assert(same_entry(a[0], b[0]));
        match (a[0].resource, b[0].resource) {
            (ResourceModel::BufferArray(x), ResourceModel::BufferArray(y)) => {
                lemma_same_buffers(x, y);
            },
            (ResourceModel::SamplerArray(x), ResourceModel::SamplerArray(y)) => {
                lemma_same_samplers(x, y);
            },
            (ResourceModel::TextureViewArray(x), ResourceModel::TextureViewArray(y)) => {
                lemma_same_texture_views(x, y);
            },
            _ => {},
        }
        assert(fed_entry(a[0]) == fed_entry(b[0]));
        assert forall|i: int| 0 <= i < a.len() - 1 implies #[trigger] same_entry(
            a.drop_first()[i],
            b.drop_first()[i],
        ) by {
            assert(same_entry(a[i + 1], b[i + 1]));
        }
        lemma_same_entries(a.drop_first(), b.drop_first());
    }
}

/// Identical bind groups share a key: those with one layout that bind the same
/// resources to the same slots in the same order.
pub proof fn law_identical_bind_groups_share_a_key(
    layout: BindGroupLayoutId,
    a: Seq<EntryModel>,
    b: Seq<EntryModel>,
)
    requires
        same_entries(a, b),
    ensures
        bind_group_key(layout, a) == bind_group_key(layout, b),
{
    lemma_same_entries(a, b);
}

/// Bind groups that are not identical share a key only where the hasher itself
/// collides: they never feed it the same. It takes that all their handles write
/// to a hasher equally often, `count` times.
pub proof fn law_key_tells_bind_groups_apart(
    layout_a: BindGroupLayoutId,
    a: Seq<EntryModel>,
    layout_b: BindGroupLayoutId,
    b: Seq<EntryModel>,
    count: nat,
)
    requires
        entries_write(a, count),
        entries_write(b, count),
    ensures
        fed_group(layout_a, a) == fed_group(layout_b, b) <==> layout_a == layout_b && same_entries(
            a,
            b,
        ),
        bind_group_key(layout_a, a) == DefaultHasher::spec_finish(fed_group(layout_a, a)),
        bind_group_key(layout_b, b) == DefaultHasher::spec_finish(fed_group(layout_b, b)),
{
    if fed_group(layout_a, a) == fed_group(layout_b, b) {
        let head_a = seq![spec_u32_to_le_bytes(layout_a.0), usize_bytes(a.len() as usize)];
        let head_b = seq![spec_u32_to_le_bytes(layout_b.0), usize_bytes(b.len() as usize)];
        lemma_same_parts(head_a, fed_entries(a), head_b, fed_entries(b));
        assert(head_a[0] == head_b[0]);
        lemma_u32_bytes(layout_a.0, layout_b.0);
        assert(head_a[1] == head_b[1]);
        lemma_usize_bytes(a.len() as usize, b.len() as usize);
        lemma_entries_read_back(a, b, count);
    }
    if layout_a == layout_b && same_entries(a, b) {
        lemma_same_entries(a, b);
    }
}

/// Buffer bindings feed what each of them feeds, joined.
proof fn lemma_buffers_feed_joined(bindings: Seq<BufferBinding>, fed: Seq<Seq<Seq<u8>>>)
    requires
        fed.len() == bindings.len(),
        forall|i: int| 0 <= i < fed.len() ==> #[trigger] fed[i] == fed_buffer(bindings[i]@),
    ensures
        fed_buffers(buffer_models(bindings)) == fed.flatten(),
    decreases bindings.len(),
{
    if bindings.len() > 0 {
        let models = buffer_models(bindings);
        assert(models.drop_first() =~= buffer_models(bindings.drop_first()));
        assert(models.first() == bindings[0]@);
        lemma_buffers_feed_joined(bindings.drop_first(), fed.drop_first());
        assert(fed.first() == fed_buffer(models.first()));
    }
}

/// Samplers feed what each of them writes, joined.
proof fn lemma_samplers_feed_joined(samplers: Seq<wgpu::Sampler>, fed: Seq<Seq<Seq<u8>>>)
    requires
        fed.len() == samplers.len(),
        forall|i: int| 0 <= i < fed.len() ==> #[trigger] fed[i] == sampler_writes(samplers[i]),
    ensures
        fed_samplers(samplers) == fed.flatten(),
    decreases samplers.len(),
{
    if samplers.len() > 0 {
        lemma_samplers_feed_joined(samplers.drop_first(), fed.drop_first());
        assert(fed.first() == sampler_writes(samplers.first()));
    }
}

/// Texture views feed what each of them writes, joined.
proof fn lemma_texture_views_feed_joined(
    texture_views: Seq<wgpu::TextureView>,
    fed: Seq<Seq<Seq<u8>>>,
)
    requires
        fed.len() == texture_views.len(),
        forall|i: int|
            0 <= i < fed.len() ==> #[trigger] fed[i] == texture_view_writes(texture_views[i]),
    ensures
        fed_texture_views(texture_views) == fed.flatten(),
    decreases texture_views.len(),
{
    if texture_views.len() > 0 {
        lemma_texture_views_feed_joined(texture_views.drop_first(), fed.drop_first());
        assert(fed.first() == texture_view_writes(texture_views.first()));
    }
}

/// Entries feed what each of them feeds, joined.
proof fn lemma_entries_feed_joined(entries: Seq<BindGroupEntry>, fed: Seq<Seq<Seq<u8>>>)
    requires
        fed.len() == entries.len(),
        forall|i: int| 0 <= i < fed.len() ==> #[trigger] fed[i] == fed_entry(entries[i]@),
    ensures
        fed_entries(entry_models(entries)) == fed.flatten(),
    decreases entries.len(),
{
    if entries.len() > 0 {
        let models = entry_models(entries);
        assert(models.drop_first() =~= entry_models(entries.drop_first()));
        assert(models.first() == entries[0]@);
        lemma_entries_feed_joined(entries.drop_first(), fed.drop_first());
        assert(fed.first() == fed_entry(models.first()));
    }
}

/// A resource feeds the place of its kind, then all of its parts in order: a
/// buffer binding feeds its buffer, its offset, whether it has a size, and the
/// size; an array feeds its length and its elements. What has no handle feeds
/// one byte. Places, lengths and tags are as wide as an address.
pub proof fn law_resource_feeds_its_parts(resource: BindingResource)
    ensures
        ({
            let number = |n: int|
                if usize::BITS == 32 {
                    spec_u32_to_le_bytes(n as u32)
                } else {
                    spec_u64_to_le_bytes(n as u64)
                };
            let segment = |binding: BufferBinding|
                buffer_writes(*binding.buffer) + seq![spec_u64_to_le_bytes(binding.offset)] + (
                match binding.size {
                    None => seq![number(0)],
                    Some(bytes) => seq![number(1), spec_u64_to_le_bytes(bytes)],
                });
            fed_resource(resource@) == match resource {
                BindingResource::Buffer(binding) => seq![number(0)] + segment(binding),
                BindingResource::BufferArray(bindings) => seq![
                    number(1),
                    number(bindings@.len() as int),
                ] + bindings@.map_values(segment).flatten(),
                BindingResource::Sampler(sampler) => seq![number(2)] + sampler_writes(*sampler),
                BindingResource::SamplerArray(samplers) => seq![
                    number(3),
                    number(samplers@.len() as int),
                ] + samplers@.map_values(
                    |sampler: &wgpu::Sampler| sampler_writes(*sampler),
                ).flatten(),
                BindingResource::TextureView(texture_view) => seq![number(4)]
                    + texture_view_writes(*texture_view),
                BindingResource::TextureViewArray(texture_views) => seq![
                    number(5),
                    number(texture_views@.len() as int),
                ] + texture_views@.map_values(
                    |texture_view: &wgpu::TextureView| texture_view_writes(*texture_view),
                ).flatten(),
                BindingResource::AccelerationStructure => seq![number(6), seq![255u8]],
                BindingResource::ExternalTexture => seq![number(7), seq![255u8]],
                BindingResource::Other(kind) => seq![number(kind as int), seq![255u8]],
            }
        }),
{
    let number = |n: int|
        if usize::BITS == 32 {
            spec_u32_to_le_bytes(n as u32)
        } else {
            spec_u64_to_le_bytes(n as u64)
        };
    let segment = |binding: BufferBinding|
        buffer_writes(*binding.buffer) + seq![spec_u64_to_le_bytes(binding.offset)] + (
        match binding.size {
            None => seq![number(0)],
            Some(bytes) => seq![number(1), spec_u64_to_le_bytes(bytes)],
        });
    assert forall|binding: BufferBinding| #[trigger] segment(binding) == fed_buffer(binding@) by {
        assert(segment(binding) =~= fed_buffer(binding@));
    }
    match resource {
        BindingResource::BufferArray(bindings) => {
            let fed = bindings@.map_values(segment);
            lemma_buffers_feed_joined(bindings@, fed);
        },
        BindingResource::SamplerArray(samplers) => {
            let fed = samplers@.map_values(|sampler: &wgpu::Sampler| sampler_writes(*sampler));
            lemma_samplers_feed_joined(
                samplers@.map_values(|sampler: &wgpu::Sampler| *sampler),
                fed,
            );
        },
        BindingResource::TextureViewArray(texture_views) => {
            let fed = texture_views@.map_values(
                |texture_view: &wgpu::TextureView| texture_view_writes(*texture_view),
            );
            lemma_texture_views_feed_joined(
                texture_views@.map_values(|texture_view: &wgpu::TextureView| *texture_view),
                fed,
            );
        },
        _ => {},
    }
}

/// The key is what the hasher makes of the whole group: the number of the layout,
/// how many entries there are, and the slot and resource of each of them in order.
pub proof fn law_key_hashes_the_whole_group(
    layout: BindGroupLayoutId,
    entries: Seq<BindGroupEntry>,
)
    ensures
        bind_group_key(layout, entry_models(entries)) == DefaultHasher::spec_finish(
            seq![
                spec_u32_to_le_bytes(layout.0),
                if usize::BITS == 32 {
                    spec_u32_to_le_bytes(entries.len() as u32)
                } else {
                    spec_u64_to_le_bytes(entries.len() as u64)
                },
            ] + entries.map_values(
                |entry: BindGroupEntry|
                    seq![spec_u32_to_le_bytes(entry.binding)] + fed_resource(entry.resource@),
            ).flatten(),
        ),
{
    let fed = entries.map_values(
        |entry: BindGroupEntry|
            seq![spec_u32_to_le_bytes(entry.binding)] + fed_resource(entry.resource@),
    );
    lemma_entries_feed_joined(entries, fed);
}

/// Two resources that are the same in kind and parts.
spec fn identical_resources(a: BindingResource, b: BindingResource) -> bool {
    match (a, b) {
        (BindingResource::Buffer(x), BindingResource::Buffer(y)) => {
            &&& buffer_writes(*x.buffer) == buffer_writes(*y.buffer)
            &&& x.offset == y.offset
            &&& x.size == y.size
        },
        (BindingResource::BufferArray(x), BindingResource::BufferArray(y)) => {
            &&& x@.len() == y@.len()
            &&& forall|j: int|
                0 <= j < x@.len() ==> {
                    &&& buffer_writes(*(#[trigger] x@[j]).buffer) == buffer_writes(*y@[j].buffer)
                    &&& x@[j].offset == y@[j].offset
                    &&& x@[j].size == y@[j].size
                }
        },
        (BindingResource::Sampler(x), BindingResource::Sampler(y)) => sampler_writes(*x)
            == sampler_writes(*y),
        (BindingResource::SamplerArray(x), BindingResource::SamplerArray(y)) => {
            &&& x@.len() == y@.len()
            &&& forall|j: int|
                0 <= j < x@.len() ==> sampler_writes(*#[trigger] x@[j]) == sampler_writes(*y@[j])
        },
        (BindingResource::TextureView(x), BindingResource::TextureView(y)) => texture_view_writes(
            *x,
        ) == texture_view_writes(*y),
        (BindingResource::TextureViewArray(x), BindingResource::TextureViewArray(y)) => {
            &&& x@.len() == y@.len()
            &&& forall|j: int|
                0 <= j < x@.len() ==> texture_view_writes(*#[trigger] x@[j]) == texture_view_writes(
                    *y@[j],
                )
        },
        (BindingResource::AccelerationStructure, BindingResource::AccelerationStructure) => true,
        (BindingResource::ExternalTexture, BindingResource::ExternalTexture) => true,
        (BindingResource::Other(x), BindingResource::Other(y)) => x == y,
        _ => false,
    }
}

/// A resource whose handles write `count` times has such a model.
proof fn lemma_handles_write(resource: BindingResource, count: nat)
    requires
        match resource {
            BindingResource::Buffer(x) => buffer_writes(*x.buffer).len() == count,
            BindingResource::BufferArray(x) => forall|j: int|
                0 <= j < x@.len() ==> buffer_writes(*(#[trigger] x@[j]).buffer).len() == count,
            BindingResource::Sampler(x) => sampler_writes(*x).len() == count,
            BindingResource::SamplerArray(x) => forall|j: int|
                0 <= j < x@.len() ==> sampler_writes(*#[trigger] x@[j]).len() == count,
            BindingResource::TextureView(x) => texture_view_writes(*x).len() == count,
            BindingResource::TextureViewArray(x) => forall|j: int|
                0 <= j < x@.len() ==> texture_view_writes(*#[trigger] x@[j]).len() == count,
            BindingResource::AccelerationStructure => true,
            BindingResource::ExternalTexture => true,
            BindingResource::Other(kind) => kind > 7,
        },
    ensures
        resource@.valid(),
        handles_write(resource@, count),
{
    match resource {
        BindingResource::BufferArray(x) => {
            assert(x.len() == x@.len());
        },
        BindingResource::SamplerArray(x) => {
            assert(x.len() == x@.len());
        },
        BindingResource::TextureViewArray(x) => {
            assert(x.len() == x@.len());
        },
        _ => {},
    }
}

/// Two resources are the same exactly if their models are.
proof fn lemma_same_models(a: BindingResource, b: BindingResource)
    ensures
        same_resource(a@, b@) <==> identical_resources(a, b),
{
    match (a@, b@) {
        (ResourceModel::BufferArray(x), ResourceModel::BufferArray(y)) => {
            let bindings_a = a->BufferArray_0@;
            let bindings_b = b->BufferArray_0@;
            if same_buffers(x, y) {
                assert forall|j: int| 0 <= j < bindings_a.len() implies same_buffer(
                    (#[trigger] bindings_a[j])@,
                    bindings_b[j]@,
                ) by {
                    assert(same_buffer(x[j], y[j]));
                }
            } else if x.len() == y.len() {
                let j = choose|j: int|
                    0 <= j < x.len() && !(#[trigger] same_buffer(x[j], y[j]));
                assert(bindings_a[j]@ == x[j] && bindings_b[j]@ == y[j]);
            }
        },
        (ResourceModel::SamplerArray(x), ResourceModel::SamplerArray(y)) => {
            let samplers_a = a->SamplerArray_0@;
            let samplers_b = b->SamplerArray_0@;
            if same_samplers(x, y) {
                assert forall|j: int| 0 <= j < samplers_a.len() implies sampler_writes(
                    *#[trigger] samplers_a[j],
                ) == sampler_writes(*samplers_b[j]) by {
                    assert(sampler_writes(x[j]) == sampler_writes(y[j]));
                }
            } else if x.len() == y.len() {
                let j = choose|j: int|
                    0 <= j < x.len() && sampler_writes(#[trigger] x[j]) != sampler_writes(
                        #[trigger] y[j],
                    );
                assert(*samplers_a[j] == x[j] && *samplers_b[j] == y[j]);
            }
        },
        (ResourceModel::TextureViewArray(x), ResourceModel::TextureViewArray(y)) => {
            let views_a = a->TextureViewArray_0@;
            let views_b = b->TextureViewArray_0@;
            if same_texture_views(x, y) {
                assert forall|j: int| 0 <= j < views_a.len() implies texture_view_writes(
                    *#[trigger] views_a[j],
                ) == texture_view_writes(*views_b[j]) by {
                    assert(texture_view_writes(x[j]) == texture_view_writes(y[j]));
                }
            } else if x.len() == y.len() {
                let j = choose|j: int|
                    0 <= j < x.len() && texture_view_writes(#[trigger] x[j])
                        != texture_view_writes(#[trigger] y[j]);
                assert(*views_a[j] == x[j] && *views_b[j] == y[j]);
            }
        },
        _ => {},
    }
}

/// Keys tell bind groups apart: what the hasher gets for a key is the same for
/// two groups exactly if they have one layout and as many entries, which bind the
/// same resources to the same slots in the same order. So equal keys of groups
/// that differ in a layout, a slot, a kind, a handle, an offset or a size are the
/// hasher's own collision. It takes that all handles in the two groups write to a
/// hasher equally often, `count` times.
pub proof fn law_equal_keys_of_different_groups_collide(
    layout_a: BindGroupLayoutId,
    a: Seq<BindGroupEntry>,
    layout_b: BindGroupLayoutId,
    b: Seq<BindGroupEntry>,
    count: nat,
)
    requires
        a.len() <= usize::MAX,
        b.len() <= usize::MAX,
        forall|i: int|
            0 <= i < (a + b).len() ==> match (#[trigger] (a + b)[i]).resource {
                BindingResource::Buffer(x) => buffer_writes(*x.buffer).len() == count,
                BindingResource::BufferArray(x) => forall|j: int|
                    0 <= j < x@.len() ==> buffer_writes(*(#[trigger] x@[j]).buffer).len() == count,
                BindingResource::Sampler(x) => sampler_writes(*x).len() == count,
                BindingResource::SamplerArray(x) => forall|j: int|
                    0 <= j < x@.len() ==> sampler_writes(*#[trigger] x@[j]).len() == count,
                BindingResource::TextureView(x) => texture_view_writes(*x).len() == count,
                BindingResource::TextureViewArray(x) => forall|j: int|
                    0 <= j < x@.len() ==> texture_view_writes(*#[trigger] x@[j]).len() == count,
                BindingResource::AccelerationStructure => true,
                BindingResource::ExternalTexture => true,
                BindingResource::Other(kind) => kind > 7,
            },
    ensures
        ({
            let fed_a = fed_group(layout_a, entry_models(a));
            let fed_b = fed_group(layout_b, entry_models(b));
            let identical = layout_a.0 == layout_b.0 && a.len() == b.len() && forall|i: int|
                0 <= i < a.len() ==> (#[trigger] a[i]).binding == b[i].binding && match (
                    a[i].resource,
                    b[i].resource,
                ) {
                    (BindingResource::Buffer(x), BindingResource::Buffer(y)) => {
                        &&& buffer_writes(*x.buffer) == buffer_writes(*y.buffer)
                        &&& x.offset == y.offset
                        &&& x.size == y.size
                    },
                    (BindingResource::BufferArray(x), BindingResource::BufferArray(y)) => {
                        &&& x@.len() == y@.len()
                        &&& forall|j: int|
                            0 <= j < x@.len() ==> {
                                &&& buffer_writes(*(#[trigger] x@[j]).buffer) == buffer_writes(
                                    *y@[j].buffer,
                                )
                                &&& x@[j].offset == y@[j].offset
                                &&& x@[j].size == y@[j].size
                            }
                    },
                    (BindingResource::Sampler(x), BindingResource::Sampler(y)) => sampler_writes(*x)
                        == sampler_writes(*y),
                    (BindingResource::SamplerArray(x), BindingResource::SamplerArray(y)) => {
                        &&& x@.len() == y@.len()
                        &&& forall|j: int|
                            0 <= j < x@.len() ==> sampler_writes(*#[trigger] x@[j])
                                == sampler_writes(*y@[j])
                    },
                    (BindingResource::TextureView(x), BindingResource::TextureView(y)) =>
                        texture_view_writes(*x) == texture_view_writes(*y),
                    (
                        BindingResource::TextureViewArray(x),
                        BindingResource::TextureViewArray(y),
                    ) => {
                        &&& x@.len() == y@.len()
                        &&& forall|j: int|
                            0 <= j < x@.len() ==> texture_view_writes(*#[trigger] x@[j])
                                == texture_view_writes(*y@[j])
                    },
                    (
                        BindingResource::AccelerationStructure,
                        BindingResource::AccelerationStructure,
                    ) => true,
                    (BindingResource::ExternalTexture, BindingResource::ExternalTexture) => true,
                    (BindingResource::Other(x), BindingResource::Other(y)) => x == y,
                    _ => false,
                };
            &&& bind_group_key(layout_a, entry_models(a)) == DefaultHasher::spec_finish(fed_a)
            &&& bind_group_key(layout_b, entry_models(b)) == DefaultHasher::spec_finish(fed_b)
            &&& fed_a == fed_b <==> identical
        }),
{
    let models_a = entry_models(a);
    let models_b = entry_models(b);
    assert forall|i: int| 0 <= i < a.len() implies (#[trigger] models_a[i]).resource.valid()
        && handles_write(models_a[i].resource, count) by {
        assert((a + b)[i] == a[i]);
        lemma_handles_write(a[i].resource, count);
    }
    assert forall|i: int| 0 <= i < b.len() implies (#[trigger] models_b[i]).resource.valid()
        && handles_write(models_b[i].resource, count) by {
        assert((a + b)[a.len() + i] == b[i]);
        lemma_handles_write(b[i].resource, count);
    }
    law_key_tells_bind_groups_apart(layout_a, models_a, layout_b, models_b, count);
    if fed_group(layout_a, models_a) == fed_group(layout_b, models_b) {
        assert forall|i: int| 0 <= i < a.len() implies (#[trigger] a[i]).binding == b[i].binding
            && identical_resources(a[i].resource, b[i].resource) by {
            assert(same_entry(models_a[i], models_b[i]));
            lemma_same_models(a[i].resource, b[i].resource);
        }
    }
    if a.len() == b.len() && forall|i: int|
        0 <= i < a.len() ==> (#[trigger] a[i]).binding == b[i].binding && identical_resources(
            a[i].resource,
            b[i].resource,
        ) {
        assert forall|i: int| 0 <= i < a.len() implies #[trigger] same_entry(
            models_a[i],
            models_b[i],
        ) by {
            assert(a[i].binding == b[i].binding);
            lemma_same_models(a[i].resource, b[i].resource);
        }
    }
}

} // verus!
