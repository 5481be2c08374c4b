use std::cell::Cell;
use std::collections::hash_map::DefaultHasher;
use std::hash::{Hash, Hasher};

use render_device::bind_group_entry::{
    BindGroupEntry, BindGroupLayoutId, BindingResource, BufferBinding,
};
use render_device::bind_group_hash::{compute_bind_group_hash, hash_binding_resource};
use render_device::{BindGroup, BindGroupCache, RenderDevice};

fn device() -> wgpu::Device {
    wgpu::Device::noop(&wgpu::DeviceDescriptor::default()).0
}

fn make(device: &wgpu::Device) -> wgpu::BindGroup {
    let layout = device.create_bind_group_layout(&wgpu::BindGroupLayoutDescriptor {
        label: None,
        entries: &[],
    });
    device.create_bind_group(&wgpu::BindGroupDescriptor {
        label: None,
        layout: &layout,
        entries: &[],
    })
}

/// Asks for `key` and says whether the bind group had to be created.
fn ask(cache: &mut BindGroupCache, device: &wgpu::Device, key: u64) -> (BindGroup, bool) {
    let created = Cell::new(false);
    let bind_group = cache.get_or_insert(key, || {
        created.set(true);
        BindGroup::from(make(device))
    });
    (bind_group, created.get())
}

fn bind(buffer: &wgpu::Buffer, offset: u64, size: Option<u64>) -> BufferBinding<'_> {
    BufferBinding { buffer, offset, size }
}

fn entry(binding: u32, resource: BindingResource<'_>) -> BindGroupEntry<'_> {
    BindGroupEntry { binding, resource }
}

fn key_of(layout: u32, entries: &[BindGroupEntry]) -> u64 {
    compute_bind_group_hash(BindGroupLayoutId(layout), entries)
}

fn new_buffer(device: &wgpu::Device) -> wgpu::Buffer {
    device.create_buffer(&wgpu::BufferDescriptor {
        label: None,
        size: 64,
        usage: wgpu::BufferUsages::UNIFORM,
        mapped_at_creation: false,
    })
}

fn new_sampler(device: &wgpu::Device) -> wgpu::Sampler {
    device.create_sampler(&wgpu::SamplerDescriptor::default())
}

fn new_texture_view(device: &wgpu::Device) -> wgpu::TextureView {
    let texture = device.create_texture(&wgpu::TextureDescriptor {
        label: None,
        size: wgpu::Extent3d { width: 4, height: 4, depth_or_array_layers: 1 },
        mip_level_count: 1,
        sample_count: 1,
        dimension: wgpu::TextureDimension::D2,
        format: wgpu::TextureFormat::Rgba8Unorm,
        usage: wgpu::TextureUsages::TEXTURE_BINDING,
        view_formats: &[],
    });
    texture.create_view(&wgpu::TextureViewDescriptor::default())
}

#[test]
fn bind_group_keeps_its_handle() {
    let device = device();
    let value = make(&device);
    let bind_group = BindGroup::from(value.clone());
    assert_eq!(*bind_group.wgpu_bind_group(), value);
    assert_eq!(*bind_group.clone().wgpu_bind_group(), value);
    assert_ne!(*BindGroup::from(make(&device)).wgpu_bind_group(), value);
}

#[test]
fn second_access_hits() {
    let device = device();
    let mut cache = BindGroupCache::new();
    assert_eq!(cache.access_count(), 0);
    let (first, created) = ask(&mut cache, &device, 7);
    assert!(created);
    let (second, created) = ask(&mut cache, &device, 7);
    assert!(!created);
    assert_eq!(first.wgpu_bind_group(), second.wgpu_bind_group());
    let (other, created) = ask(&mut cache, &device, 8);
    assert!(created);
    assert_ne!(first.wgpu_bind_group(), other.wgpu_bind_group());
    assert_eq!(cache.access_count(), 3);
}

/// A cache whose first epoch, of 40 accesses to different keys, is just over.
fn cache_past_first_epoch(device: &wgpu::Device) -> BindGroupCache {
    let mut cache = BindGroupCache::new();
    for key in 0..40u64 {
        assert!(ask(&mut cache, device, 5000 + key).1);
    }
    assert!(!ask(&mut cache, device, 5000).1);
    cache
}

#[test]
fn recent_bind_group_is_reused() {
    let device = device();
    for before in 0..90u64 {
        let mut cache = cache_past_first_epoch(&device);
        for i in 0..before {
            ask(&mut cache, &device, 1000 + i);
        }
        let (first, created) = ask(&mut cache, &device, 7);
        assert!(created);
        for i in 0..40u64 {
            ask(&mut cache, &device, 2000 + i);
        }
        let (again, created) = ask(&mut cache, &device, 7);
        assert!(!created);
        assert_eq!(first.wgpu_bind_group(), again.wgpu_bind_group());
    }
}

#[test]
fn unused_bind_group_is_dropped() {
    let device = device();
    for before in 0..90u64 {
        let mut cache = cache_past_first_epoch(&device);
        for i in 0..before {
            ask(&mut cache, &device, 1000 + i);
        }
        ask(&mut cache, &device, 7);
        for _ in 0..82 {
            ask(&mut cache, &device, 8);
        }
        let (_, created) = ask(&mut cache, &device, 7);
        assert!(created);
    }
}

#[test]
fn entry_lives_through_its_epoch_and_the_next() {
    let device = device();
    // Access 41 ended the first epoch, so every later one lasts 41 accesses:
    // the second is accesses 41 to 81, the third 82 to 122.
    let mut cache = cache_past_first_epoch(&device);
    ask(&mut cache, &device, 7);
    while cache.access_count() < 121 {
        ask(&mut cache, &device, 8);
    }
    assert!(!ask(&mut cache, &device, 7).1);

    let mut cache = cache_past_first_epoch(&device);
    ask(&mut cache, &device, 7);
    while cache.access_count() < 122 {
        ask(&mut cache, &device, 8);
    }
    assert!(ask(&mut cache, &device, 7).1);
}

#[test]
fn short_first_epochs_last_the_minimum() {
    let device = device();
    // A single key: the first epoch ends with access 32, the second with 64.
    let mut cache = BindGroupCache::new();
    ask(&mut cache, &device, 7);
    for _ in 0..62 {
        ask(&mut cache, &device, 8);
    }
    assert_eq!(cache.access_count(), 63);
    let mut later = BindGroupCache::new();
    ask(&mut later, &device, 7);
    for _ in 0..61 {
        ask(&mut later, &device, 8);
    }
    // Access 63 is still of the second epoch, access 64 begins the third.
    assert!(!ask(&mut later, &device, 7).1);
    assert!(ask(&mut cache, &device, 7).1);
}

#[test]
fn later_frames_create_nothing() {
    let device = device();
    for frame in [1u64, 2, 31, 32, 33, 100, 255, 256] {
        let mut cache = BindGroupCache::new();
        let mut made = vec![];
        for key in 0..frame {
            let (bind_group, created) = ask(&mut cache, &device, key);
            assert!(created);
            made.push(bind_group);
        }
        for _ in 0..6 {
            for key in 0..frame {
                let (bind_group, created) = ask(&mut cache, &device, key);
                assert!(!created);
                assert_eq!(
                    bind_group.wgpu_bind_group(),
                    made[key as usize].wgpu_bind_group()
                );
            }
        }
    }
}

#[test]
fn frames_may_ask_again_early_on() {
    let device = device();
    // Keys come up again among the first 31 accesses of a frame of 100.
    let frame: Vec<u64> = (0..100u64).map(|i| if i < 31 { i % 5 } else { i }).collect();
    let mut cache = BindGroupCache::new();
    for (place, key) in frame.iter().enumerate() {
        let (_, created) = ask(&mut cache, &device, *key);
        assert_eq!(created, !frame[..place].contains(key));
    }
    for _ in 0..6 {
        for key in &frame {
            assert!(!ask(&mut cache, &device, *key).1);
        }
    }
}

#[test]
fn later_frames_make_no_device_call() {
    let render_device = RenderDevice::from(device());
    let mut cache = Some(BindGroupCache::new());
    let samplers: Vec<wgpu::Sampler> = (0..100)
        .map(|_| new_sampler(render_device.wgpu_device()))
        .collect();
    let groups: Vec<Vec<BindGroupEntry>> = samplers
        .iter()
        .map(|sampler| vec![entry(0, BindingResource::Sampler(sampler))])
        .collect();
    let layout = BindGroupLayoutId(1);
    let first: Vec<BindGroup> = groups
        .iter()
        .map(|entries| render_device.create_bind_group(&mut cache, layout, entries, make))
        .collect();
    for (entries, made) in groups.iter().zip(&first) {
        let found =
            render_device.create_bind_group(&mut cache, layout, entries, |_| panic!("is cached"));
        assert_eq!(found.wgpu_bind_group(), made.wgpu_bind_group());
    }
}

#[test]
fn overflow_drops_everything() {
    let device = device();
    let mut cache = BindGroupCache::new();
    for key in 0..257u64 {
        assert!(ask(&mut cache, &device, key).1);
    }
    // Not even the bind group that overflowed is held.
    assert!(ask(&mut cache, &device, 256).1);
    assert!(ask(&mut cache, &device, 0).1);
    assert!(!ask(&mut cache, &device, 256).1);
}

#[test]
fn advancing_between_accesses_keeps_recent_entries() {
    let device = device();
    let mut cache = BindGroupCache::new();
    ask(&mut cache, &device, 7);
    for _ in 0..100 {
        cache.maybe_advance_epoch();
    }
    assert!(!ask(&mut cache, &device, 7).1);

    // The first epoch can also be ended from outside once it is long enough.
    let mut cache = BindGroupCache::new();
    for key in 0..40u64 {
        ask(&mut cache, &device, key);
    }
    cache.maybe_advance_epoch();
    cache.maybe_advance_epoch();
    assert!(!ask(&mut cache, &device, 0).1);
}

#[test]
fn cached_creation_shares_identical_bind_groups() {
    let render_device = RenderDevice::from(device());
    let mut cache = Some(BindGroupCache::new());
    let layout = BindGroupLayoutId(1);
    let device = render_device.wgpu_device();
    let (one, two) = (new_buffer(device), new_buffer(device));
    let one_again = one.clone();
    let entries = vec![entry(0, BindingResource::Buffer(bind(&one, 0, None)))];
    let same = vec![entry(0, BindingResource::Buffer(bind(&one_again, 0, None)))];
    let other = vec![entry(0, BindingResource::Buffer(bind(&two, 0, None)))];

    let first = render_device.create_bind_group(&mut cache, layout, &entries, make);
    let second = render_device.create_bind_group(&mut cache, layout, &same, |_| panic!("is cached"));
    assert_eq!(first.wgpu_bind_group(), second.wgpu_bind_group());
    let third = render_device.create_bind_group(&mut cache, layout, &other, make);
    assert_ne!(first.wgpu_bind_group(), third.wgpu_bind_group());
    let fourth = render_device.create_bind_group(&mut cache, BindGroupLayoutId(2), &entries, make);
    assert_ne!(first.wgpu_bind_group(), fourth.wgpu_bind_group());
    assert_eq!(cache.unwrap().access_count(), 4);
}

#[test]
fn creation_uses_the_device() {
    let device = device();
    let render_device = RenderDevice::from(device.clone());
    let check = |given: &wgpu::Device| {
        assert_eq!(*given, device);
        make(given)
    };
    let mut cache = Some(BindGroupCache::new());
    render_device.create_bind_group(&mut cache, BindGroupLayoutId(1), &[], check);
    render_device.create_bind_group(&mut None, BindGroupLayoutId(1), &[], check);
}

#[test]
fn creation_without_a_cache_is_always_new() {
    let render_device = RenderDevice::from(device());
    let mut cache = None;
    let layout = BindGroupLayoutId(1);
    let first = render_device.create_bind_group(&mut cache, layout, &[], make);
    let second = render_device.create_bind_group(&mut cache, layout, &[], make);
    assert_ne!(first.wgpu_bind_group(), second.wgpu_bind_group());
    assert!(cache.is_none());
}

fn hash_wgpu_buffer(binding: &wgpu::BufferBinding, hasher: &mut DefaultHasher) {
    binding.buffer.hash(hasher);
    binding.offset.hash(hasher);
    binding.size.map(|size| size.get()).hash(hasher);
}

/// What std's `Hash` feeds for a resource of wgpu.
fn hash_wgpu_resource(resource: &wgpu::BindingResource, hasher: &mut DefaultHasher) {
    std::mem::discriminant(resource).hash(hasher);
    match resource {
        wgpu::BindingResource::Buffer(binding) => hash_wgpu_buffer(binding, hasher),
        wgpu::BindingResource::BufferArray(bindings) => {
            bindings.len().hash(hasher);
            for binding in *bindings {
                hash_wgpu_buffer(binding, hasher);
            }
        }
        wgpu::BindingResource::Sampler(sampler) => sampler.hash(hasher),
        wgpu::BindingResource::SamplerArray(samplers) => {
            samplers.len().hash(hasher);
            for sampler in *samplers {
                sampler.hash(hasher);
            }
        }
        wgpu::BindingResource::TextureView(view) => view.hash(hasher),
        wgpu::BindingResource::TextureViewArray(views) => {
            views.len().hash(hasher);
            for view in *views {
                view.hash(hasher);
            }
        }
        _ => 255u8.hash(hasher),
    }
}

#[test]
fn resources_feed_what_their_parts_hash_to() {
    let device = device();
    let (buffer, other) = (new_buffer(&device), new_buffer(&device));
    let (sampler, second) = (new_sampler(&device), new_sampler(&device));
    let (view, third) = (new_texture_view(&device), new_texture_view(&device));
    let samplers = [&sampler, &second];
    let views = [&third, &view];
    let size = std::num::NonZeroU64::new(16);
    let whole = wgpu::BufferBinding { buffer: &buffer, offset: 0, size: None };
    let part = wgpu::BufferBinding { buffer: &other, offset: 32, size };
    let parts = [whole.clone(), part.clone()];
    let cases = vec![
        (wgpu::BindingResource::Buffer(whole.clone()), BindingResource::Buffer(bind(&buffer, 0, None))),
        (
            wgpu::BindingResource::Buffer(part.clone()),
            BindingResource::Buffer(bind(&other, 32, Some(16))),
        ),
        (
            wgpu::BindingResource::BufferArray(&parts),
            BindingResource::BufferArray(vec![bind(&buffer, 0, None), bind(&other, 32, Some(16))]),
        ),
        (wgpu::BindingResource::BufferArray(&[]), BindingResource::BufferArray(vec![])),
        (wgpu::BindingResource::Sampler(&sampler), BindingResource::Sampler(&sampler)),
        (wgpu::BindingResource::SamplerArray(&samplers), BindingResource::SamplerArray(&samplers)),
        (wgpu::BindingResource::TextureView(&view), BindingResource::TextureView(&view)),
        (wgpu::BindingResource::TextureViewArray(&views), BindingResource::TextureViewArray(&views)),
        (wgpu::BindingResource::TextureViewArray(&[]), BindingResource::TextureViewArray(&[])),
    ];
    for (theirs, ours) in &cases {
        let mut expected = DefaultHasher::new();
        hash_wgpu_resource(theirs, &mut expected);
        let mut fed = DefaultHasher::new();
        hash_binding_resource(ours, &mut fed);
        assert_eq!(fed.finish(), expected.finish());
    }

    // The key of a bind group with all of these.
    let mut expected = DefaultHasher::new();
    9u32.hash(&mut expected);
    cases.len().hash(&mut expected);
    let mut entries = vec![];
    for (place, (theirs, ours)) in cases.into_iter().enumerate() {
        (place as u32).hash(&mut expected);
        hash_wgpu_resource(&theirs, &mut expected);
        entries.push(entry(place as u32, ours));
    }
    assert_eq!(key_of(9, &entries), expected.finish());
}

#[test]
fn resources_without_a_handle_feed_their_kind() {
    for (resource, kind) in [
        (BindingResource::AccelerationStructure, 6isize),
        (BindingResource::ExternalTexture, 7),
        (BindingResource::Other(12), 12),
    ] {
        let mut fed = DefaultHasher::new();
        hash_binding_resource(&resource, &mut fed);
        let mut expected = DefaultHasher::new();
        kind.hash(&mut expected);
        255u8.hash(&mut expected);
        assert_eq!(fed.finish(), expected.finish());
    }
}

#[test]
fn different_bind_groups_have_different_keys() {
    let device = device();
    let (b1, b2) = (new_buffer(&device), new_buffer(&device));
    let (s1, s2) = (new_sampler(&device), new_sampler(&device));
    let (v1, v2) = (new_texture_view(&device), new_texture_view(&device));
    let (one, both, swapped) = ([&s1], [&s1, &s2], [&s2, &s1]);
    let (view, views) = ([&v1], [&v1, &v2]);
    let groups = vec![
        vec![],
        vec![entry(0, BindingResource::Buffer(bind(&b1, 0, None)))],
        vec![entry(1, BindingResource::Buffer(bind(&b1, 0, None)))],
        vec![entry(0, BindingResource::Buffer(bind(&b2, 0, None)))],
        vec![entry(0, BindingResource::Buffer(bind(&b1, 4, None)))],
        vec![entry(0, BindingResource::Buffer(bind(&b1, 0, Some(4))))],
        vec![entry(0, BindingResource::BufferArray(vec![bind(&b1, 0, None)]))],
        vec![entry(0, BindingResource::BufferArray(vec![]))],
        vec![entry(0, BindingResource::Sampler(&s1))],
        vec![entry(0, BindingResource::Sampler(&s2))],
        vec![entry(0, BindingResource::SamplerArray(&one))],
        vec![entry(0, BindingResource::SamplerArray(&both))],
        vec![entry(0, BindingResource::SamplerArray(&swapped))],
        vec![entry(0, BindingResource::TextureView(&v1))],
        vec![entry(0, BindingResource::TextureView(&v2))],
        vec![entry(0, BindingResource::TextureViewArray(&view))],
        vec![entry(0, BindingResource::TextureViewArray(&views))],
        vec![entry(0, BindingResource::AccelerationStructure)],
        vec![entry(0, BindingResource::ExternalTexture)],
        vec![entry(0, BindingResource::Other(8))],
        vec![entry(0, BindingResource::Other(9))],
        vec![
            entry(0, BindingResource::Sampler(&s1)),
            entry(1, BindingResource::Sampler(&s2)),
        ],
        vec![
            entry(1, BindingResource::Sampler(&s2)),
            entry(0, BindingResource::Sampler(&s1)),
        ],
    ];
    for i in 0..groups.len() {
        assert_eq!(key_of(1, &groups[i]), key_of(1, &groups[i]));
        assert_ne!(key_of(1, &groups[i]), key_of(2, &groups[i]));
        for j in 0..i {
            assert_ne!(key_of(1, &groups[i]), key_of(1, &groups[j]));
        }
    }
}

#[test]
fn handles_to_one_resource_have_one_key() {
    let device = device();
    let (buffer, sampler, view) =
        (new_buffer(&device), new_sampler(&device), new_texture_view(&device));
    let first = [
        entry(0, BindingResource::Buffer(bind(&buffer, 8, Some(16)))),
        entry(1, BindingResource::Sampler(&sampler)),
        entry(2, BindingResource::TextureView(&view)),
    ];
    let (buffer2, sampler2, view2) = (buffer.clone(), sampler.clone(), view.clone());
    let second = [
        entry(0, BindingResource::Buffer(bind(&buffer2, 8, Some(16)))),
        entry(1, BindingResource::Sampler(&sampler2)),
        entry(2, BindingResource::TextureView(&view2)),
    ];
    assert_eq!(key_of(1, &first), key_of(1, &second));
}
