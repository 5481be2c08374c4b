# render_device

The decisions that a render device makes on top of wgpu, verified with Verus.

- `src/render_device.rs`: the device itself: its features and limits, row
  alignment of copies, the binding type of read-only buffers, how shader modules
  are made, and bind groups with or without a cache.
- `src/bind_group_cache.rs`: the two-generation cache of bind groups;
  `src/bind_group_cache_laws.rs` proves what holds of every run of accesses.
- `src/bind_group_hash.rs`: the key of a bind group;
  `src/bind_group_hash_laws.rs` proves that it tells bind groups apart as far as
  the hasher does.
- `src/bind_group.rs`, `src/bind_group_entry.rs`, `src/shader_module.rs`: the
  types that these work on.
- `src/wgpu_items.rs`: what is taken on trust about wgpu.
- `app/`: the GPU calls around the library, as a resource of the ECS.
- `tests/`: run on wgpu's no-op backend.
