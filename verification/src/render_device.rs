use vstd::prelude::*;

use crate::bind_group::BindGroup;
use crate::bind_group_cache::BindGroupCache;
use crate::bind_group_entry::{entry_models, BindGroupEntry, BindGroupLayoutId};
use crate::bind_group_hash::{bind_group_key, compute_bind_group_hash};
use crate::shader_module::{
    choose_trusted_call, trusted_call, ShaderModuleCall, ShaderModuleDescriptor, ShaderModuleError,
    ShaderSource,
};
use crate::wgpu_items::{
    allows_passthrough_shaders, copy_bytes_per_row_alignment, device_features, device_limits,
    features_allow_passthrough_shaders, limits_max_storage_buffers, max_storage_buffers,
};

verus! {

/// How a shader may use a buffer that is bound to it.
#[derive(Clone, Copy, PartialEq, Eq, Structural, Debug)]
pub enum BufferBindingType {
    Uniform,
    Storage { read_only: bool },
}

/// This GPU device is responsible for the creation of most rendering and compute resources.
#[derive(Debug)]
pub struct RenderDevice {
    device: wgpu::Device,
}

impl View for RenderDevice {
    type V = wgpu::Device;

    closed spec fn view(&self) -> wgpu::Device {
        self.device
    }
}

impl Clone for RenderDevice {
    fn clone(&self) -> (copy: RenderDevice)
        ensures
            copy == *self,
    {
        RenderDevice { device: self.device.clone() }
    }
}

impl From<wgpu::Device> for RenderDevice {
    fn from(device: wgpu::Device) -> (render_device: RenderDevice)
        ensures
            render_device@ == device,
    {
        RenderDevice::new(device)
    }
}

impl vstd::std_specs::convert::FromSpecImpl<wgpu::Device> for RenderDevice {
    open spec fn obeys_from_spec() -> bool {
        true
    }

    open spec fn from_spec(device: wgpu::Device) -> RenderDevice {
        RenderDevice::of(device)
    }
}

/// `bytes` rounded up to a multiple of the row alignment of copies.
pub open spec fn aligned_row(bytes: int) -> int {
    (bytes + 255) / 256 * 256
}

/// The binding type for as many read-only buffers as `buffers_per_shader_stage`,
/// on a device that takes up to `max_storage_buffers` storage buffers.
pub open spec fn read_only_binding_type(
    max_storage_buffers: u32,
    buffers_per_shader_stage: u32,
) -> BufferBindingType {
    if buffers_per_shader_stage <= max_storage_buffers {
        BufferBindingType::Storage { read_only: true }
    } else {
        BufferBindingType::Uniform
    }
}

/// Storage buffers where the device takes enough of them, else uniform buffers.
pub fn choose_read_only_binding_type(
    max_storage_buffers: u32,
    buffers_per_shader_stage: u32,
) -> (binding_type: BufferBindingType)
    ensures
        binding_type == read_only_binding_type(max_storage_buffers, buffers_per_shader_stage),
        buffers_per_shader_stage <= max_storage_buffers ==> binding_type
            == (BufferBindingType::Storage { read_only: true }),
        buffers_per_shader_stage > max_storage_buffers ==> binding_type
            == BufferBindingType::Uniform,
{
    if max_storage_buffers >= buffers_per_shader_stage {
        BufferBindingType::Storage { read_only: true }
    } else {
        BufferBindingType::Uniform
    }
}

impl RenderDevice {
    /// The render device around a handle of wgpu.
    pub closed spec fn of(device: wgpu::Device) -> RenderDevice {
        RenderDevice { device }
    }

    pub fn new(device: wgpu::Device) -> (render_device: RenderDevice)
        ensures
            render_device@ == device,
            render_device == RenderDevice::of(device),
    {
        RenderDevice { device }
    }

    /// List all [`Features`](wgpu::Features) that may be used with this device.
    ///
    /// Functions may panic if you use unsupported features.
    pub fn features(&self) -> (features: wgpu::Features)
        ensures
            features == device_features(self@),
    {
        self.device.features()
    }

    /// List all [`Limits`](wgpu::Limits) that were requested of this device.
    ///
    /// If any of these limits are exceeded, functions may panic.
    pub fn limits(&self) -> (limits: wgpu::Limits)
        ensures
            limits == device_limits(self@),
    {
        self.device.limits()
    }

    /// Returns the wgpu [`Device`](wgpu::Device).
    pub fn wgpu_device(&self) -> (device: &wgpu::Device)
        ensures
            *device == self@,
    {
        &self.device
    }

    /// Chooses the call that makes a shader module from trusted source code.
    /// `spirv_shader_passthrough` says whether SPIR-V passthrough is built in.
    pub fn create_shader_module<'a>(
        &self,
        spirv_shader_passthrough: bool,
        desc: &ShaderModuleDescriptor<'a>,
    ) -> (call: ShaderModuleCall<'a>)
        ensures
            call == trusted_call(
                spirv_shader_passthrough,
                features_allow_passthrough_shaders(device_features(self@)),
                *desc,
            ),
            call !is Validated,
            call is Passthrough <==> spirv_shader_passthrough && features_allow_passthrough_shaders(
                device_features(self@),
            ) && desc.source is SpirV,
            call matches ShaderModuleCall::Passthrough { label, spirv } ==> label == desc.label
                && desc.source == ShaderSource::SpirV(spirv),
    {
        let features = self.features();
        choose_trusted_call(spirv_shader_passthrough, allows_passthrough_shaders(&features), desc)
    }

    /// Chooses the call that makes and validates a shader module. SPIR-V that
    /// would be passed through cannot be validated.
    pub fn create_and_validate_shader_module<'a>(
        &self,
        spirv_shader_passthrough: bool,
        desc: &ShaderModuleDescriptor<'a>,
    ) -> (call: Result<ShaderModuleCall<'a>, ShaderModuleError>)
        ensures
            call == if spirv_shader_passthrough && desc.source is SpirV {
                Err(ShaderModuleError::SpirvIsNotValidated)
            } else {
                Ok(ShaderModuleCall::Validated)
            },
    {
        match desc.source {
            ShaderSource::SpirV(_) if spirv_shader_passthrough => Err(
                ShaderModuleError::SpirvIsNotValidated,
            ),
            _ => Ok(ShaderModuleCall::Validated),
        }
    }

    /// Hands out the bind group that the cache holds for the same layout and
    /// entries, or else creates a new one by `create`, which is called in no
    /// other case. Without a cache every bind group is created anew.
    pub fn create_bind_group<F: FnOnce(&wgpu::Device) -> wgpu::BindGroup>(
        &self,
        cache: &mut Option<BindGroupCache>,
        layout: BindGroupLayoutId,
        entries: &[BindGroupEntry],
        create: F,
    ) -> (bind_group: BindGroup)
        requires
            (*old(cache)) is None ==> create.requires((&self@,)),
            (*old(cache)) matches Some(before) ==> {
                &&& before@.valid()
                &&& before@.access_count < u64::MAX
                &&& !before@.hits(bind_group_key(layout, entry_models(entries@)))
                    ==> create.requires((&self@,))
            },
        ensures
            (*old(cache)) is None ==> {
                &&& (*final(cache)) is None
                &&& create.ensures((&self@,), bind_group@)
            },
            (*old(cache)) matches Some(before) ==> {
                let key = bind_group_key(layout, entry_models(entries@));
                &&& before@.hits(key) ==> bind_group == before@.found(key)
                &&& !before@.hits(key) ==> create.ensures((&self@,), bind_group@)
                &&& (*final(cache)) is Some
                &&& (*final(cache))->0@ == before@.after_access(key, bind_group)
                &&& (*final(cache))->0@.valid()
            },
    {
        let device = &self.device;
        match cache {
            Some(cached) => {
                let key: u64 = compute_bind_group_hash(layout, entries);
                let make = || -> (made: BindGroup)
                    requires
                        create.requires((device,)),
                    ensures
                        create.ensures((device,), made@),
                    { BindGroup::from(create(device)) };
                cached.get_or_insert(key, make)
            },
            None => BindGroup::from(create(device)),
        }
    }

    /// Rounds up `row_bytes` to be a multiple of [`wgpu::COPY_BYTES_PER_ROW_ALIGNMENT`].
    pub fn align_copy_bytes_per_row(row_bytes: usize) -> (aligned: usize)
        requires
            row_bytes + 256 <= usize::MAX,
        ensures
            aligned == aligned_row(row_bytes as int),
            aligned % 256 == 0,
            row_bytes <= aligned < row_bytes + 256,
    {
        let align: usize = copy_bytes_per_row_alignment() as usize;

        // If `row_bytes` is aligned, this is just under the next aligned value,
        // otherwise it is at or above it.
        let over_aligned: usize = row_bytes + align - 1;

        // Round the number *down* to the nearest aligned value.
        (over_aligned / align) * align
    }

    /// Read-only buffers are bound as storage buffers where the device takes
    /// `buffers_per_shader_stage` of them, and as uniform buffers elsewhere.
    pub fn get_supported_read_only_binding_type(
        &self,
        buffers_per_shader_stage: u32,
    ) -> (binding_type: BufferBindingType)
        ensures
            binding_type == read_only_binding_type(
                limits_max_storage_buffers(device_limits(self@)),
                buffers_per_shader_stage,
            ),
            binding_type == (BufferBindingType::Storage { read_only: true })
                <==> buffers_per_shader_stage <= limits_max_storage_buffers(device_limits(self@)),
            binding_type == BufferBindingType::Uniform <==> buffers_per_shader_stage
                > limits_max_storage_buffers(device_limits(self@)),
    {
        let limits = self.limits();
        choose_read_only_binding_type(max_storage_buffers(&limits), buffers_per_shader_stage)
    }
}

/// The aligned row is the smallest multiple of the alignment that holds the
/// row, aligning it again changes nothing, and longer rows do not become shorter.
pub proof fn law_alignment_rounds_up(bytes: int, longer: int, multiple: int)
    requires
        bytes <= longer,
    ensures
        aligned_row(bytes) % 256 == 0,
        bytes <= multiple && multiple % 256 == 0 ==> aligned_row(bytes) <= multiple,
        aligned_row(aligned_row(bytes)) == aligned_row(bytes),
        aligned_row(bytes) <= aligned_row(longer),
{
}

/// Storage buffers are chosen exactly up to the limit of the device, always
/// read-only ones. So where they are chosen, they are chosen for fewer buffers
/// and under a higher limit as well, and each limit parts the counts in two.
pub proof fn law_storage_up_to_the_limit(limit: u32, count: u32, higher_limit: u32, fewer: u32)
    requires
        limit <= higher_limit,
        fewer <= count,
    ensures
        count <= limit ==> read_only_binding_type(limit, count) == (BufferBindingType::Storage {
            read_only: true,
        }),
        count > limit ==> read_only_binding_type(limit, count) == BufferBindingType::Uniform,
        read_only_binding_type(limit, count) is Storage ==> read_only_binding_type(
            higher_limit,
            fewer,
        ) == (BufferBindingType::Storage { read_only: true }),
        read_only_binding_type(higher_limit, fewer) is Uniform ==> read_only_binding_type(
            limit,
            count,
        ) == BufferBindingType::Uniform,
        read_only_binding_type(limit, limit) is Storage,
        limit < u32::MAX ==> read_only_binding_type(limit, (limit + 1) as u32) is Uniform,
{
}

} // verus!
