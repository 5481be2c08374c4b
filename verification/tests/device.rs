use render_device::render_device::{choose_read_only_binding_type, BufferBindingType};
use render_device::shader_module::{
    choose_trusted_call, ShaderModuleCall, ShaderModuleDescriptor, ShaderModuleError, ShaderSource,
};
use render_device::RenderDevice;

fn device_with(features: wgpu::Features, limits: wgpu::Limits) -> wgpu::Device {
    let desc = wgpu::DeviceDescriptor {
        required_features: features,
        required_limits: limits,
        ..Default::default()
    };
    wgpu::Device::noop(&desc).0
}

fn plain_device() -> wgpu::Device {
    device_with(wgpu::Features::empty(), wgpu::Limits::default())
}

#[test]
fn align_copy_bytes_per_row() {
    let align = wgpu::COPY_BYTES_PER_ROW_ALIGNMENT as usize;

    assert_eq!(RenderDevice::align_copy_bytes_per_row(0), 0);
    assert_eq!(RenderDevice::align_copy_bytes_per_row(1), align);
    assert_eq!(RenderDevice::align_copy_bytes_per_row(align + 1), align * 2);
    assert_eq!(RenderDevice::align_copy_bytes_per_row(align), align);
}

#[test]
fn alignment_on_exact_values() {
    assert_eq!(RenderDevice::align_copy_bytes_per_row(255), 256);
    assert_eq!(RenderDevice::align_copy_bytes_per_row(257), 512);
    assert_eq!(RenderDevice::align_copy_bytes_per_row(1000), 1024);
    assert_eq!(RenderDevice::align_copy_bytes_per_row(usize::MAX - 256), usize::MAX - 255);
}

#[test]
fn aligning_twice_changes_nothing() {
    for bytes in 0..2000 {
        let aligned = RenderDevice::align_copy_bytes_per_row(bytes);
        assert_eq!(RenderDevice::align_copy_bytes_per_row(aligned), aligned);
        assert!(aligned <= RenderDevice::align_copy_bytes_per_row(bytes + 1));
    }
}

#[test]
fn device_is_kept() {
    let device = plain_device();
    let render_device = RenderDevice::new(device.clone());
    assert_eq!(*render_device.wgpu_device(), device);
    assert_eq!(*render_device.clone().wgpu_device(), device);
    assert_eq!(*RenderDevice::from(device.clone()).wgpu_device(), device);
}

#[test]
fn features_and_limits_are_those_of_the_device() {
    let limits = wgpu::Limits {
        max_storage_buffers_per_shader_stage: 3,
        ..wgpu::Limits::default()
    };
    let device = device_with(wgpu::Features::TIMESTAMP_QUERY, limits.clone());
    let render_device = RenderDevice::from(device);
    assert!(render_device.features().contains(wgpu::Features::TIMESTAMP_QUERY));
    assert!(!render_device.features().contains(wgpu::Features::EXPERIMENTAL_PASSTHROUGH_SHADERS));
    assert_eq!(render_device.limits(), limits);
}

#[test]
fn storage_buffers_where_the_device_takes_enough() {
    let limits = wgpu::Limits {
        max_storage_buffers_per_shader_stage: 3,
        ..wgpu::Limits::default()
    };
    let render_device = RenderDevice::from(device_with(wgpu::Features::empty(), limits));
    let storage = BufferBindingType::Storage { read_only: true };
    assert_eq!(render_device.get_supported_read_only_binding_type(0), storage);
    assert_eq!(render_device.get_supported_read_only_binding_type(3), storage);
    assert_eq!(
        render_device.get_supported_read_only_binding_type(4),
        BufferBindingType::Uniform
    );
}

#[test]
fn binding_type_for_given_limits() {
    let storage = BufferBindingType::Storage { read_only: true };
    assert_eq!(choose_read_only_binding_type(0, 0), storage);
    assert_eq!(choose_read_only_binding_type(0, 1), BufferBindingType::Uniform);
    assert_eq!(choose_read_only_binding_type(8, 8), storage);
    assert_eq!(choose_read_only_binding_type(u32::MAX, u32::MAX), storage);
}

#[test]
fn spirv_is_passed_through_where_build_and_device_allow_it() {
    let words = [0x0723_0203u32, 1, 2];
    let desc = ShaderModuleDescriptor {
        label: Some("shader"),
        source: ShaderSource::SpirV(&words),
    };
    let passthrough = ShaderModuleCall::Passthrough {
        label: Some("shader"),
        spirv: &words,
    };
    assert_eq!(choose_trusted_call(true, true, &desc), passthrough);
    assert_eq!(choose_trusted_call(true, false, &desc), ShaderModuleCall::Unchecked);
    assert_eq!(choose_trusted_call(false, true, &desc), ShaderModuleCall::Unchecked);
    assert_eq!(choose_trusted_call(false, false, &desc), ShaderModuleCall::Unchecked);

    let other = ShaderModuleDescriptor {
        label: None,
        source: ShaderSource::Other,
    };
    assert_eq!(choose_trusted_call(true, true, &other), ShaderModuleCall::Unchecked);
}

#[test]
fn device_features_decide_on_passthrough() {
    let words = [7u32, 8];
    let desc = ShaderModuleDescriptor {
        label: None,
        source: ShaderSource::SpirV(&words),
    };
    for features in [wgpu::Features::empty(), wgpu::Features::TIMESTAMP_QUERY] {
        let device = device_with(features, wgpu::Limits::default());
        let render_device = RenderDevice::from(device);
        assert_eq!(render_device.create_shader_module(true, &desc), ShaderModuleCall::Unchecked);
        assert_eq!(render_device.create_shader_module(false, &desc), ShaderModuleCall::Unchecked);
    }
}

#[test]
fn spirv_that_is_passed_through_is_not_validated() {
    let words = [1u32];
    let spirv = ShaderModuleDescriptor {
        label: None,
        source: ShaderSource::SpirV(&words),
    };
    let other = ShaderModuleDescriptor {
        label: None,
        source: ShaderSource::Other,
    };
    let render_device = RenderDevice::from(plain_device());
    assert_eq!(
        render_device.create_and_validate_shader_module(true, &spirv),
        Err(ShaderModuleError::SpirvIsNotValidated)
    );
    assert_eq!(
        render_device.create_and_validate_shader_module(false, &spirv),
        Ok(ShaderModuleCall::Validated)
    );
    assert_eq!(
        render_device.create_and_validate_shader_module(true, &other),
        Ok(ShaderModuleCall::Validated)
    );
}
