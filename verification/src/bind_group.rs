use vstd::prelude::*;

verus! {

/// A group of GPU resources that is bound together: a handle to wgpu's bind group.
#[derive(Debug)]
pub struct BindGroup {
    value: wgpu::BindGroup,
}

impl View for BindGroup {
    type V = wgpu::BindGroup;

    closed spec fn view(&self) -> wgpu::BindGroup {
        self.value
    }
}

impl BindGroup {
    /// The bind group around a handle of wgpu.
    pub closed spec fn of(value: wgpu::BindGroup) -> BindGroup {
        BindGroup { value }
    }

    /// The handle of wgpu.
    pub fn wgpu_bind_group(&self) -> (value: &wgpu::BindGroup)
        ensures
            *value == self@,
    {
        &self.value
    }
}

impl From<wgpu::BindGroup> for BindGroup {
    fn from(value: wgpu::BindGroup) -> (bind_group: BindGroup)
        ensures
            bind_group@ == value,
    {
        BindGroup { value }
    }
}

impl vstd::std_specs::convert::FromSpecImpl<wgpu::BindGroup> for BindGroup {
    open spec fn obeys_from_spec() -> bool {
        true
    }

    open spec fn from_spec(value: wgpu::BindGroup) -> BindGroup {
        BindGroup::of(value)
    }
}

impl Clone for BindGroup {
    fn clone(&self) -> (copy: BindGroup)
        ensures
            copy == *self,
    {
        BindGroup { value: self.value.clone() }
    }
}

} // verus!
