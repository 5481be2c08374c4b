use vstd::prelude::*;

verus! {

/// The source code of a shader module, as far as it decides how the module is
/// made: SPIR-V with its words, or any other language.
#[derive(Clone, Copy, PartialEq, Eq, Debug)]
pub enum ShaderSource<'a> {
    SpirV(&'a [u32]),
    Other,
}

/// A shader module that is asked for.
#[derive(Clone, Copy, PartialEq, Eq, Debug)]
pub struct ShaderModuleDescriptor<'a> {
    pub label: Option<&'a str>,
    pub source: ShaderSource<'a>,
}

/// The call by which a device makes a shader module.
#[derive(Clone, Copy, PartialEq, Eq, Debug)]
pub enum ShaderModuleCall<'a> {
    /// The words go to the backend as they are.
    Passthrough { label: Option<&'a str>, spirv: &'a [u32] },
    /// The descriptor is compiled without any runtime check.
    Unchecked,
    /// The descriptor is validated and compiled with every runtime check.
    Validated,
}

/// Why a shader module cannot be made.
#[derive(Clone, Copy, PartialEq, Eq, Debug)]
pub enum ShaderModuleError {
    /// No safety checks are performed for SPIR-V where it is passed through.
    SpirvIsNotValidated,
}

/// The call that makes a trusted shader module: SPIR-V is passed through where
/// both the build and the device allow it, and nothing is checked otherwise.
pub open spec fn trusted_call<'a>(
    spirv_shader_passthrough: bool,
    device_allows_passthrough: bool,
    desc: ShaderModuleDescriptor<'a>,
) -> ShaderModuleCall<'a> {
    if spirv_shader_passthrough && device_allows_passthrough && desc.source is SpirV {
        ShaderModuleCall::Passthrough { label: desc.label, spirv: desc.source->SpirV_0 }
    } else {
        ShaderModuleCall::Unchecked
    }
}

/// Chooses the call that makes a trusted shader module. The flags say whether
/// SPIR-V passthrough is built in and whether the device allows it.
pub fn choose_trusted_call<'a>(
    spirv_shader_passthrough: bool,
    device_allows_passthrough: bool,
    desc: &ShaderModuleDescriptor<'a>,
) -> (call: ShaderModuleCall<'a>)
    ensures
        call == trusted_call(spirv_shader_passthrough, device_allows_passthrough, *desc),
        call !is Validated,
        call is Passthrough <==> spirv_shader_passthrough && device_allows_passthrough
            && desc.source is SpirV,
        call matches ShaderModuleCall::Passthrough { label, spirv } ==> label == desc.label
            && desc.source == ShaderSource::SpirV(spirv),
{
    match desc.source {
        ShaderSource::SpirV(spirv) => {
            if spirv_shader_passthrough && device_allows_passthrough {
                ShaderModuleCall::Passthrough { label: desc.label, spirv }
            } else {
                ShaderModuleCall::Unchecked
            }
        },
        ShaderSource::Other => ShaderModuleCall::Unchecked,
    }
}

/// A trusted shader module is never made by the validating call: SPIR-V goes to
/// the backend with its label and its words where both the build and the device
/// allow it, and every other module is made without runtime checks.
pub proof fn law_trusted_modules_are_not_validated(
    spirv_shader_passthrough: bool,
    device_allows_passthrough: bool,
    desc: ShaderModuleDescriptor,
)
    ensures
        ({
            let call = trusted_call(spirv_shader_passthrough, device_allows_passthrough, desc);
            &&& call is Passthrough || call is Unchecked
            &&& desc.source is Other ==> call is Unchecked
            &&& !spirv_shader_passthrough || !device_allows_passthrough ==> call is Unchecked
            &&& spirv_shader_passthrough && device_allows_passthrough ==> (desc.source matches
                ShaderSource::SpirV(words) ==> call == (ShaderModuleCall::Passthrough {
                label: desc.label,
                spirv: words,
            }))
        }),
{
}

} // verus!
