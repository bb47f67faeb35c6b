//! The rendering back ends the game can be started with.
use vstd::prelude::*;

verus! {

/// A rendering API the game supports.
#[derive(Clone, Copy, Debug, PartialEq, Eq, Structural)]
pub enum RenderingAPI {
    Vulkan,
    DirectX12,
}

/// The driver name the game expects for an API.
pub open spec fn driver_name(api: RenderingAPI) -> Seq<char> {
    match api {
        RenderingAPI::Vulkan => "vulkan"@,
        RenderingAPI::DirectX12 => "d3d12"@,
    }
}

impl RenderingAPI {
    /// The name passed to the game's `--rendering-driver` option.
    pub fn as_driver_name(self) -> (res: &'static str)
        ensures
            res@ == driver_name(self),
    {
        match self {
            RenderingAPI::Vulkan => "vulkan",
            RenderingAPI::DirectX12 => "d3d12",
        }
    }
}

} // verus!
