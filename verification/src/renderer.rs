use vstd::prelude::*;

verus! {

/// The graphics API a renderer draws with.
#[derive(Debug, Clone, Copy, PartialEq, Eq, Structural)]
pub enum RenderBackend {
    Gles,
    Vulkan,
}

/// The name a render backend is shown under.
pub open spec fn render_backend_name(b: RenderBackend) -> Seq<char> {
    match b {
        RenderBackend::Gles => "GLES"@,
        RenderBackend::Vulkan => "Vulkan"@,
    }
}

impl RenderBackend {
    /// The name this backend is shown under.
    pub fn name(&self) -> (s: String)
        ensures
            s@ == render_backend_name(*self),
    {
        match self {
            RenderBackend::Gles => "GLES".to_string(),
            RenderBackend::Vulkan => "Vulkan".to_string(),
        }
    }
}

} // verus!
