use vstd::prelude::*;

verus! {

/// Settings of the two-pass Gaussian blur.
pub struct GaussianBlurConfig {
    pub enabled: bool,
}

/// Settings of the grayscale pass.
pub struct GrayscaleConfig {
    pub enabled: bool,
}

/// Settings of the colour inversion pass.
pub struct ColorInvertConfig {
    pub enabled: bool,
}

/// Settings of the edge detection pass.
pub struct EdgeDetectionConfig {
    pub enabled: bool,
}

/// Settings of the compute grayscale pass.
pub struct ComputeGrayscaleConfig {
    pub enabled: bool,
}

impl Default for GaussianBlurConfig {
    fn default() -> (r: Self)
        ensures
            !r.enabled,
    {
        GaussianBlurConfig { enabled: false }
    }
}

impl Default for GrayscaleConfig {
    fn default() -> (r: Self)
        ensures
            !r.enabled,
    {
        GrayscaleConfig { enabled: false }
    }
}

impl Default for ColorInvertConfig {
    fn default() -> (r: Self)
        ensures
            !r.enabled,
    {
        ColorInvertConfig { enabled: false }
    }
}

impl Default for EdgeDetectionConfig {
    fn default() -> (r: Self)
        ensures
            !r.enabled,
    {
        EdgeDetectionConfig { enabled: false }
    }
}

impl Default for ComputeGrayscaleConfig {
    fn default() -> (r: Self)
        ensures
            !r.enabled,
    {
        ComputeGrayscaleConfig { enabled: false }
    }
}

/// The pass that draws the user interface over the final colour target.
pub struct EguiPass;

impl EguiPass {
    pub fn new() -> (r: Self)
        ensures
            r == EguiPass,
    {
        EguiPass
    }
}

/// Whether a pass records render or compute work.
#[derive(Clone, Copy, Debug, PartialEq, Eq, Structural)]
pub enum PassType {
    Render,
    Compute,
}

/// The queue a pass is meant for.
#[derive(Clone, Copy, Debug, PartialEq, Eq, Hash, Structural)]
pub enum QueueType {
    Graphics,
    Compute,
}

} // verus!
