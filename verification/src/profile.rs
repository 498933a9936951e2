//! The two model profiles and what each of them fixes.

use vstd::prelude::*;

verus! {

/// The reference value that the regressor was trained against: raw
/// regression values are offsets multiplied by this scale.
pub const REGRESSION_SCALE: u16 = 100;

/// The largest input side of any profile.
pub const MAX_INPUT_SIZE: u32 = 256;

/// Number of colour channels of the network's input.
pub const INPUT_CHANNELS: u32 = 3;

/// The detector's profile: `Front` works on small inputs, `Back` on large ones.
#[derive(Clone, Copy, Debug, PartialEq, Eq, Structural)]
pub enum ModelType {
    Back,
    Front,
}

impl ModelType {
    /// Side of the square input, in pixels.
    pub open spec fn spec_input_size(self) -> int {
        match self {
            ModelType::Back => 256,
            ModelType::Front => 128,
        }
    }

    /// Number of anchors, and so of scores and regression rows.
    pub open spec fn spec_anchor_count(self) -> int {
        896
    }

    /// Name of the weight file inside the model directory.
    pub open spec fn spec_weights_file_name(self) -> Seq<char> {
        match self {
            ModelType::Back => "blazefaceback.safetensors"@,
            ModelType::Front => "blazeface.safetensors"@,
        }
    }

    /// Name of the anchor file inside the model directory.
    pub open spec fn spec_anchors_file_name(self) -> Seq<char> {
        match self {
            ModelType::Back => "anchorsback.npy"@,
            ModelType::Front => "anchors.npy"@,
        }
    }

    /// Side of the square input, in pixels.
    pub fn input_size(self) -> (side: u32)
        ensures
            side == self.spec_input_size(),
            0 < side <= MAX_INPUT_SIZE,
    {
        match self {
            ModelType::Back => 256,
            ModelType::Front => 128,
        }
    }

    /// Number of anchors of the profile.
    pub fn anchor_count(self) -> (count: usize)
        ensures
            count == self.spec_anchor_count(),
    {
        896
    }

    /// Name of the weight file inside the model directory.
    pub fn weights_file_name(self) -> (name: &'static str)
        ensures
            name@ == self.spec_weights_file_name(),
    {
        match self {
            ModelType::Back => "blazefaceback.safetensors",
            ModelType::Front => "blazeface.safetensors",
        }
    }

    /// Name of the anchor file inside the model directory.
    pub fn anchors_file_name(self) -> (name: &'static str)
        ensures
            name@ == self.spec_anchors_file_name(),
    {
        match self {
            ModelType::Back => "anchorsback.npy",
            ModelType::Front => "anchors.npy",
        }
    }
}

} // verus!
