use vstd::prelude::*;
use crate::pixels::{Px, PixelBuffer};

verus! {

/// Everything a frame contributes to an animation, as one spec-level value:
/// pixels, width, height, horizontal offset, vertical offset, display delay
/// in milliseconds.
pub type FrameV = (Seq<Px>, u32, u32, u32, u32, u64);

/// One still image of an animation together with its placement offsets and
/// its display delay in milliseconds.
#[derive(Debug)]
pub struct Frame {
    pub buffer: PixelBuffer,
    pub left: u32,
    pub top: u32,
    pub delay_ms: u64,
}

/// The ordered frames of one decoded or synthesized animation. Insertion
/// order is temporal display order; a valid model is never empty.
#[derive(Debug)]
pub struct FrameModel {
    pub frames: Vec<Frame>,
}

/// The spec-level content of one frame.
pub open spec fn frame_v(f: Frame) -> FrameV {
    (f.buffer.data@, f.buffer.width, f.buffer.height, f.left, f.top, f.delay_ms)
}

impl Frame {
    /// A frame's raster is consistent and has at least one pixel each way.
    pub open spec fn wf(self) -> bool {
        self.buffer.wf() && self.buffer.width > 0 && self.buffer.height > 0
    }
}

impl View for FrameModel {
    type V = Seq<FrameV>;

    open spec fn view(&self) -> Seq<FrameV> {
        self.frames@.map_values(|f: Frame| frame_v(f))
    }
}

impl FrameModel {
    /// A model holds at least one frame, every frame is well formed, and all
    /// frames share one canvas size.
    pub open spec fn wf(self) -> bool {
        &&& self.frames@.len() > 0
        &&& forall|i: int| 0 <= i < self.frames@.len() ==> (#[trigger] self.frames@[i]).wf()
        &&& forall|i: int|
            0 <= i < self.frames@.len()
                ==> (#[trigger] self.frames@[i]).buffer.width == self.frames@[0].buffer.width
                    && self.frames@[i].buffer.height == self.frames@[0].buffer.height
    }

    /// Canvas width shared by every frame.
    pub open spec fn frame_w(self) -> int {
        self.frames@[0].buffer.width as int
    }

    /// Canvas height shared by every frame.
    pub open spec fn frame_h(self) -> int {
        self.frames@[0].buffer.height as int
    }

    /// Number of frames.
    pub fn len(&self) -> (n: usize)
        ensures
            n == self.frames@.len(),
    {
        self.frames.len()
    }
}

/// Two models hold the same animation, frame for frame.
pub open spec fn model_eq(a: FrameModel, b: FrameModel) -> bool {
    a@ =~= b@
}

/// Everything a library operation can fail with.
#[derive(Clone, Copy, PartialEq, Eq, Structural, Debug)]
pub enum GifLabError {
    /// The source bytes are empty, malformed, or decode to zero frames.
    Decode,
    /// The requested grid does not fit the image: a tile dimension comes out
    /// zero, or the composite would exceed what a raster can hold.
    Geometry,
    /// The operation produced zero usable frames.
    EmptyResult,
    /// A caller-supplied numeric parameter is outside its valid domain.
    InvalidArgument,
    /// The animation could not be serialized.
    Encode,
}

} // verus!
