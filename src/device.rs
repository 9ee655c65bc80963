//! The operations a frame asks of the graphics device, in the order in which
//! they must be carried out, and the options of the clear step.
use vstd::prelude::*;
use crate::queue::DeviceState;
use crate::scene::{Light, ObjectRef, Rect};

verus! {

/// An RGBA colour, each channel in thousandths.
#[derive(Clone, Copy, Debug, PartialEq, Eq, Structural)]
pub struct Color {
    pub r: u16,
    pub g: u16,
    pub b: u16,
    pub a: u16,
}

#[derive(Clone, Copy, Debug, PartialEq, Eq, Structural)]
pub enum BufferBit {
    Color,
    Depth,
    Stencil,
}

/// Where a light's uniforms go in the shader.
#[derive(Clone, Copy, Debug, PartialEq, Eq, Structural)]
pub enum LightSlot {
    Directional,
    Point(usize),
}

#[derive(Clone, Copy, Debug, PartialEq, Eq, Structural)]
pub enum DeviceOp {
    BindFramebuffer(u64),
    UnbindFramebuffer(u64),
    Viewport(Rect),
    ClearColor(Color),
    Clear(BufferBit),
    CommitState(DeviceState),
    BindProgram(u64),
    BindTexture { texture: u64, unit: u32 },
    UploadLight { program: u64, slot: LightSlot, light: Light },
    BindBuffer { buffer: u64, program: u64 },
    /// Upload the camera's and the object's matrices to the program.
    UploadCamera { program: u64, object: ObjectRef },
    CommitProgram(u64),
    Draw(u64),
    UnbindBuffer(u64),
}

/// Which targets to clear, and the clear colour to set first.
#[derive(Clone, Copy, Debug, PartialEq, Eq, Structural)]
pub struct ClearOption {
    pub color: Option<Color>,
    pub clear_color: bool,
    pub clear_depth: bool,
    pub clear_stencil: bool,
}

impl Default for ClearOption {
    /// Clear colour and depth to mid-gray; keep the stencil.
    fn default() -> (r: ClearOption)
        ensures
            r == (ClearOption {
                color: Some(Color { r: 300, g: 300, b: 300, a: 1000 }),
                clear_color: true,
                clear_depth: true,
                clear_stencil: false,
            }),
    {
        ClearOption {
            color: Some(Color { r: 300, g: 300, b: 300, a: 1000 }),
            clear_color: true,
            clear_depth: true,
            clear_stencil: false,
        }
    }
}

pub open spec fn opt_op(b: bool, op: DeviceOp) -> Seq<DeviceOp> {
    if b {
        seq![op]
    } else {
        Seq::empty()
    }
}

/// The operations of the clear step.
pub open spec fn clear_ops(o: ClearOption) -> Seq<DeviceOp> {
    (match o.color {
        Some(c) => seq![DeviceOp::ClearColor(c)],
        None => Seq::empty(),
    }) + opt_op(o.clear_color, DeviceOp::Clear(BufferBit::Color)) + opt_op(
        o.clear_depth,
        DeviceOp::Clear(BufferBit::Depth),
    ) + opt_op(o.clear_stencil, DeviceOp::Clear(BufferBit::Stencil))
}

} // verus!
