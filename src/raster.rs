use vstd::prelude::*;

verus! {

/// Which buffers of a rasterizer a clear resets.
#[derive(Clone, Copy, Debug, PartialEq, Eq, Structural)]
pub enum Buffer {
    Color,
    Depth,
    Both,
}

/// The kind of primitive a draw call assembles from its index buffer.
#[derive(Clone, Copy, Debug, PartialEq, Eq, Structural)]
pub enum Primitive {
    Line,
    Triangle,
}

/// A handle to a loaded buffer of vertex positions.
#[derive(Clone, Copy, Debug, PartialEq, Eq, Structural)]
pub struct PosBufId(pub usize);

/// A handle to a loaded buffer of triangle indices.
#[derive(Clone, Copy, Debug, PartialEq, Eq, Structural)]
pub struct IndBufId(pub usize);

/// A handle to a loaded buffer of vertex colors.
#[derive(Clone, Copy, Debug, PartialEq, Eq, Structural)]
pub struct ColBufId(pub usize);

impl Buffer {
    /// The clear resets the color buffer.
    pub fn clears_color(&self) -> (r: bool)
        ensures
            r == (*self == Buffer::Color || *self == Buffer::Both),
    {
        match self {
            Buffer::Color => true,
            Buffer::Depth => false,
            Buffer::Both => true,
        }
    }

    /// The clear resets the depth buffer.
    pub fn clears_depth(&self) -> (r: bool)
        ensures
            r == (*self == Buffer::Depth || *self == Buffer::Both),
    {
        match self {
            Buffer::Color => false,
            Buffer::Depth => true,
            Buffer::Both => true,
        }
    }
}

/// The index of pixel `(x, y)` in a row-major frame of `width` by `height`
/// whose first row is the top one, while `y` counts from the bottom.
pub fn pixel_index(width: u64, height: u64, x: usize, y: usize) -> (r: usize)
    requires
        (x as int) < width,
        (y as int) < height,
        width * height <= usize::MAX,
    ensures
        r == (height - 1 - y) * width + x,
        r < width * height,
{
    proof {
        let row = height - 1 - y;
        assert(row * width + x < width * height) by (nonlinear_arith)
            requires
                0 <= row < height,
                0 <= x < width,
        ;
        assert(0 <= row * width) by (nonlinear_arith)
            requires
                0 <= row,
                0 <= width,
        ;
    }
    ((height - 1 - y as u64) * width + x as u64) as usize
}

} // verus!
