//! Pixel-measured quantities.

use vstd::prelude::*;

verus! {

/// A pixel position in a framebuffer.
#[derive(Clone, Copy, Debug, PartialEq, Eq, Structural)]
pub struct PixelCoord {
    x: usize,
    y: usize,
}

impl PixelCoord {
    pub fn new(x: usize, y: usize) -> (coord: PixelCoord)
        ensures
            coord.spec_x() == x && coord.spec_y() == y,
    {
        PixelCoord { x, y }
    }

    pub closed spec fn spec_x(self) -> usize {
        self.x
    }

    pub closed spec fn spec_y(self) -> usize {
        self.y
    }

    pub fn x(self) -> (x: usize)
        ensures
            x == self.spec_x(),
    {
        self.x
    }

    pub fn y(self) -> (y: usize)
        ensures
            y == self.spec_y(),
    {
        self.y
    }
}

/// A non-zero width and height measured in pixels.
#[derive(Clone, Copy, Debug, PartialEq, Eq, Structural)]
pub struct PixelSize {
    width: usize,
    height: usize,
}

impl PixelSize {
    #[verifier::type_invariant]
    spec fn inv(self) -> bool {
        self.width != 0 && self.height != 0
    }

    /// A size; both dimensions must be non-zero.
    pub fn new(width: usize, height: usize) -> (size: PixelSize)
        requires
            width != 0 && height != 0,
        ensures
            size.spec_width() == width && size.spec_height() == height,
    {
        PixelSize { width, height }
    }

    /// A size, when both dimensions are non-zero.
    pub fn try_new(width: usize, height: usize) -> (size: Option<PixelSize>)
        ensures
            size.is_some() == (width != 0 && height != 0),
            size.is_some() ==> size.unwrap().spec_width() == width && size.unwrap().spec_height() == height,
    {
        if width == 0 || height == 0 {
            None
        } else {
            Some(PixelSize { width, height })
        }
    }

    pub closed spec fn spec_width(self) -> usize {
        self.width
    }

    pub closed spec fn spec_height(self) -> usize {
        self.height
    }

    pub fn width(self) -> (width: usize)
        ensures
            width == self.spec_width(),
            width > 0,
    {
        proof { use_type_invariant(&self); }
        self.width
    }

    pub fn height(self) -> (height: usize)
        ensures
            height == self.spec_height(),
            height > 0,
    {
        proof { use_type_invariant(&self); }
        self.height
    }
}

/// The non-zero number of pixels between consecutive framebuffer rows.
#[derive(Clone, Copy, Debug, PartialEq, Eq, Structural)]
pub struct Stride(usize);

impl Stride {
    #[verifier::type_invariant]
    spec fn inv(self) -> bool {
        self.0 != 0
    }

    pub fn new(value: usize) -> (stride: Stride)
        requires
            value != 0,
        ensures
            stride.spec_get() == value,
    {
        Stride(value)
    }

    pub fn try_new(value: usize) -> (stride: Option<Stride>)
        ensures
            stride.is_some() == (value != 0),
            stride.is_some() ==> stride.unwrap().spec_get() == value,
    {
        if value == 0 { None } else { Some(Stride(value)) }
    }

    pub closed spec fn spec_get(self) -> usize {
        self.0
    }

    pub fn get(self) -> (value: usize)
        ensures
            value == self.spec_get(),
            value > 0,
    {
        proof { use_type_invariant(&self); }
        self.0
    }
}

/// A circle radius measured in pixels.
#[derive(Clone, Copy, Debug, PartialEq, Eq, Structural)]
pub struct PixelRadius(usize);

impl PixelRadius {
    pub fn new(value: usize) -> (radius: PixelRadius)
        ensures
            radius.spec_get() == value,
    {
        PixelRadius(value)
    }

    pub closed spec fn spec_get(self) -> usize {
        self.0
    }

    pub fn get(self) -> (value: usize)
        ensures
            value == self.spec_get(),
    {
        self.0
    }
}

/// A vertical displacement measured in pixel rows.
#[derive(Clone, Copy, Debug, PartialEq, Eq, Structural)]
pub struct PixelRows(usize);

impl PixelRows {
    pub fn new(value: usize) -> (rows: PixelRows)
        ensures
            rows.spec_get() == value,
    {
        PixelRows(value)
    }

    pub closed spec fn spec_get(self) -> usize {
        self.0
    }

    pub fn get(self) -> (value: usize)
        ensures
            value == self.spec_get(),
    {
        self.0
    }
}

} // verus!
