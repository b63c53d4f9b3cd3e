//! Rasters and resize errors: an RGBA raster is a flat byte buffer of
//! exactly `width * height * 4` bytes, row-major, 4 channels per pixel.

use vstd::prelude::*;

verus! {

/// Why a resize request was rejected.
#[derive(Clone, Copy, PartialEq, Eq, Structural, Debug)]
pub enum ResizeError {
    /// The source buffer length does not match the declared dimensions,
    /// or a declared source dimension is zero.
    InvalidSource,
    /// A requested destination dimension is zero.
    InvalidDimensions,
    /// A needed buffer would exceed the address space.
    AllocationFailure,
}

/// A 2D grid of RGBA pixels stored as a flat byte buffer.
pub struct Raster {
    pub width: u32,
    pub height: u32,
    pub data: Vec<u8>,
}

impl Raster {
    /// Both dimensions are nonzero and the buffer holds exactly
    /// `width * height * 4` bytes.
    pub open spec fn wf(&self) -> bool {
        &&& self.width > 0
        &&& self.height > 0
        &&& self.data@.len() == self.width * self.height * 4
    }

    /// Builds a raster, rejecting dimension/buffer mismatches instead of
    /// panicking.
    pub fn new(width: u32, height: u32, data: Vec<u8>) -> (r: Result<Raster, ResizeError>)
        ensures
            match r {
                Ok(raster) => {
                    &&& width > 0 && height > 0 && data@.len() == width * height * 4
                    &&& raster.width == width
                    &&& raster.height == height
                    &&& raster.data@ == data@
                    &&& raster.wf()
                },
                Err(e) => {
                    &&& e == ResizeError::InvalidSource
                    &&& (width == 0 || height == 0 || data@.len() != width * height * 4)
                },
            },
    {
        if width == 0 || height == 0 {
            return Err(ResizeError::InvalidSource);
        }
        proof {
            assert((width as int) * (height as int) <= 4294967295int * 4294967295)
                by (nonlinear_arith)
                requires 0 <= width as int <= 4294967295, 0 <= height as int <= 4294967295;
        }
        let expect: u128 = (width as u128) * (height as u128) * 4;
        if (data.len() as u128) != expect {
            return Err(ResizeError::InvalidSource);
        }
        Ok(Raster { width, height, data })
    }
}

} // verus!
