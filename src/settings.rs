use vstd::prelude::*;

use crate::lanes::LANES;

verus! {

/// Why a configuration was refused.
#[derive(Clone, Copy, Debug, PartialEq, Eq, Structural)]
pub enum ConfigError {
    /// The width or the height is zero.
    ZeroSize,
    /// The width or the height is not a multiple of the lane width.
    NotLaneAligned,
    /// The iteration budget is zero.
    ZeroIterations,
    /// The pixel buffer would not fit in memory.
    TooLarge,
    /// The colour table does not have one entry per iteration.
    TableSize,
}

/// The fixed configuration of a renderer.
#[derive(Clone, Copy, Debug, PartialEq, Eq, Structural)]
pub struct FractalSettings {
    width: u32,
    height: u32,
    n_iter: u32,
}

/// Whether a width, height and budget make a valid configuration: both
/// sizes positive multiples of the lane width, a positive budget, and a
/// buffer of `4 * width * height` bytes that `usize` can index.
pub open spec fn valid_settings(width: u32, height: u32, n_iter: u32) -> bool {
    &&& width > 0
    &&& height > 0
    &&& width % (LANES as u32) == 0
    &&& height % (LANES as u32) == 0
    &&& n_iter > 0
    &&& 4 * (width as int) * (height as int) <= usize::MAX
}

impl FractalSettings {
    /// The width in pixels.
    pub closed spec fn spec_width(self) -> u32 {
        self.width
    }

    /// The height in pixels.
    pub closed spec fn spec_height(self) -> u32 {
        self.height
    }

    /// The iteration budget, which is also the size of the colour table.
    pub closed spec fn spec_n_iter(self) -> u32 {
        self.n_iter
    }

    /// Every value of this type is a valid configuration.
    pub closed spec fn wf(self) -> bool {
        valid_settings(self.width, self.height, self.n_iter)
    }

    /// What a configuration's validity says of its parts.
    pub proof fn lemma_valid(self)
        requires
            self.wf(),
        ensures
            valid_settings(self.spec_width(), self.spec_height(), self.spec_n_iter()),
    {
    }

    /// Checks a configuration. Errors are reported in this order: a zero
    /// size, a size that is not a multiple of the lane width, a zero budget,
    /// a buffer too large to index.
    pub fn new(width: u32, height: u32, n_iter: u32) -> (r: Result<FractalSettings, ConfigError>)
        ensures
            r is Ok <==> valid_settings(width, height, n_iter),
            r matches Ok(s) ==> {
                &&& s.wf()
                &&& s.spec_width() == width
                &&& s.spec_height() == height
                &&& s.spec_n_iter() == n_iter
            },
            r == Err::<FractalSettings, ConfigError>(ConfigError::ZeroSize) <==> (width == 0
                || height == 0),
            r == Err::<FractalSettings, ConfigError>(ConfigError::NotLaneAligned) <==> (width > 0
                && height > 0 && (width % (LANES as u32) != 0 || height % (LANES as u32) != 0)),
            r == Err::<FractalSettings, ConfigError>(ConfigError::ZeroIterations) <==> (width > 0
                && height > 0 && width % (LANES as u32) == 0 && height % (LANES as u32) == 0
                && n_iter == 0),
            r == Err::<FractalSettings, ConfigError>(ConfigError::TooLarge) <==> (width > 0
                && height > 0 && width % (LANES as u32) == 0 && height % (LANES as u32) == 0
                && n_iter > 0 && 4 * (width as int) * (height as int) > usize::MAX),
            r != Err::<FractalSettings, ConfigError>(ConfigError::TableSize),
    {
        if width == 0 || height == 0 {
            return Err(ConfigError::ZeroSize);
        }
        if width % (LANES as u32) != 0 || height % (LANES as u32) != 0 {
            return Err(ConfigError::NotLaneAligned);
        }
        if n_iter == 0 {
            return Err(ConfigError::ZeroIterations);
        }
        let bytes = (width as usize).checked_mul(height as usize);
        let fits = match bytes {
            Some(n) => n.checked_mul(4).is_some(),
            None => false,
        };
        proof {
            assert((width as int) * (height as int) >= 0) by (nonlinear_arith);
            assert(4 * (width as int) * (height as int) == 4 * ((width as int) * (height as int)))
                by (nonlinear_arith);
        }
        if !fits {
            return Err(ConfigError::TooLarge);
        }
        Ok(FractalSettings { width, height, n_iter })
    }

    /// The width in pixels.
    pub fn width(&self) -> (r: u32)
        ensures
            r == self.spec_width(),
    {
        self.width
    }

    /// The height in pixels.
    pub fn height(&self) -> (r: u32)
        ensures
            r == self.spec_height(),
    {
        self.height
    }

    /// The iteration budget.
    pub fn n_iter(&self) -> (r: u32)
        ensures
            r == self.spec_n_iter(),
    {
        self.n_iter
    }
}

} // verus!
