use vstd::prelude::*;
use vstd::arithmetic::mul::lemma_mul_inequality;
use crate::config::MAX_GRID_SPAN;
use crate::errors::PipelineError;

verus! {

/// Bands of the imagery raster, numbered as the source datasets number
/// them: red is band 1, green band 2, blue band 3.
pub const RED_BAND: usize = 1;

pub const GREEN_BAND: usize = 2;

pub const BLUE_BAND: usize = 3;

/// The elevation source raster: one band of signed 16-bit samples,
/// row-major, `size_x * size_y` pixels.
pub struct ElevationRaster {
    pub size_x: usize,
    pub size_y: usize,
    pub samples: Vec<i16>,
}

/// The imagery source raster: three bands (red, green, blue) of
/// unsigned 8-bit samples, each row-major, `size_x * size_y` pixels.
pub struct ImageryRaster {
    pub size_x: usize,
    pub size_y: usize,
    pub red: Vec<u8>,
    pub green: Vec<u8>,
    pub blue: Vec<u8>,
}

/// The row-major contents of the `w x h` pixel rectangle at `(x0, y0)`
/// of a row-major plane whose rows are `stride` samples wide.
pub open spec fn window_of<T>(src: Seq<T>, stride: int, x0: int, y0: int, w: int, h: int) -> Seq<
    T,
> {
    Seq::new((w * h) as nat, |i: int| src[(y0 + i / w) * stride + (x0 + i % w)])
}

/// Whether the inclusive-origin, exclusive-extent pixel rectangle
/// `(x0, y0, w, h)` lies inside a raster of `size_x * size_y` pixels
/// and is non-degenerate.
pub open spec fn window_in_bounds(
    x0: int,
    y0: int,
    w: int,
    h: int,
    size_x: int,
    size_y: int,
) -> bool {
    &&& 1 <= w
    &&& 1 <= h
    &&& x0 + w <= size_x
    &&& y0 + h <= size_y
}

impl ElevationRaster {
    pub open spec fn wf(self) -> bool {
        &&& 1 <= self.size_x <= MAX_GRID_SPAN
        &&& 1 <= self.size_y <= MAX_GRID_SPAN
        &&& self.samples.len() == self.size_x * self.size_y
    }

    /// The sample at pixel `(x, y)`.
    pub open spec fn sample_at(self, x: int, y: int) -> i16 {
        self.samples[y * self.size_x + x]
    }

    /// Opens an in-memory elevation dataset. A sample buffer that does
    /// not tile a `size_x * size_y` rectangle, or a size outside the
    /// supported range, is an unrecognized dataset.
    pub fn open(size_x: usize, size_y: usize, samples: Vec<i16>) -> (r: Result<
        ElevationRaster,
        PipelineError,
    >)
        ensures
            match r {
                Ok(d) => {
                    &&& d.wf()
                    &&& d.size_x == size_x
                    &&& d.size_y == size_y
                    &&& d.samples@ == samples@
                },
                Err(e) => {
                    &&& e == PipelineError::DatasetOpen
                    &&& !(1 <= size_x <= MAX_GRID_SPAN && 1 <= size_y <= MAX_GRID_SPAN
                        && samples@.len() == size_x * size_y)
                },
            },
    {
        if size_x < 1 || size_x > MAX_GRID_SPAN || size_y < 1 || size_y > MAX_GRID_SPAN {
            return Err(PipelineError::DatasetOpen);
        }
        proof {
            lemma_mul_inequality(size_x as int, MAX_GRID_SPAN as int, size_y as int);
            assert(MAX_GRID_SPAN * size_y <= MAX_GRID_SPAN * MAX_GRID_SPAN) by (nonlinear_arith)
                requires
                    size_y <= MAX_GRID_SPAN,
            ;
        }
        if samples.len() != size_x * size_y {
            return Err(PipelineError::DatasetOpen);
        }
        Ok(ElevationRaster { size_x, size_y, samples })
    }

    pub fn size(&self) -> (s: (usize, usize))
        ensures
            s == (self.size_x, self.size_y),
    {
        (self.size_x, self.size_y)
    }

    /// Reads the pixel rectangle with origin `(x0, y0)` and extent
    /// `w x h` as a row-major buffer of `w * h` samples. Succeeds if
    /// and only if the rectangle lies inside the dataset.
    pub fn read_window(&self, x0: usize, y0: usize, w: usize, h: usize) -> (r: Result<
        Vec<i16>,
        PipelineError,
    >)
        requires
            self.wf(),
        ensures
            match r {
                Ok(buf) => {
                    &&& window_in_bounds(x0 as int, y0 as int, w as int, h as int,
                        self.size_x as int, self.size_y as int)
                    &&& buf.len() == w * h
                    &&& buf@ == window_of(self.samples@, self.size_x as int, x0 as int,
                        y0 as int, w as int, h as int)
                },
                Err(e) => {
                    &&& e == PipelineError::RasterRead
                    &&& !window_in_bounds(x0 as int, y0 as int, w as int, h as int,
                        self.size_x as int, self.size_y as int)
                },
            },
    {
        if w < 1 || h < 1 || w > self.size_x || h > self.size_y || x0 > self.size_x - w || y0
            > self.size_y - h {
            return Err(PipelineError::RasterRead);
        }
        proof {
            lemma_mul_inequality(y0 + h, self.size_y as int, self.size_x as int);
            assert(self.size_y * self.size_x == self.size_x * self.size_y) by (nonlinear_arith);
        }
        Ok(copy_window_i16(&self.samples, self.size_x, x0, y0, w, h))
    }
}

/// Copies the `w x h` rectangle at `(x0, y0)` out of a row-major
/// buffer whose rows are `stride` samples wide.
fn copy_window_i16(src: &Vec<i16>, stride: usize, x0: usize, y0: usize, w: usize, h: usize) -> (
    buf: Vec<i16>)
    requires
        1 <= w,
        1 <= h,
        x0 + w <= stride,
        stride <= MAX_GRID_SPAN,
        (y0 + h) * stride <= src.len(),
        h <= MAX_GRID_SPAN,
    ensures
        buf.len() == w * h,
        buf@ == window_of(src@, stride as int, x0 as int, y0 as int, w as int, h as int),
{
    let mut buf: Vec<i16> = Vec::new();
    let mut dy: usize = 0;
    while dy < h
        invariant
            dy <= h,
            buf.len() == dy * w,
            1 <= w,
            1 <= h <= MAX_GRID_SPAN,
            x0 + w <= stride <= MAX_GRID_SPAN,
            (y0 + h) * stride <= src.len(),
            forall|i: int|
                0 <= i < buf.len() ==> buf[i] == src[(y0 + i / (w as int)) * stride + (x0 + i % (w as int))],
        decreases h - dy,
    {
        let mut dx: usize = 0;
        proof {
            crate::sampler::lemma_row_major_index(dy as int, 0, w as int);
        }
        while dx < w
            invariant
                dx <= w,
                dy < h,
                buf.len() == dy * w + dx,
                1 <= w,
                1 <= h <= MAX_GRID_SPAN,
                x0 + w <= stride <= MAX_GRID_SPAN,
                (y0 + h) * stride <= src.len(),
                forall|i: int|
                    0 <= i < buf.len() ==> buf[i] == src[(y0 + i / (w as int)) * stride + (x0 + i % (w as int))],
            decreases w - dx,
        {
            proof {
                crate::sampler::lemma_row_major_index(dy as int, dx as int, w as int);
                lemma_mul_inequality(y0 + dy + 1, y0 + h, stride as int);
                assert((y0 + dy) * stride + stride == (y0 + dy + 1) * stride) by (nonlinear_arith);
                assert(y0 + h <= (y0 + h) * stride) by (nonlinear_arith)
                    requires
                        1 <= stride,
                        0 <= y0 + h,
                ;
            }
            buf.push(src[(y0 + dy) * stride + (x0 + dx)]);
            dx = dx + 1;
        }
        dy = dy + 1;
        proof {
            assert((dy - 1) * w + w == dy * w) by (nonlinear_arith);
        }
    }
    proof {
        assert(buf.len() == h * w);
        assert(h * w == w * h) by (nonlinear_arith);
        assert(buf@ =~= window_of(src@, stride as int, x0 as int, y0 as int, w as int, h as int));
    }
    buf
}

/// Copies the `w x h` rectangle at `(x0, y0)` out of a row-major
/// buffer whose rows are `stride` samples wide.
fn copy_window_u8(src: &Vec<u8>, stride: usize, x0: usize, y0: usize, w: usize, h: usize) -> (
    buf: Vec<u8>)
    requires
        1 <= w,
        1 <= h,
        x0 + w <= stride,
        stride <= MAX_GRID_SPAN,
        (y0 + h) * stride <= src.len(),
        h <= MAX_GRID_SPAN,
    ensures
        buf.len() == w * h,
        buf@ == window_of(src@, stride as int, x0 as int, y0 as int, w as int, h as int),
{
    let mut buf: Vec<u8> = Vec::new();
    let mut dy: usize = 0;
    while dy < h
        invariant
            dy <= h,
            buf.len() == dy * w,
            1 <= w,
            1 <= h <= MAX_GRID_SPAN,
            x0 + w <= stride <= MAX_GRID_SPAN,
            (y0 + h) * stride <= src.len(),
            forall|i: int|
                0 <= i < buf.len() ==> buf[i] == src[(y0 + i / (w as int)) * stride + (x0 + i % (w as int))],
        decreases h - dy,
    {
        let mut dx: usize = 0;
        proof {
            crate::sampler::lemma_row_major_index(dy as int, 0, w as int);
        }
        while dx < w
            invariant
                dx <= w,
                dy < h,
                buf.len() == dy * w + dx,
                1 <= w,
                1 <= h <= MAX_GRID_SPAN,
                x0 + w <= stride <= MAX_GRID_SPAN,
                (y0 + h) * stride <= src.len(),
                forall|i: int|
                    0 <= i < buf.len() ==> buf[i] == src[(y0 + i / (w as int)) * stride + (x0 + i % (w as int))],
            decreases w - dx,
        {
            proof {
                crate::sampler::lemma_row_major_index(dy as int, dx as int, w as int);
                lemma_mul_inequality(y0 + dy + 1, y0 + h, stride as int);
                assert((y0 + dy) * stride + stride == (y0 + dy + 1) * stride) by (nonlinear_arith);
                assert(y0 + h <= (y0 + h) * stride) by (nonlinear_arith)
                    requires
                        1 <= stride,
                        0 <= y0 + h,
                ;
            }
            buf.push(src[(y0 + dy) * stride + (x0 + dx)]);
            dx = dx + 1;
        }
        dy = dy + 1;
        proof {
            assert((dy - 1) * w + w == dy * w) by (nonlinear_arith);
        }
    }
    proof {
        assert(buf.len() == h * w);
        assert(h * w == w * h) by (nonlinear_arith);
        assert(buf@ =~= window_of(src@, stride as int, x0 as int, y0 as int, w as int, h as int));
    }
    buf
}

impl ImageryRaster {
    pub open spec fn wf(self) -> bool {
        &&& 1 <= self.size_x <= MAX_GRID_SPAN
        &&& 1 <= self.size_y <= MAX_GRID_SPAN
        &&& self.red.len() == self.size_x * self.size_y
        &&& self.green.len() == self.size_x * self.size_y
        &&& self.blue.len() == self.size_x * self.size_y
    }

    /// The plane of samples of one band.
    pub open spec fn band_plane(self, band: int) -> Seq<u8> {
        if band == RED_BAND {
            self.red@
        } else if band == GREEN_BAND {
            self.green@
        } else {
            self.blue@
        }
    }

    /// The sample of band `band` at pixel `(x, y)`.
    pub open spec fn sample_at(self, band: int, x: int, y: int) -> u8 {
        self.band_plane(band)[y * self.size_x + x]
    }

    /// Opens an in-memory imagery dataset. Band buffers that do not
    /// each tile a `size_x * size_y` rectangle, or a size outside the
    /// supported range, is an unrecognized dataset.
    pub fn open(size_x: usize, size_y: usize, red: Vec<u8>, green: Vec<u8>, blue: Vec<u8>) -> (
        r: Result<ImageryRaster, PipelineError>)
        ensures
            match r {
                Ok(d) => {
                    &&& d.wf()
                    &&& d.size_x == size_x
                    &&& d.size_y == size_y
                    &&& d.red@ == red@
                    &&& d.green@ == green@
                    &&& d.blue@ == blue@
                },
                Err(e) => {
                    &&& e == PipelineError::DatasetOpen
                    &&& !(1 <= size_x <= MAX_GRID_SPAN && 1 <= size_y <= MAX_GRID_SPAN
                        && red@.len() == size_x * size_y && green@.len() == size_x * size_y
                        && blue@.len() == size_x * size_y)
                },
            },
    {
        if size_x < 1 || size_x > MAX_GRID_SPAN || size_y < 1 || size_y > MAX_GRID_SPAN {
            return Err(PipelineError::DatasetOpen);
        }
        proof {
            lemma_mul_inequality(size_x as int, MAX_GRID_SPAN as int, size_y as int);
            assert(MAX_GRID_SPAN * size_y <= MAX_GRID_SPAN * MAX_GRID_SPAN) by (nonlinear_arith)
                requires
                    size_y <= MAX_GRID_SPAN,
            ;
        }
        if red.len() != size_x * size_y || green.len() != size_x * size_y || blue.len() != size_x
            * size_y {
            return Err(PipelineError::DatasetOpen);
        }
        Ok(ImageryRaster { size_x, size_y, red, green, blue })
    }

    pub fn size(&self) -> (s: (usize, usize))
        ensures
            s == (self.size_x, self.size_y),
    {
        (self.size_x, self.size_y)
    }

    /// Reads the pixel rectangle with origin `(x0, y0)` and extent
    /// `w x h` of one band as a row-major buffer of `w * h` samples.
    /// Succeeds if and only if the band exists (1, 2 or 3) and the
    /// rectangle lies inside the dataset.
    pub fn read_window(&self, band: usize, x0: usize, y0: usize, w: usize, h: usize) -> (r:
        Result<Vec<u8>, PipelineError>)
        requires
            self.wf(),
        ensures
            match r {
                Ok(buf) => {
                    &&& RED_BAND <= band <= BLUE_BAND
                    &&& window_in_bounds(x0 as int, y0 as int, w as int, h as int,
                        self.size_x as int, self.size_y as int)
                    &&& buf.len() == w * h
                    &&& buf@ == window_of(self.band_plane(band as int), self.size_x as int,
                        x0 as int, y0 as int, w as int, h as int)
                },
                Err(e) => {
                    &&& e == PipelineError::RasterRead
                    &&& !(RED_BAND <= band <= BLUE_BAND && window_in_bounds(x0 as int, y0 as int,
                        w as int, h as int, self.size_x as int, self.size_y as int))
                },
            },
    {
        if band < RED_BAND || band > BLUE_BAND {
            return Err(PipelineError::RasterRead);
        }
        if w < 1 || h < 1 || w > self.size_x || h > self.size_y || x0 > self.size_x - w || y0
            > self.size_y - h {
            return Err(PipelineError::RasterRead);
        }
        proof {
            lemma_mul_inequality(y0 + h, self.size_y as int, self.size_x as int);
            assert(self.size_y * self.size_x == self.size_x * self.size_y) by (nonlinear_arith);
        }
        let plane: &Vec<u8> = if band == RED_BAND {
            &self.red
        } else if band == GREEN_BAND {
            &self.green
        } else {
            &self.blue
        };
        Ok(copy_window_u8(plane, self.size_x, x0, y0, w, h))
    }
}

} // verus!
