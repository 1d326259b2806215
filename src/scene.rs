use vstd::prelude::*;

verus! {

/// A horizontal band of image rows that one render covers.
#[derive(Debug, Clone, Copy, PartialEq, Eq)]
pub struct ImageSlice {
    pub top: u32,
    pub height: u32,
}

/// Image dimensions, the sample count per pixel and an optional row band.
#[derive(Debug, Clone, Copy, PartialEq, Eq)]
pub struct Image {
    pub height: u32,
    pub width: u32,
    pub samples: u32,
    pub slice: Option<ImageSlice>,
}

/// A rendered image: the image it was asked for and its pixels, row-major.
#[derive(Debug, Clone)]
pub struct Rendered {
    pub image: Image,
    pub pixels: Vec<(u8, u8, u8)>,
}

impl Image {
    /// Number of rows this render produces: the band's height when there is
    /// a band, the full height otherwise.
    pub open spec fn rows(&self) -> nat {
        match self.slice {
            Some(s) => s.height as nat,
            None => self.height as nat,
        }
    }

    pub open spec fn pixel_count(&self) -> nat {
        self.width as nat * self.rows()
    }

    pub fn width(&self) -> (r: u32)
        ensures
            r == self.width,
    {
        self.width
    }

    pub fn height(&self) -> (r: u32)
        ensures
            r == self.rows(),
    {
        match &self.slice {
            Some(slice) => slice.height,
            None => self.height,
        }
    }

    pub fn num_pixels(&self) -> (r: u32)
        requires
            self.pixel_count() <= u32::MAX,
        ensures
            r == self.pixel_count(),
    {
        self.width() * self.height()
    }
}

} // verus!
