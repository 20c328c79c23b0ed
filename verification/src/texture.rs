//! CPU-side texture data: decoded RGBA8 pixels plus the lazy-upload state
//! the renderer uses to synchronize them to the GPU. Decoding image files is
//! the resource loader's job outside this crate; the core only receives the
//! decoded buffer.

use vstd::prelude::*;

verus! {

/// Decoded pixel data with its dimensions, a dirty flag and the GPU texture
/// name once one was assigned.
pub struct Texture {
    pub width: u32,
    pub height: u32,
    /// GPU texture name, assigned lazily on first upload.
    pub gpu_tex: Option<u32>,
    /// True while the pixel data has not been synchronized to the GPU.
    pub need_upload: bool,
    /// RGBA8 rows, 4 bytes per pixel.
    pub pixels: Vec<u8>,
}

impl Texture {
    /// The pixel buffer holds exactly one RGBA8 quadruple per pixel.
    pub open spec fn wf(self) -> bool {
        self.pixels@.len() == 4 * (self.width as int) * (self.height as int)
    }

    /// Wraps a decoded RGBA8 buffer; the new texture is dirty and has no
    /// GPU name yet.
    pub fn new(width: u32, height: u32, pixels: Vec<u8>) -> (r: Texture)
        requires
            pixels@.len() == 4 * (width as int) * (height as int),
        ensures
            r.wf(),
            r.width == width,
            r.height == height,
            r.pixels == pixels,
            r.need_upload,
            r.gpu_tex is None,
    {
        Texture { width, height, gpu_tex: None, need_upload: true, pixels }
    }
}

} // verus!
