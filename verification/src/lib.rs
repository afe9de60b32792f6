//! A pixel-buffer library for 4-channel (RGBA, 8 bits per channel), row-major
//! images: owned buffers, zero-copy sub-image views, flips, greyscale
//! conversion, and a Gaussian-approximating three-pass box blur.
//!
//! Every operation's behaviour is stated in its contract and proved, and
//! the library states its general laws as proof functions: flipping twice
//! restores the pixel grid (`grid::lemma_flipped_involutive`); a crop at
//! the origin covering the whole image views it pixel-for-pixel
//! (`grid::lemma_subgrid_identity`); cropping clamps inside the source
//! (`grid::lemma_crop_clamps`); greyscale equalizes the colour channels and
//! keeps alpha (`grid::lemma_grey_channels`); and box blurring, single pass
//! or composed, leaves a uniform-colour image untouched, edges included
//! (`blur::lemma_blur_pass_uniform`, `blur::lemma_gaussian_uniform`).
//!
//! File decode and encode are external collaborators: the library is
//! constructed from, and hands back, plain `(Dimensions, bytes)` pairs.

pub mod blur;
pub mod grid;
pub mod owned;
pub mod slice;
pub mod traits;
pub mod transform;
pub mod types;

pub use blur::blur_kernel_radii;
pub use blur::box_blur;
pub use owned::import;
pub use owned::OwnedImage;
pub use slice::ImageSlice;
pub use slice::ImageSliceMut;
pub use slice::SliceSpec;
pub use traits::Image;
pub use traits::ImageMut;
pub use types::Dimensions;
pub use types::ImageError;
pub use types::Pixel;
