//! 8-bit images and tensors of shape `[height, width, channels]`: checking a
//! tensor's shape against an image format and building the image buffers
//! with the `image` crate. Reading and writing files is left to the caller.
use vstd::prelude::*;
use crate::error::{msg, TensorError};
use crate::layout::shape_size;
use crate::meta::{is_row_major, sizes_fit};
use crate::tensor::TensorBase;

verus! {

broadcast use crate::tensor::group_tensor_parts;

/// An 8-bit image: its size, its number of channels, and its samples in
/// row-major `[height, width, channels]` order.
pub struct ImageData {
    pub width: u32,
    pub height: u32,
    pub channels: usize,
    pub pixels: Vec<u8>,
}

/// `image` accepts a buffer for an image when `channels * width` and then
/// `channels * width * height` are computed in `usize` without overflow and
/// the latter is at most its length.
pub open spec fn image_fits(channels: nat, width: u32, height: u32, len: nat) -> bool {
    &&& channels * width <= usize::MAX
    &&& channels * width * height <= usize::MAX
    &&& channels * width * height <= len
}

/// Calls `image::ImageBuffer::<Rgb<u8>, Vec<u8>>::from_vec` and hands back
/// its size and buffer: `Some` exactly when the buffer is big enough for
/// three channels, holding the given size and samples.
#[verifier::external_body]
fn rgb_image_from_vec(width: u32, height: u32, data: Vec<u8>) -> (r: Option<ImageData>)
    ensures
        r is Some <==> image_fits(3, width, height, data@.len()),
        r matches Some(img) ==> img.width == width && img.height == height && img.channels == 3
            && img.pixels@ == data@,
{
    image::RgbImage::from_vec(width, height, data).map(|img| ImageData {
        width: img.width(),
        height: img.height(),
        channels: 3,
        pixels: img.into_raw(),
    })
}

/// Calls `image::ImageBuffer::<Luma<u8>, Vec<u8>>::from_vec` and hands back
/// its size and buffer: `Some` exactly when the buffer is big enough for one
/// channel, holding the given size and samples.
#[verifier::external_body]
fn gray_image_from_vec(width: u32, height: u32, data: Vec<u8>) -> (r: Option<ImageData>)
    ensures
        r is Some <==> image_fits(1, width, height, data@.len()),
        r matches Some(img) ==> img.width == width && img.height == height && img.channels == 1
            && img.pixels@ == data@,
{
    image::GrayImage::from_vec(width, height, data).map(|img| ImageData {
        width: img.width(),
        height: img.height(),
        channels: 1,
        pixels: img.into_raw(),
    })
}

/// A dimension as an image size (cut to its low 32 bits).
fn dim_u32(n: usize) -> (r: u32)
    ensures
        r == n as u32,
{
    #[verifier::truncate]
    (n as u32)
}

/// What converting a buffer into an image of `channels` channels, with the
/// width and height of `shape` (`[height, width, ..]`), gives: the image
/// exactly when the buffer fits, else a `ConversionError`.
pub open spec fn converted(r: Result<ImageData, TensorError>, channels: nat, shape: Seq<usize>, buf: Seq<u8>) -> bool {
    &&& r is Ok <==> image_fits(channels, shape[1] as u32, shape[0] as u32, buf.len())
    &&& r matches Ok(img) ==> img.width == shape[1] as u32 && img.height == shape[0] as u32 && img.channels
        == channels && img.pixels@ == buf
    &&& r matches Err(e) ==> e is ConversionError
}

/// Conversion of a `[height, width, 3]` tensor into an RGB image.
pub trait IntoImage {
    spec fn image_shape(&self) -> Seq<usize>;

    spec fn image_buffer(&self) -> Seq<u8>;

    /// The tensor's buffer as an RGB image of its height and width.
    ///
    /// Errors: `InvalidShape` when the shape is not `[height, width, 3]`;
    /// `ConversionError` when the buffer is too small for that image.
    fn into_rgb_image(&self) -> (r: Result<ImageData, TensorError>)
        ensures
            !(self.image_shape().len() == 3 && self.image_shape()[2] == 3) ==> (r matches Err(e) && e is InvalidShape),
            self.image_shape().len() == 3 && self.image_shape()[2] == 3 ==> converted(
                r,
                3,
                self.image_shape(),
                self.image_buffer(),
            ),
    ;
}

impl IntoImage for TensorBase<u8> {
    open spec fn image_shape(&self) -> Seq<usize> {
        self.spec_shape()
    }

    open spec fn image_buffer(&self) -> Seq<u8> {
        self.data()
    }

    fn into_rgb_image(&self) -> (r: Result<ImageData, TensorError>) {
        let shape = self.shape();
        if shape.len() != 3 || shape[2] != 3 {
            return Err(TensorError::InvalidShape(msg("tensor must have shape [height, width, 3] to convert to an RGB image")));
        }
        let height = shape[0];
        let width = shape[1];
        let data = self.buf.clone();
        match rgb_image_from_vec(dim_u32(width), dim_u32(height), data) {
            Some(img) => Ok(img),
            None => Err(TensorError::ConversionError(msg("failed to convert tensor data to an image buffer"))),
        }
    }
}

/// Building a tensor from an image.
pub trait ImageLoader: Sized {
    spec fn loaded_shape(&self) -> Seq<usize>;

    spec fn loaded_buffer(&self) -> Seq<u8>;

    spec fn loaded_strides(&self) -> Seq<isize>;

    spec fn loaded_offset(&self) -> int;

    /// The image as a row-major `[height, width, channels]` tensor over its
    /// samples.
    fn from_image_data(img: ImageData) -> (r: Self)
        requires
            img.pixels@.len() == (img.height as nat) * (img.width as nat) * (img.channels as nat),
            img.height * img.width * img.channels <= isize::MAX,
            img.width * img.channels <= isize::MAX,
            img.channels <= isize::MAX,
        ensures
            r.loaded_shape() == seq![img.height as usize, img.width as usize, img.channels],
            r.loaded_buffer() == img.pixels@,
            is_row_major(r.loaded_shape(), r.loaded_strides()),
            r.loaded_offset() == 0,
    ;
}

impl ImageLoader for TensorBase<u8> {
    open spec fn loaded_shape(&self) -> Seq<usize> {
        self.spec_shape()
    }

    open spec fn loaded_buffer(&self) -> Seq<u8> {
        self.data()
    }

    open spec fn loaded_strides(&self) -> Seq<isize> {
        self.spec_strides()
    }

    open spec fn loaded_offset(&self) -> int {
        self.spec_offset() as int
    }

    fn from_image_data(img: ImageData) -> (r: Self) {
        let shape = vec![img.height as usize, img.width as usize, img.channels];
        proof {
            let s = shape@;
            let h = img.height as nat;
            let w = img.width as nat;
            let c = img.channels as nat;
            assert(s =~= seq![img.height as usize, img.width as usize, img.channels]);
            assert(crate::layout::size_from(s, 3) == 1);
            assert(s[2] as nat == c && s[1] as nat == w && s[0] as nat == h);
            assert(crate::layout::size_from(s, 2) == c * 1);
            assert(crate::layout::size_from(s, 1) == w * c);
            assert(h * (w * c) == h * w * c) by (nonlinear_arith);
            assert(crate::layout::size_from(s, 0) == h * w * c);
            assert forall|i: int| 0 <= i <= s.len() implies #[trigger] crate::layout::size_from(s, i) <= isize::MAX by {
                if i == 0 {
                } else if i == 1 {
                } else if i == 2 {
                } else {
                }
            }
            assert(shape_size(s) == h * w * c);
        }
        let r = TensorBase::from_buf(img.pixels, shape);
        match r {
            Ok(t) => t,
            Err(_) => {
                proof {
                    assert(false);
                }
                TensorBase::scalar(0u8)
            },
        }
    }
}

/// The image an image file would be written from.
pub trait ImageWriter {
    spec fn image_shape(&self) -> Seq<usize>;

    spec fn image_buffer(&self) -> Seq<u8>;

    /// The tensor as an image: grayscale for `[height, width]` and
    /// `[height, width, 1]`, RGB for `[height, width, 3]`.
    ///
    /// Errors: `InvalidShape` for any other shape; `ConversionError` when
    /// the buffer is too small for the image.
    fn image_for_writing(&self) -> (r: Result<ImageData, TensorError>)
        ensures
            !(self.image_shape().len() == 2 || self.image_shape().len() == 3) ==> (r matches Err(e) && e is InvalidShape),
            self.image_shape().len() == 2 || (self.image_shape().len() == 3 && self.image_shape()[2] == 1) ==> converted(
                r,
                1,
                self.image_shape(),
                self.image_buffer(),
            ),
            self.image_shape().len() == 3 && self.image_shape()[2] == 3 ==> converted(
                r,
                3,
                self.image_shape(),
                self.image_buffer(),
            ),
            self.image_shape().len() == 3 && self.image_shape()[2] != 1 && self.image_shape()[2] != 3 ==> (r matches Err(
                e,
            ) && e is InvalidShape),
    ;
}

impl ImageWriter for TensorBase<u8> {
    open spec fn image_shape(&self) -> Seq<usize> {
        self.spec_shape()
    }

    open spec fn image_buffer(&self) -> Seq<u8> {
        self.data()
    }

    fn image_for_writing(&self) -> (r: Result<ImageData, TensorError>) {
        let shape = self.shape();
        let rank = shape.len();
        if rank == 2 || (rank == 3 && shape[2] == 1) {
            let height = shape[0];
            let width = shape[1];
            let data = self.buf.clone();
            return match gray_image_from_vec(dim_u32(width), dim_u32(height), data) {
                Some(img) => Ok(img),
                None => Err(TensorError::ConversionError(msg("failed to convert tensor data to a gray image"))),
            };
        }
        if rank == 3 {
            if shape[2] == 3 {
                let height = shape[0];
                let width = shape[1];
                let data = self.buf.clone();
                return match rgb_image_from_vec(dim_u32(width), dim_u32(height), data) {
                    Some(img) => Ok(img),
                    None => Err(TensorError::ConversionError(msg("failed to convert tensor data to an image buffer"))),
                };
            }
            return Err(TensorError::InvalidShape(msg("tensor must have 1 or 3 channels")));
        }
        Err(TensorError::InvalidShape(msg("tensor must have shape [height, width] or [height, width, channels]")))
    }
}

} // verus!
