//! The image container: an 18-byte header followed by the raw pixel bytes,
//! three per pixel in blue, green, red order, row by row, uncompressed.
//!
//! `save` frames a pixel grid as the bytes of a container and `load` reads a
//! grid back from such bytes. Reading and writing files is left to the caller.

use vstd::prelude::*;
use vstd::slice::{slice_subrange, slice_to_vec};
use crate::image::Image;

verus! {

/// Length of the header.
pub const HEADER_LEN: usize = 18;

/// The image type of an uncompressed truecolor container.
pub const TRUECOLOR: u8 = 2;

/// Why the bytes of a container could not be read.
#[derive(Clone, Copy, Debug, PartialEq, Eq, Structural)]
pub enum TgaError {
    /// The bytes end before the header or the pixel data is complete.
    Truncated,
    /// The image type is not uncompressed truecolor.
    Unsupported,
}

/// The header that `save` writes for a grid of the given dimensions: image
/// type 2, the low 16 bits of width and height in little-endian order, 24
/// bits per pixel, every other byte zero.
pub open spec fn header(width: int, height: int) -> Seq<u8> {
    seq![
        0u8,
        0u8,
        TRUECOLOR,
        0u8,
        0u8,
        0u8,
        0u8,
        0u8,
        0u8,
        0u8,
        0u8,
        0u8,
        (width % 256) as u8,
        (width / 256 % 256) as u8,
        (height % 256) as u8,
        (height / 256 % 256) as u8,
        24u8,
        0u8,
    ]
}

/// The bytes of the container of a grid.
pub open spec fn encoded(width: int, height: int, pixels: Seq<u8>) -> Seq<u8> {
    header(width, height) + pixels
}

/// The 16-bit value stored in little-endian order at `at`.
pub open spec fn word(bytes: Seq<u8>, at: int) -> int {
    bytes[at] + bytes[at + 1] * 256
}

/// Index of the first pixel byte: the header, then the identification block
/// whose length is byte 0, then the color-map block whose length is the word
/// at byte 3.
pub open spec fn data_start(bytes: Seq<u8>) -> int {
    HEADER_LEN + bytes[0] + word(bytes, 3)
}

/// Number of pixel bytes that the header announces: width times height times
/// the bits per pixel of byte 16, in whole bytes.
pub open spec fn data_len(bytes: Seq<u8>) -> int {
    word(bytes, 12) * word(bytes, 14) * bytes[16] / 8
}

/// What `load` makes of the bytes of a container: width, height and pixel
/// bytes, or the reason why they cannot be read.
pub open spec fn decoded(bytes: Seq<u8>) -> Result<(int, int, Seq<u8>), TgaError> {
    if bytes.len() < HEADER_LEN {
        Err(TgaError::Truncated)
    } else if bytes[2] != TRUECOLOR {
        Err(TgaError::Unsupported)
    } else if bytes.len() < data_start(bytes) + data_len(bytes) {
        Err(TgaError::Truncated)
    } else {
        Ok(
            (
                word(bytes, 12),
                word(bytes, 14),
                bytes.subrange(data_start(bytes), data_start(bytes) + data_len(bytes)),
            ),
        )
    }
}

/// Reading back the container of a well-formed grid whose dimensions fit in
/// 16 bits yields the dimensions and the pixel bytes of that grid.
pub proof fn lemma_round_trip(img: Image)
    requires
        img.wf(),
        img.width <= 0xffff,
        img.height <= 0xffff,
    ensures
        decoded(encoded(img.width as int, img.height as int, img.pixels@)) == Ok::<
            (int, int, Seq<u8>),
            TgaError,
        >((img.width as int, img.height as int, img.pixels@)),
{
    let w = img.width as int;
    let h = img.height as int;
    let bytes = encoded(w, h, img.pixels@);
    assert(bytes.len() == HEADER_LEN + img.pixels@.len());
    assert(bytes[0] == 0 && bytes[2] == TRUECOLOR && bytes[3] == 0 && bytes[4] == 0);
    assert(bytes[12] == (w % 256) as u8 && bytes[13] == (w / 256 % 256) as u8);
    assert(bytes[14] == (h % 256) as u8 && bytes[15] == (h / 256 % 256) as u8);
    assert(bytes[16] == 24);
    assert(word(bytes, 12) == w);
    assert(word(bytes, 14) == h);
    assert(w * h * 24 / 8 == w * h * 3) by (nonlinear_arith);
    assert(data_start(bytes) == HEADER_LEN);
    assert(data_len(bytes) == img.pixels@.len());
    assert(bytes.subrange(HEADER_LEN as int, HEADER_LEN + img.pixels@.len()) =~= img.pixels@);
}

/// Frames the grid as the bytes of a container.
pub fn save(img: Image) -> (bytes: Vec<u8>)
    ensures
        bytes@ == encoded(img.width as int, img.height as int, img.pixels@),
{
    let width = img.width;
    let height = img.height;
    let mut pixels = img.pixels;
    let ghost data = pixels@;
    let mut bytes: Vec<u8> = vec![0u8; HEADER_LEN];
    bytes.set(2, TRUECOLOR);
    bytes.set(12, (width % 256) as u8);
    bytes.set(13, (width / 256 % 256) as u8);
    bytes.set(14, (height % 256) as u8);
    bytes.set(15, (height / 256 % 256) as u8);
    bytes.set(16, 24);
    assert(bytes@ =~= header(width as int, height as int));
    bytes.append(&mut pixels);
    bytes
}

/// Reads a grid from the bytes of a container. Bytes after the pixel data
/// are ignored.
pub fn load(bytes: &[u8]) -> (r: Result<Image, TgaError>)
    ensures
        match r {
            Ok(img) => decoded(bytes@) == Ok::<(int, int, Seq<u8>), TgaError>(
                (img.width as int, img.height as int, img.pixels@),
            ),
            Err(e) => decoded(bytes@) == Err::<(int, int, Seq<u8>), TgaError>(e),
        },
{
    if bytes.len() < HEADER_LEN {
        return Err(TgaError::Truncated);
    }
    if bytes[2] != TRUECOLOR {
        return Err(TgaError::Unsupported);
    }
    let skip: u64 = bytes[0] as u64 + bytes[3] as u64 + bytes[4] as u64 * 256;
    let width: usize = bytes[12] as usize + bytes[13] as usize * 256;
    let height: usize = bytes[14] as usize + bytes[15] as usize * 256;
    assert(width * height <= 0xffff * 0xffff) by (nonlinear_arith)
        requires
            width <= 0xffff,
            height <= 0xffff,
    ;
    let area: u64 = width as u64 * height as u64;
    assert(area * bytes@[16] <= 0xffff * 0xffff * 255) by (nonlinear_arith)
        requires
            0 <= area <= 0xffff * 0xffff,
            0 <= bytes@[16] <= 255,
    ;
    let len: u64 = area * bytes[16] as u64 / 8;
    let start: u64 = HEADER_LEN as u64 + skip;
    if (bytes.len() as u64) < start + len {
        return Err(TgaError::Truncated);
    }
    let pixels = slice_to_vec(slice_subrange(bytes, start as usize, (start + len) as usize));
    Ok(Image { width, height, pixels })
}

} // verus!
