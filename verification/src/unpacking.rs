//! Decoding of the ubyte dataset files: labels and images.
//!
//! A label file carries an 8-byte header and then one byte per label; an
//! image file carries a 16-byte header and then the pixels of each image in
//! row-major order.  The functions here take the raw bytes of such a file;
//! reading the file itself is the caller's business.  Pixel bytes are handed
//! back as bytes: scaling them into unit-interval inputs is a floating-point
//! step that the surrounding application performs.

use vstd::prelude::*;

verus! {

/// Side length of one image, in pixels.
pub const IMAGE_SIDE: usize = 28;

/// Number of pixels of one image.
pub const IMAGE_PIXELS: usize = IMAGE_SIDE * IMAGE_SIDE;

/// Bit pattern of the 32-bit floating-point value one; the high component
/// of a one-hot target vector.  The low component is the pattern of zero,
/// which is all zero bits.
pub const F32_ONE_BITS: u32 = 0x3F80_0000;

/// Header length of a label file, in bytes.
pub const LABEL_HEADER_LEN: usize = 8;

/// Header length of an image file, in bytes.
pub const IMAGE_HEADER_LEN: usize = 16;

/// Strips the header from the raw bytes of a label file, leaving one byte
/// per label, equal to the digit displayed.
pub fn unpack_labels(data: &[u8]) -> (r: Vec<u8>)
    requires
        data@.len() >= LABEL_HEADER_LEN,
    ensures
        r@ == data@.subrange(LABEL_HEADER_LEN as int, data@.len() as int),
{
    let mut content: Vec<u8> = Vec::new();
    proof {
        assert(content@ =~= data@.subrange(LABEL_HEADER_LEN as int, LABEL_HEADER_LEN as int));
    }
    let mut i: usize = LABEL_HEADER_LEN;
    while i < data.len()
        invariant
            LABEL_HEADER_LEN <= i <= data@.len(),
            content@ == data@.subrange(LABEL_HEADER_LEN as int, i as int),
        decreases data@.len() - i,
    {
        content.push(data[i]);
        proof {
            assert(content@ =~= data@.subrange(LABEL_HEADER_LEN as int, i + 1));
        }
        i = i + 1;
    }
    content
}

/// Turns a list of digit labels into one-hot target vectors of width ten:
/// component `label` is the pattern of one, every other component the
/// pattern of zero.
pub fn turn_to_result(input: Vec<u8>) -> (r: Vec<Vec<u32>>)
    requires
        forall|i: int| 0 <= i < input@.len() ==> input@[i] < 10,
    ensures
        r@.len() == input@.len(),
        forall|i: int|
            0 <= i < r@.len() ==> (#[trigger] r@[i])@.len() == 10 && forall|j: int|
                0 <= j < 10 ==> r@[i]@[j] == if j == input@[i] as int {
                    F32_ONE_BITS
                } else {
                    0u32
                },
{
    let mut output: Vec<Vec<u32>> = Vec::new();
    let mut n: usize = 0;
    while n < input.len()
        invariant
            0 <= n <= input@.len(),
            forall|i: int| 0 <= i < input@.len() ==> input@[i] < 10,
            output@.len() == n,
            forall|i: int|
                0 <= i < n ==> (#[trigger] output@[i])@.len() == 10 && forall|j: int|
                    0 <= j < 10 ==> output@[i]@[j] == if j == input@[i] as int {
                        F32_ONE_BITS
                    } else {
                        0u32
                    },
        decreases input@.len() - n,
    {
        let number = input[n];
        let mut element: Vec<u32> = Vec::new();
        let mut j: usize = 0;
        while j < 10
            invariant
                0 <= j <= 10,
                number < 10,
                element@.len() == j,
                forall|k: int|
                    0 <= k < j ==> element@[k] == if k == number as int {
                        F32_ONE_BITS
                    } else {
                        0u32
                    },
            decreases 10 - j,
        {
            if j == number as usize {
                element.push(F32_ONE_BITS);
            } else {
                element.push(0);
            }
            j = j + 1;
        }
        output.push(element);
        n = n + 1;
    }
    output
}

/// Splits the raw bytes of an image file into its images: the header is
/// stripped and the remaining pixel bytes are cut into consecutive runs of
/// one image each.  The pixel bytes must fill a whole number of images; a
/// file that would leave a partial image is rejected by the caller before
/// this runs.
pub fn unpack_images(data: &[u8]) -> (r: Vec<Vec<u8>>)
    requires
        data@.len() >= IMAGE_HEADER_LEN,
        (data@.len() - IMAGE_HEADER_LEN) % (IMAGE_PIXELS as int) == 0,
    ensures
        r@.len() == (data@.len() - IMAGE_HEADER_LEN) / (IMAGE_PIXELS as int),
        forall|i: int|
            0 <= i < r@.len() ==> (#[trigger] r@[i])@ == data@.subrange(
                IMAGE_HEADER_LEN + i * IMAGE_PIXELS,
                IMAGE_HEADER_LEN + i * IMAGE_PIXELS + IMAGE_PIXELS,
            ),
{
    let mut content: Vec<Vec<u8>> = Vec::new();
    let count = (data.len() - IMAGE_HEADER_LEN) / IMAGE_PIXELS;
    proof {
        vstd::arithmetic::div_mod::lemma_fundamental_div_mod(
            data@.len() - IMAGE_HEADER_LEN,
            IMAGE_PIXELS as int,
        );
    }
    let mut i: usize = 0;
    while i < count
        invariant
            0 <= i <= count,
            IMAGE_HEADER_LEN <= data@.len() <= usize::MAX,
            count * IMAGE_PIXELS == data@.len() - IMAGE_HEADER_LEN,
            content@.len() == i,
            forall|k: int|
                0 <= k < i ==> (#[trigger] content@[k])@ == data@.subrange(
                    IMAGE_HEADER_LEN + k * IMAGE_PIXELS,
                    IMAGE_HEADER_LEN + k * IMAGE_PIXELS + IMAGE_PIXELS,
                ),
        decreases count - i,
    {
        proof {
            assert(i * IMAGE_PIXELS + IMAGE_PIXELS <= count * IMAGE_PIXELS) by (nonlinear_arith)
                requires i < count, IMAGE_PIXELS > 0;
            assert(i * IMAGE_PIXELS >= 0) by (nonlinear_arith)
                requires i >= 0;
        }
        let start = IMAGE_HEADER_LEN + i * IMAGE_PIXELS;
        let mut image: Vec<u8> = Vec::new();
        let mut j: usize = 0;
        while j < IMAGE_PIXELS
            invariant
                0 <= j <= IMAGE_PIXELS,
                start == IMAGE_HEADER_LEN + i * IMAGE_PIXELS,
                start + IMAGE_PIXELS <= data@.len() <= usize::MAX,
                image@.len() == j,
                forall|k: int| 0 <= k < j ==> image@[k] == data@[start + k],
            decreases IMAGE_PIXELS - j,
        {
            image.push(data[start + j]);
            j = j + 1;
        }
        proof {
            assert(image@ =~= data@.subrange(
                start as int,
                start + IMAGE_PIXELS,
            ));
        }
        content.push(image);
        i = i + 1;
    }
    content
}

} // verus!
