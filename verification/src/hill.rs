//! The Hill cipher on images: blocks of pixel intensities are multiplied by a
//! key matrix modulo 256.

use vstd::prelude::*;
use crate::error::{fails_with, CipherError};
use crate::alphabet::chars_of;
use crate::matrix::{
    det, determinant, inverse_mod, is_square, modular_matrix_multiplicative_inverse, modulus,
    multiply, product, reduced, small, Matrix,
};
use crate::modular::{coprime, is_coprime, lemma_coprime_256, rem_euclid};
use crate::tokens::{decimal_value, is_numeral, parse_decimal, split_whitespace, word_views, words};

verus! {

/// The alpha channel of every pixel that a transform writes.
pub const ALPHA: u8 = 100;

/// The size of the ring that the intensities live in.
pub const MODULUS: i32 = 256;

/// The longest side of an image that a transform takes. Resampling places
/// pixels in single precision, which is exact up to this length.
pub const MAX_SIDE: u32 = 16_777_216;

/// Which way a transform runs.
#[derive(Debug, Clone, Copy, PartialEq, Eq, Structural)]
pub enum Direction {
    Encode,
    Decode,
}

/// A decoded image: `4 * width * height` bytes, the red, green, blue and
/// alpha channel of each pixel, the pixels row by row.
#[derive(Debug)]
pub struct Image {
    pub width: u32,
    pub height: u32,
    pub data: Vec<u8>,
}

impl Image {
    /// Whether the buffer holds exactly the pixels that the sides ask for.
    pub open spec fn wf(&self) -> bool {
        self.data@.len() == 4 * self.width * self.height
    }

    /// Whether a transform takes the image: it is well formed and neither
    /// side is above [`MAX_SIDE`].
    pub open spec fn supported(&self) -> bool {
        self.wf() && self.width <= MAX_SIDE && self.height <= MAX_SIDE
    }

    /// Whether the buffer holds exactly the pixels that the sides ask for.
    pub fn is_well_formed(&self) -> (b: bool)
        ensures
            b == self.wf(),
    {
        assert(self.width * self.height <= 0xffff_ffff * 0xffff_ffff) by (nonlinear_arith)
            requires
                self.width <= 0xffff_ffff,
                self.height <= 0xffff_ffff,
        ;
        assert(4 * self.width * self.height == 4 * (self.width * self.height)) by (nonlinear_arith);
        let pixels: u128 = self.width as u128 * self.height as u128;
        self.data.len() as u128 == 4 * pixels
    }

    /// Whether a transform takes the image.
    pub fn is_supported(&self) -> (b: bool)
        ensures
            b == self.supported(),
    {
        self.is_well_formed() && self.width <= MAX_SIDE && self.height <= MAX_SIDE
    }
}

/// The luminance of a colour, in ten-thousandths of its channels.
pub open spec fn luma(r: int, g: int, b: int) -> int {
    (2126 * r + 7152 * g + 722 * b) / 10000
}

/// The luminance of pixel `p` of a buffer.
pub open spec fn intensity(data: Seq<u8>, p: int) -> int {
    luma(data[4 * p] as int, data[4 * p + 1] as int, data[4 * p + 2] as int)
}

/// Block `k` of a buffer for a key of order `n`: the intensities of the
/// `n * n` pixels from `k * n * n` on, as a matrix filled row by row.
pub open spec fn block(data: Seq<u8>, n: int, k: int) -> Seq<Seq<int>> {
    Seq::new(
        n as nat,
        |i: int| Seq::new(n as nat, |j: int| intensity(data, k * (n * n) + i * n + j)),
    )
}

/// Whether `key` has the shape of a key: square of order 3 or 4, every entry
/// in `0..=255`.
pub open spec fn is_key(key: Seq<Seq<int>>) -> bool {
    &&& key.len() == 3 || key.len() == 4
    &&& is_square(key)
    &&& forall|i: int, j: int|
        0 <= i < key.len() && 0 <= j < key[i].len() ==> 0 <= #[trigger] key[i][j] <= 255
}

/// Whether `key` is a key that has an inverse modulo 256.
pub open spec fn is_invertible_key(key: Seq<Seq<int>>) -> bool {
    is_key(key) && coprime(det(key), 256)
}

/// What a transform makes of one block: the key times the block to encode,
/// the key times the inverse of the block to decode, reduced modulo 256.
/// A block without an inverse cannot be decoded.
pub open spec fn block_image(direction: Direction, key: Seq<Seq<int>>, b: Seq<Seq<int>>) -> Option<
    Seq<Seq<int>>,
> {
    match direction {
        Direction::Encode => Some(reduced(product(key, b), 256)),
        Direction::Decode => if coprime(det(b), 256) {
            Some(reduced(product(key, inverse_mod(b, 256)), 256))
        } else {
            None
        },
    }
}

/// What a transform makes of block `k` of a buffer.
pub open spec fn image_of_block(direction: Direction, key: Seq<Seq<int>>, data: Seq<u8>, k: int) -> Option<
    Seq<Seq<int>>,
> {
    block_image(direction, key, block(data, key.len() as int, k))
}

/// The bytes of a row of gray pixels of alpha [`ALPHA`].
pub open spec fn row_bytes(row: Seq<int>) -> Seq<u8> {
    Seq::new(
        4 * row.len(),
        |x: int|
            if x % 4 == 3 {
                ALPHA
            } else {
                row[x / 4] as u8
            },
    )
}

/// The bytes of the first `i` rows of a matrix of gray values.
pub open spec fn rows_bytes(t: Seq<Seq<int>>, i: nat) -> Seq<u8>
    decreases i,
{
    if i == 0 {
        Seq::empty()
    } else {
        rows_bytes(t, (i - 1) as nat) + row_bytes(t[i - 1])
    }
}

/// The bytes of the first `k` transformed blocks of a buffer.
pub open spec fn blocks_bytes(direction: Direction, key: Seq<Seq<int>>, data: Seq<u8>, k: nat) -> Seq<u8>
    decreases k,
{
    if k == 0 {
        Seq::empty()
    } else {
        blocks_bytes(direction, key, data, (k - 1) as nat) + rows_bytes(
            image_of_block(direction, key, data, k - 1)->Some_0,
            key.len(),
        )
    }
}

/// The number of whole blocks in a buffer for a key.
pub open spec fn block_count(key: Seq<Seq<int>>, data: Seq<u8>) -> nat {
    ((data.len() / 4) / (key.len() * key.len())) as nat
}

/// Whether each of the first `k` blocks of a buffer can be transformed.
pub open spec fn blocks_ok(direction: Direction, key: Seq<Seq<int>>, data: Seq<u8>, k: nat) -> bool {
    forall|b: int| 0 <= b < k ==> (#[trigger] image_of_block(direction, key, data, b)) is Some
}

/// The bytes of the transformed image: the transformed blocks one after
/// another, then transparent black for the pixels that fill no block. There
/// is no result where a block cannot be transformed.
pub open spec fn transformed(direction: Direction, key: Seq<Seq<int>>, data: Seq<u8>) -> Option<
    Seq<u8>,
> {
    let blocks = block_count(key, data);
    if blocks_ok(direction, key, data, blocks) {
        Some(
            blocks_bytes(direction, key, data, blocks) + Seq::new(
                (4 * (data.len() / 4 - blocks * (key.len() * key.len()))) as nat,
                |x: int| 0u8,
            ),
        )
    } else {
        None
    }
}

/// `image::Pixel::to_luma` on an 8-bit RGBA pixel: the weighted sum of the
/// three colour channels, divided by ten thousand and rounded down.
#[verifier::external_body]
fn rgba_luma(r: u8, g: u8, b: u8, a: u8) -> (l: u8)
    ensures
        l as int == luma(r as int, g as int, b as int),
{
    image::Pixel::to_luma(&image::Rgba([r, g, b, a])).0[0]
}

/// The matrix of block `k` of an image.
fn block_matrix(image: &Image, n: usize, k: usize) -> (b: Matrix)
    requires
        n == 3 || n == 4,
        (k + 1) * (n * n) <= image.data@.len() / 4,
    ensures
        b@ == block(image.data@, n as int, k as int),
        small(b@),
        b@.len() == n,
{
    let total: usize = image.data.len() / 4;
    assert(n * n == 9 || n * n == 16) by (nonlinear_arith)
        requires
            n == 3 || n == 4,
    ;
    let area: usize = n * n;
    assert(k * area + area <= total) by (nonlinear_arith)
        requires
            (k + 1) * (n * n) <= total,
            area == n * n,
    ;
    let base: usize = k * area;
    let mut rows: Vec<Vec<i64>> = Vec::new();
    let mut i: usize = 0;
    while i < n
        invariant
            n == 3 || n == 4,
            base == k * (n * n),
            base + n * n <= total,
            total == image.data@.len() as int / 4,
            image.data@.len() <= usize::MAX,
            i <= n,
            rows@.len() == i,
            forall|r: int| 0 <= r < i ==> (#[trigger] rows@[r])@.len() == n,
            forall|r: int, c: int|
                0 <= r < i && 0 <= c < n ==> (#[trigger] rows@[r]@[c]) as int == intensity(
                    image.data@,
                    k * (n * n) + r * n + c,
                ),
        decreases n - i,
    {
        assert(0 <= i * n && i * n + n <= n * n) by (nonlinear_arith)
            requires
                0 <= i < n,
        ;
        let start: usize = base + i * n;
        let mut row: Vec<i64> = Vec::new();
        let mut j: usize = 0;
        while j < n
            invariant
                n == 3 || n == 4,
                i < n,
                start == k * (n * n) + i * n,
                start + n <= total,
                total == image.data@.len() as int / 4,
                image.data@.len() <= usize::MAX,
                j <= n,
                row@.len() == j,
                forall|c: int|
                    0 <= c < j ==> (#[trigger] row@[c]) as int == intensity(
                        image.data@,
                        k * (n * n) + i * n + c,
                    ),
            decreases n - j,
        {
            let p: usize = start + j;
            let l = rgba_luma(
                image.data[4 * p],
                image.data[4 * p + 1],
                image.data[4 * p + 2],
                image.data[4 * p + 3],
            );
            row.push(l as i64);
            j += 1;
        }
        rows.push(row);
        i += 1;
    }
    let b = Matrix { rows };
    assert(b@ =~~= block(image.data@, n as int, k as int));
    b
}

/// Appends row `i` of a matrix of gray values as pixels.
fn append_row(out: &mut Vec<u8>, t: &Matrix, i: usize)
    requires
        i < t@.len(),
        forall|j: int| 0 <= j < t@[i as int].len() ==> 0 <= #[trigger] t@[i as int][j] <= 255,
    ensures
        final(out)@ == old(out)@ + row_bytes(t@[i as int]),
{
    let ghost before = out@;
    let ghost row = t@[i as int];
    let width = t.rows[i].len();
    let mut j: usize = 0;
    while j < width
        invariant
            i < t.rows@.len(),
            width == t.rows@[i as int]@.len(),
            row == t@[i as int],
            row.len() == width,
            forall|c: int| 0 <= c < row.len() ==> 0 <= #[trigger] row[c] <= 255,
            j <= width,
            out@ == before + row_bytes(row).take(4 * j),
        decreases width - j,
    {
        let e = t.rows[i][j];
        let v = e as u8;
        out.push(v);
        out.push(v);
        out.push(v);
        out.push(ALPHA);
        j += 1;
    }
}

/// Appends a matrix of gray values as pixels, row by row.
fn append_block(out: &mut Vec<u8>, t: &Matrix)
    requires
        forall|i: int, j: int|
            0 <= i < t@.len() && 0 <= j < t@[i].len() ==> 0 <= #[trigger] t@[i][j] <= 255,
    ensures
        final(out)@ == old(out)@ + rows_bytes(t@, t@.len()),
{
    let ghost before = out@;
    let n = t.rows.len();
    let mut i: usize = 0;
    while i < n
        invariant
            n == t.rows@.len(),
            i <= n,
            forall|r: int, c: int|
                0 <= r < t@.len() && 0 <= c < t@[r].len() ==> 0 <= #[trigger] t@[r][c] <= 255,
            out@ == before + rows_bytes(t@, i as nat),
        decreases n - i,
    {
        append_row(out, t, i);
        i += 1;
    }
}

/// What a transform makes of one block, where there is a result.
pub fn transform_block(direction: Direction, key: &Matrix, b: &Matrix) -> (r: Option<Matrix>)
    requires
        is_key(key@),
        small(b@),
        b@.len() == key@.len(),
    ensures
        match r {
            Some(t) => block_image(direction, key@, b@) == Some(t@),
            None => block_image(direction, key@, b@) is None,
        },
{
    match direction {
        Direction::Encode => {
            let mut t = multiply(key, b);
            modulus(&mut t, MODULUS);
            Some(t)
        },
        Direction::Decode => {
            match modular_matrix_multiplicative_inverse(b, MODULUS) {
                Some(inverse) => {
                    assert(small(inverse@));
                    let mut t = multiply(key, &inverse);
                    modulus(&mut t, MODULUS);
                    Some(t)
                },
                None => None,
            }
        },
    }
}

/// Transforms an image block by block: each run of `n * n` pixels in scan
/// order, for a key of order `n`, is read as a matrix of intensities and
/// written back as gray pixels of alpha [`ALPHA`]. Pixels after the last whole
/// block come out transparent black.
///
/// Encoding always succeeds. Decoding is refused when a block has no inverse
/// modulo 256.
pub fn transform_blocks(direction: Direction, image: &Image, key: &Matrix) -> (r: Result<
    Image,
    CipherError,
>)
    requires
        image.wf(),
        is_key(key@),
    ensures
        match r {
            Ok(out) => {
                &&& out.width == image.width
                &&& out.height == image.height
                &&& transformed(direction, key@, image.data@) == Some(out.data@)
            },
            Err(e) => {
                &&& e == CipherError::KeyNotInvertible
                &&& transformed(direction, key@, image.data@) is None
            },
        },
{
    let n = key.rows.len();
    assert(n * n == 9 || n * n == 16) by (nonlinear_arith)
        requires
            n == 3 || n == 4,
    ;
    let area: usize = n * n;
    let total: usize = image.data.len() / 4;
    let blocks: usize = total / area;
    assert(blocks * area <= total) by (nonlinear_arith)
        requires
            blocks == total / area,
            area > 0,
    {
        vstd::arithmetic::div_mod::lemma_fundamental_div_mod(total as int, area as int);
    }
    let mut out: Vec<u8> = Vec::new();
    let mut k: usize = 0;
    while k < blocks
        invariant
            n == key.rows@.len(),
            is_key(key@),
            area == n * n,
            total == image.data@.len() / 4,
            blocks * area <= total,
            blocks == block_count(key@, image.data@),
            k <= blocks,
            blocks_ok(direction, key@, image.data@, k as nat),
            out@ == blocks_bytes(direction, key@, image.data@, k as nat),
        decreases blocks - k,
    {
        assert((k + 1) * (n * n) <= total) by (nonlinear_arith)
            requires
                k < blocks,
                blocks * area <= total,
                area == n * n,
        ;
        let b = block_matrix(image, n, k);
        match transform_block(direction, key, &b) {
            Some(t) => {
                append_block(&mut out, &t);
            },
            None => {
                return Err(CipherError::KeyNotInvertible);
            },
        }
        k += 1;
    }
    let ghost body = out@;
    let rest: usize = total - blocks * area;
    let mut p: usize = 0;
    while p < rest
        invariant
            p <= rest,
            out@ == body + Seq::new((4 * p) as nat, |x: int| 0u8),
        decreases rest - p,
    {
        out.push(0);
        out.push(0);
        out.push(0);
        out.push(0);
        p += 1;
    }
    Ok(Image { width: image.width, height: image.height, data: out })
}

/// Whether `fitted` is what a source becomes for a key of order `n`: both
/// sides are cut down to multiples of `n`, and a source that needs no cut
/// keeps its bytes.
pub open spec fn is_fitted(source: Image, fitted: Image, n: int) -> bool {
    &&& fitted.width == source.width as int / n * n
    &&& fitted.height == source.height as int / n * n
    &&& fitted.wf()
    &&& fitted.width == source.width && fitted.height == source.height ==> fitted.data@
        == source.data@
}

/// Whether `r` is what [`transform_blocks`] makes of `fitted`.
pub open spec fn is_outcome(
    direction: Direction,
    key: Seq<Seq<int>>,
    fitted: Image,
    r: Result<Image, CipherError>,
) -> bool {
    match r {
        Ok(out) => {
            &&& out.width == fitted.width
            &&& out.height == fitted.height
            &&& transformed(direction, key, fitted.data@) == Some(out.data@)
        },
        Err(e) => {
            &&& e == CipherError::KeyNotInvertible
            &&& transformed(direction, key, fitted.data@) is None
        },
    }
}

/// `image::DynamicImage::resize_exact` on an 8-bit RGBA image, with the
/// Gaussian filter. The result has the sides that were asked for; where they
/// are the sides of the source, it is a copy of the source. Nothing is claimed
/// of the resampled pixels.
#[verifier::external_body]
fn resize_exact(source: &Image, width: u32, height: u32) -> (resized: Image)
    requires
        source.supported(),
        0 < width <= source.width,
        0 < height <= source.height,
    ensures
        resized.width == width,
        resized.height == height,
        resized.wf(),
        width == source.width && height == source.height ==> resized.data@ == source.data@,
{
    let buffer = image::RgbaImage::from_raw(source.width, source.height, source.data.clone());
    let resized = image::DynamicImage::ImageRgba8(buffer.unwrap()).resize_exact(
        width,
        height,
        image::imageops::FilterType::Gaussian,
    );
    Image { width, height, data: resized.into_rgba8().into_raw() }
}

/// Cuts both sides of an image down to multiples of `n`, resampling it with
/// a smoothing filter. An image with a side below `n` becomes empty.
pub fn fit_to_order(image: &Image, n: u32) -> (fitted: Image)
    requires
        image.supported(),
        n > 0,
    ensures
        is_fitted(*image, fitted, n as int),
{
    proof {
        vstd::arithmetic::div_mod::lemma_fundamental_div_mod(image.width as int, n as int);
        vstd::arithmetic::div_mod::lemma_fundamental_div_mod(image.height as int, n as int);
        assert((image.width / n) * n == n * (image.width / n)) by (nonlinear_arith);
        assert((image.height / n) * n == n * (image.height / n)) by (nonlinear_arith);
    }
    let width = image.width / n * n;
    let height = image.height / n * n;
    if width == 0 || height == 0 {
        let fitted = Image { width, height, data: Vec::new() };
        assert(4 * width * height == 0) by (nonlinear_arith)
            requires
                width == 0 || height == 0,
        ;
        assert(4 * image.width * image.height == 0 ==> image.data@ =~= fitted.data@);
        assert(width == image.width && height == image.height ==> 4 * image.width * image.height
            == 0) by (nonlinear_arith)
            requires
                width == 0 || height == 0,
        ;
        fitted
    } else {
        resize_exact(image, width, height)
    }
}

/// Whether a matrix has the shape of a key and an inverse modulo 256, which
/// it has exactly when its determinant is odd.
pub fn check_key(key: &Matrix) -> (r: Result<(), CipherError>)
    ensures
        !is_key(key@) ==> r == Err::<(), CipherError>(CipherError::InvalidKeyShape),
        is_key(key@) && !coprime(det(key@), 256) ==> r == Err::<(), CipherError>(
            CipherError::KeyNotInvertible,
        ),
        is_invertible_key(key@) ==> r is Ok,
        r is Ok <==> is_key(key@) && det(key@) % 2 != 0,
{
    let n = key.rows.len();
    if !(n == 3 || n == 4) {
        return Err(CipherError::InvalidKeyShape);
    }
    let mut i: usize = 0;
    while i < n
        invariant
            n == key.rows@.len(),
            n == 3 || n == 4,
            i <= n,
            forall|r: int| 0 <= r < i ==> (#[trigger] key@[r]).len() == n,
            forall|r: int, c: int|
                0 <= r < i && 0 <= c < key@[r].len() ==> 0 <= #[trigger] key@[r][c] <= 255,
        decreases n - i,
    {
        if key.rows[i].len() != n {
            assert(key@[i as int].len() != n);
            return Err(CipherError::InvalidKeyShape);
        }
        let mut j: usize = 0;
        while j < n
            invariant
                n == key.rows@.len(),
                i < n,
                key.rows@[i as int]@.len() == n,
                j <= n,
                forall|c: int| 0 <= c < j ==> 0 <= #[trigger] key@[i as int][c] <= 255,
            decreases n - j,
        {
            let e = key.rows[i][j];
            if e < 0 || e > 255 {
                assert(key@[i as int][j as int] == e);
                return Err(CipherError::InvalidKeyShape);
            }
            j += 1;
        }
        i += 1;
    }
    let d = determinant(key);
    let d0 = rem_euclid(d, MODULUS as i64);
    proof {
        vstd::arithmetic::div_mod::lemma_mod_twice(d as int, 256);
        lemma_coprime_256(d as int);
    }
    if is_coprime(d0 as i32, MODULUS) {
        Ok(())
    } else {
        Err(CipherError::KeyNotInvertible)
    }
}

/// A key has an inverse exactly when its determinant is odd: one whose
/// determinant shares the factor 2 with 256 is never accepted.
pub proof fn lemma_invertible_iff_odd(key: Seq<Seq<int>>)
    ensures
        is_invertible_key(key) <==> is_key(key) && det(key) % 2 != 0,
{
    lemma_coprime_256(det(key));
}

/// Transforms an image with a key: the key is checked, the image is cut to
/// whole blocks, and the blocks are transformed one by one.
///
/// A malformed key is refused first, then one without an inverse, then an
/// image whose buffer does not match its sides or whose side is above
/// [`MAX_SIDE`]. Decoding is refused when a block has no inverse.
pub fn hill_transform(direction: Direction, image: &Image, key: &Matrix) -> (r: Result<
    Image,
    CipherError,
>)
    ensures
        !is_key(key@) ==> fails_with(r, CipherError::InvalidKeyShape),
        is_key(key@) && !coprime(det(key@), 256) ==> fails_with(r, CipherError::KeyNotInvertible),
        is_invertible_key(key@) && !image.supported() ==> fails_with(
            r,
            CipherError::UnsupportedImageFormat,
        ),
        is_invertible_key(key@) && image.supported() ==> exists|fitted: Image| #[trigger]
            is_fitted(*image, fitted, key@.len() as int) && is_outcome(direction, key@, fitted, r),
        is_invertible_key(key@) && image.supported() && direction == Direction::Encode ==> r is Ok,
{
    match check_key(key) {
        Err(e) => {
            return Err(e);
        },
        Ok(_) => {},
    }
    if !image.is_supported() {
        return Err(CipherError::UnsupportedImageFormat);
    }
    let fitted = fit_to_order(image, key.rows.len() as u32);
    let r = transform_blocks(direction, &fitted, key);
    r
}

/// Whether a text spells a key: 9 or 16 words, each a numeral of at most 255.
pub open spec fn is_key_text(s: Seq<char>) -> bool {
    let w = words(s);
    &&& w.len() == 9 || w.len() == 16
    &&& forall|t: int| 0 <= t < w.len() ==> is_numeral(#[trigger] w[t]) && decimal_value(w[t]) <= 255
}

/// The matrix that a key text spells, filled row by row.
pub open spec fn key_of_text(s: Seq<char>) -> Seq<Seq<int>> {
    let w = words(s);
    let n: int = if w.len() == 9 {
        3
    } else {
        4
    };
    Seq::new(n as nat, |i: int| Seq::new(n as nat, |j: int| decimal_value(w[i * n + j]) as int))
}

/// Reads a key from text: 9 or 16 numbers of at most 255, separated by
/// whitespace, fill a matrix of order 3 or 4 row by row.
pub fn parse_key(text: &str) -> (r: Result<Matrix, CipherError>)
    ensures
        match r {
            Ok(key) => is_key_text(text@) && key@ == key_of_text(text@) && is_key(key@),
            Err(e) => !is_key_text(text@) && e == CipherError::InvalidKeyShape,
        },
{
    let tokens = split_whitespace(&chars_of(text));
    let count = tokens.len();
    if !(count == 9 || count == 16) {
        return Err(CipherError::InvalidKeyShape);
    }
    let n: usize = if count == 9 { 3 } else { 4 };
    let ghost w = words(text@);
    let mut values: Vec<i64> = Vec::new();
    let mut t: usize = 0;
    while t < count
        invariant
            count == tokens@.len(),
            word_views(tokens@) == w,
            w == words(text@),
            t <= count,
            values@.len() == t,
            forall|x: int|
                0 <= x < t ==> is_numeral(#[trigger] w[x]) && decimal_value(w[x]) <= 255
                    && values@[x] == decimal_value(w[x]),
        decreases count - t,
    {
        assert(w[t as int] == tokens@[t as int]@);
        match parse_decimal(&tokens[t], 255) {
            Some(v) => {
                values.push(v as i64);
            },
            None => {
                return Err(CipherError::InvalidKeyShape);
            },
        }
        t += 1;
    }
    let mut rows: Vec<Vec<i64>> = Vec::new();
    let mut i: usize = 0;
    while i < n
        invariant
            n == 3 || n == 4,
            count == n * n,
            values@.len() == count,
            i <= n,
            rows@.len() == i,
            forall|r: int| 0 <= r < i ==> (#[trigger] rows@[r])@.len() == n,
            forall|r: int, c: int|
                0 <= r < i && 0 <= c < n ==> (#[trigger] rows@[r]@[c]) == values@[r * n + c],
        decreases n - i,
    {
        let mut row: Vec<i64> = Vec::new();
        let mut j: usize = 0;
        assert(0 <= i * n && i * n + n <= n * n) by (nonlinear_arith)
            requires
                0 <= i < n,
        ;
        while j < n
            invariant
                n == 3 || n == 4,
                count == n * n,
                values@.len() == count,
                i < n,
                0 <= i * n,
                i * n + n <= n * n,
                j <= n,
                row@.len() == j,
                forall|c: int| 0 <= c < j ==> (#[trigger] row@[c]) == values@[i * n + c],
            decreases n - j,
        {
            row.push(values[i * n + j]);
            j += 1;
        }
        rows.push(row);
        i += 1;
    }
    let key = Matrix { rows };
    proof {
        let ghost expected = key_of_text(text@);
        assert forall|r: int, c: int| 0 <= r < n && 0 <= c < n implies key@[r][c] == expected[r][c]
            && 0 <= #[trigger] key@[r][c] <= 255 by {
            assert(0 <= r * n && r * n + n <= n * n) by (nonlinear_arith)
                requires
                    0 <= r < n,
            ;
        }
        assert(key@ =~~= expected);
    }
    Ok(key)
}

/// Reads a key from text and checks that it has an inverse modulo 256.
pub fn validate_key(text: &str) -> (r: Result<Matrix, CipherError>)
    ensures
        match r {
            Ok(key) => is_key_text(text@) && key@ == key_of_text(text@) && is_invertible_key(key@),
            Err(e) => if !is_key_text(text@) {
                e == CipherError::InvalidKeyShape
            } else {
                e == CipherError::KeyNotInvertible && !coprime(det(key_of_text(text@)), 256)
            },
        },
{
    let key = match parse_key(text) {
        Ok(key) => key,
        Err(e) => {
            return Err(e);
        },
    };
    match check_key(&key) {
        Ok(_) => Ok(key),
        Err(e) => Err(e),
    }
}

/// The error of the `image` crate's decoders.
#[verifier::external_type_specification]
#[verifier::external_body]
pub struct ExImageError(image::ImageError);

/// `image::load_from_memory`, the picture converted to 8-bit RGBA. A buffer
/// that comes back holds exactly the pixels of its sides. Nothing is claimed
/// of which bytes decode, nor of the pixels: the JPEG decoder picks its
/// arithmetic by the processor it runs on, with slight differences in
/// rounding, and fails where it cannot start a worker thread, so neither is
/// settled by the bytes alone.
#[verifier::external_body]
fn load_from_memory(bytes: &[u8]) -> (r: Result<Image, image::ImageError>)
    ensures
        r is Ok ==> r->Ok_0.wf(),
{
    let rgba = image::load_from_memory(bytes)?.into_rgba8();
    Ok(Image { width: rgba.width(), height: rgba.height(), data: rgba.into_raw() })
}

/// What the engine makes of a decoder's answer: the picture, or the one
/// rejection that stands for every decoding failure.
pub fn loaded(answer: Result<Image, image::ImageError>) -> (r: Result<Image, CipherError>)
    ensures
        match answer {
            Ok(image) => r == Ok::<Image, CipherError>(image),
            Err(_) => r == Err::<Image, CipherError>(CipherError::UnsupportedImageFormat),
        },
{
    match answer {
        Ok(image) => Ok(image),
        Err(_) => Err(CipherError::UnsupportedImageFormat),
    }
}

/// Decodes the bytes of an image file into a pixel buffer. The decoder alone
/// decides whether the bytes hold a picture; [`loaded`] says what becomes of
/// its answer.
pub fn load_image(bytes: &[u8]) -> (r: Result<Image, CipherError>)
    ensures
        match r {
            Ok(image) => image.wf(),
            Err(e) => e == CipherError::UnsupportedImageFormat,
        },
{
    loaded(load_from_memory(bytes))
}

/// The state of the tool that enciphers an image.
pub struct HillEnc {
    /// Where the picture to encipher is.
    pub plaintext: String,
    /// Where the enciphered picture is.
    pub ciphertext: String,
    /// The key as typed: the entries of the matrix, row by row.
    pub key: String,
}

impl Default for HillEnc {
    fn default() -> (tool: Self)
        ensures
            tool.plaintext@.len() == 0,
            tool.ciphertext@.len() == 0,
            tool.key@.len() == 0,
    {
        HillEnc { plaintext: String::new(), ciphertext: String::new(), key: String::new() }
    }
}

impl HillEnc {
    /// Whether the key that was typed spells a matrix with an inverse.
    pub fn valid_key(&self) -> (b: bool)
        ensures
            b == (is_key_text(self.key@) && is_invertible_key(key_of_text(self.key@))),
    {
        validate_key(self.key.as_str()).is_ok()
    }

    /// Enciphers an image with a key: see [`hill_transform`].
    pub fn hill_cipher(plain_image: &Image, key: &Matrix) -> (r: Result<Image, CipherError>)
        ensures
            !is_key(key@) ==> fails_with(r, CipherError::InvalidKeyShape),
            is_key(key@) && !coprime(det(key@), 256) ==> fails_with(r, CipherError::KeyNotInvertible),
            is_invertible_key(key@) && !plain_image.supported() ==> fails_with(
                r,
                CipherError::UnsupportedImageFormat,
            ),
            is_invertible_key(key@) && plain_image.supported() ==> r is Ok && exists|fitted: Image| #[trigger]
                is_fitted(*plain_image, fitted, key@.len() as int) && is_outcome(
                    Direction::Encode,
                    key@,
                    fitted,
                    r,
                ),
    {
        hill_transform(Direction::Encode, plain_image, key)
    }
}

/// The state of the tool that deciphers an image.
pub struct HillDec {
    /// Where the picture to decipher is.
    pub plaintext: String,
    /// The deciphered picture, once there is one.
    pub ciphertext_buffer: Option<Image>,
    /// The key as typed: the entries of the matrix, row by row.
    pub key: String,
}

impl Default for HillDec {
    fn default() -> (tool: Self)
        ensures
            tool.plaintext@.len() == 0,
            tool.ciphertext_buffer is None,
            tool.key@.len() == 0,
    {
        HillDec { plaintext: String::new(), ciphertext_buffer: None, key: String::new() }
    }
}

impl HillDec {
    /// Whether the key that was typed spells a matrix with an inverse.
    pub fn valid_key(&self) -> (b: bool)
        ensures
            b == (is_key_text(self.key@) && is_invertible_key(key_of_text(self.key@))),
    {
        validate_key(self.key.as_str()).is_ok()
    }

    /// Deciphers an image with a key: see [`hill_transform`].
    pub fn hill_cipher(plain_image: &Image, key: &Matrix) -> (r: Result<Image, CipherError>)
        ensures
            !is_key(key@) ==> fails_with(r, CipherError::InvalidKeyShape),
            is_key(key@) && !coprime(det(key@), 256) ==> fails_with(r, CipherError::KeyNotInvertible),
            is_invertible_key(key@) && !plain_image.supported() ==> fails_with(
                r,
                CipherError::UnsupportedImageFormat,
            ),
            is_invertible_key(key@) && plain_image.supported() ==> exists|fitted: Image| #[trigger]
                is_fitted(*plain_image, fitted, key@.len() as int) && is_outcome(
                    Direction::Decode,
                    key@,
                    fitted,
                    r,
                ),
    {
        hill_transform(Direction::Decode, plain_image, key)
    }
}

} // verus!
