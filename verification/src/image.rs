//! Image handling: output formats, the scramble block count of a page, the
//! row-block unscrambling of a page, and the decision whether a page is
//! saved as downloaded or decoded, unscrambled and re-encoded.
use vstd::prelude::*;
use vstd::arithmetic::div_mod::lemma_fundamental_div_mod_converse;
use vstd::arithmetic::mul::{lemma_mul_inequality, lemma_mul_is_distributive_add_other_way};

use image::ImageFormat as F;

use crate::crypto::{md5_hex, spec_md5_hex};
use crate::text::{append_chars, i64_decimal, signed_decimal};

verus! {

// ---------------------------------------------------------------------------
// Formats
// ---------------------------------------------------------------------------

/// The formats an image can be recognised as: those of the `image` crate,
/// under the same names, and `Other` for any format a later version of that
/// crate adds.
#[derive(Debug, Clone, Copy, PartialEq, Eq, Structural)]
pub enum ImgFormat {
    Png,
    Jpeg,
    Gif,
    WebP,
    Pnm,
    Tiff,
    Tga,
    Dds,
    Bmp,
    Ico,
    Hdr,
    OpenExr,
    Farbfeld,
    Avif,
    Qoi,
    Pcx,
    Other,
}

/// The format pages are saved in.
#[derive(Debug, Clone, Copy, PartialEq, Eq, Structural)]
pub enum DownloadFormat {
    Jpeg,
    Png,
    Webp,
    /// Keep each page in the format it was served in.
    Original,
}

/// The image format a download format encodes to (`None`: keep the source's).
pub open spec fn spec_to_image_format(f: DownloadFormat) -> Option<ImgFormat> {
    match f {
        DownloadFormat::Jpeg => Some(ImgFormat::Jpeg),
        DownloadFormat::Png => Some(ImgFormat::Png),
        DownloadFormat::Webp => Some(ImgFormat::WebP),
        DownloadFormat::Original => None,
    }
}

/// The file extension of a download format (`None`: keep the source's).
pub open spec fn spec_format_extension(f: DownloadFormat) -> Option<Seq<char>> {
    match f {
        DownloadFormat::Jpeg => Some("jpg"@),
        DownloadFormat::Png => Some("png"@),
        DownloadFormat::Webp => Some("webp"@),
        DownloadFormat::Original => None,
    }
}

impl DownloadFormat {
    /// The image format this download format encodes to.
    pub fn to_image_format(self) -> (res: Option<ImgFormat>)
        ensures
            res == spec_to_image_format(self),
    {
        match self {
            DownloadFormat::Jpeg => Some(ImgFormat::Jpeg),
            DownloadFormat::Png => Some(ImgFormat::Png),
            DownloadFormat::Webp => Some(ImgFormat::WebP),
            DownloadFormat::Original => None,
        }
    }

    /// The file extension of this download format.
    pub fn extension(self) -> (res: Option<&'static str>)
        ensures
            match res {
                Some(e) => spec_format_extension(self) == Some(e@),
                None => spec_format_extension(self) is None,
            },
    {
        match self {
            DownloadFormat::Jpeg => Some("jpg"),
            DownloadFormat::Png => Some("png"),
            DownloadFormat::Webp => Some("webp"),
            DownloadFormat::Original => None,
        }
    }
}

// ---------------------------------------------------------------------------
// Scramble block count
// ---------------------------------------------------------------------------

/// The number of row blocks a page of chapter `id` was cut into: none before
/// the scramble id, 10 up to chapter 268850, then an even number from 2 to 20
/// (2 to 16 from chapter 421926 on) taken from the last hex digit of the MD5
/// of the chapter id followed by the page's file stem.
pub open spec fn spec_block_num(scramble_id: i64, id: i64, filename: Seq<char>) -> u32 {
    if id < scramble_id {
        0
    } else if id < 268850 {
        10
    } else {
        let x: u32 = if id < 421926 {
            10
        } else {
            8
        };
        let hash = spec_md5_hex(signed_decimal(id as int) + filename);
        let last = hash[hash.len() - 1] as u32;
        ((last % x) * 2 + 2) as u32
    }
}

/// Lemma (block count by chapter): pages of chapters before the scramble id
/// are not cut; the fixed count 10 is given only to chapters below 268850;
/// from there on the count is 2 plus twice the remainder of the character code
/// of the hash's last hex digit by 10 (by 8 from chapter 421926 on), where the MD5 is taken of the chapter id
/// in decimal followed by the page's file stem.
pub proof fn lemma_block_num_by_chapter(scramble_id: i64, id: i64, stem: Seq<char>)
    ensures
        id < scramble_id ==> spec_block_num(scramble_id, id, stem) == 0,
        scramble_id <= id < 268850 ==> spec_block_num(scramble_id, id, stem) == 10,
        scramble_id <= id && 268850 <= id < 421926 ==> ({
            let hash = spec_md5_hex(signed_decimal(id as int) + stem);
            spec_block_num(scramble_id, id, stem) == (hash[hash.len() - 1] as u32 % 10) * 2 + 2
        }),
        scramble_id <= id && 421926 <= id ==> ({
            let hash = spec_md5_hex(signed_decimal(id as int) + stem);
            spec_block_num(scramble_id, id, stem) == (hash[hash.len() - 1] as u32 % 8) * 2 + 2
        }),
{
}

/// The number of row blocks a page was cut into.
pub fn calculate_block_num(scramble_id: i64, id: i64, filename: &[char]) -> (n: u32)
    ensures
        n == spec_block_num(scramble_id, id, filename@),
        n == 0 || n == 10 || (n % 2 == 0 && 2 <= n <= 20),
        id >= scramble_id && id >= 421926 ==> 2 <= n <= 16,
        id < scramble_id ==> n == 0,
        scramble_id <= id < 268850 ==> n == 10,
        scramble_id <= id && 268850 <= id < 421926 ==> ({
            let hash = spec_md5_hex(signed_decimal(id as int) + filename@);
            n == (hash[hash.len() - 1] as u32 % 10) * 2 + 2
        }),
        scramble_id <= id && 421926 <= id ==> ({
            let hash = spec_md5_hex(signed_decimal(id as int) + filename@);
            n == (hash[hash.len() - 1] as u32 % 8) * 2 + 2
        }),
{
    if id < scramble_id {
        0
    } else if id < 268850 {
        10
    } else {
        let x: u32 = if id < 421926 {
            10
        } else {
            8
        };
        let mut input = i64_decimal(id);
        append_chars(&mut input, filename);
        let hash = md5_hex(&input);
        let last = hash[hash.len() - 1] as u32;
        let block_num = last % x;
        block_num * 2 + 2
    }
}

// ---------------------------------------------------------------------------
// Pixels and unscrambling
// ---------------------------------------------------------------------------

/// An RGB image with 8 bits per channel, stored row by row.
#[derive(Debug)]
pub struct RgbPixels {
    pub width: u32,
    pub height: u32,
    pub data: Vec<u8>,
}

impl RgbPixels {
    /// The buffer holds at least `width * height` pixels of 3 bytes.
    pub open spec fn wf(&self) -> bool {
        self.data@.len() >= self.width * self.height * 3
    }
}

/// The source row that row `y` of the unscrambled image is taken from, for
/// an image of height `h` cut into `b` blocks: the blocks are taken from the
/// bottom up, and the first (topmost) output block also takes the `h % b`
/// leftover rows.
pub open spec fn stitch_source_row(h: int, b: int, y: int) -> int {
    let q = h / b;
    let r = h % b;
    if y < q + r {
        h - q - r + y
    } else {
        h - q * ((y - r) / q + 1) - r + (y - r) % q
    }
}

/// The bytes of the unscrambled image.
pub open spec fn stitched_data(src: Seq<u8>, width: nat, height: nat, b: nat) -> Seq<u8> {
    let stride: int = (width * 3) as int;
    Seq::new(
        (height * stride) as nat,
        |k: int| src[stitch_source_row(height as int, b as int, k / stride) * stride + k % stride],
    )
}

/// Byte `x` of row `y` of a row-major buffer whose rows are `stride` bytes
/// long.
pub open spec fn row_byte(s: Seq<u8>, stride: int, y: int, x: int) -> u8 {
    s[y * stride + x]
}

/// Lemma (whole rows move): byte `x` of output row `y` of an unscrambled
/// image is byte `x` of source row `stitch_source_row(height, b, y)`, so every
/// pixel is copied channel for channel and only rows change places.
pub proof fn lemma_stitched_moves_whole_rows(src: Seq<u8>, width: nat, height: nat, b: nat, y: int, x: int)
    requires
        0 <= y < height,
        0 <= x < width * 3,
    ensures
        row_byte(stitched_data(src, width, height, b), (width * 3) as int, y, x) == row_byte(
            src,
            (width * 3) as int,
            stitch_source_row(height as int, b as int, y),
            x,
        ),
{
    let stride: int = (width * 3) as int;
    lemma_row_offset(y, x, stride, height as int);
}

/// Lemma: the output rows of block `i` come from consecutive source rows
/// ending where block `i - 1`'s begin.
pub proof fn lemma_block_rows(h: int, b: int, i: int, t: int)
    requires
        2 <= b <= h,
        0 <= i < b,
        0 <= t,
        i == 0 ==> t < h / b + h % b,
        i > 0 ==> t < h / b,
    ensures
        ({
            let q = h / b;
            let r = h % b;
            let dst = if i == 0 {
                t
            } else {
                q * i + r + t
            };
            &&& stitch_source_row(h, b, dst) == h - q * (i + 1) - r + t
            &&& 0 <= h - q * (i + 1) - r + t < h
            &&& 0 <= dst < h
        }),
{
    let q = h / b;
    let r = h % b;
    assert(q >= 1) by (nonlinear_arith)
        requires
            q == h / b,
            2 <= b <= h,
    ;
    assert(h == q * b + r) by (nonlinear_arith)
        requires
            q == h / b,
            r == h % b,
            b > 0,
    ;
    assert(q * (i + 1) <= q * b) by (nonlinear_arith)
        requires
            i + 1 <= b,
            q >= 1,
    ;
    if i == 0 {
        assert(q * (i + 1) == q);
        assert(q * b >= q) by (nonlinear_arith)
            requires
                b >= 2,
                q >= 1,
        ;
    } else {
        let y = q * i + r + t;
        assert(q * i >= q) by (nonlinear_arith)
            requires
                i >= 1,
                q >= 1,
        ;
        lemma_fundamental_div_mod_converse(y - r, q, i, t);
        assert(q * (i + 1) == q * i + q) by (nonlinear_arith);
    }
}

/// Lemma (row permutation): unscrambling takes every output row from a
/// source row, and no two output rows from the same one.
pub proof fn lemma_stitch_rows_permutation(h: int, b: int, y1: int, y2: int)
    requires
        2 <= b <= h,
        0 <= y1 < h,
        0 <= y2 < h,
    ensures
        0 <= stitch_source_row(h, b, y1) < h,
        y1 != y2 ==> stitch_source_row(h, b, y1) != stitch_source_row(h, b, y2),
{
    let q = h / b;
    let r = h % b;
    let (i1, t1) = lemma_row_block(h, b, y1);
    let (i2, t2) = lemma_row_block(h, b, y2);
    lemma_block_rows(h, b, i1, t1);
    lemma_block_rows(h, b, i2, t2);
    if y1 != y2 && i1 != i2 {
        // Different blocks occupy disjoint source ranges.
        if i1 < i2 {
            assert(q * (i2 + 1) - t2 >= q * (i1 + 1) + q - t2) by (nonlinear_arith)
                requires
                    i2 >= i1 + 1,
                    q >= 1,
            ;
        } else {
            assert(q * (i1 + 1) - t1 >= q * (i2 + 1) + q - t1) by (nonlinear_arith)
                requires
                    i1 >= i2 + 1,
                    q >= 1,
            ;
        }
    }
}

/// Lemma: every output row lies in exactly one block, at an offset inside it.
pub proof fn lemma_row_block(h: int, b: int, y: int) -> (it: (int, int))
    requires
        2 <= b <= h,
        0 <= y < h,
    ensures
        ({
            let (i, t) = it;
            let q = h / b;
            let r = h % b;
            &&& 0 <= i < b
            &&& 0 <= t
            &&& i == 0 ==> t < q + r && y == t
            &&& i > 0 ==> t < q && y == q * i + r + t
            &&& q >= 1
        }),
{
    let q = h / b;
    let r = h % b;
    assert(h == q * b + r) by (nonlinear_arith)
        requires
            q == h / b,
            r == h % b,
            b > 0,
    ;
    assert(q >= 1) by (nonlinear_arith)
        requires
            q == h / b,
            2 <= b <= h,
    ;
    assert(0 <= r < b);
    if y < q + r {
        (0, y)
    } else {
        let i = (y - r) / q;
        let t = (y - r) % q;
        assert(y - r == q * i + t) by (nonlinear_arith)
            requires
                i == (y - r) / q,
                t == (y - r) % q,
                q > 0,
        ;
        assert(i >= 1) by (nonlinear_arith)
            requires
                y - r == q * i + t,
                0 <= t < q,
                y - r >= q,
        ;
        assert(i < b) by (nonlinear_arith)
            requires
                y - r == q * i + t,
                0 <= t < q,
                y < h,
                h == q * b + r,
        ;
        (i, t)
    }
}

/// Lemma: quotient and remainder of the height by the block count.
proof fn lemma_blocks_split(h: int, b: int)
    requires
        2 <= b <= h,
    ensures
        h / b >= 1,
        0 <= h % b < b,
        h == (h / b) * b + h % b,
{
    assert(h == (h / b) * b + h % b) by (nonlinear_arith)
        requires
            b > 0,
    ;
    assert(h / b >= 1) by (nonlinear_arith)
        requires
            2 <= b <= h,
    ;
}

/// Lemma: byte `row * stride + x` lies in row `row`, column `x`.
proof fn lemma_row_offset(row: int, x: int, stride: int, rows: int)
    requires
        0 <= row < rows,
        0 <= x < stride,
    ensures
        (row * stride + x) / stride == row,
        (row * stride + x) % stride == x,
        0 <= row * stride + x < rows * stride,
        row * stride + stride <= rows * stride,
{
    lemma_fundamental_div_mod_converse(row * stride + x, stride, row, x);
    lemma_mul_inequality(row + 1, rows, stride);
    lemma_mul_is_distributive_add_other_way(stride, row, 1);
    assert(row * stride >= 0) by (nonlinear_arith)
        requires
            row >= 0,
            stride > 0,
    ;
}

/// Undoes the row-block scrambling of a page cut into `block_num` blocks:
/// the image is returned as is when `block_num` is at most 1 or exceeds the
/// height; otherwise output row `y` is source row
/// [`stitch_source_row`]`(height, block_num, y)`.
pub fn stitch_img(src: &RgbPixels, block_num: u32) -> (dst: RgbPixels)
    requires
        src.wf(),
    ensures
        dst.width == src.width,
        dst.height == src.height,
        dst.wf(),
        block_num <= 1 || block_num > src.height ==> dst.data@ == src.data@,
        !(block_num <= 1 || block_num > src.height) ==> dst.data@ == stitched_data(
            src.data@,
            src.width as nat,
            src.height as nat,
            block_num as nat,
        ),
        !(block_num <= 1 || block_num > src.height) ==> forall|y: int, x: int|
            0 <= y < src.height && 0 <= x < src.width * 3 ==> #[trigger] row_byte(
                dst.data@,
                src.width * 3,
                y,
                x,
            ) == row_byte(
                src.data@,
                src.width * 3,
                stitch_source_row(src.height as int, block_num as int, y),
                x,
            ),
{
    let width = src.width;
    let height = src.height;
    if block_num <= 1 || block_num > height {
        return RgbPixels { width, height, data: src.data.clone() };
    }
    let ghost h = height as int;
    let ghost b = block_num as int;
    let ghost w3 = width * 3;
    proof {
        assert(width * 3 <= width * height * 3) by (nonlinear_arith)
            requires
                height >= 1,
        ;
        assert(width * height * 3 == height * (width * 3)) by (nonlinear_arith);
    }
    let total = src.data.len();
    assert(width * 3 <= total);
    assert(h * w3 <= total);
    let stride: usize = width as usize * 3;
    let ghost expected = stitched_data(src.data@, width as nat, height as nat, block_num as nat);
    let q = height / block_num;
    let r = height % block_num;
    let mut out: Vec<u8> = Vec::new();
    let mut i: u32 = 0;
    while i < block_num
        invariant
            2 <= b <= h,
            h == height,
            b == block_num,
            w3 == width * 3,
            stride == w3,
            q == height / block_num,
            r == height % block_num,
            src.data@.len() >= h * w3,
            h * w3 <= total,
            total == src.data@.len(),
            expected == stitched_data(src.data@, width as nat, height as nat, block_num as nat),
            0 <= i <= block_num,
            out@.len() == (if i == 0 {
                0
            } else {
                q * i + r
            }) * stride,
            forall|k: int| 0 <= k < out@.len() ==> #[trigger] out@[k] == expected[k],
        decreases block_num - i,
    {
        proof {
            lemma_blocks_split(h, b);
            lemma_block_rows(h, b, i as int, 0);
            assert(q * (i + 1) <= h) by (nonlinear_arith)
                requires
                    i + 1 <= b,
                    h == q * b + r,
                    r >= 0,
                    q >= 0,
            ;
        }
        let mut block_height = q;
        let src_start = height - q * (i + 1) - r;
        let mut dst_start = q * i;
        if i == 0 {
            block_height += r;
        } else {
            dst_start += r;
        }
        let mut y: u32 = 0;
        while y < block_height
            invariant
                2 <= b <= h,
                h == height,
                b == block_num,
                w3 == width * 3,
                stride == w3,
                q == height / block_num,
                r == height % block_num,
                src.data@.len() >= h * w3,
                h * w3 <= total,
                total == src.data@.len(),
                expected == stitched_data(src.data@, width as nat, height as nat, block_num as nat),
                0 <= i < block_num,
                block_height == (if i == 0 {
                    q + r
                } else {
                    q as int
                }),
                dst_start == (if i == 0 {
                    0
                } else {
                    q * i + r
                }),
                src_start == h - q * (i + 1) - r,
                0 <= y <= block_height,
                out@.len() == (dst_start + y) * stride,
                forall|k: int| 0 <= k < out@.len() ==> #[trigger] out@[k] == expected[k],
            decreases block_height - y,
        {
            proof {
                lemma_block_rows(h, b, i as int, y as int);
            }
            let src_y = src_start + y;
            let dst_y = dst_start + y;
            let mut x: usize = 0;
            while x < stride
                invariant
                    h == height,
                    w3 == width * 3,
                    stride == w3,
                    src.data@.len() >= h * w3,
                    h * w3 <= total,
                    total == src.data@.len(),
                    expected == stitched_data(src.data@, width as nat, height as nat, block_num as nat),
                    b == block_num,
                    0 <= src_y < h,
                    0 <= dst_y < h,
                    stitch_source_row(h, b, dst_y as int) == src_y,
                    0 <= x <= stride,
                    out@.len() == dst_y * stride + x,
                    forall|k: int| 0 <= k < out@.len() ==> #[trigger] out@[k] == expected[k],
                decreases stride - x,
            {
                proof {
                    lemma_row_offset(src_y as int, x as int, stride as int, h);
                    lemma_row_offset(dst_y as int, x as int, stride as int, h);
                    lemma_mul_inequality(src_y as int, h, stride as int);
                }
                let idx = src_y as usize * stride + x;
                let ghost k = out@.len() as int;
                out.push(src.data[idx]);
                proof {
                    assert(k == dst_y * stride + x);
                    assert(expected[k] == src.data@[src_y * stride + x]);
                    assert(out@[k] == expected[k]);
                }
                x += 1;
            }
            proof {
                assert((dst_start + y) * stride + stride == (dst_start + y + 1) * stride) by (
                nonlinear_arith);
            }
            y += 1;
        }
        proof {
            if i == 0 {
                assert(q * (i + 1) + r == dst_start + block_height);
            } else {
                assert(q * (i + 1) + r == dst_start + block_height) by (nonlinear_arith)
                    requires
                        dst_start == q * i + r,
                        block_height == q,
                ;
            }
        }
        i += 1;
    }
    proof {
        assert(q * block_num + r == height) by (nonlinear_arith)
            requires
                q == height / block_num,
                r == height % block_num,
                block_num > 0,
        ;
        assert(out@ =~= expected);
        assert(height * (width * 3) == width * height * 3) by (nonlinear_arith);
        assert forall|yy: int, xx: int| 0 <= yy < height && 0 <= xx < width * 3 implies #[trigger] row_byte(
            out@,
            width * 3,
            yy,
            xx,
        ) == row_byte(src.data@, width * 3, stitch_source_row(h, b, yy), xx) by {
            lemma_stitched_moves_whole_rows(src.data@, width as nat, height as nat, block_num as nat, yy, xx);
        }
    }
    RgbPixels { width, height, data: out }
}

// ---------------------------------------------------------------------------
// Decoding, encoding and the save decision
// ---------------------------------------------------------------------------

/// The format the `image` crate recognises from the leading bytes of `data`
/// (`None` where it recognises none).
pub uninterp spec fn spec_guess_format(data: Seq<u8>) -> Option<ImgFormat>;

/// `image::guess_format`: the contract claims that the recognised format is
/// a function of the bytes (named [`spec_guess_format`]); each of the crate's
/// formats is carried over under its own name.
#[verifier::external_body]
#[allow(deprecated)]
fn guess_format(data: &[u8]) -> (res: Option<ImgFormat>)
    ensures
        res == spec_guess_format(data@),
{
    let f = image::guess_format(data).ok()?;
    Some(match f {
        F::Png => ImgFormat::Png, F::Jpeg => ImgFormat::Jpeg, F::Gif => ImgFormat::Gif,
        F::WebP => ImgFormat::WebP, F::Pnm => ImgFormat::Pnm, F::Tiff => ImgFormat::Tiff,
        F::Tga => ImgFormat::Tga, F::Dds => ImgFormat::Dds, F::Bmp => ImgFormat::Bmp,
        F::Ico => ImgFormat::Ico, F::Hdr => ImgFormat::Hdr, F::OpenExr => ImgFormat::OpenExr,
        F::Farbfeld => ImgFormat::Farbfeld, F::Avif => ImgFormat::Avif, F::Qoi => ImgFormat::Qoi,
        F::Pcx => ImgFormat::Pcx, _ => ImgFormat::Other,
    })
}

/// The width, height and RGB bytes the `image` crate decodes from `data`
/// (`None` where decoding fails).
pub uninterp spec fn spec_decode_rgb(data: Seq<u8>) -> Option<(u32, u32, Seq<u8>)>;

/// `image::load_from_memory(data)?.to_rgb8()`, read back as width, height and
/// raw buffer. The contract claims that the result is a function of the bytes
/// (named [`spec_decode_rgb`]) and that the buffer holds at least
/// `width * height` pixels, which every constructor of `ImageBuffer` keeps.
#[verifier::external_body]
fn decode_rgb(data: &[u8]) -> (res: Result<RgbPixels, String>)
    ensures
        match res {
            Ok(p) => spec_decode_rgb(data@) == Some((p.width, p.height, p.data@)) && p.wf(),
            Err(_) => spec_decode_rgb(data@) is None,
        },
{
    let img = image::load_from_memory(data).map_err(|e| e.to_string())?.to_rgb8();
    let (width, height) = img.dimensions();
    Ok(RgbPixels { width, height, data: img.into_raw() })
}

/// The bytes the `image` crate encodes an RGB image to in `format` (`None`
/// where encoding fails).
pub uninterp spec fn spec_encode_rgb(width: u32, height: u32, data: Seq<u8>, format: ImgFormat) -> Option<Seq<u8>>;

/// The formats the downloader encodes pages to.
pub open spec fn is_encodable(f: ImgFormat) -> bool {
    f == ImgFormat::Jpeg || f == ImgFormat::Png || f == ImgFormat::WebP
}

/// `RgbImage::from_raw(..).write_to(.., format)` into memory: the contract
/// claims that the result is a function of the image and the format (named
/// [`spec_encode_rgb`]). `from_raw` succeeds because the buffer is large
/// enough, which `requires` states.
#[verifier::external_body]
fn encode_rgb(img: &RgbPixels, format: ImgFormat) -> (res: Result<Vec<u8>, String>)
    requires
        img.wf(),
        is_encodable(format),
    ensures
        match res {
            Ok(b) => spec_encode_rgb(img.width, img.height, img.data@, format) == Some(b@),
            Err(_) => spec_encode_rgb(img.width, img.height, img.data@, format) is None,
        },
{
    let buf = image::RgbImage::from_raw(img.width, img.height, img.data.clone()).unwrap();
    let target = match format {
        ImgFormat::Jpeg => image::ImageFormat::Jpeg,
        ImgFormat::WebP => image::ImageFormat::WebP,
        _ => image::ImageFormat::Png,
    };
    let mut out: Vec<u8> = Vec::new();
    buf.write_to(&mut std::io::Cursor::new(&mut out), target).map_err(|e| e.to_string())?;
    Ok(out)
}

/// Why a downloaded page could not be processed.
#[derive(Debug)]
pub enum ImageError {
    /// The bytes are not an image format the `image` crate recognises.
    UnknownFormat,
    /// The image could not be decoded (the crate's message).
    Decode(String),
    /// The output format cannot be written.
    Unsupported(ImgFormat),
    /// The image could not be encoded (the crate's message).
    Encode(String),
}

/// The format of downloaded image bytes.
pub fn detect_format(data: &[u8]) -> (res: Result<ImgFormat, ImageError>)
    ensures
        match spec_guess_format(data@) {
            Some(f) => res matches Ok(g) && g == f,
            None => res matches Err(ImageError::UnknownFormat),
        },
{
    match guess_format(data) {
        Some(f) => Ok(f),
        None => Err(ImageError::UnknownFormat),
    }
}

/// A page is written exactly as downloaded when it is not scrambled and is a
/// GIF, or the download keeps original formats, or it already has the
/// requested format.
pub open spec fn spec_saves_source_bytes(block_num: u32, format: DownloadFormat, source: ImgFormat) -> bool {
    block_num == 0 && (source == ImgFormat::Gif || format == DownloadFormat::Original
        || spec_to_image_format(format) == Some(source))
}

/// Whether a page is written exactly as downloaded.
pub fn saves_source_bytes(block_num: u32, format: DownloadFormat, source: ImgFormat) -> (b: bool)
    ensures
        b == spec_saves_source_bytes(block_num, format, source),
{
    block_num == 0 && (source == ImgFormat::Gif || format == DownloadFormat::Original
        || format.to_image_format() == Some(source))
}

/// Where processing a page fails.
#[derive(Debug, Clone, Copy, PartialEq, Eq, Structural)]
pub enum ImageStage {
    Decode,
    Unsupported,
    Encode,
}

/// The format a processed page is written in.
pub open spec fn spec_output_format(format: DownloadFormat, source: ImgFormat) -> ImgFormat {
    match spec_to_image_format(format) {
        Some(t) => t,
        None => source,
    }
}

/// The bytes a processed page is written as: decoded to RGB, unscrambled
/// when it was cut into blocks, and encoded in the output format.
pub open spec fn spec_process_image(
    data: Seq<u8>,
    block_num: u32,
    format: DownloadFormat,
    source: ImgFormat,
) -> Result<Seq<u8>, ImageStage> {
    match spec_decode_rgb(data) {
        None => Err(ImageStage::Decode),
        Some((w, h, px)) => {
            let pixels = if block_num <= 1 || block_num > h {
                px
            } else {
                stitched_data(px, w as nat, h as nat, block_num as nat)
            };
            let target = spec_output_format(format, source);
            if !is_encodable(target) {
                Err(ImageStage::Unsupported)
            } else {
                match spec_encode_rgb(w, h, pixels, target) {
                    None => Err(ImageStage::Encode),
                    Some(b) => Ok(b),
                }
            }
        },
    }
}

/// The stage an image error belongs to.
pub open spec fn image_error_stage(e: ImageError) -> ImageStage {
    match e {
        ImageError::Decode(_) => ImageStage::Decode,
        ImageError::Unsupported(_) => ImageStage::Unsupported,
        _ => ImageStage::Encode,
    }
}

/// Lemma (requested format): a decoded page is encoded in the format the
/// download asks for (JPEG, PNG or WebP), whatever format it was served in;
/// only a download that keeps original formats encodes it in the source
/// format, and fails as unsupported when that is none of the three. The
/// pixels encoded are the decoded ones, unscrambled when the block count is
/// at least 2 and at most the height.
pub proof fn lemma_processed_page_format(
    data: Seq<u8>,
    block_num: u32,
    format: DownloadFormat,
    source: ImgFormat,
)
    requires
        spec_decode_rgb(data) is Some,
    ensures
        ({
            let (w, h, px) = spec_decode_rgb(data)->0;
            let pixels = if block_num <= 1 || block_num > h {
                px
            } else {
                stitched_data(px, w as nat, h as nat, block_num as nat)
            };
            let target = match format {
                DownloadFormat::Jpeg => ImgFormat::Jpeg,
                DownloadFormat::Png => ImgFormat::Png,
                DownloadFormat::Webp => ImgFormat::WebP,
                DownloadFormat::Original => source,
            };
            let encoded = match spec_encode_rgb(w, h, pixels, target) {
                Some(b) => Ok(b),
                None => Err(ImageStage::Encode),
            };
            &&& format != DownloadFormat::Original ==> spec_process_image(data, block_num, format, source) == encoded
            &&& format == DownloadFormat::Original && (source == ImgFormat::Jpeg || source == ImgFormat::Png
                || source == ImgFormat::WebP) ==> spec_process_image(data, block_num, format, source) == encoded
            &&& format == DownloadFormat::Original && !(source == ImgFormat::Jpeg || source == ImgFormat::Png
                || source == ImgFormat::WebP) ==> spec_process_image(data, block_num, format, source)
                == Err::<Seq<u8>, ImageStage>(ImageStage::Unsupported)
        }),
{
}

/// Decodes a downloaded page, unscrambles it and encodes it in the output
/// format.
pub fn process_image(data: &[u8], block_num: u32, format: DownloadFormat, source: ImgFormat) -> (res:
    Result<Vec<u8>, ImageError>)
    ensures
        match spec_process_image(data@, block_num, format, source) {
            Ok(b) => res matches Ok(v) && v@ == b,
            Err(stage) => res matches Err(e) && image_error_stage(e) == stage && !(e is UnknownFormat),
        },
        res is Ok ==> spec_decode_rgb(data@) is Some,
        res matches Ok(v) ==> ({
            let (w, h, px) = spec_decode_rgb(data@)->0;
            let pixels = if block_num <= 1 || block_num > h {
                px
            } else {
                stitched_data(px, w as nat, h as nat, block_num as nat)
            };
            let target = match format {
                DownloadFormat::Jpeg => ImgFormat::Jpeg,
                DownloadFormat::Png => ImgFormat::Png,
                DownloadFormat::Webp => ImgFormat::WebP,
                DownloadFormat::Original => source,
            };
            spec_encode_rgb(w, h, pixels, target) == Some(v@)
        }),
{
    let src = match decode_rgb(data) {
        Ok(p) => p,
        Err(msg) => return Err(ImageError::Decode(msg)),
    };
    let pixels = if block_num == 0 {
        src
    } else {
        stitch_img(&src, block_num)
    };
    let target = match format.to_image_format() {
        Some(t) => t,
        None => source,
    };
    if !(target == ImgFormat::Jpeg || target == ImgFormat::Png || target == ImgFormat::WebP) {
        return Err(ImageError::Unsupported(target));
    }
    match encode_rgb(&pixels, target) {
        Ok(b) => Ok(b),
        Err(msg) => Err(ImageError::Encode(msg)),
    }
}

} // verus!
