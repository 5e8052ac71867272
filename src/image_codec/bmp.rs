//! Decoding of 8-bit palette BMP images held in memory.

use super::{frame_view, ColorRGB8, Frame, Image, ImageError, Palette, Pixel, ScanLine, Validate};
use crate::binary::{fits, has_bytes, le16, le32, u16_le_at, u32_le_at};
use vstd::prelude::*;

verus! {

/// `BM`, little-endian.
pub const BM_MAGIC: u16 = 0x4D42;

/// Offset of the info header: right after the 14-byte file header.
pub const INFO_HEADER_OFFSET: usize = 14;

/// Offset of the palette: right after the 40-byte info header.
pub const PALETTE_OFFSET: usize = 54;

#[derive(Copy, Clone, Debug)]
pub struct BitmapFileHeader {
    pub bf_type: u16,
    pub bf_size: u32,
    pub bf_reserved1: u16,
    pub bf_reserved2: u16,
    pub bf_off_bits: u32,
}

#[derive(Copy, Clone, Debug)]
pub struct BitmapInfoHeader {
    pub bi_size: u32,
    pub bi_width: i32,
    pub bi_height: i32,
    pub bi_planes: u16,
    pub bi_bit_count: u16,
    pub bi_compression: u32,
    pub bi_size_image: u32,
    pub bi_x_pels_per_meter: i32,
    pub bi_y_pels_per_meter: i32,
    pub bi_clr_used: u32,
    pub bi_clr_important: u32,
}

impl Validate for BitmapFileHeader {
    open spec fn check(&self) -> Result<(), ImageError> {
        if self.bf_type != BM_MAGIC {
            Err(ImageError::InvalidMagic)
        } else {
            Ok(())
        }
    }

    fn validate(&self) -> (r: Result<(), ImageError>) {
        if self.bf_type != BM_MAGIC {
            return Err(ImageError::InvalidMagic);
        }
        Ok(())
    }
}

pub open spec fn allowed_bit_count(c: u16) -> bool {
    c == 1 || c == 2 || c == 4 || c == 8 || c == 16 || c == 24
}

impl Validate for BitmapInfoHeader {
    open spec fn check(&self) -> Result<(), ImageError> {
        if self.bi_size != 40 {
            Err(ImageError::InvalidInfoHeaderSize)
        } else if self.bi_width < 0 {
            Err(ImageError::NegativeWidth)
        } else if self.bi_width > 0xFFFF {
            Err(ImageError::WidthOverflow)
        } else if self.bi_height > 0xFFFF || self.bi_height < -0xFFFF {
            Err(ImageError::HeightOverflow)
        } else if !allowed_bit_count(self.bi_bit_count) {
            Err(ImageError::InvalidBitDepth)
        } else if self.bi_clr_used > 256 {
            Err(ImageError::OversizePalette)
        } else if self.bi_clr_used < self.bi_clr_important {
            Err(ImageError::ImportantOverUsed)
        } else if self.bi_compression != 0 {
            Err(ImageError::UnsupportedCompression)
        } else {
            Ok(())
        }
    }

    fn validate(&self) -> (r: Result<(), ImageError>) {
        if self.bi_size != 40 {
            return Err(ImageError::InvalidInfoHeaderSize);
        }
        if self.bi_width < 0 {
            return Err(ImageError::NegativeWidth);
        }
        if self.bi_width > 0xFFFF {
            return Err(ImageError::WidthOverflow);
        }
        if self.bi_height > 0xFFFF || self.bi_height < -0xFFFF {
            return Err(ImageError::HeightOverflow);
        }
        let c = self.bi_bit_count;
        if !(c == 1 || c == 2 || c == 4 || c == 8 || c == 16 || c == 24) {
            return Err(ImageError::InvalidBitDepth);
        }
        if self.bi_clr_used > 256 {
            return Err(ImageError::OversizePalette);
        }
        if self.bi_clr_used < self.bi_clr_important {
            return Err(ImageError::ImportantOverUsed);
        }
        if self.bi_compression != 0 {
            return Err(ImageError::UnsupportedCompression);
        }
        Ok(())
    }
}

/// The two's-complement value of a 32-bit word.
pub open spec fn signed32(u: int) -> int {
    if u < 0x8000_0000 {
        u
    } else {
        u - 0x1_0000_0000
    }
}

/// Reads the little-endian `i32` at `p`.
pub fn i32_le_at(d: &[u8], p: usize) -> (r: i32)
    requires
        fits(d@, p as int, 4),
    ensures
        r as int == signed32(le32(d@, p as int)),
{
    let u = u32_le_at(d, p);
    if u < 0x8000_0000 {
        u as i32
    } else {
        (u - 0x8000_0000) as i32 + i32::MIN
    }
}

pub open spec fn file_header_at(d: Seq<u8>) -> BitmapFileHeader {
    BitmapFileHeader {
        bf_type: le16(d, 0) as u16,
        bf_size: le32(d, 2) as u32,
        bf_reserved1: le16(d, 6) as u16,
        bf_reserved2: le16(d, 8) as u16,
        bf_off_bits: le32(d, 10) as u32,
    }
}

pub open spec fn info_header_at(d: Seq<u8>) -> BitmapInfoHeader {
    let p = INFO_HEADER_OFFSET as int;
    BitmapInfoHeader {
        bi_size: le32(d, p) as u32,
        bi_width: signed32(le32(d, p + 4)) as i32,
        bi_height: signed32(le32(d, p + 8)) as i32,
        bi_planes: le16(d, p + 12) as u16,
        bi_bit_count: le16(d, p + 14) as u16,
        bi_compression: le32(d, p + 16) as u32,
        bi_size_image: le32(d, p + 20) as u32,
        bi_x_pels_per_meter: signed32(le32(d, p + 24)) as i32,
        bi_y_pels_per_meter: signed32(le32(d, p + 28)) as i32,
        bi_clr_used: le32(d, p + 32) as u32,
        bi_clr_important: le32(d, p + 36) as u32,
    }
}

/// Palette entry `i`, stored as blue, green, red and a spare byte at `p`.
/// Entries from 128 on are stored inverted.
pub open spec fn palette_color(d: Seq<u8>, p: int, i: int) -> ColorRGB8 {
    let (r, g, b) = (d[p + 2], d[p + 1], d[p]);
    if i < 128 {
        ColorRGB8(r, g, b)
    } else {
        ColorRGB8((255 - r) as u8, (255 - g) as u8, (255 - b) as u8)
    }
}

/// The `len` palette entries stored at `start`.
pub open spec fn palette_at(d: Seq<u8>, start: int, len: int) -> Result<
    Seq<ColorRGB8>,
    ImageError,
> {
    if !fits(d, start, 4 * len) {
        Err(ImageError::Truncated)
    } else {
        Ok(Seq::new(len as nat, |i: int| palette_color(d, start + 4 * i, i)))
    }
}

/// One row of `xs` palette indices at `start`, as pixels.
pub open spec fn pixel_row(d: Seq<u8>, start: int, xs: int, pal: Seq<ColorRGB8>) -> Seq<Pixel> {
    Seq::new(xs as nat, |i: int| Pixel::RGB8(pal[d[start + i] as int]))
}

/// The first `k` rows in storage order, starting at `pos`, and the offset after
/// them. Each row of `xs` indices is followed by `xs % 4` bytes that are skipped.
pub open spec fn rows_prefix(d: Seq<u8>, pos: int, xs: int, pal: Seq<ColorRGB8>, k: nat) -> Result<
    (Seq<Seq<Pixel>>, int),
    ImageError,
>
    decreases k,
{
    if k == 0 {
        Ok((Seq::empty(), pos))
    } else {
        match rows_prefix(d, pos, xs, pal, (k - 1) as nat) {
            Err(e) => Err(e),
            Ok((rows, p)) => if !fits(d, p, xs) {
                Err(ImageError::Truncated)
            } else if xs % 4 != 0 && !fits(d, p + xs, xs % 4) {
                Err(ImageError::Truncated)
            } else if exists|j: int| p <= j < p + xs && #[trigger] d[j] >= pal.len() {
                Err(ImageError::ColorBeyondPalette)
            } else {
                Ok((rows.push(pixel_row(d, p, xs, pal)), p + xs + xs % 4))
            },
        }
    }
}

/// The pixel rows, top row first: `|ys|` rows of `xs` pixels at `pos`, stored
/// bottom-up when `ys` is not negative.
pub open spec fn pixel_frame(d: Seq<u8>, xs: i32, ys: i32, pal: Seq<ColorRGB8>, pos: u64) -> Result<
    Seq<Seq<Pixel>>,
    ImageError,
> {
    let rows = if ys < 0 {
        -ys
    } else {
        ys as int
    };
    if xs < 0 {
        Err(ImageError::NegativeWidth)
    } else {
        match rows_prefix(d, pos as int, xs as int, pal, rows as nat) {
            Err(e) => Err(e),
            Ok((r, _)) => if ys >= 0 {
                Ok(r.reverse())
            } else {
                Ok(r)
            },
        }
    }
}

/// The image as plain values.
pub struct ImageView {
    pub x_size: usize,
    pub y_size: usize,
    pub palette: Option<Seq<ColorRGB8>>,
    pub pixels: Seq<Seq<Pixel>>,
}

impl View for Image {
    type V = ImageView;

    open spec fn view(&self) -> ImageView {
        ImageView {
            x_size: self.x_size,
            y_size: self.y_size,
            palette: match self.palette {
                Some(p) => Some(p@),
                None => None,
            },
            pixels: frame_view(self.pixels@),
        }
    }
}

/// The number of palette entries an 8-bit image uses.
pub open spec fn palette_len(h: BitmapInfoHeader) -> int {
    if h.bi_clr_used == 0 {
        256
    } else {
        h.bi_clr_used as int
    }
}

/// The image that the bytes `d` of a BMP file describe: both headers valid,
/// eight bits per pixel, a palette right after the headers, and rows at the
/// offset the file header gives.
pub open spec fn bmp_image(d: Seq<u8>) -> Result<ImageView, ImageError> {
    let fh = file_header_at(d);
    let ih = info_header_at(d);
    if !fits(d, 0, INFO_HEADER_OFFSET as int) {
        Err(ImageError::Truncated)
    } else if fh.check() is Err {
        Err(fh.check()->Err_0)
    } else if !fits(d, 0, PALETTE_OFFSET as int) {
        Err(ImageError::Truncated)
    } else if ih.check() is Err {
        Err(ih.check()->Err_0)
    } else if ih.bi_bit_count != 8 {
        Err(ImageError::Unsupported)
    } else {
        match palette_at(d, PALETTE_OFFSET as int, palette_len(ih)) {
            Err(e) => Err(e),
            Ok(pal) => match pixel_frame(d, ih.bi_width, ih.bi_height, pal, fh.bf_off_bits as u64) {
                Err(e) => Err(e),
                Ok(rows) => Ok(
                    ImageView {
                        x_size: ih.bi_width as usize,
                        y_size: (if ih.bi_height < 0 {
                            -ih.bi_height
                        } else {
                            ih.bi_height as int
                        }) as usize,
                        palette: None,
                        pixels: rows,
                    },
                ),
            },
        }
    }
}

/// A BMP file held in memory.
pub struct BMP {
    pub data: Vec<u8>,
}

impl BMP {
    /// Reads the file header at the start of the data.
    pub fn read_bfh(&self) -> (r: Result<BitmapFileHeader, ImageError>)
        ensures
            fits(self.data@, 0, INFO_HEADER_OFFSET as int) ==> r == Ok::<
                BitmapFileHeader,
                ImageError,
            >(file_header_at(self.data@)),
            !fits(self.data@, 0, INFO_HEADER_OFFSET as int) ==> r == Err::<
                BitmapFileHeader,
                ImageError,
            >(ImageError::Truncated),
    {
        let d = self.data.as_slice();
        if !has_bytes(d, 0, INFO_HEADER_OFFSET) {
            return Err(ImageError::Truncated);
        }
        Ok(
            BitmapFileHeader {
                bf_type: u16_le_at(d, 0),
                bf_size: u32_le_at(d, 2),
                bf_reserved1: u16_le_at(d, 6),
                bf_reserved2: u16_le_at(d, 8),
                bf_off_bits: u32_le_at(d, 10),
            },
        )
    }

    /// Reads the info header that follows the file header.
    pub fn read_bih(&self) -> (r: Result<BitmapInfoHeader, ImageError>)
        ensures
            fits(self.data@, 0, PALETTE_OFFSET as int) ==> r == Ok::<BitmapInfoHeader, ImageError>(
                info_header_at(self.data@),
            ),
            !fits(self.data@, 0, PALETTE_OFFSET as int) ==> r == Err::<
                BitmapInfoHeader,
                ImageError,
            >(ImageError::Truncated),
    {
        let d = self.data.as_slice();
        if !has_bytes(d, 0, PALETTE_OFFSET) {
            return Err(ImageError::Truncated);
        }
        let p = INFO_HEADER_OFFSET;
        Ok(
            BitmapInfoHeader {
                bi_size: u32_le_at(d, p),
                bi_width: i32_le_at(d, p + 4),
                bi_height: i32_le_at(d, p + 8),
                bi_planes: u16_le_at(d, p + 12),
                bi_bit_count: u16_le_at(d, p + 14),
                bi_compression: u32_le_at(d, p + 16),
                bi_size_image: u32_le_at(d, p + 20),
                bi_x_pels_per_meter: i32_le_at(d, p + 24),
                bi_y_pels_per_meter: i32_le_at(d, p + 28),
                bi_clr_used: u32_le_at(d, p + 32),
                bi_clr_important: u32_le_at(d, p + 36),
            },
        )
    }

    /// Reads `len` palette entries stored right after the info header.
    pub fn read_palette(&self, len: u32) -> (r: Result<Palette, ImageError>)
        ensures
            match r {
                Ok(p) => palette_at(self.data@, PALETTE_OFFSET as int, len as int) == Ok::<
                    Seq<ColorRGB8>,
                    ImageError,
                >(p@),
                Err(e) => palette_at(self.data@, PALETTE_OFFSET as int, len as int) == Err::<
                    Seq<ColorRGB8>,
                    ImageError,
                >(e),
            },
    {
        let d = self.data.as_slice();
        if (len as u64) * 4 + (PALETTE_OFFSET as u64) > d.len() as u64 {
            return Err(ImageError::Truncated);
        }
        let n = len as usize;
        let total = d.len();
        let mut pal: Palette = Vec::new();
        let mut i: usize = 0;
        while i < n
            invariant
                i <= n,
                n == len,
                total == d@.len(),
                PALETTE_OFFSET + 4 * n <= d@.len(),
                pal@.len() == i,
                forall|k: int|
                    0 <= k < i ==> pal@[k] == palette_color(d@, PALETTE_OFFSET + 4 * k, k),
            decreases n - i,
        {
            let p = PALETTE_OFFSET + 4 * i;
            let (r, g, b) = (d[p + 2], d[p + 1], d[p]);
            if i < 128 {
                pal.push(ColorRGB8(r, g, b));
            } else {
                pal.push(ColorRGB8(255 - r, 255 - g, 255 - b));
            }
            i = i + 1;
        }
        assert(pal@ =~= Seq::new(
            len as nat,
            |k: int| palette_color(d@, PALETTE_OFFSET + 4 * k, k),
        ));
        Ok(pal)
    }

    /// Reads `|ys|` rows of `xs` palette indices from `pos` and maps them
    /// through `pal`; rows come out top row first.
    pub fn read_pixels_pal(&self, xs: i32, ys: i32, pal: &Palette, pos: u64) -> (r: Result<
        Frame,
        ImageError,
    >)
        ensures
            match r {
                Ok(f) => pixel_frame(self.data@, xs, ys, pal@, pos) == Ok::<
                    Seq<Seq<Pixel>>,
                    ImageError,
                >(frame_view(f@)),
                Err(e) => pixel_frame(self.data@, xs, ys, pal@, pos) == Err::<
                    Seq<Seq<Pixel>>,
                    ImageError,
                >(e),
            },
    {
        if xs < 0 {
            return Err(ImageError::NegativeWidth);
        }
        let d = self.data.as_slice();
        let n_rows: u32 = if ys < 0 {
            (-(ys as i64)) as u32
        } else {
            ys as u32
        };
        let width = xs as usize;
        let pad = width % 4;
        let mut bitmap: Frame = Vec::new();
        assert(frame_view(bitmap@) =~= Seq::<Seq<Pixel>>::empty());
        let total = d.len();
        assert(rows_prefix(d@, pos as int, xs as int, pal@, 0) == Ok::<
            (Seq<Seq<Pixel>>, int),
            ImageError,
        >((Seq::empty(), pos as int)));
        if n_rows == 0 {
            assert(Seq::<Seq<Pixel>>::empty().reverse() =~= Seq::<Seq<Pixel>>::empty());
            return Ok(bitmap);
        }
        if pos > total as u64 {
            proof {
                assert(rows_prefix(d@, pos as int, xs as int, pal@, 1) is Err);
                lemma_rows_error_persists(d@, pos as int, xs as int, pal@, 1, n_rows as nat);
            }
            return Err(ImageError::Truncated);
        }
        let mut p: usize = pos as usize;
        let mut y: u32 = 0;
        while y < n_rows
            invariant
                y <= n_rows,
                xs >= 0,
                width == xs,
                pad == width % 4,
                p <= d@.len(),
                total == d@.len(),
                d@ == self.data@,
                n_rows == (if ys < 0 { -ys } else { ys as int }),
                rows_prefix(d@, pos as int, xs as int, pal@, y as nat) == Ok::<
                    (Seq<Seq<Pixel>>, int),
                    ImageError,
                >((frame_view(bitmap@), p as int)),
            decreases n_rows - y,
        {
            if !has_bytes(d, p, width) || (pad != 0 && !has_bytes(d, p + width, pad)) {
                proof {
                    assert(rows_prefix(d@, pos as int, xs as int, pal@, (y + 1) as nat) is Err);
                    let next = (y + 1) as nat;
                    lemma_rows_error_persists(d@, pos as int, xs as int, pal@, next, n_rows as nat);
                }
                return Err(ImageError::Truncated);
            }
            let mut row: ScanLine = Vec::new();
            let mut x: usize = 0;
            while x < width
                invariant
                    x <= width,
                    width == xs,
                    y < n_rows,
                    p + width <= d@.len(),
                    total == d@.len(),
                    d@ == self.data@,
                    n_rows == (if ys < 0 { -ys } else { ys as int }),
                    xs % 4 != 0 ==> fits(d@, p + xs, (xs % 4) as int),
                    fits(d@, p as int, xs as int),
                    rows_prefix(d@, pos as int, xs as int, pal@, y as nat) == Ok::<
                        (Seq<Seq<Pixel>>, int),
                        ImageError,
                    >((frame_view(bitmap@), p as int)),
                    row@ =~= Seq::new(x as nat, |i: int| Pixel::RGB8(pal@[d@[p + i] as int])),
                    forall|j: int| p <= j < p + x ==> #[trigger] d@[j] < pal@.len(),
                decreases width - x,
            {
                let idx = d[p + x] as usize;
                if idx >= pal.len() {
                    proof {
                        assert(d@[p + x as int] >= pal@.len());
                        assert(rows_prefix(d@, pos as int, xs as int, pal@, (y + 1) as nat) is Err);
                        let next = (y + 1) as nat;
                        lemma_rows_error_persists(d@, pos as int, xs as int, pal@, next, n_rows as nat);
                    }
                    return Err(ImageError::ColorBeyondPalette);
                }
                row.push(Pixel::RGB8(pal[idx]));
                x = x + 1;
            }
            proof {
                assert(row@ =~= pixel_row(d@, p as int, width as int, pal@));
                assert(frame_view(bitmap@.push(row)) =~= frame_view(bitmap@).push(row@));
            }
            bitmap.push(row);
            p = p + width + pad;
            y = y + 1;
        }
        if ys < 0 {
            return Ok(bitmap);
        }
        let ghost orig = bitmap@;
        let mut out: Frame = Vec::new();
        while bitmap.len() > 0
            invariant
                out@.len() <= orig.len(),
                bitmap@ == orig.subrange(0, orig.len() - out@.len()),
                forall|i: int| 0 <= i < out@.len() ==> out@[i] == orig[orig.len() - 1 - i],
            decreases bitmap@.len(),
        {
            match bitmap.pop() {
                Some(row) => out.push(row),
                None => {},
            }
        }
        assert(frame_view(out@) =~= frame_view(orig).reverse());
        Ok(out)
    }
}

proof fn lemma_rows_error_persists(
    d: Seq<u8>,
    pos: int,
    xs: int,
    pal: Seq<ColorRGB8>,
    j: nat,
    k: nat,
)
    requires
        j <= k,
        rows_prefix(d, pos, xs, pal, j) is Err,
    ensures
        rows_prefix(d, pos, xs, pal, k) == rows_prefix(d, pos, xs, pal, j),
    decreases k - j,
{
    if j < k {
        lemma_rows_error_persists(d, pos, xs, pal, j, (k - 1) as nat);
    }
}

/// Decodes an 8-bit palette BMP file held in memory.
pub fn read_bmp(data: Vec<u8>) -> (r: Result<Image, ImageError>)
    ensures
        match r {
            Ok(img) => bmp_image(data@) == Ok::<ImageView, ImageError>(img@),
            Err(e) => bmp_image(data@) == Err::<ImageView, ImageError>(e),
        },
{
    let bmp = BMP { data };
    let bfh = match bmp.read_bfh() {
        Ok(h) => h,
        Err(e) => {
            return Err(e);
        },
    };
    if let Err(e) = bfh.validate() {
        return Err(e);
    }
    let bih = match bmp.read_bih() {
        Ok(h) => h,
        Err(e) => {
            return Err(e);
        },
    };
    if let Err(e) = bih.validate() {
        return Err(e);
    }
    if bih.bi_bit_count != 8 {
        return Err(ImageError::Unsupported);
    }
    let colors: u32 = if bih.bi_clr_used == 0 {
        256
    } else {
        bih.bi_clr_used
    };
    let pal = match bmp.read_palette(colors) {
        Ok(p) => p,
        Err(e) => {
            return Err(e);
        },
    };
    let pos = bfh.bf_off_bits as u64;
    let pixels = match bmp.read_pixels_pal(bih.bi_width, bih.bi_height, &pal, pos) {
        Ok(f) => f,
        Err(e) => {
            return Err(e);
        },
    };
    let rows: i32 = if bih.bi_height < 0 {
        -bih.bi_height
    } else {
        bih.bi_height
    };
    Ok(Image { x_size: bih.bi_width as usize, y_size: rows as usize, palette: None, pixels })
}

} // verus!
