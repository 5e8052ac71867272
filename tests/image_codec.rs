use sekurak_hex_gynvael::image_codec::bmp::{read_bmp, BitmapFileHeader, BitmapInfoHeader, BMP};
use sekurak_hex_gynvael::image_codec::raw::encode_raw;
use sekurak_hex_gynvael::image_codec::{ColorRGB8, Image, ImageError, Pixel, Validate};

struct Spec {
    magic: u16,
    info_size: u32,
    width: i32,
    height: i32,
    bit_count: u16,
    compression: u32,
    clr_used: u32,
    clr_important: u32,
}

fn spec(width: i32, height: i32, clr_used: u32) -> Spec {
    Spec {
        magic: 0x4D42,
        info_size: 40,
        width,
        height,
        bit_count: 8,
        compression: 0,
        clr_used,
        clr_important: 0,
    }
}

/// Headers, then the palette (blue, green, red, spare), then the stored rows.
fn build(s: &Spec, palette: &[[u8; 3]], rows: &[Vec<u8>]) -> Vec<u8> {
    let mut out = Vec::new();
    let off_bits = 54 + 4 * palette.len() as u32;
    out.extend_from_slice(&s.magic.to_le_bytes());
    out.extend_from_slice(&0u32.to_le_bytes());
    out.extend_from_slice(&0u16.to_le_bytes());
    out.extend_from_slice(&0u16.to_le_bytes());
    out.extend_from_slice(&off_bits.to_le_bytes());
    out.extend_from_slice(&s.info_size.to_le_bytes());
    out.extend_from_slice(&s.width.to_le_bytes());
    out.extend_from_slice(&s.height.to_le_bytes());
    out.extend_from_slice(&1u16.to_le_bytes());
    out.extend_from_slice(&s.bit_count.to_le_bytes());
    out.extend_from_slice(&s.compression.to_le_bytes());
    out.extend_from_slice(&0u32.to_le_bytes());
    out.extend_from_slice(&0i32.to_le_bytes());
    out.extend_from_slice(&0i32.to_le_bytes());
    out.extend_from_slice(&s.clr_used.to_le_bytes());
    out.extend_from_slice(&s.clr_important.to_le_bytes());
    for [b, g, r] in palette {
        out.extend_from_slice(&[*b, *g, *r, 0]);
    }
    for row in rows {
        out.extend_from_slice(row);
    }
    out
}

fn rgb(r: u8, g: u8, b: u8) -> Pixel {
    Pixel::RGB8(ColorRGB8(r, g, b))
}

const PAL2: [[u8; 3]; 2] = [[1, 2, 3], [10, 20, 30]];

#[test]
fn bottom_up_rows_come_out_top_first() {
    let data = build(&spec(2, 2, 2), &PAL2, &[vec![0, 1, 0, 0], vec![1, 0, 0, 0]]);
    let img = read_bmp(data).unwrap();
    assert_eq!(2, img.x_size);
    assert_eq!(2, img.y_size);
    assert_eq!(None, img.palette);
    assert_eq!(
        vec![vec![rgb(30, 20, 10), rgb(3, 2, 1)], vec![rgb(3, 2, 1), rgb(30, 20, 10)]],
        img.pixels
    );
}

#[test]
fn top_down_rows_keep_their_order() {
    let data = build(&spec(2, -2, 2), &PAL2, &[vec![0, 1, 0, 0], vec![1, 0, 0, 0]]);
    let img = read_bmp(data).unwrap();
    assert_eq!(2, img.y_size);
    assert_eq!(
        vec![vec![rgb(3, 2, 1), rgb(30, 20, 10)], vec![rgb(30, 20, 10), rgb(3, 2, 1)]],
        img.pixels
    );
}

#[test]
fn each_row_skips_width_mod_four_bytes() {
    let data = build(&spec(3, -2, 2), &PAL2, &[vec![0, 0, 1, 9, 9, 9], vec![1, 1, 0, 9, 9, 9]]);
    let img = read_bmp(data).unwrap();
    assert_eq!(
        vec![
            vec![rgb(3, 2, 1), rgb(3, 2, 1), rgb(30, 20, 10)],
            vec![rgb(30, 20, 10), rgb(30, 20, 10), rgb(3, 2, 1)]
        ],
        img.pixels
    );
}

#[test]
fn upper_palette_half_is_inverted() {
    let mut palette = vec![[0u8, 0, 0]; 256];
    palette[200] = [0, 0, 255];
    palette[5] = [0, 0, 255];
    let data = build(&spec(4, 1, 0), &palette, &[vec![200, 5, 0, 255]]);
    let img = read_bmp(data).unwrap();
    assert_eq!(
        vec![vec![rgb(0, 255, 255), rgb(255, 0, 0), rgb(0, 0, 0), rgb(255, 255, 255)]],
        img.pixels
    );
}

#[test]
fn index_past_palette_is_rejected() {
    let data = build(&spec(2, 1, 2), &PAL2, &[vec![0, 5, 0, 0]]);
    assert_eq!(ImageError::ColorBeyondPalette, read_bmp(data).err().unwrap());
}

#[test]
fn header_rules_are_checked_in_order() {
    let rows = [vec![0u8, 1, 0, 0]];
    let cases: Vec<(Spec, ImageError)> = vec![
        (Spec { magic: 0x4D43, ..spec(2, 1, 2) }, ImageError::InvalidMagic),
        (Spec { info_size: 12, ..spec(2, 1, 2) }, ImageError::InvalidInfoHeaderSize),
        (spec(-2, 1, 2), ImageError::NegativeWidth),
        (spec(0x10000, 1, 2), ImageError::WidthOverflow),
        (spec(2, 0x10000, 2), ImageError::HeightOverflow),
        (spec(2, -0x10000, 2), ImageError::HeightOverflow),
        (Spec { bit_count: 3, ..spec(2, 1, 2) }, ImageError::InvalidBitDepth),
        (spec(2, 1, 300), ImageError::OversizePalette),
        (Spec { clr_important: 5, ..spec(2, 1, 2) }, ImageError::ImportantOverUsed),
        (Spec { compression: 1, ..spec(2, 1, 2) }, ImageError::UnsupportedCompression),
        (Spec { bit_count: 24, ..spec(2, 1, 2) }, ImageError::Unsupported),
    ];
    for (s, expected) in cases {
        assert_eq!(expected, read_bmp(build(&s, &PAL2, &rows)).err().unwrap());
    }
}

#[test]
fn short_data_is_truncated() {
    assert_eq!(ImageError::Truncated, read_bmp(vec![0x42, 0x4D, 0, 0]).err().unwrap());
    let full = build(&spec(2, 2, 2), &PAL2, &[vec![0, 1, 0, 0], vec![1, 0, 0, 0]]);
    assert_eq!(ImageError::Truncated, read_bmp(full[..30].to_vec()).err().unwrap());
    assert_eq!(ImageError::Truncated, read_bmp(full[..60].to_vec()).err().unwrap());
    assert_eq!(ImageError::Truncated, read_bmp(full[..full.len() - 1].to_vec()).err().unwrap());
}

#[test]
fn headers_validate_directly() {
    let fh = BitmapFileHeader {
        bf_type: 0x4D42,
        bf_size: 0,
        bf_reserved1: 0,
        bf_reserved2: 0,
        bf_off_bits: 54,
    };
    assert_eq!(Ok(()), fh.validate());
    let bad = BitmapFileHeader { bf_type: 0, ..fh };
    assert_eq!(Err(ImageError::InvalidMagic), bad.validate());
    let ih = BitmapInfoHeader {
        bi_size: 40,
        bi_width: 1,
        bi_height: -1,
        bi_planes: 1,
        bi_bit_count: 8,
        bi_compression: 0,
        bi_size_image: 0,
        bi_x_pels_per_meter: 0,
        bi_y_pels_per_meter: 0,
        bi_clr_used: 256,
        bi_clr_important: 256,
    };
    assert_eq!(Ok(()), ih.validate());
}

#[test]
fn header_readers_decode_fields() {
    let data = build(&spec(-3, -7, 2), &PAL2, &[]);
    let b = BMP { data };
    let fh = b.read_bfh().unwrap();
    assert_eq!(0x4D42, fh.bf_type);
    assert_eq!(62, fh.bf_off_bits);
    let ih = b.read_bih().unwrap();
    assert_eq!(-3, ih.bi_width);
    assert_eq!(-7, ih.bi_height);
    assert_eq!(2, ih.bi_clr_used);
    assert_eq!(vec![ColorRGB8(3, 2, 1), ColorRGB8(30, 20, 10)], b.read_palette(2).unwrap());
    assert_eq!(Err(ImageError::Truncated), b.read_palette(3));
    assert_eq!(Err(ImageError::NegativeWidth), b.read_pixels_pal(-3, 1, &vec![], 62));
}

#[test]
fn raw_output_is_rgb_triples() {
    let img = Image {
        x_size: 2,
        y_size: 1,
        palette: None,
        pixels: vec![vec![rgb(1, 2, 3), rgb(4, 5, 6)]],
    };
    assert_eq!(Some(vec![1, 2, 3, 4, 5, 6]), encode_raw(&img));
    let gray = Image { pixels: vec![vec![rgb(1, 2, 3)], vec![Pixel::GRAY8(7)]], ..img };
    assert_eq!(None, encode_raw(&gray));
}
