//! Raw RGB output: three bytes per pixel, row after row.

use super::{frame_view, ColorRGB8, Image, Pixel};
use vstd::prelude::*;

verus! {

/// The raw bytes of `rows`, or `None` when a pixel is not plain RGB.
pub open spec fn raw_rows(rows: Seq<Seq<Pixel>>) -> Option<Seq<u8>>
    decreases rows.len(),
{
    if rows.len() == 0 {
        Some(Seq::empty())
    } else {
        match (raw_rows(rows.drop_last()), raw_row(rows.last())) {
            (Some(a), Some(b)) => Some(a + b),
            _ => None,
        }
    }
}

/// The raw bytes of one row, or `None` when a pixel is not plain RGB.
pub open spec fn raw_row(row: Seq<Pixel>) -> Option<Seq<u8>>
    decreases row.len(),
{
    if row.len() == 0 {
        Some(Seq::empty())
    } else {
        match (raw_row(row.drop_last()), row.last()) {
            (Some(a), Pixel::RGB8(ColorRGB8(r, g, b))) => Some(a + seq![r, g, b]),
            _ => None,
        }
    }
}

/// Encodes the image's pixels as raw RGB bytes.
pub fn encode_raw(img: &Image) -> (r: Option<Vec<u8>>)
    ensures
        match r {
            Some(v) => raw_rows(frame_view(img.pixels@)) == Some(v@),
            None => raw_rows(frame_view(img.pixels@)) is None,
        },
{
    let rows = &img.pixels;
    let mut out: Vec<u8> = Vec::new();
    let mut y: usize = 0;
    while y < rows.len()
        invariant
            y <= rows@.len(),
            rows@ == img.pixels@,
            raw_rows(frame_view(rows@.subrange(0, y as int))) == Some(out@),
        decreases rows@.len() - y,
    {
        let row = &rows[y];
        let mut x: usize = 0;
        let ghost before = out@;
        assert(row@.subrange(0, 0) =~= Seq::<Pixel>::empty());
        while x < row.len()
            invariant
                x <= row@.len(),
                y < rows@.len(),
                rows@ == img.pixels@,
                *row == rows@[y as int],
                raw_rows(frame_view(rows@.subrange(0, y as int))) == Some(before),
                raw_row(row@.subrange(0, x as int)) matches Some(a) && out@ == before + a,
            decreases row@.len() - x,
        {
            proof {
                assert(row@.subrange(0, x as int + 1).drop_last() =~= row@.subrange(0, x as int));
            }
            match row[x] {
                Pixel::RGB8(ColorRGB8(r, g, b)) => {
                    out.push(r);
                    out.push(g);
                    out.push(b);
                    proof {
                        let a = raw_row(row@.subrange(0, x as int))->Some_0;
                        assert(out@ =~= before + (a + seq![r, g, b]));
                    }
                },
                _ => {
                    proof {
                        lemma_raw_row_fail(row@, x as int + 1);
                        assert(frame_view(rows@)[y as int] == row@);
                        lemma_raw_rows_fail(frame_view(rows@), y as int);
                    }
                    return None;
                },
            }
            x = x + 1;
        }
        proof {
            assert(row@.subrange(0, x as int) =~= row@);
            let fv = frame_view(rows@.subrange(0, y as int + 1));
            assert(fv.drop_last() =~= frame_view(rows@.subrange(0, y as int)));
            assert(fv.last() == row@);
        }
        y = y + 1;
    }
    assert(rows@.subrange(0, rows@.len() as int) =~= rows@);
    Some(out)
}

proof fn lemma_raw_row_fail(row: Seq<Pixel>, k: int)
    requires
        0 <= k <= row.len(),
        raw_row(row.subrange(0, k)) is None,
    ensures
        raw_row(row) is None,
    decreases row.len() - k,
{
    if k < row.len() {
        assert(row.subrange(0, k + 1).drop_last() =~= row.subrange(0, k));
        lemma_raw_row_fail(row, k + 1);
    } else {
        assert(row.subrange(0, k) =~= row);
    }
}

proof fn lemma_raw_rows_fail(rows: Seq<Seq<Pixel>>, y: int)
    requires
        0 <= y < rows.len(),
        raw_row(rows[y]) is None,
    ensures
        raw_rows(rows) is None,
    decreases rows.len(),
{
    if y < rows.len() - 1 {
        lemma_raw_rows_fail(rows.drop_last(), y);
    }
}

} // verus!
