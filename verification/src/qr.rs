//! Reading QR codes. Off a screenshot: the picture is turned to gray
//! levels, thresholded into dark and light cells over a square grid as wide
//! as the picture, and the grid is handed to the QR decoder. Off a picture
//! file: the first code that the barcode decoder reads.

use vstd::prelude::*;
use crate::text::{concat_text, has_prefix, lemma_has_prefix_concat};

verus! {

/// The gray level of a pixel (ITU-R BT.601 weights, rounded down).
pub open spec fn luma(r: u8, g: u8, b: u8) -> int {
    (299 * r + 587 * g + 114 * b) / 1000
}

/// The gray levels of RGBA pixels, four bytes each (a last group of three
/// bytes counts as a pixel too).
pub open spec fn lumas(raw: Seq<u8>) -> Seq<u8> {
    Seq::new(
        ((raw.len() + 3) / 4) as nat,
        |k: int| luma(raw[4 * k], raw[4 * k + 1], raw[4 * k + 2]) as u8,
    )
}

/// Gray levels under this are dark.
pub open spec fn dark_threshold() -> u8 {
    128
}

/// The cell at column `x` and row `y` of a grid laid over the picture row
/// by row is dark: it falls on a pixel darker than the threshold.
pub open spec fn is_dark(levels: Seq<u8>, width: int, x: int, y: int) -> bool {
    y * width + x < levels.len() && levels[y * width + x] < dark_threshold()
}

/// The cells of the `size` by `size` grid, row by row.
pub open spec fn grid_cells(levels: Seq<u8>, size: int) -> Seq<bool> {
    Seq::new((size * size) as nat, |c: int| is_dark(levels, size, c % size, c / size))
}

/// The text that `rqrr::Grid::decode` reads from the `size` by `size` grid
/// whose cell at column `x`, row `y` is `cells[y * size + x]`, if any.
pub uninterp spec fn qr_grid_text(size: usize, cells: Seq<bool>) -> Option<Seq<char>>;

/// The gray levels of RGBA pixels.
pub fn rgba_to_luma(raw: &[u8]) -> (r: Vec<u8>)
    requires
        raw@.len() % 4 == 0 || raw@.len() % 4 == 3,
    ensures
        r@ == lumas(raw@),
{
    let n = raw.len();
    let m = if n % 4 == 3 { n / 4 + 1 } else { n / 4 };
    assert(m == (n + 3) / 4);
    let mut out: Vec<u8> = Vec::new();
    let mut k: usize = 0;
    while k < m
        invariant
            n == raw@.len(),
            m == (n + 3) / 4,
            n % 4 == 0 || n % 4 == 3,
            k <= m,
            out@.len() == k,
            forall|q: int| 0 <= q < out@.len() ==> out@[q] == luma(raw@[4 * q], raw@[4 * q + 1], raw@[4 * q + 2]) as u8,
        decreases m - k,
    {
        let i = 4 * k;
        assert(i + 2 < n);
        let r = raw[i] as u32;
        let g = raw[i + 1] as u32;
        let b = raw[i + 2] as u32;
        let v = (r * 299 + g * 587 + b * 114) / 1000;
        assert(v <= 255) by (nonlinear_arith)
            requires
                r <= 255,
                g <= 255,
                b <= 255,
                v == (r * 299 + g * 587 + b * 114) / 1000,
        ;
        out.push(v as u8);
        k = k + 1;
    }
    assert(out@ =~= lumas(raw@));
    out
}

/// The cell at column `x`, row `y` of a grid laid over the picture with
/// `width` pixels per row.
pub fn dark_at(levels: &Vec<u8>, width: usize, x: usize, y: usize) -> (r: bool)
    ensures
        r == is_dark(levels@, width as int, x as int, y as int),
{
    let len = levels.len();
    match y.checked_mul(width) {
        None => {
            assert(y * width + x >= levels@.len()) by (nonlinear_arith)
                requires
                    y * width > usize::MAX,
                    levels@.len() <= usize::MAX,
                    x >= 0,
            ;
            false
        },
        Some(row) => match row.checked_add(x) {
            None => {
                assert(levels@.len() <= usize::MAX);
                false
            },
            Some(idx) => idx < levels.len() && levels[idx] < 128,
        },
    }
}

/// The cells of the grid as wide as the picture, row by row.
pub fn threshold_grid(levels: &Vec<u8>, size: usize) -> (r: Vec<bool>)
    requires
        size * size <= usize::MAX,
    ensures
        r@ == grid_cells(levels@, size as int),
{
    let total = size * size;
    let mut out: Vec<bool> = Vec::new();
    let mut y: usize = 0;
    while y < size
        invariant
            total == size * size,
            y <= size,
            out@.len() == y * size,
            forall|c: int| 0 <= c < out@.len() ==> out@[c] == is_dark(levels@, size as int, c % (size as int), c / (size as int)),
        decreases size - y,
    {
        let mut x: usize = 0;
        while x < size
            invariant
                total == size * size,
                y < size,
                x <= size,
                out@.len() == y * size + x,
                forall|c: int| 0 <= c < out@.len() ==> out@[c] == is_dark(levels@, size as int, c % (size as int), c / (size as int)),
            decreases size - x,
        {
            assert(y * size + x < total) by (nonlinear_arith)
                requires
                    y < size,
                    x < size,
                    total == size * size,
            ;
            let d = dark_at(levels, size, x, y);
            proof {
                let c = (y * size + x) as int;
                assert(c % (size as int) == x && c / (size as int) == y) by (nonlinear_arith)
                    requires
                        c == y * size + x,
                        x < size,
                ;
            }
            out.push(d);
            x = x + 1;
        }
        assert((y + 1) * size == y * size + size) by (nonlinear_arith);
        y = y + 1;
    }
    assert(out@ =~= grid_cells(levels@, size as int));
    out
}

fn cell_at(cells: &Vec<bool>, size: usize, x: usize, y: usize) -> (r: bool)
    ensures
        (y * size + x < cells@.len()) ==> r == cells@[y * size + x],
{
    let len = cells.len();
    match y.checked_mul(size) {
        None => {
            assert(y * size + x >= cells@.len()) by (nonlinear_arith)
                requires
                    y * size > usize::MAX,
                    cells@.len() <= usize::MAX,
                    x >= 0,
            ;
            false
        },
        Some(row) => match row.checked_add(x) {
            None => {
                assert(cells@.len() <= usize::MAX);
                false
            },
            Some(idx) => idx < cells.len() && cells[idx],
        },
    }
}

/// `rqrr::SimpleGrid::from_func` over the cells, then `rqrr::Grid::decode`:
/// the decoded text, or none when the grid holds no readable code. The
/// crate computes `size * size`, which `requires` keeps from overflowing,
/// and reads the format cells at row and column 8 before it checks the
/// size, which `requires` keeps inside the grid.
#[verifier::external_body]
fn qr_decode_grid(size: usize, cells: &Vec<bool>) -> (r: Option<String>)
    requires
        9 <= size,
        size * size <= usize::MAX,
        cells@.len() == size * size,
    ensures
        (match r {
            Some(s) => Some(s@),
            None => None,
        }) == qr_grid_text(size, cells@),
{
    let grid = rqrr::SimpleGrid::from_func(size, |x, y| cell_at(cells, size, x, y));
    match rqrr::Grid::new(grid).decode() {
        Ok((_, text)) => Some(text),
        Err(_) => None,
    }
}

pub open spec fn no_qr_msg() -> Seq<char> {
    "未检测到二维码"@
}

/// The answer for a decoded grid: its text, or the error that no code was found.
pub fn qr_answer(decoded: Option<String>) -> (r: Result<String, String>)
    ensures
        decoded matches Some(t) ==> r == Ok::<String, String>(t),
        decoded is None ==> r is Err && r->Err_0@ == no_qr_msg(),
{
    match decoded {
        Some(t) => Ok(t),
        None => Err(String::from_str("未检测到二维码")),
    }
}

/// Reads a QR code off a screenshot given as RGBA bytes, `width` pixels per
/// row: the square grid as wide as the picture, dark where the picture is.
/// The decoder needs a grid of at least 9 by 9 cells.
pub fn decode_screen_qr(width: usize, raw: &[u8]) -> (r: Result<String, String>)
    requires
        9 <= width,
        raw@.len() % 4 == 0 || raw@.len() % 4 == 3,
        width * width <= usize::MAX,
    ensures
        match qr_grid_text(width, grid_cells(lumas(raw@), width as int)) {
            Some(t) => r is Ok && r->Ok_0@ == t,
            None => r is Err && r->Err_0@ == no_qr_msg(),
        },
{
    let levels = rgba_to_luma(raw);
    let cells = threshold_grid(&levels, width);
    let decoded = qr_decode_grid(width, &cells);
    qr_answer(decoded)
}

/// What `bardecoder::default_decoder().decode` gives for the RGBA picture
/// `width` by `height` with the given pixels (four bytes each, row by row):
/// one result per code found, the text or none when it did not decode.
pub uninterp spec fn barcode_results(width: u32, height: u32, pixels: Seq<u8>) -> Seq<Option<Seq<char>>>;

/// `image::RgbaImage::from_raw` over the pixels, then
/// `bardecoder::default_decoder().decode`, each result kept as its text or
/// none. `requires` gives the picture exactly its pixels, so that the
/// picture is made. Whether the decoder can panic on some picture is left
/// unsaid.
#[verifier::external_body]
fn decode_barcodes(width: u32, height: u32, pixels: Vec<u8>) -> (r: Vec<Option<String>>)
    requires
        pixels@.len() == 4 * width * height,
    ensures
        r@.map_values(|o: Option<String>| match o {
            Some(s) => Some(s@),
            None => None,
        }) == barcode_results(width, height, pixels@),
{
    match image::RgbaImage::from_raw(width, height, pixels) {
        Some(picture) => bardecoder::default_decoder().decode(&picture).into_iter().map(|x| x.ok()).collect(),
        None => Vec::new(),
    }
}

/// The first text among decoder results, if any.
pub open spec fn first_text(results: Seq<Option<Seq<char>>>) -> Option<Seq<char>>
    decreases results.len(),
{
    if results.len() == 0 {
        None
    } else if results[0] is Some {
        results[0]
    } else {
        first_text(results.drop_first())
    }
}

pub open spec fn no_code_in_picture_msg() -> Seq<char> {
    "未检测到二维码，请确保图片清晰且二维码完整"@
}

/// The first text among decoder results, or the error that no code was read.
pub fn first_decoded(results: Vec<Option<String>>) -> (r: Result<String, String>)
    ensures
        match first_text(results@.map_values(|o: Option<String>| match o {
            Some(s) => Some(s@),
            None => None,
        })) {
            Some(t) => r is Ok && r->Ok_0@ == t,
            None => r is Err && r->Err_0@ == no_code_in_picture_msg(),
        },
{
    let ghost views = results@.map_values(|o: Option<String>| match o {
        Some(s) => Some(s@),
        None => None,
    });
    let n = results.len();
    let mut i: usize = 0;
    assert(views.skip(0) =~= views);
    while i < n
        invariant
            n == results@.len(),
            i <= n,
            views == results@.map_values(|o: Option<String>| match o {
                Some(s) => Some(s@),
                None => None,
            }),
            first_text(views) == first_text(views.skip(i as int)),
        decreases n - i,
    {
        assert(views.skip(i as int)[0] == views[i as int]);
        match &results[i] {
            Some(t) => {
                return Ok(t.clone());
            },
            None => {},
        }
        assert(views.skip(i as int).drop_first() =~= views.skip(i + 1));
        i = i + 1;
    }
    assert(views.skip(n as int).len() == 0);
    Err(String::from_str("未检测到二维码，请确保图片清晰且二维码完整"))
}

/// Reads the first QR code of an RGBA picture `width` by `height`.
pub fn decode_picture_qr(width: u32, height: u32, pixels: Vec<u8>) -> (r: Result<String, String>)
    requires
        pixels@.len() == 4 * width * height,
    ensures
        match first_text(barcode_results(width, height, pixels@)) {
            Some(t) => r is Ok && r->Ok_0@ == t,
            None => r is Err && r->Err_0@ == no_code_in_picture_msg(),
        },
{
    let results = decode_barcodes(width, height, pixels);
    first_decoded(results)
}

/// What `image::load_from_memory` and then `to_rgba8` give for the bytes
/// of a picture file: its width, height and RGBA pixels (four bytes each,
/// row by row), or none when the crate does not decode the bytes as a
/// picture (the format is told from the bytes).
pub uninterp spec fn rgba_of_image(bytes: Seq<u8>) -> Option<(u32, u32, Seq<u8>)>;

/// `image::load_from_memory`, then `DynamicImage::to_rgba8`, `dimensions`
/// and `into_raw`: the picture's RGBA pixels, which the crate allocates as
/// exactly four bytes per pixel; or the crate's error as text, which is left
/// unsaid, as is whether a decoder can panic on some bytes.
#[verifier::external_body]
fn load_rgba(bytes: &[u8]) -> (r: Result<(u32, u32, Vec<u8>), String>)
    ensures
        match r {
            Ok((w, h, px)) => rgba_of_image(bytes@) == Some((w, h, px@)) && px@.len() == 4 * w * h,
            Err(_) => rgba_of_image(bytes@) is None,
        },
{
    match image::load_from_memory(bytes) {
        Ok(picture) => {
            let rgba = picture.to_rgba8();
            let (w, h) = rgba.dimensions();
            Ok((w, h, rgba.into_raw()))
        },
        Err(e) => Err(e.to_string()),
    }
}

/// Reads the first QR code of a picture file given by its bytes: the
/// picture is decoded to RGBA pixels and handed to the barcode decoder.
pub fn decode_qr_image_bytes(bytes: &[u8]) -> (r: Result<String, String>)
    ensures
        match rgba_of_image(bytes@) {
            None => r is Err && has_prefix(r->Err_0@, "打开图片失败: "@),
            Some((w, h, px)) => match first_text(barcode_results(w, h, px)) {
                Some(t) => r is Ok && r->Ok_0@ == t,
                None => r is Err && r->Err_0@ == no_code_in_picture_msg(),
            },
        },
{
    match load_rgba(bytes) {
        Err(e) => {
            proof {
                lemma_has_prefix_concat("打开图片失败: "@, e@);
            }
            Err(concat_text("打开图片失败: ", &e))
        },
        Ok((w, h, px)) => decode_picture_qr(w, h, px),
    }
}

} // verus!
