use vstd::prelude::*;

verus! {

/// One output pixel, already quantized to eight bits per channel.
#[derive(Clone, Copy, Debug, PartialEq, Eq, Structural)]
pub struct Rgb8 {
    pub r: u8,
    pub g: u8,
    pub b: u8,
}

/// The ASCII digit for `d < 10`.
pub open spec fn digit(d: nat) -> u8 {
    (48 + d) as u8
}

/// Decimal text of `n`, without sign or leading zeros.
pub open spec fn decimal(n: nat) -> Seq<u8>
    decreases n,
{
    if n < 10 {
        seq![digit(n)]
    } else {
        decimal(n / 10).push(digit(n % 10))
    }
}

/// The three header lines: magic `P3`, `<width> <height>`, and the maximum channel value.
pub open spec fn header_text(width: nat, height: nat) -> Seq<u8> {
    seq![80u8, 51u8, 10u8] + decimal(width) + seq![32u8] + decimal(height) + seq![10u8]
        + decimal(255) + seq![10u8]
}

/// One pixel line: the three channels in decimal, separated by spaces.
pub open spec fn pixel_text(p: Rgb8) -> Seq<u8> {
    decimal(p.r as nat) + seq![32u8] + decimal(p.g as nat) + seq![32u8] + decimal(p.b as nat)
        + seq![10u8]
}

/// The pixel lines of `ps`, in order.
pub open spec fn pixels_text(ps: Seq<Rgb8>) -> Seq<u8>
    decreases ps.len(),
{
    if ps.len() == 0 {
        Seq::empty()
    } else {
        pixels_text(ps.drop_last()) + pixel_text(ps.last())
    }
}

/// A whole image: header, then one line per pixel in row-major order.
pub open spec fn ppm_text(width: nat, height: nat, ps: Seq<Rgb8>) -> Seq<u8> {
    header_text(width, height) + pixels_text(ps)
}

/// The number of line breaks in `s`.
pub open spec fn line_breaks(s: Seq<u8>) -> nat
    decreases s.len(),
{
    if s.len() == 0 {
        0
    } else {
        line_breaks(s.drop_last()) + if s.last() == 10u8 {
            1nat
        } else {
            0nat
        }
    }
}

proof fn lemma_line_breaks_concat(a: Seq<u8>, b: Seq<u8>)
    ensures
        line_breaks(a + b) == line_breaks(a) + line_breaks(b),
    decreases b.len(),
{
    if b.len() > 0 {
        assert((a + b).drop_last() =~= a + b.drop_last());
        lemma_line_breaks_concat(a, b.drop_last());
    } else {
        assert(a + b =~= a);
    }
}

proof fn lemma_line_breaks_single(b: u8)
    ensures
        line_breaks(seq![b]) == if b == 10u8 {
            1nat
        } else {
            0nat
        },
{
    assert(seq![b].drop_last() =~= Seq::<u8>::empty());
    assert(line_breaks(Seq::<u8>::empty()) == 0);
}

proof fn lemma_decimal_one_line(n: nat)
    ensures
        line_breaks(decimal(n)) == 0,
        decimal(n).len() > 0,
    decreases n,
{
    if n >= 10 {
        lemma_decimal_one_line(n / 10);
        lemma_line_breaks_single(digit(n % 10));
        lemma_line_breaks_concat(decimal(n / 10), seq![digit(n % 10)]);
        assert(decimal(n) =~= decimal(n / 10) + seq![digit(n % 10)]);
    } else {
        lemma_line_breaks_single(digit(n));
    }
}

proof fn lemma_pixel_one_line(p: Rgb8)
    ensures
        line_breaks(pixel_text(p)) == 1,
{
    let (r, g, b) = (decimal(p.r as nat), decimal(p.g as nat), decimal(p.b as nat));
    lemma_decimal_one_line(p.r as nat);
    lemma_decimal_one_line(p.g as nat);
    lemma_decimal_one_line(p.b as nat);
    lemma_line_breaks_single(32u8);
    lemma_line_breaks_single(10u8);
    lemma_line_breaks_concat(r, seq![32u8]);
    lemma_line_breaks_concat(r + seq![32u8], g);
    lemma_line_breaks_concat(r + seq![32u8] + g, seq![32u8]);
    lemma_line_breaks_concat(r + seq![32u8] + g + seq![32u8], b);
    lemma_line_breaks_concat(r + seq![32u8] + g + seq![32u8] + b, seq![10u8]);
}

proof fn lemma_header_three_lines(width: nat, height: nat)
    ensures
        line_breaks(header_text(width, height)) == 3,
{
    let (w, h, m) = (decimal(width), decimal(height), decimal(255));
    let magic = seq![80u8, 51u8, 10u8];
    lemma_decimal_one_line(width);
    lemma_decimal_one_line(height);
    lemma_decimal_one_line(255);
    lemma_line_breaks_single(32u8);
    lemma_line_breaks_single(10u8);
    assert(line_breaks(magic) == 1) by {
        lemma_line_breaks_single(80u8);
        lemma_line_breaks_single(51u8);
        lemma_line_breaks_concat(seq![80u8], seq![51u8]);
        lemma_line_breaks_concat(seq![80u8] + seq![51u8], seq![10u8]);
        assert(magic =~= seq![80u8] + seq![51u8] + seq![10u8]);
    }
    lemma_line_breaks_concat(magic, w);
    lemma_line_breaks_concat(magic + w, seq![32u8]);
    lemma_line_breaks_concat(magic + w + seq![32u8], h);
    lemma_line_breaks_concat(magic + w + seq![32u8] + h, seq![10u8]);
    lemma_line_breaks_concat(magic + w + seq![32u8] + h + seq![10u8], m);
    lemma_line_breaks_concat(magic + w + seq![32u8] + h + seq![10u8] + m, seq![10u8]);
}

/// An image is three header lines followed by exactly one line per pixel.
pub proof fn ppm_lines(width: nat, height: nat, ps: Seq<Rgb8>)
    ensures
        line_breaks(ppm_text(width, height, ps)) == 3 + ps.len(),
        line_breaks(pixels_text(ps)) == ps.len(),
    decreases ps.len(),
{
    lemma_header_three_lines(width, height);
    if ps.len() > 0 {
        ppm_lines(width, height, ps.drop_last());
        lemma_pixel_one_line(ps.last());
        lemma_line_breaks_concat(pixels_text(ps.drop_last()), pixel_text(ps.last()));
    }
    lemma_line_breaks_concat(header_text(width, height), pixels_text(ps));
}

/// Appends the decimal text of `n`.
fn push_decimal(out: &mut Vec<u8>, n: u64)
    ensures
        final(out)@ == old(out)@ + decimal(n as nat),
    decreases n,
{
    if n >= 10 {
        push_decimal(out, n / 10);
    }
    out.push(48u8 + (n % 10) as u8);
    proof {
        assert(old(out)@ + decimal(n as nat) =~= out@);
    }
}

/// Appends the image header for a `width` by `height` raster.
pub fn write_header(out: &mut Vec<u8>, width: u32, height: u32)
    ensures
        final(out)@ == old(out)@ + header_text(width as nat, height as nat),
{
    out.push(80u8);
    out.push(51u8);
    out.push(10u8);
    push_decimal(out, width as u64);
    out.push(32u8);
    push_decimal(out, height as u64);
    out.push(10u8);
    push_decimal(out, 255u64);
    out.push(10u8);
    proof {
        assert(old(out)@ + header_text(width as nat, height as nat) =~= out@);
    }
}

/// Appends the line of one pixel.
pub fn write_pixel(out: &mut Vec<u8>, p: Rgb8)
    ensures
        final(out)@ == old(out)@ + pixel_text(p),
{
    push_decimal(out, p.r as u64);
    out.push(32u8);
    push_decimal(out, p.g as u64);
    out.push(32u8);
    push_decimal(out, p.b as u64);
    out.push(10u8);
    proof {
        assert(old(out)@ + pixel_text(p) =~= out@);
    }
}

/// The column and row of the `k`-th pixel of a raster `width` pixels wide, in
/// row-major order.
pub open spec fn raster_position(width: u32, k: int) -> (u32, u32) {
    (
        #[verifier::truncate]
        ((k % width as int) as u32),
        #[verifier::truncate]
        ((k / width as int) as u32),
    )
}

/// Shades every raster position with `shade(column, row)`, scanlines from the
/// top down and pixels from left to right, and returns the pixels in that order.
pub fn render_raster<P, F: Fn(u32, u32) -> P>(width: u32, height: u32, shade: F) -> (r: Vec<P>)
    requires
        width * height <= usize::MAX,
        forall|i: u32, j: u32| i < width && j < height ==> shade.requires((i, j)),
    ensures
        r@.len() == width * height,
        forall|k: int|
            0 <= k < r@.len() ==> shade.ensures(
                raster_position(width, k),
                #[trigger] r@[k],
            ),
{
    let mut pixels: Vec<P> = Vec::new();
    let mut j: u32 = 0;
    while j < height
        invariant
            j <= height,
            width * height <= usize::MAX,
            forall|i: u32, j: u32| i < width && j < height ==> shade.requires((i, j)),
            pixels@.len() == j * width,
            forall|k: int|
                0 <= k < pixels@.len() ==> shade.ensures(
                    raster_position(width, k),
                    #[trigger] pixels@[k],
                ),
        decreases height - j,
    {
        let mut i: u32 = 0;
        while i < width
            invariant
                i <= width,
                j < height,
                width * height <= usize::MAX,
                forall|i: u32, j: u32| i < width && j < height ==> shade.requires((i, j)),
                pixels@.len() == j * width + i,
                forall|k: int|
                    0 <= k < pixels@.len() ==> shade.ensures(
                        raster_position(width, k),
                        #[trigger] pixels@[k],
                    ),
            decreases width - i,
        {
            proof {
                let (w, h, jj, ii) = (width as int, height as int, j as int, i as int);
                assert(jj * w + ii < w * h) by (nonlinear_arith)
                    requires
                        0 <= ii < w,
                        0 <= jj < h,
                ;
                assert((jj * w + ii) % w == ii && (jj * w + ii) / w == jj) by {
                    vstd::arithmetic::div_mod::lemma_fundamental_div_mod_converse(
                        jj * w + ii,
                        w,
                        jj,
                        ii,
                    );
                }
            }
            let p = shade(i, j);
            pixels.push(p);
            i += 1;
        }
        proof {
            assert((j as int) * (width as int) + (width as int) == (j as int + 1) * (width as int)) by (nonlinear_arith);
        }
        j += 1;
    }
    proof {
        assert((height as int) * (width as int) == (width as int) * (height as int)) by (nonlinear_arith);
    }
    pixels
}

/// The whole image text, or `None` when `pixels` does not hold exactly
/// `width * height` pixels.
pub fn encode_ppm(width: u32, height: u32, pixels: &Vec<Rgb8>) -> (r: Option<Vec<u8>>)
    ensures
        r.is_some() <==> pixels@.len() == width * height,
        r matches Some(bytes) ==> bytes@ == ppm_text(width as nat, height as nat, pixels@),
{
    proof {
        let (w, h) = (width as int, height as int);
        assert(w * h <= 0xffff_ffff * 0xffff_ffff) by (nonlinear_arith)
            requires
                0 <= w <= 0xffff_ffff,
                0 <= h <= 0xffff_ffff,
        ;
    }
    let area: u64 = width as u64 * height as u64;
    if pixels.len() as u64 != area {
        return None;
    }
    let mut out: Vec<u8> = Vec::new();
    write_header(&mut out, width, height);
    let mut k: usize = 0;
    while k < pixels.len()
        invariant
            k <= pixels@.len(),
            out@ == header_text(width as nat, height as nat) + pixels_text(pixels@.take(k as int)),
        decreases pixels@.len() - k,
    {
        write_pixel(&mut out, pixels[k]);
        proof {
            let next = pixels@.take(k + 1);
            assert(next.drop_last() =~= pixels@.take(k as int));
            assert(next.last() == pixels@[k as int]);
        }
        k += 1;
    }
    proof {
        assert(pixels@.take(k as int) =~= pixels@);
    }
    Some(out)
}

} // verus!
