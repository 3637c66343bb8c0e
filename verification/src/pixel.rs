//! Pixel normalisation: from a decoded pixel buffer of any supported layout
//! to a display buffer of three bytes per pixel.

use vstd::prelude::*;

verus! {

/// A decoded buffer that holds less than its declared geometry asks for.
/// Normalisation still produces an image; this only reports the shortfall.
#[derive(Clone, Copy, Debug, PartialEq, Eq, Structural)]
pub enum SizeMismatch {
    /// A colour buffer shorter than `rows * cols * 3` bytes.
    RgbBytes { expected: usize, actual: usize },
    /// A grayscale buffer that yields fewer samples than `rows * cols`.
    Samples { expected: usize, actual: usize },
}

/// Number of pixels of an image of `rows` by `cols`.
pub open spec fn pixel_count(rows: u32, cols: u32) -> nat {
    (rows as nat) * (cols as nat)
}

/// The three characters `RGB` stand in `s` from position `i` on.
pub open spec fn rgb_at(s: Seq<char>, i: int) -> bool {
    0 <= i && i + 3 <= s.len() && s[i] == 'R' && s[i + 1] == 'G' && s[i + 2] == 'B'
}

/// `s` contains `RGB` somewhere.
pub open spec fn mentions_rgb(s: Seq<char>) -> bool {
    exists|i: int| rgb_at(s, i)
}

/// An image is treated as colour when its photometric interpretation
/// mentions `RGB` or when it has three samples per pixel.
pub open spec fn is_color(photometric: Seq<char>, samples_per_pixel: u32) -> bool {
    mentions_rgb(photometric) || samples_per_pixel == 3
}

/// The first `n` bytes of `buffer`, with zeros where `buffer` has ended.
pub open spec fn zero_padded(buffer: Seq<u8>, n: nat) -> Seq<u8> {
    Seq::new(n, |i: int| if i < buffer.len() { buffer[i] } else { 0u8 })
}

/// How many samples a buffer of `len` bytes yields for an image of `pixels`
/// pixels: never more than `pixels`, and only complete samples.
pub open spec fn sample_count(len: nat, pixels: nat, wide: bool) -> nat {
    let available = if wide { len / 2 } else { len };
    if available < pixels { available } else { pixels }
}

/// The `i`-th sample of `buffer`: one byte, or two bytes in little-endian
/// order when `wide`.
pub open spec fn sample_at(buffer: Seq<u8>, wide: bool, i: int) -> u16 {
    if wide {
        (buffer[2 * i] as int + 256 * (buffer[2 * i + 1] as int)) as u16
    } else {
        buffer[i] as u16
    }
}

/// The samples decoded from `buffer` for an image of `pixels` pixels.
pub open spec fn samples_of(buffer: Seq<u8>, pixels: nat, wide: bool) -> Seq<u16> {
    Seq::new(sample_count(buffer.len(), pixels, wide), |i: int| sample_at(buffer, wide, i))
}

/// The smallest sample; 0 when there is none.
pub open spec fn lowest(s: Seq<u16>) -> int
    decreases s.len(),
{
    if s.len() == 0 {
        0
    } else if s.len() == 1 {
        s[0] as int
    } else {
        let rest = lowest(s.drop_last());
        if s.last() < rest { s.last() as int } else { rest }
    }
}

/// The largest sample; 1 when there is none.
pub open spec fn highest(s: Seq<u16>) -> int
    decreases s.len(),
{
    if s.len() == 0 {
        1
    } else if s.len() == 1 {
        s[0] as int
    } else {
        let rest = highest(s.drop_last());
        if s.last() > rest { s.last() as int } else { rest }
    }
}

/// All samples are the same.
pub open spec fn is_flat(s: Seq<u16>) -> bool {
    forall|i: int, j: int| 0 <= i < j < s.len() ==> s[i] == s[j]
}

/// Linear rescaling of `sample` from `[lo, hi]` to `[0, 255]`, rounded
/// toward zero. An empty range maps everything to 0.
pub open spec fn gray_level(sample: int, lo: int, hi: int) -> int {
    if hi > lo { (sample - lo) * 255 / (hi - lo) } else { 0 }
}

/// The display bytes of a grayscale image: each sample rescaled over the
/// observed range and written three times.
pub open spec fn gray_display(s: Seq<u16>) -> Seq<u8> {
    Seq::new(3 * s.len(), |i: int| gray_level(s[i / 3] as int, lowest(s), highest(s)) as u8)
}

/// The display buffer of an image.
pub open spec fn display_bytes(
    buffer: Seq<u8>,
    rows: u32,
    cols: u32,
    bits_allocated: u32,
    samples_per_pixel: u32,
    photometric: Seq<char>,
) -> Seq<u8> {
    if is_color(photometric, samples_per_pixel) {
        zero_padded(buffer, 3 * pixel_count(rows, cols))
    } else {
        gray_display(samples_of(buffer, pixel_count(rows, cols), bits_allocated > 8))
    }
}

/// The shortfall of a buffer against its geometry, if there is one.
pub open spec fn shortfall(
    len: nat,
    rows: u32,
    cols: u32,
    bits_allocated: u32,
    samples_per_pixel: u32,
    photometric: Seq<char>,
) -> Option<SizeMismatch> {
    let pixels = pixel_count(rows, cols);
    if is_color(photometric, samples_per_pixel) {
        if len < 3 * pixels {
            Some(SizeMismatch::RgbBytes { expected: (3 * pixels) as usize, actual: len as usize })
        } else {
            None
        }
    } else {
        let decoded = sample_count(len, pixels, bits_allocated > 8);
        if decoded != pixels {
            Some(SizeMismatch::Samples { expected: pixels as usize, actual: decoded as usize })
        } else {
            None
        }
    }
}

/// Whether `label` contains `RGB`.
pub fn contains_rgb(label: &str) -> (found: bool)
    ensures
        found == mentions_rgb(label@),
{
    broadcast use vstd::string::group_string_axioms;

    let mut found = false;
    let mut before: char = ' ';
    let mut last: char = ' ';
    for c in it: label.chars()
        invariant
            it.seq() == label@,
            found == (exists|i: int| rgb_at(label@, i) && i + 3 <= it.index()),
            it.index() >= 1 ==> last == label@[it.index() - 1],
            it.index() >= 2 ==> before == label@[it.index() - 2],
            it.index() < 1 ==> last == ' ',
            it.index() < 2 ==> before == ' ',
    {
        if before == 'R' && last == 'G' && c == 'B' {
            assert(rgb_at(label@, it.index() - 2));
            found = true;
        }
        before = last;
        last = c;
    }
    found
}

/// The colour path: the first `expected` bytes of `buffer`, zero-filled
/// where the buffer is too short.
pub fn copy_padded(buffer: &[u8], expected: usize) -> (out: Vec<u8>)
    requires
        expected <= isize::MAX,
    ensures
        out@ == zero_padded(buffer@, expected as nat),
{
    let mut out: Vec<u8> = Vec::with_capacity(expected);
    let mut i: usize = 0;
    while i < expected
        invariant
            i <= expected,
            out@ == zero_padded(buffer@, i as nat),
        decreases expected - i,
    {
        let byte = if i < buffer.len() { buffer[i] } else { 0u8 };
        out.push(byte);
        i = i + 1;
    }
    out
}

/// Every sample lies between the lowest and the highest.
pub proof fn lemma_range_bounds(s: Seq<u16>, i: int)
    requires
        0 <= i < s.len(),
    ensures
        lowest(s) <= s[i] <= highest(s),
    decreases s.len(),
{
    if s.len() > 1 && i < s.len() - 1 {
        lemma_range_bounds(s.drop_last(), i);
    }
}

/// The lowest and the highest are samples of a sequence that has any.
pub proof fn lemma_range_attained(s: Seq<u16>)
    requires
        s.len() > 0,
    ensures
        exists|i: int| 0 <= i < s.len() && s[i] == lowest(s),
        exists|i: int| 0 <= i < s.len() && s[i] == highest(s),
    decreases s.len(),
{
    if s.len() == 1 {
        assert(s[0] == lowest(s) && s[0] == highest(s));
    } else {
        let rest = s.drop_last();
        lemma_range_attained(rest);
        let i = choose|i: int| 0 <= i < rest.len() && rest[i] == lowest(rest);
        let j = choose|j: int| 0 <= j < rest.len() && rest[j] == highest(rest);
        let last = s.len() - 1;
        assert(s[i] == lowest(s) || s[last] == lowest(s));
        assert(s[j] == highest(s) || s[last] == highest(s));
    }
}

/// A gray level is a byte.
pub proof fn lemma_gray_level_is_byte(sample: int, lo: int, hi: int)
    requires
        lo <= sample <= hi,
    ensures
        0 <= gray_level(sample, lo, hi) <= 255,
{
    if hi > lo {
        let a = sample - lo;
        let b = hi - lo;
        assert(0 <= a * 255 / b <= 255) by (nonlinear_arith)
            requires
                0 <= a <= b,
                b > 0,
        ;
    }
}

/// Decodes the samples of a grayscale buffer: one byte each, or two bytes
/// each in little-endian order when `wide`. Decoding stops after `pixels`
/// samples or at the end of the buffer; an incomplete last pair is dropped.
pub fn decode_samples(buffer: &[u8], pixels: usize, wide: bool) -> (out: Vec<u16>)
    ensures
        out@ == samples_of(buffer@, pixels as nat, wide),
{
    let available: usize = if wide { buffer.len() / 2 } else { buffer.len() };
    let count: usize = if available < pixels { available } else { pixels };
    let mut out: Vec<u16> = Vec::with_capacity(count);
    let mut i: usize = 0;
    while i < count
        invariant
            i <= count,
            count == sample_count(buffer@.len(), pixels as nat, wide),
            buffer@.len() <= usize::MAX,
            wide ==> 2 * count <= buffer@.len(),
            !wide ==> count <= buffer@.len(),
            out@ == Seq::new(i as nat, |k: int| sample_at(buffer@, wide, k)),
        decreases count - i,
    {
        let sample: u16 = if wide {
            let low: u16 = buffer[2 * i] as u16;
            let high: u16 = buffer[2 * i + 1] as u16;
            low + 256 * high
        } else {
            buffer[i] as u16
        };
        out.push(sample);
        i = i + 1;
    }
    out
}

/// The lowest and the highest sample; `(0, 1)` when there is none.
pub fn sample_range(samples: &Vec<u16>) -> (range: (u16, u16))
    ensures
        range.0 == lowest(samples@),
        range.1 == highest(samples@),
{
    if samples.len() == 0 {
        return (0, 1);
    }
    let mut lo: u16 = samples[0];
    let mut hi: u16 = samples[0];
    let mut i: usize = 1;
    while i < samples.len()
        invariant
            1 <= i <= samples.len(),
            lo == lowest(samples@.take(i as int)),
            hi == highest(samples@.take(i as int)),
        decreases samples.len() - i,
    {
        let sample = samples[i];
        assert(samples@.take(i + 1).drop_last() =~= samples@.take(i as int));
        if sample < lo {
            lo = sample;
        }
        if sample > hi {
            hi = sample;
        }
        i = i + 1;
    }
    assert(samples@.take(i as int) =~= samples@);
    (lo, hi)
}

/// The grayscale path: rescales each sample over the observed range and
/// writes the gray level three times. A flat image comes out black.
pub fn gray_triples(samples: &Vec<u16>) -> (out: Vec<u8>)
    ensures
        out@ == gray_display(samples@),
{
    let (lo, hi) = sample_range(samples);
    let mut out: Vec<u8> = Vec::new();
    let mut i: usize = 0;
    while i < samples.len()
        invariant
            i <= samples.len(),
            lo == lowest(samples@),
            hi == highest(samples@),
            out@.len() == 3 * i,
            forall|k: int|
                0 <= k < 3 * i ==> out@[k] == gray_level(
                    samples@[k / 3] as int,
                    lo as int,
                    hi as int,
                ) as u8,
        decreases samples.len() - i,
    {
        let sample = samples[i];
        proof {
            lemma_range_bounds(samples@, i as int);
            lemma_gray_level_is_byte(sample as int, lo as int, hi as int);
        }
        let gray: u8 = if hi > lo {
            let scaled: u32 = (sample - lo) as u32 * 255;
            (scaled / (hi - lo) as u32) as u8
        } else {
            0
        };
        out.push(gray);
        out.push(gray);
        out.push(gray);
        i = i + 1;
    }
    out
}

/// Turns a decoded pixel buffer into a display buffer of three bytes per
/// pixel, and reports a buffer that is shorter than its geometry implies.
/// The display buffer must be one that a `Vec` can hold: at most
/// `isize::MAX` bytes.
///
/// A colour image (photometric interpretation mentioning `RGB`, or three
/// samples per pixel) is copied: exactly `rows * cols * 3` bytes, zero-filled
/// where the buffer ends early. Any other image is read as grayscale samples
/// of one byte (`bits_allocated <= 8`) or two little-endian bytes, rescaled
/// over the range of the samples found, each gray level written three times.
pub fn normalize(
    buffer: &[u8],
    rows: u32,
    cols: u32,
    bits_allocated: u32,
    samples_per_pixel: u32,
    photometric: &str,
) -> (out: (Vec<u8>, Option<SizeMismatch>))
    requires
        3 * pixel_count(rows, cols) <= isize::MAX,
    ensures
        out.0@ == display_bytes(
            buffer@,
            rows,
            cols,
            bits_allocated,
            samples_per_pixel,
            photometric@,
        ),
        out.1 == shortfall(
            buffer@.len(),
            rows,
            cols,
            bits_allocated,
            samples_per_pixel,
            photometric@,
        ),
{
    let pixels: usize = (rows as usize) * (cols as usize);
    if contains_rgb(photometric) || samples_per_pixel == 3 {
        let expected: usize = pixels * 3;
        let data = copy_padded(buffer, expected);
        let warning = if buffer.len() < expected {
            Some(SizeMismatch::RgbBytes { expected, actual: buffer.len() })
        } else {
            None
        };
        (data, warning)
    } else {
        let samples = decode_samples(buffer, pixels, bits_allocated > 8);
        let warning = if samples.len() != pixels {
            Some(SizeMismatch::Samples { expected: pixels, actual: samples.len() })
        } else {
            None
        };
        (gray_triples(&samples), warning)
    }
}

/// A display buffer never holds more than three bytes per pixel. A colour
/// image always fills it; a grayscale image fills it exactly when its buffer
/// yields a sample for every pixel.
pub proof fn lemma_display_len(
    buffer: Seq<u8>,
    rows: u32,
    cols: u32,
    bits_allocated: u32,
    samples_per_pixel: u32,
    photometric: Seq<char>,
)
    ensures
        ({
            let shown = display_bytes(
                buffer,
                rows,
                cols,
                bits_allocated,
                samples_per_pixel,
                photometric,
            );
            let pixels = pixel_count(rows, cols);
            &&& shown.len() <= 3 * pixels
            &&& is_color(photometric, samples_per_pixel) ==> shown.len() == 3 * pixels
            &&& !is_color(photometric, samples_per_pixel) ==> shown.len() == 3 * sample_count(
                buffer.len(),
                pixels,
                bits_allocated > 8,
            )
            &&& shown.len() == 3 * pixels <==> shortfall(
                buffer.len(),
                rows,
                cols,
                bits_allocated,
                samples_per_pixel,
                photometric,
            ) is None || is_color(photometric, samples_per_pixel)
        }),
{
}

/// A grayscale image of 16-bit samples whose buffer holds two bytes for
/// every pixel normalises to exactly three bytes per pixel.
pub proof fn lemma_gray16_fills_display(
    buffer: Seq<u8>,
    rows: u32,
    cols: u32,
    samples_per_pixel: u32,
    photometric: Seq<char>,
)
    requires
        !is_color(photometric, samples_per_pixel),
        buffer.len() == 2 * pixel_count(rows, cols),
    ensures
        display_bytes(buffer, rows, cols, 16, samples_per_pixel, photometric).len() == 3
            * pixel_count(rows, cols),
{
}

/// A flat grayscale image, one whose samples are all the same, normalises
/// to black: every byte of its display buffer is 0.
pub proof fn lemma_flat_is_black(
    buffer: Seq<u8>,
    rows: u32,
    cols: u32,
    bits_allocated: u32,
    samples_per_pixel: u32,
    photometric: Seq<char>,
)
    requires
        !is_color(photometric, samples_per_pixel),
        is_flat(samples_of(buffer, pixel_count(rows, cols), bits_allocated > 8)),
    ensures
        forall|k: int|
            0 <= k < display_bytes(
                buffer,
                rows,
                cols,
                bits_allocated,
                samples_per_pixel,
                photometric,
            ).len() ==> #[trigger] display_bytes(
                buffer,
                rows,
                cols,
                bits_allocated,
                samples_per_pixel,
                photometric,
            )[k] == 0,
{
    let s = samples_of(buffer, pixel_count(rows, cols), bits_allocated > 8);
    if s.len() > 0 {
        lemma_range_attained(s);
        let i = choose|i: int| 0 <= i < s.len() && s[i] == lowest(s);
        let j = choose|j: int| 0 <= j < s.len() && s[j] == highest(s);
        assert(s[i] == s[j]);
        assert(lowest(s) == highest(s));
    }
}

/// Where the samples differ, a sample equal to the lowest becomes gray
/// level 0 and a sample equal to the highest becomes gray level 255, in all
/// three bytes of its pixel.
pub proof fn lemma_extremes(s: Seq<u16>, i: int)
    requires
        0 <= i < s.len(),
        lowest(s) < highest(s),
    ensures
        s[i] == lowest(s) ==> gray_display(s)[3 * i] == 0 && gray_display(s)[3 * i + 1] == 0
            && gray_display(s)[3 * i + 2] == 0,
        s[i] == highest(s) ==> gray_display(s)[3 * i] == 255 && gray_display(s)[3 * i + 1] == 255
            && gray_display(s)[3 * i + 2] == 255,
{
    let span = highest(s) - lowest(s);
    assert(span * 255 / span == 255) by (nonlinear_arith)
        requires
            span > 0,
    ;
    assert(0int * 255 / span == 0) by (nonlinear_arith)
        requires
            span > 0,
    ;
}

/// In a grayscale image of 16-bit samples that span exactly 0 to 4095,
/// every sample 0 is shown as gray level 0 and every sample 4095 as gray
/// level 255.
pub proof fn lemma_span_4095(
    buffer: Seq<u8>,
    rows: u32,
    cols: u32,
    samples_per_pixel: u32,
    photometric: Seq<char>,
    i: int,
)
    requires
        !is_color(photometric, samples_per_pixel),
        lowest(samples_of(buffer, pixel_count(rows, cols), true)) == 0,
        highest(samples_of(buffer, pixel_count(rows, cols), true)) == 4095,
        0 <= i < samples_of(buffer, pixel_count(rows, cols), true).len(),
    ensures
        ({
            let s = samples_of(buffer, pixel_count(rows, cols), true);
            let shown = display_bytes(buffer, rows, cols, 16, samples_per_pixel, photometric);
            &&& s[i] == 0 ==> shown[3 * i] == 0 && shown[3 * i + 1] == 0 && shown[3 * i + 2] == 0
            &&& s[i] == 4095 ==> shown[3 * i] == 255 && shown[3 * i + 1] == 255 && shown[3 * i
                + 2] == 255
        }),
{
    lemma_extremes(samples_of(buffer, pixel_count(rows, cols), true), i);
}

/// A colour buffer shorter than `rows * cols * 3` bytes still normalises to
/// exactly that many bytes: the buffer as it is, then zeros.
pub proof fn lemma_short_color_is_zero_filled(
    buffer: Seq<u8>,
    rows: u32,
    cols: u32,
    bits_allocated: u32,
    samples_per_pixel: u32,
    photometric: Seq<char>,
)
    requires
        is_color(photometric, samples_per_pixel),
        buffer.len() < 3 * pixel_count(rows, cols),
    ensures
        ({
            let shown = display_bytes(
                buffer,
                rows,
                cols,
                bits_allocated,
                samples_per_pixel,
                photometric,
            );
            &&& shown.len() == 3 * pixel_count(rows, cols)
            &&& shown.subrange(0, buffer.len() as int) == buffer
            &&& forall|k: int| buffer.len() <= k < shown.len() ==> #[trigger] shown[k] == 0
        }),
{
}

} // verus!
