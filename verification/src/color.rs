use vstd::prelude::*;

verus! {

/// One picture element: red, green and blue, each from 0 to 255.
pub type Pixel = (u8, u8, u8);

/// The decimal numeral of `n` in ASCII: most significant digit first, no
/// leading zero, `"0"` for zero.
pub open spec fn decimal(n: nat) -> Seq<u8>
    decreases n,
{
    if n < 10 {
        seq![(48 + n) as u8]
    } else {
        decimal(n / 10).push((48 + n % 10) as u8)
    }
}

/// The line of a plain-text picture file that holds one pixel: the three
/// channels in decimal, separated by one space, closed by a line feed.
pub open spec fn pixel_text(pixel: Pixel) -> Seq<u8> {
    decimal(pixel.0 as nat) + seq![32u8] + decimal(pixel.1 as nat) + seq![32u8] + decimal(
        pixel.2 as nat,
    ) + seq![10u8]
}

/// The lines of the pixels, one after another.
pub open spec fn pixels_text(pixels: Seq<Pixel>) -> Seq<u8>
    decreases pixels.len(),
{
    if pixels.len() == 0 {
        Seq::empty()
    } else {
        pixels_text(pixels.drop_last()) + pixel_text(pixels.last())
    }
}

/// The head of a plain-text picture file: the magic `P3`, then width and
/// height on one line, then the largest channel value, 255.
pub open spec fn header_text(height: usize, width: usize) -> Seq<u8> {
    seq![80u8, 51u8, 10u8] + decimal(width as nat) + seq![32u8] + decimal(height as nat)
        + seq![10u8, 50u8, 53u8, 53u8, 10u8]
}

/// A whole plain-text picture file.
pub open spec fn ppm_text(height: usize, width: usize, pixels: Seq<Pixel>) -> Seq<u8> {
    header_text(height, width) + pixels_text(pixels)
}

/// Whether `byte` is an ASCII digit.
pub open spec fn is_digit(byte: u8) -> bool {
    48 <= byte <= 57
}

/// The number that a string of ASCII digits stands for.
pub open spec fn decimal_value(digits: Seq<u8>) -> nat
    decreases digits.len(),
{
    if digits.len() == 0 {
        0
    } else {
        decimal_value(digits.drop_last()) * 10 + (digits.last() - 48) as nat
    }
}

/// The numeral of `n` is made of digits, begins with a zero only where `n`
/// is zero, and stands for `n`: no two numbers have the same numeral.
pub proof fn lemma_decimal_is_numeral(n: nat)
    ensures
        decimal(n).len() >= 1,
        forall|i: int| 0 <= i < decimal(n).len() ==> is_digit(#[trigger] decimal(n)[i]),
        decimal(n)[0] == 48 <==> n == 0,
        decimal_value(decimal(n)) == n,
    decreases n,
{
    let last = (48 + n % 10) as u8;
    if n >= 10 {
        lemma_decimal_is_numeral(n / 10);
        assert(decimal(n) == decimal(n / 10).push(last));
        assert(decimal(n).drop_last() == decimal(n / 10));
        assert(decimal(n).last() == last);
        assert(decimal_value(decimal(n)) == decimal_value(decimal(n / 10)) * 10 + (last - 48)
            as nat);
    } else {
        assert(decimal(n) == seq![last]);
        assert(decimal(n).drop_last() == Seq::<u8>::empty());
        assert(decimal_value(Seq::<u8>::empty()) == 0);
        assert(decimal_value(decimal(n)) == decimal_value(decimal(n).drop_last()) * 10 + (
        decimal(n).last() - 48) as nat);
    }
}

/// The numeral of a number below a thousand has three digits at most.
pub proof fn lemma_decimal_of_channel(n: nat)
    requires
        n < 1000,
    ensures
        1 <= decimal(n).len() <= 3,
{
    reveal_with_fuel(decimal, 3);
}

/// The line of a pixel holds six bytes at least and twelve at most.
pub proof fn lemma_pixel_text_len(pixel: Pixel)
    ensures
        6 <= pixel_text(pixel).len() <= 12,
{
    lemma_decimal_of_channel(pixel.0 as nat);
    lemma_decimal_of_channel(pixel.1 as nat);
    lemma_decimal_of_channel(pixel.2 as nat);
}

/// Appends the decimal numeral of `n`.
fn write_decimal(writer: &mut Vec<u8>, n: usize)
    ensures
        final(writer)@ == old(writer)@ + decimal(n as nat),
    decreases n,
{
    if n >= 10 {
        write_decimal(writer, n / 10);
    }
    writer.push(48 + (n % 10) as u8);
}

/// Appends the line of `pixel` to `writer` and returns the number of bytes
/// that it appended.
pub fn write_pixel(writer: &mut Vec<u8>, pixel: Pixel) -> (written: usize)
    ensures
        final(writer)@ == old(writer)@ + pixel_text(pixel),
        written == pixel_text(pixel).len(),
        6 <= written <= 12,
{
    proof {
        lemma_pixel_text_len(pixel);
    }
    let start = writer.len();
    write_decimal(writer, pixel.0 as usize);
    writer.push(32);
    write_decimal(writer, pixel.1 as usize);
    writer.push(32);
    write_decimal(writer, pixel.2 as usize);
    writer.push(10);
    writer.len() - start
}

/// Appends to `writer` the plain-text picture file of `pixels`, for an image
/// of `dimensions.0` rows and `dimensions.1` columns, and returns the number
/// of bytes that it appended. The pixels are written as they come: nothing
/// is asked of their number.
pub fn write_ppm(writer: &mut Vec<u8>, dimensions: (usize, usize), pixels: &Vec<Pixel>) -> (written:
    usize)
    ensures
        final(writer)@ == old(writer)@ + ppm_text(dimensions.0, dimensions.1, pixels@),
        written == ppm_text(dimensions.0, dimensions.1, pixels@).len(),
{
    let start = writer.len();
    writer.push(80);
    writer.push(51);
    writer.push(10);
    write_decimal(writer, dimensions.1);
    writer.push(32);
    write_decimal(writer, dimensions.0);
    writer.push(10);
    writer.push(50);
    writer.push(53);
    writer.push(53);
    writer.push(10);
    assert(writer@ == old(writer)@ + header_text(dimensions.0, dimensions.1));
    let mut i: usize = 0;
    while i < pixels.len()
        invariant
            i <= pixels.len(),
            writer@ == old(writer)@ + header_text(dimensions.0, dimensions.1) + pixels_text(
                pixels@.take(i as int),
            ),
        decreases pixels.len() - i,
    {
        assert(pixels@.take(i + 1).drop_last() == pixels@.take(i as int));
        write_pixel(writer, pixels[i]);
        i += 1;
    }
    assert(pixels@.take(i as int) == pixels@);
    writer.len() - start
}

} // verus!
