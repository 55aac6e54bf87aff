//! Animation frames as numbered PNG files: `000000.png`, `000001.png`, …,
//! each an 8-bit RGB image encoded by the `png` crate.

use vstd::prelude::*;

use crate::text::push_char;

verus! {

#[verifier::external_type_specification]
#[verifier::external_body]
pub struct ExPngEncodingError(png::EncodingError);

/// What the `png` crate makes of an 8-bit RGB image of `width × height`
/// pixels with the given rows of pixel bytes, at its default compression and
/// filter settings: the PNG file, or `None` when it refuses the image.
pub uninterp spec fn png_rgb8(width: u32, height: u32, rgb: Seq<u8>) -> Option<Seq<u8>>;

/// Encodes an 8-bit RGB image with `png::Encoder` into memory
/// (`write_header`, `write_image_data`, `finish`). Encoding into memory
/// reads nothing but its arguments, so whether it succeeds and which bytes
/// it writes depend on them alone. The crate refuses a zero width or height
/// and pixel data whose length is not `3 · width · height`, and it
/// computes that length unchecked, so the length must fit in `usize`; whether its
/// deflate back end can refuse other images is left unsaid.
#[verifier::external_body]
fn png_encode_rgb8(width: u32, height: u32, rgb: &[u8]) -> (r: Result<Vec<u8>, png::EncodingError>)
    requires
        3 * width * height <= usize::MAX,
    ensures
        r is Ok <==> png_rgb8(width, height, rgb@) is Some,
        r matches Ok(bytes) ==> png_rgb8(width, height, rgb@) == Some(bytes@),
        width == 0 || height == 0 ==> r is Err,
        rgb@.len() != 3 * width * height ==> r is Err,
{
    let mut bytes: Vec<u8> = Vec::new();
    let mut encoder = png::Encoder::new(&mut bytes, width, height);
    encoder.set_color(png::ColorType::Rgb);
    encoder.set_depth(png::BitDepth::Eight);
    let mut writer = encoder.write_header()?;
    writer.write_image_data(rgb)?;
    writer.finish()?;
    Ok(bytes)
}

/// An error from the PNG encoder.
#[derive(Debug)]
pub enum PngError {
    Encoding(png::EncodingError),
}

/// A PNG file holding the `width × height` RGB image `rgb`: the encoder's
/// file when it accepts the image, its error when it refuses.
pub fn encode_png_frame(width: u32, height: u32, rgb: &[u8]) -> (r: Result<Vec<u8>, PngError>)
    requires
        3 * width * height <= usize::MAX,
    ensures
        r is Ok <==> png_rgb8(width, height, rgb@) is Some,
        r matches Ok(bytes) ==> png_rgb8(width, height, rgb@) == Some(bytes@),
        width == 0 || height == 0 ==> r is Err,
        rgb@.len() != 3 * width * height ==> r is Err,
{
    match png_encode_rgb8(width, height, rgb) {
        Ok(bytes) => Ok(bytes),
        Err(e) => Err(PngError::Encoding(e)),
    }
}

/// The character of decimal digit `d`.
pub open spec fn digit_char(d: int) -> char {
    (48 + d) as char
}

/// Decimal digits of `n`, most significant first.
pub open spec fn decimal_chars(n: nat) -> Seq<char>
    decreases n,
{
    if n < 10 {
        seq![digit_char(n as int)]
    } else {
        decimal_chars(n / 10) + seq![digit_char((n % 10) as int)]
    }
}

/// `digits` with `'0'`s in front up to `width` characters.
pub open spec fn zero_padded(digits: Seq<char>, width: nat) -> Seq<char> {
    if digits.len() < width {
        Seq::new((width - digits.len()) as nat, |i: int| '0') + digits
    } else {
        digits
    }
}

/// File name of frame `n`: its number zero-padded to six digits, then
/// `.png`.
pub open spec fn frame_file_name_spec(n: nat) -> Seq<char> {
    zero_padded(decimal_chars(n), 6) + seq!['.', 'p', 'n', 'g']
}

/// Base-10 value of a string of digit characters, most significant first.
pub open spec fn chars_value(s: Seq<char>) -> int
    decreases s.len(),
{
    if s.len() == 0 {
        0
    } else {
        chars_value(s.drop_last()) * 10 + (s.last() as int - 48)
    }
}

proof fn lemma_decimal_chars_round_trip(n: nat)
    ensures
        decimal_chars(n).len() > 0,
        forall|i: int| 0 <= i < decimal_chars(n).len() ==> '0' <= #[trigger] decimal_chars(n)[i] <= '9',
        n > 0 ==> decimal_chars(n)[0] != '0',
        n < 10 ==> decimal_chars(n).len() == 1,
        n >= 10 ==> decimal_chars(n).len() == decimal_chars(n / 10).len() + 1,
        chars_value(decimal_chars(n)) == n,
    decreases n,
{
    let d = decimal_chars(n);
    if n >= 10 {
        lemma_decimal_chars_round_trip(n / 10);
        assert(d.drop_last() =~= decimal_chars(n / 10));
        assert(d[0] == decimal_chars(n / 10)[0]);
        vstd::arithmetic::div_mod::lemma_fundamental_div_mod(n as int, 10);
        assert(d.last() as int == 48 + n % 10);
        assert forall|i: int| 0 <= i < d.len() implies '0' <= #[trigger] d[i] <= '9' by {
            if i < d.len() - 1 {
                assert(d[i] == decimal_chars(n / 10)[i]);
            }
        }
        assert(chars_value(d) == n);
    } else {
        assert(d.drop_last() =~= Seq::<char>::empty());
        assert(d.last() as int == 48 + n);
        assert(chars_value(d.drop_last()) == 0);
        assert(chars_value(d) == n);
    }
}

/// Leading `'0'`s do not change a value.
proof fn lemma_zeros_keep_value(p: nat, d: Seq<char>)
    ensures
        chars_value(Seq::new(p, |i: int| '0') + d) == chars_value(d),
    decreases d.len() + p,
{
    let z = Seq::new(p, |i: int| '0');
    if d.len() > 0 {
        lemma_zeros_keep_value(p, d.drop_last());
        assert((z + d).drop_last() =~= z + d.drop_last());
        assert((z + d).last() == d.last());
    } else if p > 0 {
        let z1 = Seq::new((p - 1) as nat, |i: int| '0');
        lemma_zeros_keep_value((p - 1) as nat, d);
        assert((z + d).drop_last() =~= z1 + d);
        assert(z1 + d =~= z1);
        assert(z + d =~= z);
        assert(chars_value(z1) == 0);
        assert(z.last() == '0');
    } else {
        assert(z + d =~= Seq::<char>::empty());
    }
}

/// A frame file name is its number in decimal digits, zero-padded to at
/// least six and no more than needed, followed by `.png`.
pub proof fn lemma_frame_file_name_reads_back(n: nat)
    ensures
        ({
            let name = frame_file_name_spec(n);
            let m = name.len() - 4;
            &&& m >= 6
            &&& name.subrange(m, name.len() as int) == seq!['.', 'p', 'n', 'g']
            &&& forall|i: int| 0 <= i < m ==> '0' <= #[trigger] name[i] <= '9'
            &&& chars_value(name.take(m)) == n
            &&& m > 6 ==> name[0] != '0'
        }),
{
    let d = decimal_chars(n);
    lemma_decimal_chars_round_trip(n);
    let name = frame_file_name_spec(n);
    let padded = zero_padded(d, 6);
    assert(name.take(padded.len() as int) =~= padded);
    assert(name.subrange(padded.len() as int, name.len() as int) =~= seq!['.', 'p', 'n', 'g']);
    if d.len() < 6 {
        let z = Seq::new((6 - d.len()) as nat, |i: int| '0');
        assert(padded == z + d);
        lemma_zeros_keep_value((6 - d.len()) as nat, d);
        assert forall|i: int| 0 <= i < padded.len() implies '0' <= #[trigger] name[i] <= '9' by {
            assert(name[i] == padded[i]);
            if i >= z.len() {
                assert(padded[i] == d[i - z.len()]);
            }
        }
    } else {
        assert forall|i: int| 0 <= i < padded.len() implies '0' <= #[trigger] name[i] <= '9' by {
            assert(name[i] == d[i]);
        }
        if d.len() > 6 {
            assert(n > 0);
            assert(name[0] == d[0]);
        }
    }
}

fn digit(d: u32) -> (c: char)
    requires
        d < 10,
    ensures
        c == digit_char(d as int),
{
    match d {
        0 => '0',
        1 => '1',
        2 => '2',
        3 => '3',
        4 => '4',
        5 => '5',
        6 => '6',
        7 => '7',
        8 => '8',
        _ => '9',
    }
}

fn push_decimal_chars(out: &mut Vec<char>, n: u32)
    ensures
        final(out)@ == old(out)@ + decimal_chars(n as nat),
    decreases n,
{
    if n < 10 {
        out.push(digit(n));
    } else {
        push_decimal_chars(out, n / 10);
        out.push(digit(n % 10));
    }
}

/// The file name of frame `frame_index`: `format!("{frame_index:06}.png")`.
pub fn frame_file_name(frame_index: u32) -> (name: String)
    ensures
        name@ == frame_file_name_spec(frame_index as nat),
{
    let mut digits: Vec<char> = Vec::new();
    push_decimal_chars(&mut digits, frame_index);
    assert(digits@ == decimal_chars(frame_index as nat));
    let pad: usize = if digits.len() < 6 {
        6 - digits.len()
    } else {
        0
    };
    let mut name = String::new();
    let mut k: usize = 0;
    while k < pad
        invariant
            k <= pad,
            name@ == Seq::new(k as nat, |i: int| '0'),
        decreases pad - k,
    {
        push_char(&mut name, '0');
        k = k + 1;
        proof {
            assert(name@ =~= Seq::new(k as nat, |i: int| '0'));
        }
    }
    let ghost padding = name@;
    let mut k: usize = 0;
    while k < digits.len()
        invariant
            k <= digits.len(),
            name@ == padding + digits@.take(k as int),
        decreases digits.len() - k,
    {
        push_char(&mut name, digits[k]);
        k = k + 1;
        proof {
            assert(name@ =~= padding + digits@.take(k as int));
        }
    }
    push_char(&mut name, '.');
    push_char(&mut name, 'p');
    push_char(&mut name, 'n');
    push_char(&mut name, 'g');
    proof {
        assert(digits@.take(digits@.len() as int) =~= digits@);
        assert(zero_padded(digits@, 6) =~= padding + digits@);
        assert(name@ =~= frame_file_name_spec(frame_index as nat));
    }
    name
}

} // verus!
