use vstd::prelude::*;

verus! {

use crate::rational::Rat;
use crate::rational::Ratio;
use crate::rational::rone;
use crate::rational::rle;
use crate::rational::rfix;
use crate::rational::rmul;
use crate::rational::rcanon;
use crate::rational::rround_int;
use crate::rational::lemma_rcanon;
use crate::rational::lemma_pos_mul;
use crate::color::ColorV;
use crate::canvas::Canvas;

/// The decimal digits of a nonnegative number, most significant first.
pub open spec fn dec_digits(n: int) -> Seq<char>
    recommends
        n >= 0,
    decreases n,
{
    if n <= 9 {
        seq![digit_char(n)]
    } else {
        dec_digits(n / 10) + seq![digit_char(n % 10)]
    }
}

pub open spec fn digit_char(d: int) -> char {
    if d == 0 {
        '0'
    } else if d == 1 {
        '1'
    } else if d == 2 {
        '2'
    } else if d == 3 {
        '3'
    } else if d == 4 {
        '4'
    } else if d == 5 {
        '5'
    } else if d == 6 {
        '6'
    } else if d == 7 {
        '7'
    } else if d == 8 {
        '8'
    } else {
        '9'
    }
}

/// The plain-text image header: the magic line, the dimensions and the
/// largest channel value.
pub open spec fn ppm_header_s(w: int, h: int) -> Seq<char> {
    seq!['\n', 'P', '3', '\n'] + dec_digits(w) + seq![' '] + dec_digits(h) + seq!['\n', '2', '5', '5', '\n']
}

/// A channel intensity as a byte: negative values give zero, values of one
/// or more give the largest byte, and values between are coarsened, scaled
/// by 255, and rounded to the nearest integer.
pub open spec fn channel_byte_s(x: Ratio) -> int {
    if x.n < 0 {
        0
    } else if rle(rone(), x) {
        255
    } else {
        let v = rround_int(rcanon(rmul(Ratio { n: 255, d: 1 }, rfix(x))));
        if v < 0 {
            0
        } else if v > 255 {
            255
        } else {
            v
        }
    }
}

/// One pixel as text: the three channel bytes, each followed by a space.
pub open spec fn pixel_text_s(c: ColorV) -> Seq<char> {
    dec_digits(channel_byte_s(c.red)) + seq![' '] + dec_digits(channel_byte_s(c.green)) + seq![
        ' ',
    ] + dec_digits(channel_byte_s(c.blue)) + seq![' ']
}

/// The whole pixel body of a canvas: every pixel's text in buffer order.
pub open spec fn ppm_body_s(pixels: Seq<ColorV>, k: int) -> Seq<char>
    decreases (if k >= 0 { k } else { 0 }),
{
    if k <= 0 {
        Seq::empty()
    } else {
        ppm_body_s(pixels, k - 1) + pixel_text_s(pixels[k - 1])
    }
}

/// Appends the decimal digits of `n` to a string.
fn push_decimal(s: &mut String, n: u64)
    ensures
        final(s)@ == old(s)@ + dec_digits(n as int),
    decreases n,
{
    if n <= 9 {
        push_digit(s, n);
    } else {
        push_decimal(s, n / 10);
        push_digit(s, n % 10);
    }
}

/// Appends one decimal digit to a string.
fn push_digit(s: &mut String, d: u64)
    requires
        d <= 9,
    ensures
        final(s)@ == old(s)@ + seq![digit_char(d as int)],
{
    if d == 0 {
        s.append("0");
        proof {
            reveal_strlit("0");
        }
    } else if d == 1 {
        s.append("1");
        proof {
            reveal_strlit("1");
        }
    } else if d == 2 {
        s.append("2");
        proof {
            reveal_strlit("2");
        }
    } else if d == 3 {
        s.append("3");
        proof {
            reveal_strlit("3");
        }
    } else if d == 4 {
        s.append("4");
        proof {
            reveal_strlit("4");
        }
    } else if d == 5 {
        s.append("5");
        proof {
            reveal_strlit("5");
        }
    } else if d == 6 {
        s.append("6");
        proof {
            reveal_strlit("6");
        }
    } else if d == 7 {
        s.append("7");
        proof {
            reveal_strlit("7");
        }
    } else if d == 8 {
        s.append("8");
        proof {
            reveal_strlit("8");
        }
    } else {
        s.append("9");
        proof {
            reveal_strlit("9");
        }
    }
    proof {
        assert(final(s)@ =~= old(s)@ + seq![digit_char(d as int)]);
    }
}

/// The plain-text image header for a canvas of the given size.
pub fn create_ppm_header(width: usize, height: usize) -> (r: String)
    requires
        width <= u64::MAX,
        height <= u64::MAX,
    ensures
        r@ == ppm_header_s(width as int, height as int),
{
    let mut s = String::new();
    s.append("\nP3\n");
    push_decimal(&mut s, width as u64);
    s.append(" ");
    push_decimal(&mut s, height as u64);
    s.append("\n255\n");
    proof {
        reveal_strlit("\nP3\n");
        reveal_strlit(" ");
        reveal_strlit("\n255\n");
        assert(s@ =~= ppm_header_s(width as int, height as int));
    }
    s
}

/// A channel intensity as a byte, scaled, rounded and clamped.
fn channel_byte(c: &Rat) -> (r: u64)
    ensures
        r as int == channel_byte_s(c@),
{
    proof {
        use_type_invariant(*c);
    }
    if !c.is_nonneg() {
        return 0;
    }
    let one = Rat::one();
    if one.le(c) {
        return 255;
    }
    proof {
        crate::rational::lemma_rfix_small(c@);
    }
    let cc = match c.coarsen() {
        Some(v) => v,
        None => {
            proof {
                assert(false);
            }
            return 0;
        },
    };
    proof {
        use_type_invariant(cc);
        let raw = rmul(Ratio { n: 255, d: 1 }, cc@);
        lemma_pos_mul(1, cc@.d);
        lemma_rcanon(raw);
        assert(crate::rational::in_caps(raw)) by (nonlinear_arith)
            requires
                raw == rmul(Ratio { n: 255, d: 1 }, cc@),
                0 <= cc@.n <= cc@.d,
                1 <= cc@.d <= crate::rational::PREC as int,
                crate::rational::PREC as int == 1_000_000_000,
                crate::rational::NUM_CAP as int == 9_000_000_000_000_000_000,
                crate::rational::DEN_CAP as int == 1_000_000_000_000_000_000,
        ;
        crate::rational::lemma_canon_in_caps(raw);
    }
    let scaled = match Rat::from_int(255).mul(&cc) {
        Some(v) => v,
        None => {
            proof {
                assert(false);
            }
            return 0;
        },
    };
    let v = scaled.round_int();
    if v < 0 {
        0
    } else if v > 255 {
        255
    } else {
        v as u64
    }
}

/// The pixel body of a canvas as one text line: each pixel's three
/// channel bytes separated by spaces.
pub fn ppm_body(canvas: &Canvas) -> (r: String)
    ensures
        r@ == ppm_body_s(canvas@, canvas@.len() as int),
    {
    let mut s = String::new();
    let w = canvas.width();
    let h = canvas.height();
    let mut x: usize = 0;
    proof {
        assert(s@ =~= ppm_body_s(canvas@, 0));
    }
    let ghost cv = canvas@;
    let mut k: usize = 0;
    let n = canvas.area();
    while k < n
        invariant
            0 <= k <= n,
            n == canvas@.len(),
            n == canvas.width_spec() * canvas.height_spec(),
            canvas.height_spec() >= 1 || n == 0,
            s@ == ppm_body_s(canvas@, k as int),
        decreases n - k,
    {
        proof {
            assert(canvas.height_spec() >= 1) by (nonlinear_arith)
                requires
                    (k as int) < n as int,
                    n as int == canvas.width_spec() * canvas.height_spec(),
                    canvas.height_spec() >= 0,
                    k >= 0,
            ;
        }
        let hh = canvas.height();
        let x2 = k / hh;
        let y2 = k % hh;
        proof {
            assert((k as int) < canvas.height_spec() * canvas.width_spec()) by (nonlinear_arith)
                requires
                    (k as int) < n as int,
                    n as int == canvas.width_spec() * canvas.height_spec(),
            ;
            vstd::arithmetic::div_mod::lemma_multiply_divide_lt(
                k as int,
                canvas.height_spec(),
                canvas.width_spec(),
            );
            vstd::arithmetic::div_mod::lemma_fundamental_div_mod(k as int, canvas.height_spec());
            assert((x2 as int) * canvas.height_spec() + (y2 as int) == k as int) by (
            nonlinear_arith)
                requires
                    k as int == canvas.height_spec() * (x2 as int) + (y2 as int),
            ;
        }
        let px = canvas.pixel(x2, y2);
        let rb = channel_byte(&px.red);
        let gb = channel_byte(&px.green);
        let bb = channel_byte(&px.blue);
        push_decimal(&mut s, rb);
        s.append(" ");
        push_decimal(&mut s, gb);
        s.append(" ");
        push_decimal(&mut s, bb);
        s.append(" ");
        proof {
            reveal_strlit(" ");
            assert(s@ =~= ppm_body_s(canvas@, k as int + 1));
        }
        k = k + 1;
    }
    s
}

/// What the line-wrapping of a text at width seventy returns.
pub uninterp spec fn wrapped70(s: Seq<char>) -> Seq<Seq<char>>;

/// Relies on textwrap::wrap: breaks a text into lines at most seventy
/// columns wide, splitting at whitespace; the result depends on the text
/// alone.
#[verifier::external_body]
fn wrap70(s: &str) -> (r: Vec<String>)
    ensures
        r@.map_values(|line: String| line@) == wrapped70(s@),
{
    textwrap::wrap(s, 70).into_iter().map(|c| c.into_owned()).collect()
}

/// The pixel rows of a canvas as wrapped text lines.
pub fn ppm_pixel_lines(canvas: &Canvas) -> (r: Vec<String>)
    ensures
        r@.map_values(|line: String| line@) == wrapped70(
            ppm_body_s(canvas@, canvas@.len() as int),
        ),
{
    let body = ppm_body(canvas);
    wrap70(body.as_str())
}

/// The first `k` lines joined, each ended by a newline.
pub open spec fn joined_lines(lines: Seq<Seq<char>>, k: int) -> Seq<char>
    decreases (if k >= 0 { k } else { 0 }),
{
    if k <= 0 {
        Seq::empty()
    } else {
        joined_lines(lines, k - 1) + lines[k - 1] + seq!['\n']
    }
}

/// The full image text: the header, every line ended by a newline, and a
/// final empty line.
pub fn ppm_text(header: &String, lines: &Vec<String>) -> (r: String)
    ensures
        r@ == header@ + joined_lines(
            lines@.map_values(|line: String| line@),
            lines@.len() as int,
        ) + seq!['\n'],
{
    let mut s = String::new();
    s.append(header.as_str());
    let ghost lv = lines@.map_values(|line: String| line@);
    let mut k: usize = 0;
    let n = lines.len();
    proof {
        assert(s@ =~= header@ + joined_lines(lv, 0));
    }
    while k < n
        invariant
            0 <= k <= n,
            n == lines@.len(),
            lv == lines@.map_values(|line: String| line@),
            s@ == header@ + joined_lines(lv, k as int),
        decreases n - k,
    {
        s.append(lines[k].as_str());
        s.append("
");
        proof {
            reveal_strlit("
");
            assert(lv[k as int] == lines@[k as int]@);
            assert(s@ =~= header@ + joined_lines(lv, k as int + 1));
        }
        k = k + 1;
    }
    s.append("
");
    proof {
        reveal_strlit("
");
        assert(s@ =~= header@ + joined_lines(lv, lines@.len() as int) + seq!['\n']);
    }
    s
}

} // verus!
