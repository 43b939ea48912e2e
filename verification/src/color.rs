//! Resolving an accumulated color to one output line: average over the
//! sample count, gamma-correct for gamma two, clamp, and render the three
//! channels as decimal text.

use vstd::prelude::*;

verus! {

use crate::fixed::{
    fx_wf, fxmul, fxmax, fxclamp, fxsqrt, fx_mul, fx_max, fx_clamp, fx_sqrt, FX_ONE,
    FX_MAX,
};
use crate::vec3::Vec3;

/// Anything that can resolve itself to one line of image text.
pub trait Color {
    /// The exact text the representation must produce.
    spec fn spec_repr(&self, samples_per_pixel: int) -> Seq<char>;

    /// What the representation asks of its inputs.
    spec fn repr_ok(&self, samples_per_pixel: int) -> bool;

    fn as_color_repr(&self, samples_per_pixel: usize) -> (r: String)
        requires
            self.repr_ok(samples_per_pixel as int),
        ensures
            r@ == self.spec_repr(samples_per_pixel as int),
    ;
}

/// The decimal digit characters of `n`, most significant first.
pub open spec fn spec_decimal(n: int) -> Seq<char>
    recommends
        n >= 0,
    decreases n,
{
    let d = seq![spec_digit_char(n % 10)];
    if n < 10 {
        d
    } else {
        spec_decimal(n / 10) + d
    }
}

pub open spec fn spec_digit_char(d: int) -> char {
    if d == 0 {
        '0'
    } else if d == 1 {
        '1'
    } else if d == 2 {
        '2'
    } else if d == 3 {
        '3'
    } else if d == 4 {
        '4'
    } else if d == 5 {
        '5'
    } else if d == 6 {
        '6'
    } else if d == 7 {
        '7'
    } else if d == 8 {
        '8'
    } else {
        '9'
    }
}

/// One channel resolved to an integer in `[0, 255]`: scaled by the inverse
/// sample count, clamped below at zero, gamma-corrected by a square root,
/// clamped into the unit range and widened to a byte.
pub open spec fn spec_channel(c: int, samples_per_pixel: int) -> int {
    let scale = crate::fixed::fdiv(FX_ONE as int, samples_per_pixel);
    let scaled = fxmax(0, fxmul(scale, c));
    let root = fxsqrt(scaled);
    fxclamp(root, 0, 65470) / 256
}

/// The full line: three channels separated by spaces, newline-terminated.
pub open spec fn spec_color_repr(v: Vec3, samples_per_pixel: int) -> Seq<char> {
    spec_decimal(spec_channel(v.x as int, samples_per_pixel)) + seq![' '] + spec_decimal(
        spec_channel(v.y as int, samples_per_pixel),
    ) + seq![' '] + spec_decimal(spec_channel(v.z as int, samples_per_pixel)) + seq!['\n']
}

/// Append one digit character.
fn push_digit(s: &mut String, d: u64)
    requires
        d < 10,
    ensures
        final(s)@ == old(s)@ + seq![spec_digit_char(d as int)],
{
    proof {
        reveal_strlit("0");
        reveal_strlit("1");
        reveal_strlit("2");
        reveal_strlit("3");
        reveal_strlit("4");
        reveal_strlit("5");
        reveal_strlit("6");
        reveal_strlit("7");
        reveal_strlit("8");
        reveal_strlit("9");
    }
    if d == 0 {
        s.append("0");
    } else if d == 1 {
        s.append("1");
    } else if d == 2 {
        s.append("2");
    } else if d == 3 {
        s.append("3");
    } else if d == 4 {
        s.append("4");
    } else if d == 5 {
        s.append("5");
    } else if d == 6 {
        s.append("6");
    } else if d == 7 {
        s.append("7");
    } else if d == 8 {
        s.append("8");
    } else {
        s.append("9");
    }
    proof {
        assert(s@ =~= old(s)@ + seq![spec_digit_char(d as int)]);
    }
}

/// Append the decimal rendering of `n`.
fn push_decimal(s: &mut String, n: u64)
    ensures
        final(s)@ == old(s)@ + spec_decimal(n as int),
    decreases n,
{
    if n < 10 {
        push_digit(s, n);
    } else {
        push_decimal(s, n / 10);
        push_digit(s, n % 10);
        proof {
            assert(s@ =~= old(s)@ + spec_decimal(n as int));
        }
    }
}

/// One channel, executable side.
fn channel(c: i64, samples_per_pixel: usize) -> (r: u64)
    requires
        fx_wf(c),
        1 <= samples_per_pixel <= FX_MAX,
    ensures
        r == spec_channel(c as int, samples_per_pixel as int),
        r <= 255,
{
    let scale = ((FX_ONE as u64) / (samples_per_pixel as u64)) as i64;
    proof {
        vstd::arithmetic::div_mod::lemma_div_pos_is_pos(FX_ONE as int, samples_per_pixel as int);
        vstd::arithmetic::div_mod::lemma_div_nonincreasing(FX_ONE as int, samples_per_pixel as int);
    }
    let scaled = fx_max(0, fx_mul(scale, c));
    let root = fx_sqrt(scaled);
    let clamped = fx_clamp(root, 0, 65470);
    (clamped as u64) / 256
}

impl Color for Vec3 {
    open spec fn spec_repr(&self, samples_per_pixel: int) -> Seq<char> {
        spec_color_repr(*self, samples_per_pixel)
    }

    open spec fn repr_ok(&self, samples_per_pixel: int) -> bool {
        self.wf() && 1 <= samples_per_pixel <= FX_MAX
    }

    /// The averaged, gamma-corrected, clamped color as one decimal line.
    fn as_color_repr(&self, samples_per_pixel: usize) -> (r: String) {
        proof {
            reveal_strlit(" ");
            reveal_strlit("\n");
        }
        let mut out = String::new();
        push_decimal(&mut out, channel(self.x, samples_per_pixel));
        out.append(" ");
        push_decimal(&mut out, channel(self.y, samples_per_pixel));
        out.append(" ");
        push_decimal(&mut out, channel(self.z, samples_per_pixel));
        out.append("\n");
        proof {
            assert(out@ =~= spec_color_repr(*self, samples_per_pixel as int));
        }
        out
    }
}

} // verus!
