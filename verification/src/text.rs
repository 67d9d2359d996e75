//! Textual rendering: `"<numerator>/<denominator>"` from the raw stored
//! fields, built digit by digit and proved against a spec of the decimal form.

use crate::rational::Rational;
use vstd::prelude::*;
use vstd::string::StringExecFns;

verus! {

/// The decimal digit character for a value below ten.
pub open spec fn digit_char(n: nat) -> char {
    if n == 0 {
        '0'
    } else if n == 1 {
        '1'
    } else if n == 2 {
        '2'
    } else if n == 3 {
        '3'
    } else if n == 4 {
        '4'
    } else if n == 5 {
        '5'
    } else if n == 6 {
        '6'
    } else if n == 7 {
        '7'
    } else if n == 8 {
        '8'
    } else {
        '9'
    }
}

/// The decimal digits of a natural number, most significant first, with no
/// leading zeros.
pub open spec fn dec_digits(n: nat) -> Seq<char>
    decreases n,
{
    if n < 10 {
        seq![digit_char(n)]
    } else {
        dec_digits(n / 10) + seq![digit_char(n % 10)]
    }
}

/// The decimal rendering of an integer: a minus sign ahead of the magnitude's
/// digits when negative.
pub open spec fn dec_str(n: int) -> Seq<char> {
    if n < 0 {
        seq!['-'] + dec_digits((-n) as nat)
    } else {
        dec_digits(n as nat)
    }
}

/// The rendering of a fraction: numerator, a slash, denominator, all from the
/// raw fields.
pub open spec fn fraction_str(n: int, d: int) -> Seq<char> {
    dec_str(n) + seq!['/'] + dec_str(d)
}

/// The one-character string for a decimal digit value.
fn digit_str(d: usize) -> (r: &'static str)
    requires
        d < 10,
    ensures
        r@ == seq![digit_char(d as nat)],
{
    proof {
        reveal_strlit("0");
        reveal_strlit("1");
        reveal_strlit("2");
        reveal_strlit("3");
        reveal_strlit("4");
        reveal_strlit("5");
        reveal_strlit("6");
        reveal_strlit("7");
        reveal_strlit("8");
        reveal_strlit("9");
    }
    if d == 0 {
        "0"
    } else if d == 1 {
        "1"
    } else if d == 2 {
        "2"
    } else if d == 3 {
        "3"
    } else if d == 4 {
        "4"
    } else if d == 5 {
        "5"
    } else if d == 6 {
        "6"
    } else if d == 7 {
        "7"
    } else if d == 8 {
        "8"
    } else {
        "9"
    }
}

/// Appends the decimal digits of `mag` to `out`, most significant first.
fn append_digits(out: &mut String, mag: usize)
    ensures
        final(out)@ == old(out)@ + dec_digits(mag as nat),
    decreases mag,
{
    if mag >= 10 {
        append_digits(out, mag / 10);
    }
    out.append(digit_str(mag % 10));
    proof {
        if mag >= 10 {
            assert(final(out)@ =~= old(out)@ + dec_digits(mag as nat));
        } else {
            assert(mag % 10 == mag);
            assert(final(out)@ =~= old(out)@ + dec_digits(mag as nat));
        }
    }
}

/// The decimal rendering of a signed machine integer.
fn int_str(n: isize) -> (r: String)
    ensures
        r@ == dec_str(n as int),
{
    let mut out = String::new();
    if n < 0 {
        proof {
            reveal_strlit("-");
        }
        out.append("-");
        let mag: usize = if n == isize::MIN {
            (isize::MAX as usize) + 1
        } else {
            (-n) as usize
        };
        assert(mag as int == -(n as int));
        append_digits(&mut out, mag);
        proof {
            assert(out@ =~= dec_str(n as int));
        }
    } else {
        append_digits(&mut out, n as usize);
        proof {
            assert(out@ =~= dec_str(n as int));
        }
    }
    out
}

impl Rational {
    /// Renders the raw stored fields as `"<numerator>/<denominator>"`; no
    /// simplification is applied at render time.
    pub fn render(&self) -> (r: String)
        ensures
            r@ == fraction_str(self.num as int, self.denom as int),
    {
        proof {
            reveal_strlit("/");
        }
        let mut out = int_str(self.num);
        out.append("/");
        let d = int_str(self.denom);
        out.append(d.as_str());
        proof {
            assert(out@ =~= fraction_str(self.num as int, self.denom as int));
        }
        out
    }
}

} // verus!
