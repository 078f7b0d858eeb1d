use vstd::prelude::*;
use vstd::string::StringExecFns;

use crate::curve::{Curve, Point};

verus! {

/// The character of decimal digit `d`.
pub open spec fn digit_char(d: int) -> char {
    if d == 0 {
        '0'
    } else if d == 1 {
        '1'
    } else if d == 2 {
        '2'
    } else if d == 3 {
        '3'
    } else if d == 4 {
        '4'
    } else if d == 5 {
        '5'
    } else if d == 6 {
        '6'
    } else if d == 7 {
        '7'
    } else if d == 8 {
        '8'
    } else {
        '9'
    }
}

/// `n` in decimal, without leading zeros.
pub open spec fn decimal(n: nat) -> Seq<char>
    decreases n,
{
    if n < 10 {
        seq![digit_char(n as int)]
    } else {
        decimal(n / 10).push(digit_char((n % 10) as int))
    }
}

/// A value in thousandths written with exactly three decimals: an optional
/// minus sign, the whole part, a point and three digits.
pub open spec fn milli_text(v: int) -> Seq<char> {
    let a: nat = if v < 0 {
        (-v) as nat
    } else {
        v as nat
    };
    let f: int = (a % 1000) as int;
    let sign: Seq<char> = if v < 0 {
        seq!['-']
    } else {
        seq![]
    };
    sign + decimal(a / 1000) + seq![
        '.',
        digit_char(f / 100),
        digit_char((f / 10) % 10),
        digit_char(f % 10),
    ]
}

/// One line of the equalizer format: frequency in hertz, a tab, gain in
/// decibels, a newline.
pub open spec fn point_line(p: Point) -> Seq<char> {
    milli_text(p.freq as int) + seq!['\t'] + milli_text(p.gain as int) + seq!['\n']
}

/// The equalizer text of a whole curve: its lines in order.
pub open spec fn curve_text(s: Seq<Point>) -> Seq<char>
    decreases s.len(),
{
    if s.len() == 0 {
        seq![]
    } else {
        curve_text(s.drop_last()) + point_line(s.last())
    }
}

fn digit_str(d: u64) -> (r: &'static str)
    requires
        d < 10,
    ensures
        r@ == seq![digit_char(d as int)],
{
    if d == 0 {
        proof { reveal_strlit("0"); }
        "0"
    } else if d == 1 {
        proof { reveal_strlit("1"); }
        "1"
    } else if d == 2 {
        proof { reveal_strlit("2"); }
        "2"
    } else if d == 3 {
        proof { reveal_strlit("3"); }
        "3"
    } else if d == 4 {
        proof { reveal_strlit("4"); }
        "4"
    } else if d == 5 {
        proof { reveal_strlit("5"); }
        "5"
    } else if d == 6 {
        proof { reveal_strlit("6"); }
        "6"
    } else if d == 7 {
        proof { reveal_strlit("7"); }
        "7"
    } else if d == 8 {
        proof { reveal_strlit("8"); }
        "8"
    } else {
        proof { reveal_strlit("9"); }
        "9"
    }
}

fn push_decimal(out: &mut String, n: u64)
    ensures
        final(out)@ == old(out)@ + decimal(n as nat),
    decreases n,
{
    if n >= 10 {
        push_decimal(out, n / 10);
    }
    out.append(digit_str(n % 10));
    assert(final(out)@ =~= old(out)@ + decimal(n as nat));
}

fn push_milli(out: &mut String, v: i64)
    ensures
        final(out)@ == old(out)@ + milli_text(v as int),
{
    let ghost start = out@;
    let a: u64 = if v < 0 {
        proof { reveal_strlit("-"); }
        out.append("-");
        (0i128 - v as i128) as u64
    } else {
        v as u64
    };
    push_decimal(out, a / 1000);
    proof { reveal_strlit("."); }
    out.append(".");
    let f = a % 1000;
    out.append(digit_str(f / 100));
    out.append(digit_str((f / 10) % 10));
    out.append(digit_str(f % 10));
    assert(final(out)@ =~= start + milli_text(v as int));
}

impl Curve {
    /// The curve in the equalizer's import format: one line per point,
    /// frequency in hertz and gain in decibels with three decimals each,
    /// separated by a tab.
    pub fn to_eq_text(&self) -> (r: String)
        ensures
            r@ == curve_text(self@),
    {
        let pts = self.points();
        let n = pts.len();
        let mut out = String::new();
        let mut i: usize = 0;
        while i < n
            invariant
                i <= n,
                n == pts@.len(),
                pts@ == self@,
                out@ == curve_text(self@.subrange(0, i as int)),
            decreases n - i,
        {
            let p = pts[i];
            push_milli(&mut out, p.freq as i64);
            proof { reveal_strlit("\t"); }
            out.append("\t");
            push_milli(&mut out, p.gain);
            proof { reveal_strlit("\n"); }
            out.append("\n");
            assert(self@.subrange(0, i + 1).drop_last() =~= self@.subrange(0, i as int));
            i = i + 1;
        }
        assert(self@.subrange(0, n as int) =~= self@);
        out
    }
}

} // verus!
