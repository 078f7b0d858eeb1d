use vstd::prelude::*;

use crate::curve::{Curve, Point, valid_points};

verus! {

/// The byte that separates the two fields of a data line.
pub const TAB: u8 = 9;

/// The byte that ends a line.
pub const NEWLINE: u8 = 10;

/// The decimal point.
pub const DOT: u8 = 46;

/// The minus sign.
pub const MINUS: u8 = 45;
/// The plus sign.
pub const PLUS: u8 = 43;

/// Largest magnitude accepted in a number, in thousandths.
pub const MAX_MILLI: u64 = 1_000_000_000_000_000;

/// Exponents larger in magnitude than this are read as one more than it.
pub const EXP_CAP: u64 = 1_000_000_000;

/// Index of the first `b` in `s`, or the length of `s` when there is none.
pub open spec fn first_index(s: Seq<u8>, b: u8) -> int
    decreases s.len(),
{
    if s.len() == 0 {
        0
    } else if s[0] == b {
        0
    } else {
        1 + first_index(s.skip(1), b)
    }
}

pub open spec fn is_digit(b: u8) -> bool {
    48 <= b <= 57
}

pub open spec fn all_digits(s: Seq<u8>) -> bool {
    forall|i: int| 0 <= i < s.len() ==> is_digit(#[trigger] s[i])
}

/// The value of a run of decimal digits.
pub open spec fn digits_value(s: Seq<u8>) -> nat
    decreases s.len(),
{
    if s.len() == 0 {
        0
    } else {
        digits_value(s.drop_last()) * 10 + (s.last() - 48) as nat
    }
}
/// `v`, or one past `c` when it is larger than `c`.
pub open spec fn cap_at(v: nat, c: nat) -> nat {
    if v > c {
        (c + 1) as nat
    } else {
        v
    }
}

pub open spec fn pow10(n: nat) -> nat
    decreases n,
{
    if n == 0 {
        1
    } else {
        10 * pow10((n - 1) as nat)
    }
}

pub open spec fn is_exp_mark(b: u8) -> bool {
    b == 101 || b == 69
}

/// Index of the first exponent mark (`e` or `E`) in `s`, or its length.
pub open spec fn exp_index(s: Seq<u8>) -> int
    decreases s.len(),
{
    if s.len() == 0 {
        0
    } else if is_exp_mark(s[0]) {
        0
    } else {
        1 + exp_index(s.skip(1))
    }
}

/// The sign of a number text: -1 after a leading minus, 1 otherwise.
pub open spec fn sign_of(s: Seq<u8>) -> int {
    if s.len() > 0 && s[0] == MINUS {
        -1
    } else {
        1
    }
}

/// A number text without its leading sign, if it has one.
pub open spec fn unsigned_part(s: Seq<u8>) -> Seq<u8> {
    if s.len() > 0 && (s[0] == MINUS || s[0] == PLUS) {
        s.skip(1)
    } else {
        s
    }
}

/// An exponent: an optional sign and at least one digit. Magnitudes above
/// `EXP_CAP` read as `EXP_CAP + 1`.
pub open spec fn exponent_value(e: Seq<u8>) -> Option<int> {
    let ds = unsigned_part(e);
    if ds.len() > 0 && all_digits(ds) {
        Some(sign_of(e) * cap_at(digits_value(ds), EXP_CAP as nat))
    } else {
        None
    }
}

/// The digits `ds` times ten to the power `shift`, truncated toward zero.
pub open spec fn shifted(ds: Seq<u8>, shift: int) -> nat {
    if shift >= 0 {
        digits_value(ds) * pow10(shift as nat)
    } else if ds.len() + shift <= 0 {
        0
    } else {
        digits_value(ds.take(ds.len() + shift))
    }
}

/// The part of a mantissa before its point.
pub open spec fn whole_digits(m: Seq<u8>) -> Seq<u8> {
    m.take(first_index(m, DOT))
}

/// The part of a mantissa after its point; empty without a point.
pub open spec fn frac_digits(m: Seq<u8>) -> Seq<u8> {
    let d = first_index(m, DOT);
    if d < m.len() {
        m.skip(d + 1)
    } else {
        Seq::empty()
    }
}

/// An unsigned decimal number in thousandths, truncated toward zero: digits
/// with at most one point and at least one digit in all, then optionally an
/// exponent mark and an exponent. Magnitudes above `MAX_MILLI` are refused.
pub open spec fn unsigned_milli(s: Seq<u8>) -> Option<int> {
    let x = exp_index(s);
    let m = s.take(x);
    let e = if x < s.len() {
        exponent_value(s.skip(x + 1))
    } else {
        Some(0int)
    };
    let w = whole_digits(m);
    let f = frac_digits(m);
    match e {
        Some(ev) => {
            let v = shifted(w + f, 3 + ev - f.len());
            if w.len() + f.len() > 0 && all_digits(w) && all_digits(f) && v <= MAX_MILLI {
                Some(v as int)
            } else {
                None
            }
        },
        None => None,
    }
}

/// A decimal number in thousandths, optionally preceded by a sign.
pub open spec fn number_milli(s: Seq<u8>) -> Option<int> {
    match unsigned_milli(unsigned_part(s)) {
        Some(v) => Some(sign_of(s) * v),
        None => None,
    }
}

proof fn lemma_first_index(s: Seq<u8>, b: u8, i: int)
    requires
        0 <= i <= s.len(),
        forall|j: int| 0 <= j < i ==> s[j] != b,
        i == s.len() || s[i] == b,
    ensures
        first_index(s, b) == i,
    decreases s.len(),
{
    if s.len() > 0 && s[0] != b {
        assert(i > 0);
        lemma_first_index(s.skip(1), b, i - 1);
    }
}

/// Index of the first `b` in `s[lo..hi]`, or `hi`.
fn find(s: &Vec<u8>, lo: usize, hi: usize, b: u8) -> (r: usize)
    requires
        lo <= hi <= s@.len(),
    ensures
        lo <= r <= hi,
        r - lo == first_index(s@.subrange(lo as int, hi as int), b),
{
    let mut i = lo;
    while i < hi && s[i] != b
        invariant
            lo <= i <= hi,
            hi <= s@.len(),
            forall|j: int| lo <= j < i ==> s@[j] != b,
        decreases hi - i,
    {
        i = i + 1;
    }
    proof {
        let sub = s@.subrange(lo as int, hi as int);
        assert forall|j: int| 0 <= j < i - lo implies sub[j] != b by {
            assert(sub[j] == s@[lo + j]);
        }
        lemma_first_index(sub, b, i - lo);
    }
    i
}
proof fn lemma_exp_index(s: Seq<u8>, i: int)
    requires
        0 <= i <= s.len(),
        forall|j: int| 0 <= j < i ==> !is_exp_mark(s[j]),
        i == s.len() || is_exp_mark(s[i]),
    ensures
        exp_index(s) == i,
    decreases s.len(),
{
    if s.len() > 0 && !is_exp_mark(s[0]) {
        assert(i > 0);
        lemma_exp_index(s.skip(1), i - 1);
    }
}

/// Index of the first exponent mark in `s[lo..hi]`, or `hi`.
fn find_exp(s: &Vec<u8>, lo: usize, hi: usize) -> (r: usize)
    requires
        lo <= hi <= s@.len(),
    ensures
        lo <= r <= hi,
        r - lo == exp_index(s@.subrange(lo as int, hi as int)),
{
    let mut i = lo;
    while i < hi && s[i] != 101 && s[i] != 69
        invariant
            lo <= i <= hi,
            hi <= s@.len(),
            forall|j: int| lo <= j < i ==> !is_exp_mark(s@[j]),
        decreases hi - i,
    {
        i = i + 1;
    }
    proof {
        let sub = s@.subrange(lo as int, hi as int);
        assert forall|j: int| 0 <= j < i - lo implies !is_exp_mark(sub[j]) by {
            assert(sub[j] == s@[lo + j]);
        }
        lemma_exp_index(sub, i - lo);
    }
    i
}

proof fn lemma_pow10_mono(i: nat, k: nat)
    requires
        i <= k,
    ensures
        1 <= pow10(i) <= pow10(k),
    decreases k,
{
    if k > 0 {
        if k > i {
            lemma_pow10_mono(i, (k - 1) as nat);
        } else {
            lemma_pow10_mono(0, (k - 1) as nat);
        }
    }
}

proof fn lemma_cap_scale(x: nat, p: nat)
    requires
        p >= 1,
    ensures
        cap_at(cap_at(x, MAX_MILLI as nat) * p, MAX_MILLI as nat) == cap_at(x * p, MAX_MILLI as nat),
{
    if x > MAX_MILLI {
        assert(x * p >= x) by (nonlinear_arith)
            requires
                p >= 1,
        ;
        let c = MAX_MILLI + 1;
        assert(c * p >= c) by (nonlinear_arith)
            requires
                p >= 1,
                c >= 0,
        ;
    }
}

/// The first `keep` digits of `s[wlo..whi]` followed by `s[flo..fhi]`, as a
/// value capped at `c`.
fn capped_prefix(
    s: &Vec<u8>,
    wlo: usize,
    whi: usize,
    flo: usize,
    fhi: usize,
    keep: usize,
    c: u64,
) -> (r: u64)
    requires
        wlo <= whi <= s@.len(),
        flo <= fhi <= s@.len(),
        keep <= (whi - wlo) + (fhi - flo),
        c <= MAX_MILLI,
        all_digits(s@.subrange(wlo as int, whi as int)),
        all_digits(s@.subrange(flo as int, fhi as int)),
    ensures
        r == cap_at(
            digits_value(
                (s@.subrange(wlo as int, whi as int) + s@.subrange(flo as int, fhi as int)).take(
                    keep as int,
                ),
            ),
            c as nat,
        ),
{
    let ghost ws = s@.subrange(wlo as int, whi as int);
    let ghost fs = s@.subrange(flo as int, fhi as int);
    let ghost ds = ws + fs;
    let wn = whi - wlo;
    let mut v: u64 = 0;
    let mut i: usize = 0;
    assert(ds.take(0) =~= Seq::<u8>::empty());
    while i < keep
        invariant
            i <= keep,
            keep <= ds.len(),
            wn == ws.len(),
            ds == ws + fs,
            ws == s@.subrange(wlo as int, whi as int),
            fs == s@.subrange(flo as int, fhi as int),
            wlo <= whi <= s@.len(),
            flo <= fhi <= s@.len(),
            all_digits(ws),
            all_digits(fs),
            c <= MAX_MILLI,
            v == cap_at(digits_value(ds.take(i as int)), c as nat),
        decreases keep - i,
    {
        let b = if i < wn {
            assert(ws[i as int] == s@[wlo + i]);
            s[wlo + i]
        } else {
            assert(fs[i - wn] == s@[flo + (i - wn)]);
            s[flo + (i - wn)]
        };
        assert(b == ds[i as int]);
        assert(is_digit(b)) by {
            if i < wn {
                assert(is_digit(ws[i as int]));
            } else {
                assert(is_digit(fs[i - wn]));
            }
        }
        assert(ds.take(i + 1).drop_last() =~= ds.take(i as int));
        assert(ds.take(i + 1).last() == b);
        let d = (b - 48) as u64;
        v = if v > c {
            c + 1
        } else if v * 10 + d > c {
            c + 1
        } else {
            v * 10 + d
        };
        i = i + 1;
    }
    v
}

/// `v` times ten to the power `k`, capped at `MAX_MILLI`.
fn scale_up(v: u64, k: u64) -> (r: u64)
    requires
        v <= MAX_MILLI + 1,
    ensures
        r == cap_at((v as nat) * pow10(k as nat), MAX_MILLI as nat),
{
    if v == 0 {
        assert(v * pow10(k as nat) == 0);
        return 0;
    }
    let mut cur = v;
    let mut i: u64 = 0;
    assert(pow10(0) == 1);
    while i < k
        invariant
            i <= k,
            1 <= v <= MAX_MILLI + 1,
            cur == v * pow10(i as nat),
        decreases k - i,
    {
        if cur > MAX_MILLI {
            proof {
                lemma_pow10_mono(i as nat, k as nat);
                let a = pow10(i as nat);
                let b = pow10(k as nat);
                assert(v * a <= v * b) by (nonlinear_arith)
                    requires
                        a <= b,
                        v >= 1,
                ;
            }
            return MAX_MILLI + 1;
        }
        proof {
            let a = pow10(i as nat);
            assert(pow10((i + 1) as nat) == 10 * a);
            assert(v * (10 * a) == (v * a) * 10) by (nonlinear_arith);
        }
        cur = cur * 10;
        i = i + 1;
    }
    if cur > MAX_MILLI {
        MAX_MILLI + 1
    } else {
        cur
    }
}

/// Whether every byte of `s[lo..hi]` is a digit.
fn digits_only(s: &Vec<u8>, lo: usize, hi: usize) -> (r: bool)
    requires
        lo <= hi <= s@.len(),
    ensures
        r == all_digits(s@.subrange(lo as int, hi as int)),
{
    let mut i = lo;
    while i < hi
        invariant
            lo <= i <= hi,
            hi <= s@.len(),
            forall|j: int| lo <= j < i ==> is_digit(#[trigger] s@[j]),
        decreases hi - i,
    {
        if s[i] < 48 || s[i] > 57 {
            assert(s@.subrange(lo as int, hi as int)[i - lo] == s@[i as int]);
            return false;
        }
        i = i + 1;
    }
    assert forall|j: int| 0 <= j < hi - lo implies is_digit(
        #[trigger] s@.subrange(lo as int, hi as int)[j],
    ) by {
        assert(s@.subrange(lo as int, hi as int)[j] == s@[lo + j]);
    }
    true
}
/// The exponent in `s[lo..hi]`.
fn parse_exponent(s: &Vec<u8>, lo: usize, hi: usize) -> (r: Option<i128>)
    requires
        lo <= hi <= s@.len(),
    ensures
        r is Some <==> exponent_value(s@.subrange(lo as int, hi as int)) is Some,
        r matches Some(e) ==> exponent_value(s@.subrange(lo as int, hi as int)) == Some(e as int),
        r matches Some(e) ==> -(EXP_CAP + 1) <= e <= EXP_CAP + 1,
{
    let ghost sub = s@.subrange(lo as int, hi as int);
    let signed = lo < hi && (s[lo] == MINUS || s[lo] == PLUS);
    let neg = lo < hi && s[lo] == MINUS;
    let dlo = if signed {
        lo + 1
    } else {
        lo
    };
    assert(unsigned_part(sub) =~= s@.subrange(dlo as int, hi as int));
    if dlo == hi {
        return None;
    }
    if !digits_only(s, dlo, hi) {
        return None;
    }
    let m = capped_prefix(s, dlo, hi, hi, hi, hi - dlo, EXP_CAP);
    assert((s@.subrange(dlo as int, hi as int) + s@.subrange(hi as int, hi as int)).take(
        (hi - dlo) as int,
    ) =~= s@.subrange(dlo as int, hi as int));
    if neg {
        Some(-(m as i128))
    } else {
        Some(m as i128)
    }
}

/// The unsigned number in `s[lo..hi]`, in thousandths.
fn parse_unsigned(s: &Vec<u8>, lo: usize, hi: usize) -> (r: Option<u64>)
    requires
        lo <= hi <= s@.len(),
    ensures
        r is Some <==> unsigned_milli(s@.subrange(lo as int, hi as int)) is Some,
        r matches Some(v) ==> unsigned_milli(s@.subrange(lo as int, hi as int)) == Some(v as int),
        r matches Some(v) ==> v <= MAX_MILLI,
{
    let ghost sub = s@.subrange(lo as int, hi as int);
    let x = find_exp(s, lo, hi);
    let ghost m = sub.take(x - lo);
    assert(m =~= s@.subrange(lo as int, x as int));
    let ev: i128 = if x < hi {
        assert(sub.skip(x - lo + 1) =~= s@.subrange(x + 1, hi as int));
        match parse_exponent(s, x + 1, hi) {
            Some(e) => e,
            None => {
                return None;
            },
        }
    } else {
        0
    };
    let d = find(s, lo, x, DOT);
    let flo = if d < x {
        d + 1
    } else {
        x
    };
    let ghost w = whole_digits(m);
    let ghost f = frac_digits(m);
    assert(w =~= s@.subrange(lo as int, d as int));
    if d < x {
        assert(f =~= s@.subrange(flo as int, x as int));
    } else {
        assert(f =~= s@.subrange(flo as int, x as int));
    }
    let wn = d - lo;
    let fnn = x - flo;
    if wn == 0 && fnn == 0 {
        return None;
    }
    if !digits_only(s, lo, d) || !digits_only(s, flo, x) {
        return None;
    }
    let total = wn + fnn;
    let shift: i128 = 3 + ev - fnn as i128;
    let ghost ds = w + f;
    let ghost sv = shifted(ds, 3 + ev - f.len());
    let v: u64 = if shift >= 0 {
        let c = capped_prefix(s, lo, d, flo, x, total, MAX_MILLI);
        proof {
            assert(ds.take(total as int) =~= ds);
            lemma_pow10_mono(0, shift as nat);
            lemma_cap_scale(digits_value(ds), pow10(shift as nat));
        }
        scale_up(c, shift as u64)
    } else if (total as i128) + shift <= 0 {
        0
    } else {
        capped_prefix(s, lo, d, flo, x, ((total as i128) + shift) as usize, MAX_MILLI)
    };
    assert(v == cap_at(sv, MAX_MILLI as nat));
    if v > MAX_MILLI {
        return None;
    }
    Some(v)
}

/// The signed number in `s[lo..hi]`, in thousandths.
fn parse_number(s: &Vec<u8>, lo: usize, hi: usize) -> (r: Option<i64>)
    requires
        lo <= hi <= s@.len(),
    ensures
        r is Some <==> number_milli(s@.subrange(lo as int, hi as int)) is Some,
        r matches Some(v) ==> number_milli(s@.subrange(lo as int, hi as int)) == Some(v as int),
{
    let ghost sub = s@.subrange(lo as int, hi as int);
    let signed = lo < hi && (s[lo] == MINUS || s[lo] == PLUS);
    let neg = lo < hi && s[lo] == MINUS;
    let ulo = if signed {
        lo + 1
    } else {
        lo
    };
    assert(unsigned_part(sub) =~= s@.subrange(ulo as int, hi as int));
    assert(sign_of(sub) == if neg {
        -1int
    } else {
        1int
    }) by {
        if lo < hi {
            assert(sub[0] == s@[lo as int]);
        }
    }
    match parse_unsigned(s, ulo, hi) {
        Some(v) => if neg {
            Some(-(v as i64))
        } else {
            Some(v as i64)
        },
        None => None,
    }
}

/// A data line: two tab-separated numbers, frequency then gain, each in
/// thousandths. Fields after the second are ignored. The frequency must be
/// positive and fit in 32 bits.
pub open spec fn line_point(l: Seq<u8>) -> Option<Point> {
    let t = first_index(l, TAB);
    if t < l.len() {
        let rest = l.skip(t + 1);
        let b = rest.take(first_index(rest, TAB));
        match (number_milli(l.take(t)), number_milli(b)) {
            (Some(x), Some(y)) => if 0 < x <= u32::MAX {
                Some(Point { freq: x as u32, gain: y as i64 })
            } else {
                None
            },
            _ => None,
        }
    } else {
        None
    }
}

/// The lines of `s`: the pieces between newlines, the last one possibly empty.
pub open spec fn lines(s: Seq<u8>) -> Seq<Seq<u8>>
    decreases s.len(),
{
    let t = first_index(s, NEWLINE);
    if t < 0 || t >= s.len() {
        seq![s]
    } else {
        seq![s.take(t)] + lines(s.skip(t + 1))
    }
}

/// The points of the first `n` lines, the first line being a header that
/// is skipped and empty lines being skipped too; or the number (counting
/// from one) of the first line that is not a data line.
pub open spec fn data_points(ls: Seq<Seq<u8>>, n: int) -> Result<Seq<Point>, usize>
    decreases n,
{
    if n <= 1 {
        Ok(Seq::empty())
    } else {
        match data_points(ls, n - 1) {
            Err(e) => Err(e),
            Ok(ps) => if ls[n - 1].len() == 0 {
                Ok(ps)
            } else {
                match line_point(ls[n - 1]) {
                    Some(p) => Ok(ps.push(p)),
                    None => Err(n as usize),
                }
            },
        }
    }
}

/// The point of the data line `s[lo..hi]`.
fn parse_line(s: &Vec<u8>, lo: usize, hi: usize) -> (r: Option<Point>)
    requires
        lo <= hi <= s@.len(),
    ensures
        r == line_point(s@.subrange(lo as int, hi as int)),
{
    let ghost l = s@.subrange(lo as int, hi as int);
    let t = find(s, lo, hi, TAB);
    if t == hi {
        return None;
    }
    let u = find(s, t + 1, hi, TAB);
    proof {
        let rest = l.skip(t - lo + 1);
        assert(rest =~= s@.subrange(t + 1, hi as int));
        assert(rest.take(u - t - 1) =~= s@.subrange(t + 1, u as int));
        assert(l.take(t - lo) =~= s@.subrange(lo as int, t as int));
    }
    let x = match parse_number(s, lo, t) {
        Some(x) => x,
        None => {
            return None;
        },
    };
    let y = match parse_number(s, t + 1, u) {
        Some(y) => y,
        None => {
            return None;
        },
    };
    if x <= 0 || x > u32::MAX as i64 {
        return None;
    }
    Some(Point { freq: x as u32, gain: y })
}

proof fn lemma_data_points_err(ls: Seq<Seq<u8>>, j: int, m: int)
    requires
        1 <= j <= m,
        data_points(ls, j) is Err,
    ensures
        data_points(ls, m) == data_points(ls, j),
    decreases m - j,
{
    if m > j {
        lemma_data_points_err(ls, j, m - 1);
    }
}

/// Why a spectrum text could not be read.
#[derive(Clone, Copy, Debug, PartialEq, Eq, Structural)]
pub enum ParseError {
    /// The line with this number (the header being line one) is neither
    /// empty nor a data line.
    BadLine(usize),
    /// The text has no data lines.
    NoData,
    /// The frequencies of the data lines are not strictly ascending.
    NotAscending,
}

/// The samples of a spectrum text, or why it cannot be read.
pub open spec fn spectrum(bytes: Seq<u8>) -> Result<Seq<Point>, ParseError> {
    let ls = lines(bytes);
    match data_points(ls, ls.len() as int) {
        Err(k) => Err(ParseError::BadLine(k)),
        Ok(ps) => if ps.len() == 0 {
            Err(ParseError::NoData)
        } else if !valid_points(ps) {
            Err(ParseError::NotAscending)
        } else {
            Ok(ps)
        },
    }
}

/// Reads a spectrum text: a header line, then lines of a frequency in hertz
/// and a gain in decibels separated by a tab. Empty lines are skipped.
pub fn parse_spectrum(bytes: &Vec<u8>) -> (r: Result<Curve, ParseError>)
    ensures
        r is Ok <==> spectrum(bytes@) is Ok,
        r matches Ok(c) ==> c.wf() && spectrum(bytes@) == Ok::<Seq<Point>, ParseError>(c@),
        r matches Err(e) ==> spectrum(bytes@) == Err::<Seq<Point>, ParseError>(e),
{
    let n = bytes.len();
    let ghost ls = lines(bytes@);
    let ghost mut done: Seq<Seq<u8>> = Seq::empty();
    let mut out: Vec<Point> = Vec::new();
    let mut lo: usize = 0;
    let mut k: usize = 0;
    assert(bytes@.skip(0) =~= bytes@);
    loop
        invariant_except_break
            done.len() == k,
            ls =~= done + lines(bytes@.skip(lo as int)),
            data_points(ls, k as int) == Ok::<Seq<Point>, usize>(out@),
        invariant
            n == bytes@.len(),
            ls == lines(bytes@),
            lo <= n,
            k <= lo,
        ensures
            data_points(ls, ls.len() as int) == Ok::<Seq<Point>, usize>(out@),
        decreases n + 1 - lo,
    {
        let t = find(bytes, lo, n, NEWLINE);
        let ghost rest = bytes@.skip(lo as int);
        proof {
            assert(bytes@.subrange(lo as int, n as int) =~= rest);
            assert(rest.take(t - lo) =~= bytes@.subrange(lo as int, t as int));
            if t < n {
                assert(rest.skip(t - lo + 1) =~= bytes@.skip(t + 1));
                assert(lines(rest) == seq![rest.take(t - lo)] + lines(bytes@.skip(t + 1)));
                assert(ls =~= done.push(bytes@.subrange(lo as int, t as int)) + lines(
                    bytes@.skip(t + 1),
                ));
            } else {
                assert(rest =~= bytes@.subrange(lo as int, t as int));
                assert(ls =~= done.push(bytes@.subrange(lo as int, t as int)));
            }
            assert(ls[k as int] == bytes@.subrange(lo as int, t as int));
        }
        if k > 0 && t > lo {
            match parse_line(bytes, lo, t) {
                Some(p) => {
                    out.push(p);
                },
                None => {
                    proof {
                        assert(data_points(ls, k + 1) == Err::<Seq<Point>, usize>((k + 1) as usize));
                        lemma_data_points_err(ls, k + 1, ls.len() as int);
                    }
                    return Err(ParseError::BadLine(k + 1));
                },
            }
        }
        proof {
            done = done.push(bytes@.subrange(lo as int, t as int));
        }
        assert(data_points(ls, k + 1) == Ok::<Seq<Point>, usize>(out@));
        if t == n {
            assert(ls.len() == k + 1);
            break ;
        }
        lo = t + 1;
        k = k + 1;
    }
    if out.len() == 0 {
        return Err(ParseError::NoData);
    }
    match Curve::new(out) {
        Ok(c) => Ok(c),
        Err(_) => Err(ParseError::NotAscending),
    }
}

} // verus!
