use vstd::prelude::*;
use vstd::string::StringExecFns;
use crate::model::{FrameModel, FrameV};

verus! {

/// Descriptive statistics of one decoded animation.
#[derive(Debug)]
pub struct Summary {
    /// Canvas width shared by the frames.
    pub width: u32,
    /// Canvas height shared by the frames.
    pub height: u32,
    /// Number of frames.
    pub frame_count: usize,
    /// Sum of all frame delays, in milliseconds.
    pub total_duration_ms: u128,
    /// The source's byte size, written out in kilobytes or megabytes.
    pub size_text: String,
}

/// Sum of the delays of the first `k` frames, in milliseconds.
pub open spec fn total_delay(fs: Seq<FrameV>, k: int) -> int
    decreases k,
{
    if k <= 0 { 0 } else { total_delay(fs, k - 1) + fs[k - 1].5 }
}

/// The character for one decimal digit.
pub open spec fn digit_char(d: int) -> char {
    if d == 0 { '0' } else if d == 1 { '1' } else if d == 2 { '2' } else if d == 3 { '3' }
    else if d == 4 { '4' } else if d == 5 { '5' } else if d == 6 { '6' } else if d == 7 { '7' }
    else if d == 8 { '8' } else { '9' }
}

/// The decimal digits of `n`, most significant first.
pub open spec fn dec_digits(n: int) -> Seq<char>
    recommends
        n >= 0,
    decreases n,
{
    if n < 10 { seq![digit_char(n)] } else { dec_digits(n / 10).push(digit_char(n % 10)) }
}

/// The integer nearest to `num / den`, ties going to the even neighbour.
pub open spec fn round_half_even(num: int, den: int) -> int
    recommends
        den > 0,
{
    let q = num / den;
    let r = num % den;
    if 2 * r > den { q + 1 } else if 2 * r < den { q } else if q % 2 == 0 { q } else { q + 1 }
}

/// `h` hundredths written as a decimal number with two fraction digits.
pub open spec fn hundredths_text(h: int) -> Seq<char>
    recommends
        h >= 0,
{
    dec_digits(h / 100) + seq!['.', digit_char(h / 10 % 10), digit_char(h % 10)]
}

/// A byte count written out: megabytes with two decimals at one megabyte and
/// above, kilobytes with two decimals below, either way rounded to the
/// nearest hundredth with ties to even.
pub open spec fn format_size_spec(bytes: int) -> Seq<char> {
    if bytes >= 1048576 {
        hundredths_text(round_half_even(bytes * 100, 1048576)) + seq![' ', 'M', 'B']
    } else {
        hundredths_text(round_half_even(bytes * 100, 1024)) + seq![' ', 'K', 'B']
    }
}

/// One decimal digit as a string slice.
fn digit_str(d: u64) -> (r: &'static str)
    requires
        d < 10,
    ensures
        r@ == seq![digit_char(d as int)],
{
    proof {
        reveal_strlit("0");
        reveal_strlit("1");
        reveal_strlit("2");
        reveal_strlit("3");
        reveal_strlit("4");
        reveal_strlit("5");
        reveal_strlit("6");
        reveal_strlit("7");
        reveal_strlit("8");
        reveal_strlit("9");
    }
    let r: &'static str = match d {
        0 => "0",
        1 => "1",
        2 => "2",
        3 => "3",
        4 => "4",
        5 => "5",
        6 => "6",
        7 => "7",
        8 => "8",
        _ => "9",
    };
    proof {
        assert(r@ =~= seq![digit_char(d as int)]);
    }
    r
}

/// `n` written out in decimal.
pub fn dec_str(n: u64) -> (s: String)
    ensures
        s@ == dec_digits(n as int),
    decreases n,
{
    if n < 10 {
        let s = String::from_str(digit_str(n));
        proof {
            assert(s@ =~= dec_digits(n as int));
        }
        s
    } else {
        proof {
            vstd::arithmetic::div_mod::lemma_fundamental_div_mod(n as int, 10);
            vstd::arithmetic::div_mod::lemma_mod_bound(n as int, 10);
            crate::grid::lemma_div_below(n as int, 10, n as int);
        }
        let mut s = dec_str(n / 10);
        s.append(digit_str(n % 10));
        proof {
            assert(s@ =~= dec_digits(n as int));
        }
        s
    }
}

/// Round `num / den` to the nearest integer, ties to even.
fn round_half_even_exec(num: u128, den: u128) -> (r: u128)
    requires
        den > 0,
        den <= u64::MAX,
        num < u64::MAX as u128 * den,
    ensures
        r as int == round_half_even(num as int, den as int),
        r <= u64::MAX,
{
    let q: u128 = num / den;
    let rr: u128 = num % den;
    proof {
        crate::grid::lemma_div_below(num as int, den as int, u64::MAX as int);
        vstd::arithmetic::div_mod::lemma_mod_bound(num as int, den as int);
    }
    if 2 * rr > den {
        q + 1
    } else if 2 * rr < den {
        q
    } else if q % 2 == 0 {
        q
    } else {
        q + 1
    }
}

/// Write a byte count out in kilobytes or megabytes with two decimals.
pub fn format_size(bytes: usize) -> (s: String)
    ensures
        s@ == format_size_spec(bytes as int),
{
    proof {
        reveal_strlit(".");
        reveal_strlit(" MB");
        reveal_strlit(" KB");
    }
    let den: u128 = if bytes >= 1048576 { 1048576 } else { 1024 };
    let num: u128 = (bytes as u128) * 100;
    proof {
        crate::pixels::lemma_mul_le(bytes as int, u64::MAX as int, 100, 100);
        assert(num < u64::MAX as u128 * den) by (nonlinear_arith)
            requires num as int <= u64::MAX as int * 100, den >= 1024, num == num;
    }
    let h: u128 = round_half_even_exec(num, den);
    proof {
        vstd::arithmetic::div_mod::lemma_fundamental_div_mod(h as int, 100);
        vstd::arithmetic::div_mod::lemma_mod_bound(h as int, 100);
        vstd::arithmetic::div_mod::lemma_mod_bound(h as int, 10);
        crate::grid::lemma_div_below(h as int, 100, u64::MAX as int);
        vstd::arithmetic::div_mod::lemma_mod_bound(h as int / 10, 10);
    }
    let mut s = dec_str((h / 100) as u64);
    s.append(".");
    s.append(digit_str((h / 10 % 10) as u64));
    s.append(digit_str((h % 10) as u64));
    if bytes >= 1048576 {
        s.append(" MB");
        proof {
            assert(s@ =~= format_size_spec(bytes as int));
        }
        s
    } else {
        s.append(" KB");
        proof {
            assert(s@ =~= format_size_spec(bytes as int));
        }
        s
    }
}

/// Read an animation's statistics off its frame model: shared canvas size,
/// frame count, total duration as the sum of all frame delays, and the
/// formatted byte size of the source buffer. Read-only.
pub fn describe(m: &FrameModel, byte_size: usize) -> (s: Summary)
    requires
        m.wf(),
    ensures
        s.width as int == m.frame_w(),
        s.height as int == m.frame_h(),
        s.frame_count == m@.len(),
        s.total_duration_ms as int == total_delay(m@, m@.len() as int),
        s.size_text@ == format_size_spec(byte_size as int),
{
    let n = m.frames.len();
    let mut total: u128 = 0;
    let mut i: usize = 0;
    while i < n
        invariant
            m.wf(),
            n == m.frames@.len(),
            m@.len() == m.frames@.len(),
            i <= n,
            total as int == total_delay(m@, i as int),
            total as int <= i as int * (u64::MAX as int),
        decreases n - i,
    {
        let d = m.frames[i].delay_ms;
        proof {
            assert(m@[i as int] == crate::model::frame_v(m.frames@[i as int]));
            assert((i as int + 1) * (u64::MAX as int) == i as int * (u64::MAX as int)
                + u64::MAX as int) by (nonlinear_arith);
            crate::pixels::lemma_mul_le(i as int, u64::MAX as int, u64::MAX as int,
                u64::MAX as int);
        }
        total = total + (d as u128);
        i = i + 1;
    }
    Summary {
        width: m.frames[0].buffer.width,
        height: m.frames[0].buffer.height,
        frame_count: n,
        total_duration_ms: total,
        size_text: format_size(byte_size),
    }
}

} // verus!
