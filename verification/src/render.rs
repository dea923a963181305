//! Renders a synthesized entry as a plain-text ledger block: a date and
//! narration line, the first posting with its currency-tagged amount, and the
//! balancing posting with its amount elided.

use vstd::prelude::*;
use crate::bridge::string_from_chars;
use crate::distance::str_to_chars;
use crate::model::{Amount, Date, Entry, pow10};

verus! {

/// The digit character for one decimal digit.
pub open spec fn digit_char(d: nat) -> char {
    if d == 0 {
        '0'
    } else if d == 1 {
        '1'
    } else if d == 2 {
        '2'
    } else if d == 3 {
        '3'
    } else if d == 4 {
        '4'
    } else if d == 5 {
        '5'
    } else if d == 6 {
        '6'
    } else if d == 7 {
        '7'
    } else if d == 8 {
        '8'
    } else {
        '9'
    }
}

/// The decimal digits of `n`, most significant first, empty for zero.
pub open spec fn digits_rec(n: nat) -> Seq<char>
    decreases n,
{
    if n == 0 {
        Seq::empty()
    } else {
        digits_rec(n / 10).push(digit_char(n % 10))
    }
}

/// The decimal rendering of `n`, `"0"` for zero.
pub open spec fn dec_str(n: nat) -> Seq<char> {
    if n == 0 {
        seq!['0']
    } else {
        digits_rec(n)
    }
}

/// `k` zero characters.
pub open spec fn zeroes(k: nat) -> Seq<char>
    decreases k,
{
    if k == 0 {
        Seq::empty()
    } else {
        seq!['0'] + zeroes((k - 1) as nat)
    }
}

/// `n` in decimal, left-padded with zeros to at least `w` characters.
pub open spec fn padded(n: nat, w: nat) -> Seq<char> {
    if dec_str(n).len() >= w {
        dec_str(n)
    } else {
        zeroes((w - dec_str(n).len()) as nat) + dec_str(n)
    }
}

/// A date as `YYYY-MM-DD`.
pub open spec fn date_str(d: Date) -> Seq<char> {
    padded(d.year as nat, 4) + seq!['-'] + padded(d.month as nat, 2) + seq!['-'] + padded(
        d.day as nat,
        2,
    )
}

/// An amount in decimal notation, the fractional part zero-padded to the
/// amount's scale, with a leading minus sign when negative.
pub open spec fn amount_str(a: Amount) -> Seq<char> {
    let m = (if a.mantissa < 0 {
        -(a.mantissa as int)
    } else {
        a.mantissa as int
    }) as nat;
    let sign: Seq<char> = if a.mantissa < 0 {
        seq!['-']
    } else {
        Seq::empty()
    };
    if a.scale == 0 {
        sign + dec_str(m)
    } else {
        let p = pow10(a.scale as nat);
        sign + dec_str((m as int / p) as nat) + seq!['.'] + padded(
            (m as int % p) as nat,
            a.scale as nat,
        )
    }
}

/// An entry as a ledger text block: the second posting's amount is elided, as
/// the balancing remainder.
pub open spec fn render_entry_spec(e: Entry) -> Seq<char> {
    date_str(e.date) + seq![' '] + e.narration@ + seq!['\n', '\t'] + e.first.account@ + seq!['\t']
        + seq!['N', 'O', 'K'] + amount_str(e.first.amount) + seq!['\n', '\t'] + e.second.account@
}

pub proof fn lemma_pow10_pos(e: nat)
    ensures
        pow10(e) >= 1,
    decreases e,
{
    if e > 0 {
        lemma_pow10_pos((e - 1) as nat);
    }
}

proof fn lemma_pow10_mono(a: nat, b: nat)
    requires
        a <= b,
    ensures
        pow10(a) <= pow10(b),
    decreases b,
{
    if a < b {
        lemma_pow10_mono(a, (b - 1) as nat);
        lemma_pow10_pos((b - 1) as nat);
    }
}

/// 10 to the `e`, exactly; `e` stays within the scales a decimal can carry.
fn pow10_exec(e: u32) -> (r: i128)
    requires
        e <= 28,
    ensures
        r == pow10(e as nat),
        r >= 1,
{
    proof {
        reveal_with_fuel(pow10, 29);
        assert(pow10(28) == 10000000000000000000000000000int);
    }
    let mut r: i128 = 1;
    let mut k: u32 = 0;
    while k < e
        invariant
            k <= e <= 28,
            r == pow10(k as nat),
            pow10(28) == 10000000000000000000000000000int,
        decreases e - k,
    {
        proof {
            lemma_pow10_mono(k as nat + 1, 28);
            lemma_pow10_pos(k as nat);
        }
        r = r * 10;
        k = k + 1;
    }
    proof {
        lemma_pow10_pos(e as nat);
    }
    r
}

fn digit_char_exec(d: u32) -> (c: char)
    requires
        d < 10,
    ensures
        c == digit_char(d as nat),
{
    if d == 0 {
        '0'
    } else if d == 1 {
        '1'
    } else if d == 2 {
        '2'
    } else if d == 3 {
        '3'
    } else if d == 4 {
        '4'
    } else if d == 5 {
        '5'
    } else if d == 6 {
        '6'
    } else if d == 7 {
        '7'
    } else if d == 8 {
        '8'
    } else {
        '9'
    }
}

/// Appends the decimal rendering of `n` to `out`.
fn push_dec(out: &mut Vec<char>, n: i128)
    requires
        n >= 0,
    ensures
        final(out)@ == old(out)@ + dec_str(n as nat),
{
    if n == 0 {
        out.push('0');
        proof {
            assert(old(out)@.push('0') =~= old(out)@ + dec_str(0));
        }
        return ;
    }
    let mut tmp: Vec<char> = Vec::new();
    let mut x: i128 = n;
    proof {
        assert(digits_rec(x as nat) + tmp@ =~= digits_rec(n as nat));
    }
    while x > 0
        invariant
            0 <= x <= n,
            digits_rec(x as nat) + tmp@ == digits_rec(n as nat),
        decreases x,
    {
        let ghost xo = x as nat;
        let ghost to = tmp@;
        let d = (x % 10) as u32;
        tmp.insert(0, digit_char_exec(d));
        x = x / 10;
        proof {
            assert(digits_rec(xo) == digits_rec(xo / 10).push(digit_char(xo % 10)));
            assert(tmp@ =~= seq![digit_char(xo % 10)] + to);
            assert(digits_rec(x as nat).push(digit_char(xo % 10)) + to =~= digits_rec(x as nat) + (
            seq![digit_char(xo % 10)] + to));
        }
    }
    proof {
        assert(digits_rec(0) + tmp@ =~= tmp@);
        assert(tmp@ == dec_str(n as nat));
    }
    out.append(&mut tmp);
}

/// Appends `n` in decimal, zero-padded on the left to at least `width`
/// characters.
fn push_padded(out: &mut Vec<char>, n: i128, width: usize)
    requires
        n >= 0,
    ensures
        final(out)@ == old(out)@ + padded(n as nat, width as nat),
{
    let mut tmp: Vec<char> = Vec::new();
    push_dec(&mut tmp, n);
    proof {
        assert(tmp@ =~= zeroes(0) + dec_str(n as nat));
    }
    while tmp.len() < width
        invariant
            n >= 0,
            tmp@.len() >= dec_str(n as nat).len(),
            tmp@.len() == dec_str(n as nat).len() || tmp@.len() <= width,
            tmp@ == zeroes((tmp@.len() - dec_str(n as nat).len()) as nat) + dec_str(n as nat),
        decreases width - tmp@.len(),
    {
        let ghost k = (tmp@.len() - dec_str(n as nat).len()) as nat;
        tmp.insert(0, '0');
        proof {
            assert(zeroes(k + 1) == seq!['0'] + zeroes(k));
            assert(tmp@ =~= zeroes(k + 1) + dec_str(n as nat));
        }
    }
    proof {
        assert(zeroes(0) + dec_str(n as nat) =~= dec_str(n as nat));
        assert(tmp@ == padded(n as nat, width as nat));
    }
    out.append(&mut tmp);
}

/// Appends the characters of `s` to `out`.
fn push_str_chars(out: &mut Vec<char>, s: &str)
    ensures
        final(out)@ == old(out)@ + s@,
{
    let mut tmp = str_to_chars(s);
    out.append(&mut tmp);
}

/// Appends the decimal notation of `a`.
fn push_amount(out: &mut Vec<char>, a: &Amount)
    requires
        a.valid(),
    ensures
        final(out)@ == old(out)@ + amount_str(*a),
{
    let ghost o = out@;
    let neg = a.mantissa < 0;
    let m: i128 = if neg {
        -a.mantissa
    } else {
        a.mantissa
    };
    if neg {
        out.push('-');
        proof {
            assert(out@ =~= o + seq!['-']);
        }
    }
    let ghost so = out@;
    let ghost sign: Seq<char> = if neg {
        seq!['-']
    } else {
        Seq::<char>::empty()
    };
    proof {
        assert(so =~= o + sign);
    }
    if a.scale == 0 {
        push_dec(out, m);
        proof {
            assert(out@ =~= o + (sign + dec_str(m as nat)));
        }
    } else {
        let p = pow10_exec(a.scale);
        push_dec(out, m / p);
        out.push('.');
        push_padded(out, m % p, a.scale as usize);
        proof {
            assert(out@ =~= o + (sign + dec_str((m / p) as nat) + seq!['.'] + padded(
                (m % p) as nat,
                a.scale as nat,
            )));
        }
    }
}

/// Renders one entry as its ledger text block.
pub fn render_entry(e: &Entry) -> (r: String)
    requires
        e.date.valid(),
        e.first.amount.valid(),
    ensures
        r@ == render_entry_spec(*e),
{
    let mut out: Vec<char> = Vec::new();
    push_padded(&mut out, e.date.year as i128, 4);
    out.push('-');
    push_padded(&mut out, e.date.month as i128, 2);
    out.push('-');
    push_padded(&mut out, e.date.day as i128, 2);
    proof {
        assert(out@ =~= date_str(e.date));
    }
    out.push(' ');
    push_str_chars(&mut out, e.narration.as_str());
    out.push('\n');
    out.push('\t');
    push_str_chars(&mut out, e.first.account.as_str());
    out.push('\t');
    out.push('N');
    out.push('O');
    out.push('K');
    proof {
        assert(out@ =~= date_str(e.date) + seq![' '] + e.narration@ + seq!['\n', '\t']
            + e.first.account@ + seq!['\t'] + seq!['N', 'O', 'K']);
    }
    push_amount(&mut out, &e.first.amount);
    out.push('\n');
    out.push('\t');
    push_str_chars(&mut out, e.second.account.as_str());
    proof {
        assert(out@ =~= render_entry_spec(*e));
    }
    string_from_chars(&out)
}

} // verus!
