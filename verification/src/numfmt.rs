//! Decimal rendering and parsing of the machine integers that appear in
//! the store's file format, with round-trip lemmas: parsing the rendered
//! digits of a number (followed by anything that does not begin with a
//! digit) yields the number back.

use vstd::prelude::*;

verus! {

pub open spec fn pow10(k: nat) -> nat
    decreases k,
{
    if k == 0 {
        1
    } else {
        10 * pow10((k - 1) as nat)
    }
}

pub open spec fn is_digit(c: char) -> bool {
    48 <= c as u32 && c as u32 <= 57
}

pub open spec fn digit_val(c: char) -> nat {
    (c as u32 - 48) as nat
}

pub open spec fn digit_char(d: nat) -> char {
    if d == 0 {
        '0'
    } else if d == 1 {
        '1'
    } else if d == 2 {
        '2'
    } else if d == 3 {
        '3'
    } else if d == 4 {
        '4'
    } else if d == 5 {
        '5'
    } else if d == 6 {
        '6'
    } else if d == 7 {
        '7'
    } else if d == 8 {
        '8'
    } else {
        '9'
    }
}

/// The decimal rendering of a natural number, most significant digit
/// first, without leading zeros (`0` itself renders as `"0"`).
pub open spec fn dec_nat(n: nat) -> Seq<char>
    decreases n,
{
    if n < 10 {
        seq![digit_char(n)]
    } else {
        dec_nat(n / 10).push(digit_char(n % 10))
    }
}

/// The decimal rendering of a signed number: a minus sign for negative
/// values, then the magnitude's digits.
pub open spec fn dec_int(n: int) -> Seq<char> {
    if n >= 0 {
        dec_nat(n as nat)
    } else {
        seq!['-'] + dec_nat((-n) as nat)
    }
}

/// Length of the maximal digit prefix of `s`.
pub open spec fn digit_run_len(s: Seq<char>) -> nat
    decreases s.len(),
{
    if s.len() > 0 && is_digit(s[0]) {
        1 + digit_run_len(s.drop_first())
    } else {
        0
    }
}

/// The value of a digit sequence read left to right into an accumulator.
pub open spec fn digits_val(s: Seq<char>, acc: nat) -> nat
    decreases s.len(),
{
    if s.len() == 0 {
        acc
    } else {
        digits_val(s.drop_first(), acc * 10 + digit_val(s[0]))
    }
}

/// What parsing an unsigned decimal number off the front of `s` yields:
/// the value of the maximal digit run and the remaining characters, or
/// nothing if there is no digit or the run cannot denote a `u64`.
pub open spec fn sp_u64(s: Seq<char>) -> Option<(u64, Seq<char>)> {
    let k = digit_run_len(s);
    if k == 0 || k > 20 {
        None
    } else {
        let v = digits_val(s.take(k as int), 0);
        if v > u64::MAX {
            None
        } else {
            Some((v as u64, s.skip(k as int)))
        }
    }
}

/// What parsing a signed decimal number off the front of `s` yields.
pub open spec fn sp_i64(s: Seq<char>) -> Option<(i64, Seq<char>)> {
    if s.len() > 0 && s[0] == '-' {
        match sp_u64(s.drop_first()) {
            Some((v, rest)) => {
                if v <= 9223372036854775808u64 {
                    Some(((-(v as int)) as i64, rest))
                } else {
                    None
                }
            },
            None => None,
        }
    } else {
        match sp_u64(s) {
            Some((v, rest)) => {
                if v <= i64::MAX as u64 {
                    Some((v as i64, rest))
                } else {
                    None
                }
            },
            None => None,
        }
    }
}

fn digit_char_of(d: u8) -> (c: char)
    requires
        d < 10,
    ensures
        c == digit_char(d as nat),
{
    if d == 0 {
        '0'
    } else if d == 1 {
        '1'
    } else if d == 2 {
        '2'
    } else if d == 3 {
        '3'
    } else if d == 4 {
        '4'
    } else if d == 5 {
        '5'
    } else if d == 6 {
        '6'
    } else if d == 7 {
        '7'
    } else if d == 8 {
        '8'
    } else {
        '9'
    }
}

/// The decimal digits of `n`, most significant first.
pub fn u64_to_digits(n: u64) -> (r: Vec<char>)
    ensures
        r@ == dec_nat(n as nat),
    decreases n,
{
    if n < 10 {
        let mut v: Vec<char> = Vec::new();
        v.push(digit_char_of(n as u8));
        assert(v@ =~= seq![digit_char(n as nat)]);
        v
    } else {
        assert(n / 10 < n) by (nonlinear_arith)
            requires
                n >= 10,
        ;
        let mut v = u64_to_digits(n / 10);
        v.push(digit_char_of((n % 10) as u8));
        v
    }
}

/// Appends the decimal rendering of `n` to `out`.
pub fn push_u64(out: &mut Vec<char>, n: u64)
    ensures
        final(out)@ == old(out)@ + dec_nat(n as nat),
{
    let d = u64_to_digits(n);
    let mut i: usize = 0;
    while i < d.len()
        invariant
            i <= d.len(),
            d@ == dec_nat(n as nat),
            out@ == old(out)@ + d@.take(i as int),
        decreases d.len() - i,
    {
        out.push(d[i]);
        i = i + 1;
        assert(out@ =~= old(out)@ + d@.take(i as int));
    }
    assert(out@ =~= old(out)@ + dec_nat(n as nat));
}

/// Appends the decimal rendering of the signed number `n` to `out`.
pub fn push_i64(out: &mut Vec<char>, n: i64)
    ensures
        final(out)@ == old(out)@ + dec_int(n as int),
{
    if n >= 0 {
        push_u64(out, n as u64);
    } else {
        out.push('-');
        let m: i128 = n as i128;
        let mag: u64 = (-m) as u64;
        assert(mag as int == -(n as int));
        push_u64(out, mag);
        assert(out@ =~= old(out)@ + (seq!['-'] + dec_nat((-(n as int)) as nat)));
    }
}

fn is_digit_exec(c: char) -> (r: bool)
    ensures
        r == is_digit(c),
{
    let u = c as u32;
    48 <= u && u <= 57
}

/// Parses an unsigned decimal number starting at `pos`, returning the
/// value and the position just past its digits.
pub fn parse_u64(v: &Vec<char>, pos: usize) -> (r: Option<(u64, usize)>)
    requires
        pos <= v.len(),
    ensures
        match r {
            Some(p) => {
                &&& pos < p.1 <= v.len()
                &&& sp_u64(v@.skip(pos as int)) == Some((p.0, v@.skip(p.1 as int)))
            },
            None => sp_u64(v@.skip(pos as int)) is None,
        },
{
    let ghost s = v@.skip(pos as int);
    let mut i: usize = pos;
    while i < v.len() && is_digit_exec(v[i])
        invariant
            pos <= i <= v.len(),
            s == v@.skip(pos as int),
            digit_run_len(s) == (i - pos) + digit_run_len(v@.skip(i as int)),
            forall|j: int| pos <= j < i ==> is_digit(v@[j]),
        decreases v.len() - i,
    {
        proof {
            let cur = v@.skip(i as int);
            assert(cur[0] == v@[i as int]);
            assert(cur.drop_first() =~= v@.skip(i as int + 1));
        }
        i = i + 1;
    }
    proof {
        if i < v.len() {
            assert(v@.skip(i as int)[0] == v@[i as int]);
            assert(digit_run_len(v@.skip(i as int)) == 0);
        } else {
            assert(v@.skip(i as int).len() == 0);
            assert(digit_run_len(v@.skip(i as int)) == 0);
        }
    }
    let k: usize = i - pos;
    assert(digit_run_len(s) == k);
    if k == 0 || k > 20 {
        return None;
    }
    let ghost run = s.take(k as int);
    proof {
        assert(run.len() == k);
        assert(forall|j: int| 0 <= j < k ==> run[j] == v@[pos + j]);
        assert(pow10(20) == 0x56bc75e2d63100000) by { reveal_with_fuel(pow10, 21); }
        assert(run.skip(0) =~= run);
    }
    let mut acc: u128 = 0;
    let mut j: usize = pos;
    while j < i
        invariant
            pos <= j <= i <= v.len(),
            i - pos == k,
            s == v@.skip(pos as int),
            run == s.take(k as int),
            run.len() == k,
            k <= 20,
            forall|t: int| 0 <= t < k ==> run[t] == v@[pos + t] && is_digit(run[t]),
            digits_val(run, 0) == digits_val(run.skip((j - pos) as int), acc as nat),
            acc < pow10((j - pos) as nat),
            pow10(20) == 0x56bc75e2d63100000,
        decreases i - j,
    {
        let c = v[j];
        let d: u128 = (c as u32 - 48) as u128;
        proof {
            let m = (j - pos) as int;
            let rem = run.skip(m);
            assert(rem[0] == run[m]);
            assert(run[m] == v@[j as int]);
            assert(rem.drop_first() =~= run.skip(m + 1));
            assert(d == digit_val(c));
            assert(d <= 9);
            assert(pow10(((j - pos) + 1) as nat) == 10 * pow10((j - pos) as nat));
            assert(acc < pow10((j - pos) as nat));
            assert(acc as nat * 10 + d <= (pow10((j - pos) as nat) - 1) * 10 + 9) by (nonlinear_arith)
                requires
                    acc < pow10((j - pos) as nat),
                    d <= 9,
            ;
            assert(pow10((j - pos) as nat) <= pow10(20)) by {
                lemma_pow10_le((j - pos) as nat, 20);
            }
        }
        acc = acc * 10 + d;
        j = j + 1;
    }
    proof {
        assert(run.skip(k as int).len() == 0);
        assert(digits_val(run, 0) == acc as nat);
    }
    if acc > 0xffffffffffffffffu128 {
        return None;
    }
    proof {
        assert(s.skip(k as int) =~= v@.skip(i as int));
    }
    Some((acc as u64, i))
}

/// Parses a signed decimal number starting at `pos`.
pub fn parse_i64(v: &Vec<char>, pos: usize) -> (r: Option<(i64, usize)>)
    requires
        pos <= v.len(),
    ensures
        match r {
            Some(p) => {
                &&& pos < p.1 <= v.len()
                &&& sp_i64(v@.skip(pos as int)) == Some((p.0, v@.skip(p.1 as int)))
            },
            None => sp_i64(v@.skip(pos as int)) is None,
        },
{
    let ghost s = v@.skip(pos as int);
    if pos < v.len() && v[pos] == '-' {
        proof {
            assert(s[0] == v@[pos as int]);
            assert(s.drop_first() =~= v@.skip(pos as int + 1));
        }
        match parse_u64(v, pos + 1) {
            Some((val, p)) => {
                if val <= 9223372036854775807u64 {
                    Some((-(val as i64), p))
                } else if val == 9223372036854775808u64 {
                    Some((i64::MIN, p))
                } else {
                    None
                }
            },
            None => None,
        }
    } else {
        proof {
            if s.len() > 0 {
                assert(s[0] == v@[pos as int]);
            }
        }
        match parse_u64(v, pos) {
            Some((val, p)) => {
                if val <= 0x7fffffffffffffffu64 {
                    Some((val as i64, p))
                } else {
                    None
                }
            },
            None => None,
        }
    }
}

proof fn lemma_pow10_le(a: nat, b: nat)
    requires
        a <= b,
    ensures
        pow10(a) <= pow10(b),
    decreases b,
{
    if a < b {
        lemma_pow10_le(a, (b - 1) as nat);
        assert(pow10(b) == 10 * pow10((b - 1) as nat));
        assert(pow10((b - 1) as nat) <= 10 * pow10((b - 1) as nat)) by (nonlinear_arith)
            requires
                pow10((b - 1) as nat) >= 0,
        ;
    }
}

/// Every character of a decimal rendering is a digit, and there is at
/// least one of them.
pub proof fn lemma_dec_nat_digits(n: nat)
    ensures
        dec_nat(n).len() >= 1,
        forall|i: int| 0 <= i < dec_nat(n).len() ==> is_digit(#[trigger] dec_nat(n)[i]),
    decreases n,
{
    if n < 10 {
        assert(is_digit(digit_char(n)));
    } else {
        lemma_dec_nat_digits(n / 10);
        assert(is_digit(digit_char(n % 10)));
        assert(forall|i: int| 0 <= i < dec_nat(n).len() - 1 ==> dec_nat(n)[i] == dec_nat(n / 10)[i]);
    }
}

/// A number below `pow10(k)` renders in at most `k` digits.
pub proof fn lemma_dec_nat_len(n: nat, k: nat)
    requires
        n < pow10(k),
        k >= 1,
    ensures
        dec_nat(n).len() <= k,
    decreases n,
{
    if n < 10 {
    } else {
        assert(pow10(k) == 10 * pow10((k - 1) as nat));
        assert(n / 10 < pow10((k - 1) as nat)) by (nonlinear_arith)
            requires
                n < 10 * pow10((k - 1) as nat),
                n >= 10,
        ;
        assert(pow10((k - 1) as nat) > 1) by {
            if k - 1 == 0 {
                assert(n / 10 < 1);
                assert(n < 10) by (nonlinear_arith)
                    requires
                        n / 10 < 1,
                        n >= 0,
                ;
            } else {
                lemma_pow10_le(1, (k - 1) as nat);
            }
        }
        assert(n / 10 < n) by (nonlinear_arith)
            requires
                n >= 10,
        ;
        lemma_dec_nat_len(n / 10, (k - 1) as nat);
    }
}

proof fn lemma_digits_val_concat(s: Seq<char>, t: Seq<char>, acc: nat)
    ensures
        digits_val(s + t, acc) == digits_val(t, digits_val(s, acc)),
    decreases s.len(),
{
    if s.len() == 0 {
        assert(s + t =~= t);
    } else {
        assert((s + t).drop_first() =~= s.drop_first() + t);
        assert((s + t)[0] == s[0]);
        lemma_digits_val_concat(s.drop_first(), t, acc * 10 + digit_val(s[0]));
    }
}

proof fn lemma_digits_val_single(c: char, acc: nat)
    ensures
        digits_val(seq![c], acc) == acc * 10 + digit_val(c),
{
    let e = seq![c].drop_first();
    assert(e =~= Seq::<char>::empty());
    assert(seq![c][0] == c);
    assert(digits_val(e, acc * 10 + digit_val(c)) == acc * 10 + digit_val(c));
}

/// Reading back the digits of `n` into accumulator `acc` yields
/// `acc * pow10(len) + n`.
proof fn lemma_digits_val_dec(n: nat, acc: nat)
    ensures
        digits_val(dec_nat(n), acc) == acc * pow10(dec_nat(n).len()) + n,
    decreases n,
{
    if n < 10 {
        assert(dec_nat(n) == seq![digit_char(n)]);
        lemma_digits_val_single(digit_char(n), acc);
        assert(digit_val(digit_char(n)) == n);
        assert(pow10(1) == 10) by { reveal_with_fuel(pow10, 2); }
    } else {
        assert(n / 10 < n) by (nonlinear_arith)
            requires
                n >= 10,
        ;
        lemma_digits_val_dec(n / 10, acc);
        let front = dec_nat(n / 10);
        let d = digit_char(n % 10);
        assert(dec_nat(n) =~= front + seq![d]);
        lemma_digits_val_concat(front, seq![d], acc);
        let mid = digits_val(front, acc);
        lemma_digits_val_single(d, mid);
        assert(digit_val(d) == n % 10);
        assert(mid == acc * pow10(front.len()) + n / 10);
        assert(dec_nat(n).len() == front.len() + 1);
        assert(pow10(front.len() + 1) == 10 * pow10(front.len()));
        assert((acc * pow10(front.len()) + n / 10) * 10 + n % 10 == acc * (10 * pow10(
            front.len(),
        )) + (n / 10) * 10 + n % 10) by (nonlinear_arith);
        assert((n / 10) * 10 + n % 10 == n) by (nonlinear_arith)
            requires
                n >= 0,
        ;
    }
}

proof fn lemma_run_len_concat(s: Seq<char>, t: Seq<char>)
    requires
        forall|i: int| 0 <= i < s.len() ==> is_digit(#[trigger] s[i]),
        t.len() == 0 || !is_digit(t[0]),
    ensures
        digit_run_len(s + t) == s.len(),
    decreases s.len(),
{
    if s.len() == 0 {
        assert(s + t =~= t);
    } else {
        assert((s + t)[0] == s[0]);
        assert((s + t).drop_first() =~= s.drop_first() + t);
        lemma_run_len_concat(s.drop_first(), t);
    }
}

/// Round trip for unsigned numbers: the rendered digits of `n`, followed
/// by anything that does not begin with a digit, parse back to `n`.
pub proof fn lemma_parse_dec_u64(n: u64, rest: Seq<char>)
    requires
        rest.len() == 0 || !is_digit(rest[0]),
    ensures
        sp_u64(dec_nat(n as nat) + rest) == Some((n, rest)),
{
    let d = dec_nat(n as nat);
    let s = d + rest;
    lemma_dec_nat_digits(n as nat);
    lemma_run_len_concat(d, rest);
    assert(digit_run_len(s) == d.len());
    assert(pow10(20) == 0x56bc75e2d63100000) by { reveal_with_fuel(pow10, 21); }
    lemma_dec_nat_len(n as nat, 20);
    assert(s.take(d.len() as int) =~= d);
    lemma_digits_val_dec(n as nat, 0);
    assert(digits_val(d, 0) == n);
    assert(s.skip(d.len() as int) =~= rest);
}

/// Round trip for signed numbers.
pub proof fn lemma_parse_dec_i64(n: i64, rest: Seq<char>)
    requires
        rest.len() == 0 || !is_digit(rest[0]),
    ensures
        sp_i64(dec_int(n as int) + rest) == Some((n, rest)),
{
    if n >= 0 {
        lemma_parse_dec_u64(n as u64, rest);
        let s = dec_nat(n as nat) + rest;
        lemma_dec_nat_digits(n as nat);
        assert(s[0] == dec_nat(n as nat)[0]);
        assert(is_digit(s[0]));
        assert(s[0] != '-') by {
            assert('-' as u32 == 45);
        }
    } else {
        let mag = (-(n as int)) as nat;
        let magd = dec_nat(mag);
        let s = (seq!['-'] + magd) + rest;
        assert(s[0] == '-');
        assert(s.drop_first() =~= magd + rest);
        let m64: u64 = mag as u64;
        assert(m64 as nat == mag);
        lemma_parse_dec_u64(m64, rest);
        assert(sp_u64(s.drop_first()) == Some((m64, rest)));
        assert(m64 <= 9223372036854775808u64);
        assert((-(m64 as int)) as i64 == n);
    }
}

} // verus!
