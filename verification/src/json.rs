//! JSON primitives for the store's file format: quoted strings with
//! escaping, fixed literal tokens, and booleans. Each construct has a
//! spec-level encoder, a spec-level parser over `Seq<char>`, executable
//! versions proved against them, and round-trip lemmas showing the
//! parser inverts the encoder.

use vstd::prelude::*;
use vstd::string::StrSliceExecFns;
use crate::numfmt::{digit_char, is_digit};

verus! {

pub open spec fn hex_char(d: nat) -> char {
    if d < 10 {
        digit_char(d)
    } else if d == 10 {
        'a'
    } else if d == 11 {
        'b'
    } else if d == 12 {
        'c'
    } else if d == 13 {
        'd'
    } else if d == 14 {
        'e'
    } else {
        'f'
    }
}

pub open spec fn is_hex(c: char) -> bool {
    is_digit(c) || (97 <= c as u32 && c as u32 <= 102)
}

pub open spec fn hex_val(c: char) -> nat {
    if is_digit(c) {
        (c as u32 - 48) as nat
    } else {
        (c as u32 - 87) as nat
    }
}

/// How one character is written inside a quoted JSON string: quotes and
/// backslashes get a backslash escape, control characters a `\u00XX`
/// escape, everything else stands for itself.
pub open spec fn esc_char(c: char) -> Seq<char> {
    if c == '"' {
        seq!['\\', '"']
    } else if c == '\\' {
        seq!['\\', '\\']
    } else if (c as u32) < 32 {
        seq!['\\', 'u', '0', '0', hex_char((c as u32 / 16) as nat), hex_char((c as u32 % 16) as nat)]
    } else {
        seq![c]
    }
}

pub open spec fn esc_str(s: Seq<char>) -> Seq<char>
    decreases s.len(),
{
    if s.len() == 0 {
        Seq::empty()
    } else {
        esc_char(s[0]) + esc_str(s.drop_first())
    }
}

/// A quoted JSON string: the escaped body between double quotes.
pub open spec fn enc_str(s: Seq<char>) -> Seq<char> {
    seq!['"'] + esc_str(s) + seq!['"']
}

/// What parsing a quoted-string body (the part after the opening quote)
/// yields: the unescaped characters and whatever follows the closing
/// quote.
pub open spec fn sp_str_body(s: Seq<char>) -> Option<(Seq<char>, Seq<char>)>
    decreases s.len(),
{
    if s.len() == 0 {
        None
    } else if s[0] == '"' {
        Some((Seq::empty(), s.drop_first()))
    } else if s[0] == '\\' {
        if s.len() < 2 {
            None
        } else if s[1] == '"' || s[1] == '\\' {
            match sp_str_body(s.skip(2)) {
                Some(p) => Some((seq![s[1]] + p.0, p.1)),
                None => None,
            }
        } else if s[1] == 'u' {
            if s.len() < 6 {
                None
            } else if is_hex(s[2]) && is_hex(s[3]) && is_hex(s[4]) && is_hex(s[5]) {
                let v = ((hex_val(s[2]) * 16 + hex_val(s[3])) * 16 + hex_val(s[4])) * 16 + hex_val(
                    s[5],
                );
                if v < 256 {
                    match sp_str_body(s.skip(6)) {
                        Some(p) => Some((seq![(v as u32) as char] + p.0, p.1)),
                        None => None,
                    }
                } else {
                    None
                }
            } else {
                None
            }
        } else {
            None
        }
    } else {
        match sp_str_body(s.drop_first()) {
            Some(p) => Some((seq![s[0]] + p.0, p.1)),
            None => None,
        }
    }
}

/// What parsing a whole quoted string yields.
pub open spec fn sp_str(s: Seq<char>) -> Option<(Seq<char>, Seq<char>)> {
    if s.len() > 0 && s[0] == '"' {
        sp_str_body(s.drop_first())
    } else {
        None
    }
}

/// What matching the fixed token `lit` at the front of `s` yields: the
/// remaining characters, if the token is there.
pub open spec fn sp_lit(s: Seq<char>, lit: Seq<char>) -> Option<Seq<char>> {
    if lit.len() <= s.len() && s.take(lit.len() as int) == lit {
        Some(s.skip(lit.len() as int))
    } else {
        None
    }
}

pub open spec fn true_chars() -> Seq<char> {
    seq!['t', 'r', 'u', 'e']
}

pub open spec fn false_chars() -> Seq<char> {
    seq!['f', 'a', 'l', 's', 'e']
}

pub open spec fn enc_bool(b: bool) -> Seq<char> {
    if b {
        true_chars()
    } else {
        false_chars()
    }
}

/// What parsing a boolean literal off the front of `s` yields.
pub open spec fn sp_bool(s: Seq<char>) -> Option<(bool, Seq<char>)> {
    match sp_lit(s, true_chars()) {
        Some(rest) => Some((true, rest)),
        None => match sp_lit(s, false_chars()) {
            Some(rest) => Some((false, rest)),
            None => None,
        },
    }
}

fn hex_char_of(d: u32) -> (c: char)
    requires
        d < 16,
    ensures
        c == hex_char(d as nat),
{
    if d == 0 {
        '0'
    } else if d == 1 {
        '1'
    } else if d == 2 {
        '2'
    } else if d == 3 {
        '3'
    } else if d == 4 {
        '4'
    } else if d == 5 {
        '5'
    } else if d == 6 {
        '6'
    } else if d == 7 {
        '7'
    } else if d == 8 {
        '8'
    } else if d == 9 {
        '9'
    } else if d == 10 {
        'a'
    } else if d == 11 {
        'b'
    } else if d == 12 {
        'c'
    } else if d == 13 {
        'd'
    } else if d == 14 {
        'e'
    } else {
        'f'
    }
}

proof fn lemma_esc_str_concat(a: Seq<char>, b: Seq<char>)
    ensures
        esc_str(a + b) == esc_str(a) + esc_str(b),
    decreases a.len(),
{
    if a.len() == 0 {
        assert(a + b =~= b);
        assert(esc_str(a) + esc_str(b) =~= esc_str(b));
    } else {
        assert((a + b)[0] == a[0]);
        assert((a + b).drop_first() =~= a.drop_first() + b);
        lemma_esc_str_concat(a.drop_first(), b);
        assert(esc_char(a[0]) + (esc_str(a.drop_first()) + esc_str(b)) =~= (esc_char(a[0])
            + esc_str(a.drop_first())) + esc_str(b));
    }
}

proof fn lemma_esc_str_single(c: char)
    ensures
        esc_str(seq![c]) == esc_char(c),
{
    reveal_with_fuel(esc_str, 2);
    assert(seq![c].drop_first() =~= Seq::<char>::empty());
    assert(esc_str(seq![c]) =~= esc_char(c) + esc_str(Seq::<char>::empty()));
    assert(esc_char(c) + Seq::<char>::empty() =~= esc_char(c));
}

/// Appends the quoted, escaped form of `s` to `out`.
pub fn push_quoted(out: &mut Vec<char>, s: &Vec<char>)
    ensures
        final(out)@ == old(out)@ + enc_str(s@),
{
    out.push('"');
    let mut i: usize = 0;
    while i < s.len()
        invariant
            i <= s.len(),
            out@ == old(out)@ + seq!['"'] + esc_str(s@.take(i as int)),
        decreases s.len() - i,
    {
        let c = s[i];
        let u = c as u32;
        proof {
            assert(s@.take(i as int + 1) =~= s@.take(i as int) + seq![c]);
            lemma_esc_str_concat(s@.take(i as int), seq![c]);
            lemma_esc_str_single(c);
        }
        if c == '"' {
            out.push('\\');
            out.push('"');
        } else if c == '\\' {
            out.push('\\');
            out.push('\\');
        } else if u < 32 {
            out.push('\\');
            out.push('u');
            out.push('0');
            out.push('0');
            out.push(hex_char_of(u / 16));
            out.push(hex_char_of(u % 16));
        } else {
            out.push(c);
        }
        i = i + 1;
        assert(out@ =~= old(out)@ + seq!['"'] + esc_str(s@.take(i as int)));
    }
    out.push('"');
    proof {
        assert(s@.take(s@.len() as int) =~= s@);
        assert(out@ =~= old(out)@ + enc_str(s@));
    }
}

fn hex_val_exec(c: char) -> (r: Option<u32>)
    ensures
        match r {
            Some(d) => is_hex(c) && d as nat == hex_val(c) && d < 16,
            None => !is_hex(c),
        },
{
    let u = c as u32;
    if 48 <= u && u <= 57 {
        Some(u - 48)
    } else if 97 <= u && u <= 102 {
        Some(u - 87)
    } else {
        None
    }
}

/// Parses a quoted string starting at `pos`, returning its unescaped
/// body and the position after the closing quote.
pub fn parse_string(v: &Vec<char>, pos: usize) -> (r: Option<(Vec<char>, usize)>)
    requires
        pos <= v.len(),
    ensures
        match r {
            Some(p) => {
                &&& pos < p.1 <= v.len()
                &&& sp_str(v@.skip(pos as int)) == Some((p.0@, v@.skip(p.1 as int)))
            },
            None => sp_str(v@.skip(pos as int)) is None,
        },
{
    if pos >= v.len() || v[pos] != '"' {
        proof {
            if pos < v.len() {
                assert(v@.skip(pos as int)[0] == v@[pos as int]);
            }
        }
        return None;
    }
    proof {
        assert(v@.skip(pos as int)[0] == v@[pos as int]);
        assert(v@.skip(pos as int).drop_first() =~= v@.skip(pos as int + 1));
    }
    let ghost s0 = v@.skip(pos as int + 1);
    let mut res: Vec<char> = Vec::new();
    let mut cur: usize = pos + 1;
    loop
        invariant
            pos < v.len(),
            pos + 1 <= cur <= v.len(),
            s0 == v@.skip(pos as int + 1),
            v@.skip(pos as int).len() > 0,
            v@.skip(pos as int)[0] == '"',
            v@.skip(pos as int).drop_first() == s0,
            match sp_str_body(v@.skip(cur as int)) {
                Some(p) => sp_str_body(s0) == Some((res@ + p.0, p.1)),
                None => sp_str_body(s0) is None,
            },
        decreases v.len() - cur,
    {
        if cur == v.len() {
            proof {
                assert(v@.skip(cur as int).len() == 0);
            }
            return None;
        }
        let c = v[cur];
        let ghost sc = v@.skip(cur as int);
        proof {
            assert(sc[0] == v@[cur as int]);
            assert(sc.drop_first() =~= v@.skip(cur as int + 1));
        }
        if c == '"' {
            proof {
                assert(sp_str_body(sc) == Some((Seq::<char>::empty(), v@.skip(cur as int + 1))));
                assert(res@ + Seq::<char>::empty() =~= res@);
            }
            return Some((res, cur + 1));
        } else if c == '\\' {
            if v.len() - cur < 2 {
                proof {
                    assert(sc.len() < 2);
                }
                return None;
            }
            let e = v[cur + 1];
            proof {
                assert(sc[1] == v@[cur as int + 1]);
            }
            if e == '"' || e == '\\' {
                proof {
                    assert(sc.skip(2) =~= v@.skip(cur as int + 2));
                }
                let ghost before = res@;
                res.push(e);
                cur = cur + 2;
                proof {
                    if sp_str_body(v@.skip(cur as int)) is Some {
                        let p = sp_str_body(v@.skip(cur as int)).unwrap();
                        assert(before + (seq![e] + p.0) =~= res@ + p.0);
                    }
                }
            } else if e == 'u' {
                if v.len() - cur < 6 {
                    proof {
                        assert(sc.len() < 6);
                    }
                    return None;
                }
                proof {
                    assert(sc.len() >= 6);
                    assert(sc[2] == v@[cur as int + 2]);
                    assert(sc[3] == v@[cur as int + 3]);
                    assert(sc[4] == v@[cur as int + 4]);
                    assert(sc[5] == v@[cur as int + 5]);
                }
                let o0 = hex_val_exec(v[cur + 2]);
                let o1 = hex_val_exec(v[cur + 3]);
                let o2 = hex_val_exec(v[cur + 4]);
                let o3 = hex_val_exec(v[cur + 5]);
                if let (Some(d0), Some(d1), Some(d2), Some(d3)) = (o0, o1, o2, o3) {
                    let val: u32 = ((d0 * 16 + d1) * 16 + d2) * 16 + d3;
                    proof {
                        assert(val as nat == ((hex_val(sc[2]) * 16 + hex_val(sc[3])) * 16
                            + hex_val(sc[4])) * 16 + hex_val(sc[5]));
                    }
                    if val >= 256 {
                        return None;
                    }
                    proof {
                        assert(sc.skip(6) =~= v@.skip(cur as int + 6));
                    }
                    let ghost before = res@;
                    res.push((val as u8) as char);
                    cur = cur + 6;
                    proof {
                        assert(val as u8 == val);
                        assert(((val as u8) as char) as u32 == val);
                        vstd::utf8::char_u32_cast((val as u8) as char, val);
                        assert((val as u32) as char == (val as u8) as char);
                        if sp_str_body(v@.skip(cur as int)) is Some {
                            let p = sp_str_body(v@.skip(cur as int)).unwrap();
                            assert(before + (seq![(val as u32) as char] + p.0) =~= res@ + p.0);
                        }
                    }
                } else {
                    return None;
                }
            } else {
                return None;
            }
        } else {
            let ghost before = res@;
            res.push(c);
            cur = cur + 1;
            proof {
                if sp_str_body(v@.skip(cur as int)) is Some {
                    let p = sp_str_body(v@.skip(cur as int)).unwrap();
                    assert(before + (seq![c] + p.0) =~= res@ + p.0);
                }
            }
        }
    }
}

/// Matches the token `lit` at `pos`, returning the position after it.
pub fn expect_lit(v: &Vec<char>, pos: usize, lit: &str) -> (r: Option<usize>)
    requires
        pos <= v.len(),
    ensures
        match r {
            Some(p) => {
                &&& pos <= p <= v.len()
                &&& p == pos + lit@.len()
                &&& sp_lit(v@.skip(pos as int), lit@) == Some(v@.skip(p as int))
            },
            None => sp_lit(v@.skip(pos as int), lit@) is None,
        },
{
    let n = lit.unicode_len();
    if n > v.len() - pos {
        proof {
            assert(v@.skip(pos as int).len() < lit@.len());
        }
        return None;
    }
    let mut i: usize = 0;
    while i < n
        invariant
            i <= n,
            n == lit@.len(),
            pos + n <= v.len(),
            forall|j: int| 0 <= j < i ==> v@[pos + j] == lit@[j],
        decreases n - i,
    {
        let c = lit.get_char(i);
        if v[pos + i] != c {
            proof {
                let s = v@.skip(pos as int);
                assert(s.take(lit@.len() as int)[i as int] == v@[pos + i]);
                assert(s.take(lit@.len() as int) != lit@);
            }
            return None;
        }
        i = i + 1;
    }
    proof {
        let s = v@.skip(pos as int);
        assert(s.take(lit@.len() as int) =~= lit@);
        assert(s.skip(lit@.len() as int) =~= v@.skip(pos as int + lit@.len() as int));
    }
    Some(pos + n)
}

/// Appends the characters of the token `lit` to `out`.
pub fn push_lit(out: &mut Vec<char>, lit: &str)
    ensures
        final(out)@ == old(out)@ + lit@,
{
    let n = lit.unicode_len();
    let mut i: usize = 0;
    while i < n
        invariant
            i <= n,
            n == lit@.len(),
            out@ == old(out)@ + lit@.take(i as int),
        decreases n - i,
    {
        out.push(lit.get_char(i));
        i = i + 1;
        assert(out@ =~= old(out)@ + lit@.take(i as int));
    }
    assert(out@ =~= old(out)@ + lit@);
}

/// Appends `true` or `false` to `out`.
pub fn push_bool(out: &mut Vec<char>, b: bool)
    ensures
        final(out)@ == old(out)@ + enc_bool(b),
{
    if b {
        proof {
            reveal_strlit("true");
            assert("true"@ =~= true_chars());
        }
        push_lit(out, "true");
    } else {
        proof {
            reveal_strlit("false");
            assert("false"@ =~= false_chars());
        }
        push_lit(out, "false");
    }
}

/// Parses `true` or `false` at `pos`.
pub fn parse_bool(v: &Vec<char>, pos: usize) -> (r: Option<(bool, usize)>)
    requires
        pos <= v.len(),
    ensures
        match r {
            Some(p) => {
                &&& pos < p.1 <= v.len()
                &&& sp_bool(v@.skip(pos as int)) == Some((p.0, v@.skip(p.1 as int)))
            },
            None => sp_bool(v@.skip(pos as int)) is None,
        },
{
    proof {
        reveal_strlit("true");
        reveal_strlit("false");
        assert("true"@ =~= true_chars());
        assert("false"@ =~= false_chars());
    }
    match expect_lit(v, pos, "true") {
        Some(p) => Some((true, p)),
        None => match expect_lit(v, pos, "false") {
            Some(p) => Some((false, p)),
            None => None,
        },
    }
}


/// Matches the single character `c` at `pos`.
pub fn expect_char(v: &Vec<char>, pos: usize, c: char) -> (r: Option<usize>)
    requires
        pos <= v.len(),
    ensures
        match r {
            Some(p) => {
                &&& pos < p <= v.len()
                &&& p == pos + 1
                &&& sp_lit(v@.skip(pos as int), seq![c]) == Some(v@.skip(p as int))
            },
            None => sp_lit(v@.skip(pos as int), seq![c]) is None,
        },
{
    if pos < v.len() && v[pos] == c {
        proof {
            assert(v@.skip(pos as int).take(1) =~= seq![c]);
            assert(v@.skip(pos as int).skip(1) =~= v@.skip(pos as int + 1));
        }
        Some(pos + 1)
    } else {
        proof {
            let s = v@.skip(pos as int);
            if s.len() >= 1 {
                assert(s.take(1)[0] == v@[pos as int]);
                assert(s.take(1) != seq![c]) by {
                    assert(seq![c][0] == c);
                }
            }
        }
        None
    }
}

/// Round trip for quoted strings: the encoding of `s` followed by
/// anything parses back to `s`.
pub proof fn lemma_parse_enc_str(s: Seq<char>, rest: Seq<char>)
    ensures
        sp_str(enc_str(s) + rest) == Some((s, rest)),
{
    let w = enc_str(s) + rest;
    assert(w[0] == '"');
    assert(w.drop_first() =~= esc_str(s) + seq!['"'] + rest);
    lemma_body_roundtrip(s, rest);
}

proof fn lemma_body_roundtrip(s: Seq<char>, rest: Seq<char>)
    ensures
        sp_str_body(esc_str(s) + seq!['"'] + rest) == Some((s, rest)),
    decreases s.len(),
{
    broadcast use vstd::utf8::char_u32_cast;

    let w = esc_str(s) + seq!['"'] + rest;
    if s.len() == 0 {
        assert(esc_str(s).len() == 0);
        assert(w[0] == '"');
        assert(w.drop_first() =~= rest);
    } else {
        let c = s[0];
        let tail = s.drop_first();
        assert(esc_str(s) == esc_char(c) + esc_str(tail));
        lemma_body_roundtrip(tail, rest);
        let wt = esc_str(tail) + seq!['"'] + rest;
        if c == '"' {
            assert(w[0] == '\\');
            assert(w[1] == '"');
            assert(w.len() >= 2);
            assert(w.skip(2) =~= wt);
            assert(seq![c] + tail =~= s);
        } else if c == '\\' {
            assert(w[0] == '\\');
            assert(w[1] == '\\');
            assert(w.skip(2) =~= wt);
            assert(seq![c] + tail =~= s);
        } else if (c as u32) < 32 {
            let u = c as u32;
            assert(w[0] == '\\');
            assert(w[1] == 'u');
            assert(w[2] == '0');
            assert(w[3] == '0');
            assert(w[4] == hex_char((u / 16) as nat));
            assert(w[5] == hex_char((u % 16) as nat));
            assert(w.len() >= 6);
            lemma_hex_char_val((u / 16) as nat);
            lemma_hex_char_val((u % 16) as nat);
            assert(is_hex('0') && hex_val('0') == 0);
            let v = ((hex_val(w[2]) * 16 + hex_val(w[3])) * 16 + hex_val(w[4])) * 16 + hex_val(
                w[5],
            );
            assert(v == (u / 16) * 16 + (u % 16));
            assert(v == u);
            assert(w.skip(6) =~= wt);
            assert(v as u32 == c as u32);
            vstd::utf8::char_u32_cast(c, v as u32);
            assert((v as u32) as char == c);
            assert(seq![c] + tail =~= s);
        } else {
            assert(w[0] == c);
            assert(w[0] != '"' && w[0] != '\\');
            assert(w.drop_first() =~= wt);
            assert(seq![c] + tail =~= s);
        }
    }
}

proof fn lemma_hex_char_val(d: nat)
    requires
        d < 16,
    ensures
        is_hex(hex_char(d)),
        hex_val(hex_char(d)) == d,
{
}

/// Round trip for fixed tokens.
pub proof fn lemma_parse_lit(lit: Seq<char>, rest: Seq<char>)
    ensures
        sp_lit(lit + rest, lit) == Some(rest),
{
    assert((lit + rest).take(lit.len() as int) =~= lit);
    assert((lit + rest).skip(lit.len() as int) =~= rest);
}

/// Round trip for booleans.
pub proof fn lemma_parse_enc_bool(b: bool, rest: Seq<char>)
    ensures
        sp_bool(enc_bool(b) + rest) == Some((b, rest)),
{
    lemma_parse_lit(enc_bool(b), rest);
    if b {
        assert(sp_lit(true_chars() + rest, true_chars()) == Some(rest));
    } else {
        let w = false_chars() + rest;
        assert(w[0] == 'f');
        assert(sp_lit(w, true_chars()) is None) by {
            if sp_lit(w, true_chars()) is Some {
                assert(w.take(4)[0] == w[0]);
                assert(true_chars()[0] == 't');
            }
        }
    }
}

} // verus!
