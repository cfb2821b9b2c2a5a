//! The store's file format: one JSON document holding a map from
//! location key to namespace, each namespace a map from record name to
//! record. Spec-level encoders and parsers are defined side by side,
//! executable versions are proved against them, and the round-trip
//! lemmas show that parsing an encoded store yields the store back.

use vstd::prelude::*;
use crate::json::{
    enc_bool, enc_str, expect_char, expect_lit, parse_bool, parse_string, push_bool, push_lit,
    push_quoted, sp_bool, sp_lit, sp_str, lemma_parse_enc_str, lemma_parse_lit,
    lemma_parse_enc_bool,
};
use crate::namespace::Namespace;
use crate::numfmt::{
    dec_int, dec_nat, is_digit, parse_i64, parse_u64, push_i64, push_u64, sp_i64, sp_u64,
    lemma_parse_dec_i64, lemma_parse_dec_u64, lemma_dec_nat_digits,
};
use crate::record::{Counter, CounterV, Record, RecordV, Tag, TagV};
use crate::text::chars_to_string;

verus! {

pub open spec fn null_chars() -> Seq<char> {
    seq!['n', 'u', 'l', 'l']
}

/// An optional string field: `null`, or a quoted string.
pub open spec fn enc_opt_str(o: Option<Seq<char>>) -> Seq<char> {
    match o {
        Option::None => null_chars(),
        Option::Some(s) => enc_str(s),
    }
}

pub open spec fn sp_opt_str(s: Seq<char>) -> Option<(Option<Seq<char>>, Seq<char>)> {
    match sp_lit(s, null_chars()) {
        Some(rest) => Some((None, rest)),
        None => match sp_str(s) {
            Some(p) => Some((Some(p.0), p.1)),
            None => None,
        },
    }
}

/// Appends `null` or the quoted form of the string.
pub fn push_opt_str(out: &mut Vec<char>, o: &Option<String>)
    ensures
        final(out)@ == old(out)@ + enc_opt_str(o.deep_view()),
{
    match o {
        None => {
            proof {
                reveal_strlit("null");
                assert("null"@ =~= null_chars());
            }
            push_lit(out, "null");
        },
        Some(s) => {
            let chars = crate::text::str_to_chars(s.as_str());
            push_quoted(out, &chars);
        },
    }
}

/// Parses `null` or a quoted string at `pos`.
pub fn parse_opt_str(v: &Vec<char>, pos: usize) -> (r: Option<(Option<String>, usize)>)
    requires
        pos <= v.len(),
    ensures
        match r {
            Some(p) => {
                &&& pos < p.1 <= v.len()
                &&& sp_opt_str(v@.skip(pos as int)) == Some((p.0.deep_view(), v@.skip(p.1 as int)))
            },
            None => sp_opt_str(v@.skip(pos as int)) is None,
        },
{
    proof {
        reveal_strlit("null");
        assert("null"@ =~= null_chars());
    }
    match expect_lit(v, pos, "null") {
        Some(p) => {
            proof {
                assert(null_chars().len() == 4);
            }
            Some((None, p))
        },
        None => match parse_string(v, pos) {
            Some((body, p)) => {
                let s = chars_to_string(&body);
                Some((Some(s), p))
            },
            None => None,
        },
    }
}

/// Round trip for optional strings.
pub proof fn lemma_parse_enc_opt_str(o: Option<Seq<char>>, rest: Seq<char>)
    ensures
        sp_opt_str(enc_opt_str(o) + rest) == Some((o, rest)),
{
    match o {
        Option::None => {
            lemma_parse_lit(null_chars(), rest);
        },
        Option::Some(s) => {
            let w = enc_str(s) + rest;
            assert(w[0] == '"');
            assert(sp_lit(w, null_chars()) is None) by {
                if sp_lit(w, null_chars()) is Some {
                    assert(w.take(4)[0] == w[0]);
                    assert(null_chars()[0] == 'n');
                }
            }
            lemma_parse_enc_str(s, rest);
        },
    }
}

/// The items of a JSON array of numbers, comma-separated.
pub open spec fn enc_u64_items(a: Seq<u64>) -> Seq<char>
    decreases a.len(),
{
    if a.len() == 0 {
        Seq::empty()
    } else if a.len() == 1 {
        dec_nat(a[0] as nat)
    } else {
        dec_nat(a[0] as nat) + seq![','] + enc_u64_items(a.drop_first())
    }
}

/// A JSON array of numbers.
pub open spec fn enc_u64_arr(a: Seq<u64>) -> Seq<char> {
    seq!['['] + enc_u64_items(a) + seq![']']
}

/// What parsing one-or-more comma-separated numbers followed by the
/// closing bracket yields.
pub open spec fn sp_u64_items(s: Seq<char>) -> Option<(Seq<u64>, Seq<char>)>
    decreases s.len(),
{
    match sp_u64(s) {
        Some(p) => {
            if p.1.len() < s.len() {
                if p.1.len() > 0 && p.1[0] == ',' {
                    match sp_u64_items(p.1.drop_first()) {
                        Some(q) => Some((seq![p.0] + q.0, q.1)),
                        None => None,
                    }
                } else if p.1.len() > 0 && p.1[0] == ']' {
                    Some((seq![p.0], p.1.drop_first()))
                } else {
                    None
                }
            } else {
                None
            }
        },
        None => None,
    }
}

/// What parsing a whole array of numbers yields.
pub open spec fn sp_u64_arr(s: Seq<char>) -> Option<(Seq<u64>, Seq<char>)> {
    if s.len() > 0 && s[0] == '[' {
        let t = s.drop_first();
        if t.len() > 0 && t[0] == ']' {
            Some((Seq::empty(), t.drop_first()))
        } else {
            sp_u64_items(t)
        }
    } else {
        None
    }
}

/// Appends the encoded array to `out`.
pub fn push_u64_arr(out: &mut Vec<char>, a: &Vec<u64>)
    ensures
        final(out)@ == old(out)@ + enc_u64_arr(a@),
{
    out.push('[');
    let mut i: usize = 0;
    while i < a.len()
        invariant
            i <= a.len(),
            out@ == old(out)@ + seq!['['] + enc_u64_items(a@.take(i as int)),
        decreases a.len() - i,
    {
        proof {
            assert(a@.take(i as int + 1) =~= a@.take(i as int).push(a@[i as int]));
            lemma_enc_u64_items_snoc(a@.take(i as int), a@[i as int]);
        }
        if i > 0 {
            out.push(',');
        }
        push_u64(out, a[i]);
        i = i + 1;
        assert(out@ =~= old(out)@ + seq!['['] + enc_u64_items(a@.take(i as int)));
    }
    out.push(']');
    proof {
        assert(a@.take(a@.len() as int) =~= a@);
        assert(out@ =~= old(out)@ + enc_u64_arr(a@));
    }
}

proof fn lemma_enc_u64_items_snoc(a: Seq<u64>, x: u64)
    ensures
        enc_u64_items(a.push(x)) == if a.len() == 0 {
            dec_nat(x as nat)
        } else {
            enc_u64_items(a) + seq![','] + dec_nat(x as nat)
        },
    decreases a.len(),
{
    let w = a.push(x);
    if a.len() == 0 {
        assert(w.len() == 1);
        assert(w[0] == x);
    } else {
        assert(w.len() >= 2);
        assert(w[0] == a[0]);
        assert(w.drop_first() =~= a.drop_first().push(x));
        lemma_enc_u64_items_snoc(a.drop_first(), x);
        if a.len() == 1 {
            assert(enc_u64_items(w) == dec_nat(a[0] as nat) + seq![','] + dec_nat(x as nat));
            assert(enc_u64_items(a) == dec_nat(a[0] as nat));
        } else {
            assert(enc_u64_items(w) == dec_nat(a[0] as nat) + seq![','] + (enc_u64_items(
                a.drop_first(),
            ) + seq![','] + dec_nat(x as nat)));
            assert(dec_nat(a[0] as nat) + seq![','] + (enc_u64_items(a.drop_first()) + seq![',']
                + dec_nat(x as nat)) =~= (dec_nat(a[0] as nat) + seq![','] + enc_u64_items(
                a.drop_first(),
            )) + seq![','] + dec_nat(x as nat));
        }
    }
}

/// Parses a JSON array of numbers at `pos`.
pub fn parse_u64_arr(v: &Vec<char>, pos: usize) -> (r: Option<(Vec<u64>, usize)>)
    requires
        pos <= v.len(),
    ensures
        match r {
            Some(p) => {
                &&& pos < p.1 <= v.len()
                &&& sp_u64_arr(v@.skip(pos as int)) == Some((p.0@, v@.skip(p.1 as int)))
            },
            None => sp_u64_arr(v@.skip(pos as int)) is None,
        },
{
    if pos == v.len() || v[pos] != '[' {
        proof {
            if pos < v.len() {
                assert(v@.skip(pos as int)[0] == v@[pos as int]);
            }
        }
        return None;
    }
    proof {
        assert(v@.skip(pos as int)[0] == v@[pos as int]);
        assert(v@.skip(pos as int).drop_first() =~= v@.skip(pos as int + 1));
    }
    if pos + 1 < v.len() && v[pos + 1] == ']' {
        proof {
            assert(v@.skip(pos as int + 1)[0] == v@[pos as int + 1]);
            assert(v@.skip(pos as int + 1).drop_first() =~= v@.skip(pos as int + 2));
        }
        let empty: Vec<u64> = Vec::new();
        assert(empty@ =~= Seq::<u64>::empty());
        return Some((empty, pos + 2));
    }
    proof {
        if pos + 1 < v.len() {
            assert(v@.skip(pos as int + 1)[0] == v@[pos as int + 1]);
        }
    }
    let ghost s1 = v@.skip(pos as int + 1);
    let mut acc: Vec<u64> = Vec::new();
    let mut cur: usize = pos + 1;
    loop
        invariant
            pos + 1 <= cur <= v.len(),
            s1 == v@.skip(pos as int + 1),
            pos < v.len(),
            v@.skip(pos as int)[0] == '[',
            v@.skip(pos as int).drop_first() == s1,
            !(s1.len() > 0 && s1[0] == ']'),
            match sp_u64_items(v@.skip(cur as int)) {
                Some(p) => sp_u64_items(s1) == Some((acc@ + p.0, p.1)),
                None => sp_u64_items(s1) is None,
            },
        decreases v.len() - cur,
    {
        match parse_u64(v, cur) {
            None => {
                return None;
            },
            Some((val, p)) => {
                let ghost sc = v@.skip(cur as int);
                let ghost sr = v@.skip(p as int);
                proof {
                    assert(sr.len() < sc.len());
                }
                if p < v.len() && v[p] == ',' {
                    proof {
                        assert(sr[0] == v@[p as int]);
                        assert(sr.drop_first() =~= v@.skip(p as int + 1));
                    }
                    let ghost before = acc@;
                    acc.push(val);
                    cur = p + 1;
                    proof {
                        if sp_u64_items(v@.skip(cur as int)) is Some {
                            let q = sp_u64_items(v@.skip(cur as int)).unwrap();
                            assert(before + (seq![val] + q.0) =~= acc@ + q.0);
                        }
                    }
                } else if p < v.len() && v[p] == ']' {
                    proof {
                        assert(sr[0] == v@[p as int]);
                        assert(sr.drop_first() =~= v@.skip(p as int + 1));
                        assert(sp_u64_items(sc) == Some((seq![val], v@.skip(p as int + 1))));
                    }
                    let ghost before = acc@;
                    acc.push(val);
                    proof {
                        assert(before + seq![val] =~= acc@);
                    }
                    return Some((acc, p + 1));
                } else {
                    proof {
                        if p < v.len() {
                            assert(sr[0] == v@[p as int]);
                        }
                        assert(sp_u64_items(sc) is None);
                    }
                    return None;
                }
            },
        }
    }
}

/// Round trip for the items of a non-empty array.
proof fn lemma_parse_enc_u64_items(a: Seq<u64>, rest: Seq<char>)
    requires
        a.len() >= 1,
    ensures
        sp_u64_items(enc_u64_items(a) + seq![']'] + rest) == Some((a, rest)),
    decreases a.len(),
{
    if a.len() == 1 {
        let w = enc_u64_items(a) + seq![']'] + rest;
        let tail = seq![']'] + rest;
        assert(w =~= dec_nat(a[0] as nat) + tail);
        assert(!is_digit(']')) by {
            assert(']' as u32 == 93);
        }
        lemma_parse_dec_u64(a[0], tail);
        assert(sp_u64(w) == Some((a[0], tail)));
        assert(tail.len() < w.len()) by {
            lemma_dec_nat_digits(a[0] as nat);
        }
        assert(tail[0] == ']');
        assert(tail[0] != ',') by {
            assert(']' as u32 == 93 && ',' as u32 == 44);
        }
        assert(tail.drop_first() =~= rest);
        assert(seq![a[0]] =~= a);
    } else {
        let w = enc_u64_items(a) + seq![']'] + rest;
        let tail = seq![','] + (enc_u64_items(a.drop_first()) + seq![']'] + rest);
        assert(w =~= dec_nat(a[0] as nat) + tail);
        assert(!is_digit(',')) by {
            assert(',' as u32 == 44);
        }
        lemma_parse_dec_u64(a[0], tail);
        assert(sp_u64(w) == Some((a[0], tail)));
        assert(tail.len() < w.len()) by {
            lemma_dec_nat_digits(a[0] as nat);
        }
        assert(tail[0] == ',');
        assert(tail.drop_first() =~= enc_u64_items(a.drop_first()) + seq![']'] + rest);
        lemma_parse_enc_u64_items(a.drop_first(), rest);
        assert(seq![a[0]] + a.drop_first() =~= a);
    }
}

/// Round trip for arrays of numbers.
pub proof fn lemma_parse_enc_u64_arr(a: Seq<u64>, rest: Seq<char>)
    ensures
        sp_u64_arr(enc_u64_arr(a) + rest) == Some((a, rest)),
{
    let w = enc_u64_arr(a) + rest;
    assert(w[0] == '[');
    let t = w.drop_first();
    assert(t =~= enc_u64_items(a) + seq![']'] + rest);
    if a.len() == 0 {
        assert(enc_u64_items(a).len() == 0);
        assert(t[0] == ']');
        assert(t.drop_first() =~= rest);
    } else {
        assert(enc_u64_items(a)[0] == dec_nat(a[0] as nat)[0]) by {
            lemma_dec_nat_digits(a[0] as nat);
            if a.len() == 1 {
            } else {
                assert(enc_u64_items(a) == dec_nat(a[0] as nat) + seq![','] + enc_u64_items(
                    a.drop_first(),
                ));
            }
        }
        assert(t[0] == enc_u64_items(a)[0]) by {
            lemma_dec_nat_digits(a[0] as nat);
        }
        assert(is_digit(t[0])) by {
            lemma_dec_nat_digits(a[0] as nat);
        }
        assert(t[0] != ']') by {
            assert(']' as u32 == 93);
        }
        lemma_parse_enc_u64_items(a, rest);
    }
}

/// The encoded form of a counter record: a JSON object with a fixed
/// field order.
pub open spec fn enc_counter(c: CounterV) -> Seq<char> {
    "{\"name\":"@ + enc_str(c.name) + ",\"count\":"@ + dec_int(c.count as int) + ",\"owner_id\":"@
        + dec_nat(c.owner_id as nat) + ",\"public_edit\":"@ + enc_bool(c.public_edit)
        + ",\"queries\":"@ + dec_nat(c.queries as nat) + ",\"location\":"@ + enc_opt_str(c.location)
        + ",\"created_at\":"@ + dec_int(c.created_at as int) + ",\"blacklisted_users\":"@
        + enc_u64_arr(c.blacklisted_users) + ",\"whitelisted_users\":"@ + enc_u64_arr(
        c.whitelisted_users,
    ) + "}"@
}

/// The encoded form of a tag record.
pub open spec fn enc_tag(t: TagV) -> Seq<char> {
    "{\"name\":"@ + enc_str(t.name) + ",\"content\":"@ + enc_str(t.content) + ",\"owner_id\":"@
        + dec_nat(t.owner_id as nat) + ",\"uses\":"@ + dec_nat(t.uses as nat) + ",\"location\":"@
        + enc_opt_str(t.location) + ",\"created_at\":"@ + dec_int(t.created_at as int) + "}"@
}

pub open spec fn enc_record(r: RecordV) -> Seq<char> {
    match r {
        RecordV::Counter(c) => enc_counter(c),
        RecordV::Tag(t) => enc_tag(t),
    }
}

/// What parsing the counter fields after the shared name field yields.
/// The access-control fields were added to the schema later, so a
/// record without them still parses: editing defaults to public and
/// the lists to empty.
#[verifier::opaque]
pub open spec fn sp_counter_fields(name: Seq<char>, s: Seq<char>) -> Option<(RecordV, Seq<char>)> {
    match sp_i64(s) {
        None => None,
        Some((count, s1)) => match sp_lit(s1, ",\"owner_id\":"@) {
            None => None,
            Some(s2) => match sp_u64(s2) {
                None => None,
                Some((owner, s3)) => {
                    let pe_step = match sp_lit(s3, ",\"public_edit\":"@) {
                        Some(s4) => sp_bool(s4),
                        None => Some((true, s3)),
                    };
                    match pe_step {
                        None => None,
                        Some((pe, s5)) => match sp_lit(s5, ",\"queries\":"@) {
                            None => None,
                            Some(s6) => match sp_u64(s6) {
                                None => None,
                                Some((q, s7)) => if q > u32::MAX as u64 {
                                    None
                                } else {
                                    match sp_lit(s7, ",\"location\":"@) {
                                        None => None,
                                        Some(s8) => match sp_opt_str(s8) {
                                            None => None,
                                            Some((loc, s9)) => match sp_lit(
                                                s9,
                                                ",\"created_at\":"@,
                                            ) {
                                                None => None,
                                                Some(s10) => match sp_i64(s10) {
                                                    None => None,
                                                    Some((ca, s11)) => {
                                                        let lists_step = match sp_lit(
                                                            s11,
                                                            ",\"blacklisted_users\":"@,
                                                        ) {
                                                            Some(s12) => match sp_u64_arr(s12) {
                                                                None => None,
                                                                Some((bl, s13)) => match sp_lit(
                                                                    s13,
                                                                    ",\"whitelisted_users\":"@,
                                                                ) {
                                                                    None => None,
                                                                    Some(s14) => match sp_u64_arr(
                                                                        s14,
                                                                    ) {
                                                                        None => None,
                                                                        Some((wl, s15)) => Some(
                                                                            ((bl, wl), s15),
                                                                        ),
                                                                    },
                                                                },
                                                            },
                                                            None => Some(
                                                                (
                                                                    (
                                                                        Seq::<u64>::empty(),
                                                                        Seq::<u64>::empty(),
                                                                    ),
                                                                    s11,
                                                                ),
                                                            ),
                                                        };
                                                        match lists_step {
                                                            None => None,
                                                            Some((lists, s15)) => match sp_lit(
                                                                s15,
                                                                "}"@,
                                                            ) {
                                                                None => None,
                                                                Some(s16) => Some(
                                                                    (
                                                                        RecordV::Counter(
                                                                            CounterV {
                                                                                name,
                                                                                count,
                                                                                owner_id: owner,
                                                                                public_edit: pe,
                                                                                queries: (
                                                                                q as u32),
                                                                                location: loc,
                                                                                created_at: ca,
                                                                                blacklisted_users:
                                                                                    lists.0,
                                                                                whitelisted_users:
                                                                                    lists.1,
                                                                            },
                                                                        ),
                                                                        s16,
                                                                    ),
                                                                ),
                                                            },
                                                        }
                                                    },
                                                },
                                            },
                                        },
                                    }
                                },
                            },
                        },
                    }
                },
            },
        },
    }
}

/// What parsing the tag fields after the shared name field yields.
#[verifier::opaque]
pub open spec fn sp_tag_fields(name: Seq<char>, s: Seq<char>) -> Option<(RecordV, Seq<char>)> {
    match sp_str(s) {
        None => None,
        Some((content, s1)) => match sp_lit(s1, ",\"owner_id\":"@) {
            None => None,
            Some(s2) => match sp_u64(s2) {
                None => None,
                Some((owner, s3)) => match sp_lit(s3, ",\"uses\":"@) {
                    None => None,
                    Some(s4) => match sp_u64(s4) {
                        None => None,
                        Some((uses, s5)) => if uses > u32::MAX as u64 {
                            None
                        } else {
                            match sp_lit(s5, ",\"location\":"@) {
                                None => None,
                                Some(s6) => match sp_opt_str(s6) {
                                    None => None,
                                    Some((loc, s7)) => match sp_lit(s7, ",\"created_at\":"@) {
                                        None => None,
                                        Some(s8) => match sp_i64(s8) {
                                            None => None,
                                            Some((ca, s9)) => match sp_lit(s9, "}"@) {
                                                None => None,
                                                Some(s10) => Some(
                                                    (
                                                        RecordV::Tag(
                                                            TagV {
                                                                name,
                                                                content,
                                                                owner_id: owner,
                                                                uses: (uses as u32),
                                                                location: loc,
                                                                created_at: ca,
                                                            },
                                                        ),
                                                        s10,
                                                    ),
                                                ),
                                            },
                                        },
                                    },
                                },
                            }
                        },
                    },
                },
            },
        },
    }
}

/// What parsing one record yields. The record kind is told apart by the
/// key that follows the name: `count` opens a counter, `content` a tag.
pub open spec fn sp_record(s: Seq<char>) -> Option<(RecordV, Seq<char>)> {
    match sp_lit(s, "{\"name\":"@) {
        None => None,
        Some(s1) => match sp_str(s1) {
            None => None,
            Some((name, s2)) => if sp_lit(s2, ",\"count\":"@) is Some {
                sp_counter_fields(name, sp_lit(s2, ",\"count\":"@).unwrap())
            } else if sp_lit(s2, ",\"content\":"@) is Some {
                sp_tag_fields(name, sp_lit(s2, ",\"content\":"@).unwrap())
            } else {
                None
            },
        },
    }
}

/// Appends the encoded form of a counter to `out`.
#[verifier::rlimit(80)]
pub fn push_counter(out: &mut Vec<char>, c: &Counter)
    ensures
        final(out)@ == old(out)@ + enc_counter(c@),
{
    push_lit(out, "{\"name\":");
    let name_chars = crate::text::str_to_chars(c.name.as_str());
    push_quoted(out, &name_chars);
    push_lit(out, ",\"count\":");
    push_i64(out, c.count);
    push_lit(out, ",\"owner_id\":");
    push_u64(out, c.owner_id);
    push_lit(out, ",\"public_edit\":");
    push_bool(out, c.public_edit);
    push_lit(out, ",\"queries\":");
    push_u64(out, c.queries as u64);
    push_lit(out, ",\"location\":");
    push_opt_str(out, &c.location);
    push_lit(out, ",\"created_at\":");
    push_i64(out, c.created_at);
    push_lit(out, ",\"blacklisted_users\":");
    push_u64_arr(out, &c.blacklisted_users);
    push_lit(out, ",\"whitelisted_users\":");
    push_u64_arr(out, &c.whitelisted_users);
    push_lit(out, "}");
    assert(out@ =~= old(out)@ + enc_counter(c@));
}

/// Appends the encoded form of a tag to `out`.
pub fn push_tag(out: &mut Vec<char>, t: &Tag)
    ensures
        final(out)@ == old(out)@ + enc_tag(t@),
{
    push_lit(out, "{\"name\":");
    let name_chars = crate::text::str_to_chars(t.name.as_str());
    push_quoted(out, &name_chars);
    push_lit(out, ",\"content\":");
    let content_chars = crate::text::str_to_chars(t.content.as_str());
    push_quoted(out, &content_chars);
    push_lit(out, ",\"owner_id\":");
    push_u64(out, t.owner_id);
    push_lit(out, ",\"uses\":");
    push_u64(out, t.uses as u64);
    push_lit(out, ",\"location\":");
    push_opt_str(out, &t.location);
    push_lit(out, ",\"created_at\":");
    push_i64(out, t.created_at);
    push_lit(out, "}");
    assert(out@ =~= old(out)@ + enc_tag(t@));
}

/// Appends the encoded form of either record kind to `out`.
pub fn push_record(out: &mut Vec<char>, r: &Record)
    ensures
        final(out)@ == old(out)@ + enc_record(r@),
{
    match r {
        Record::Counter(c) => push_counter(out, c),
        Record::Tag(t) => push_tag(out, t),
    }
}

fn parse_counter_fields(v: &Vec<char>, pos: usize, name: String) -> (r: Option<(Record, usize)>)
    requires
        pos <= v.len(),
    ensures
        match r {
            Some(p) => {
                &&& pos <= p.1 <= v.len()
                &&& sp_counter_fields(name@, v@.skip(pos as int)) == Some(
                    (p.0@, v@.skip(p.1 as int)),
                )
            },
            None => sp_counter_fields(name@, v@.skip(pos as int)) is None,
        },
{
    proof {
        reveal(sp_counter_fields);
    }
    let (count, p1) = match parse_i64(v, pos) {
        Some(x) => x,
        None => {
            return None;
        },
    };
    let p2 = match expect_lit(v, p1, ",\"owner_id\":") {
        Some(x) => x,
        None => {
            return None;
        },
    };
    let (owner, p3) = match parse_u64(v, p2) {
        Some(x) => x,
        None => {
            return None;
        },
    };
    let (pe, p5) = match expect_lit(v, p3, ",\"public_edit\":") {
        Some(p4) => match parse_bool(v, p4) {
            Some(x) => x,
            None => {
                return None;
            },
        },
        None => (true, p3),
    };
    let p6 = match expect_lit(v, p5, ",\"queries\":") {
        Some(x) => x,
        None => {
            return None;
        },
    };
    let (q, p7) = match parse_u64(v, p6) {
        Some(x) => x,
        None => {
            return None;
        },
    };
    if q > 0xffffffffu64 {
        return None;
    }
    let p8 = match expect_lit(v, p7, ",\"location\":") {
        Some(x) => x,
        None => {
            return None;
        },
    };
    let (loc, p9) = match parse_opt_str(v, p8) {
        Some(x) => x,
        None => {
            return None;
        },
    };
    let p10 = match expect_lit(v, p9, ",\"created_at\":") {
        Some(x) => x,
        None => {
            return None;
        },
    };
    let (ca, p11) = match parse_i64(v, p10) {
        Some(x) => x,
        None => {
            return None;
        },
    };
    let (bl, wl, p15) = match expect_lit(v, p11, ",\"blacklisted_users\":") {
        Some(p12) => {
            let (bl, p13) = match parse_u64_arr(v, p12) {
                Some(x) => x,
                None => {
                    return None;
                },
            };
            let p14 = match expect_lit(v, p13, ",\"whitelisted_users\":") {
                Some(x) => x,
                None => {
                    return None;
                },
            };
            let (wl, p15) = match parse_u64_arr(v, p14) {
                Some(x) => x,
                None => {
                    return None;
                },
            };
            (bl, wl, p15)
        },
        None => (Vec::new(), Vec::new(), p11),
    };
    let p16 = match expect_lit(v, p15, "}") {
        Some(x) => x,
        None => {
            return None;
        },
    };
    let rec = Counter {
        name,
        count,
        owner_id: owner,
        public_edit: pe,
        queries: q as u32,
        location: loc,
        created_at: ca,
        blacklisted_users: bl,
        whitelisted_users: wl,
    };
    Some((Record::Counter(rec), p16))
}

fn parse_tag_fields(v: &Vec<char>, pos: usize, name: String) -> (r: Option<(Record, usize)>)
    requires
        pos <= v.len(),
    ensures
        match r {
            Some(p) => {
                &&& pos <= p.1 <= v.len()
                &&& sp_tag_fields(name@, v@.skip(pos as int)) == Some((p.0@, v@.skip(p.1 as int)))
            },
            None => sp_tag_fields(name@, v@.skip(pos as int)) is None,
        },
{
    proof {
        reveal(sp_tag_fields);
    }
    let (content_chars, p1) = match parse_string(v, pos) {
        Some(x) => x,
        None => {
            return None;
        },
    };
    let content = chars_to_string(&content_chars);
    let p2 = match expect_lit(v, p1, ",\"owner_id\":") {
        Some(x) => x,
        None => {
            return None;
        },
    };
    let (owner, p3) = match parse_u64(v, p2) {
        Some(x) => x,
        None => {
            return None;
        },
    };
    let p4 = match expect_lit(v, p3, ",\"uses\":") {
        Some(x) => x,
        None => {
            return None;
        },
    };
    let (uses, p5) = match parse_u64(v, p4) {
        Some(x) => x,
        None => {
            return None;
        },
    };
    if uses > 0xffffffffu64 {
        return None;
    }
    let p6 = match expect_lit(v, p5, ",\"location\":") {
        Some(x) => x,
        None => {
            return None;
        },
    };
    let (loc, p7) = match parse_opt_str(v, p6) {
        Some(x) => x,
        None => {
            return None;
        },
    };
    let p8 = match expect_lit(v, p7, ",\"created_at\":") {
        Some(x) => x,
        None => {
            return None;
        },
    };
    let (ca, p9) = match parse_i64(v, p8) {
        Some(x) => x,
        None => {
            return None;
        },
    };
    let p10 = match expect_lit(v, p9, "}") {
        Some(x) => x,
        None => {
            return None;
        },
    };
    let rec = Tag { name, content, owner_id: owner, uses: uses as u32, location: loc, created_at: ca };
    Some((Record::Tag(rec), p10))
}

/// Parses one record at `pos`.
pub fn parse_record(v: &Vec<char>, pos: usize) -> (r: Option<(Record, usize)>)
    requires
        pos <= v.len(),
    ensures
        match r {
            Some(p) => {
                &&& pos <= p.1 <= v.len()
                &&& sp_record(v@.skip(pos as int)) == Some((p.0@, v@.skip(p.1 as int)))
            },
            None => sp_record(v@.skip(pos as int)) is None,
        },
{
    let p1 = match expect_lit(v, pos, "{\"name\":") {
        Some(x) => x,
        None => {
            return None;
        },
    };
    let (name_chars, p2) = match parse_string(v, p1) {
        Some(x) => x,
        None => {
            return None;
        },
    };
    let name = chars_to_string(&name_chars);
    match expect_lit(v, p2, ",\"count\":") {
        Some(p3) => parse_counter_fields(v, p3, name),
        None => match expect_lit(v, p2, ",\"content\":") {
            Some(p3) => parse_tag_fields(v, p3, name),
            None => None,
        },
    }
}

proof fn seq_assoc(a: Seq<char>, b: Seq<char>, c: Seq<char>)
    ensures
        (a + b) + c == a + (b + c),
{
    assert((a + b) + c =~= a + (b + c));
}

/// Round trip for counters: an encoded counter followed by anything
/// parses back to the same counter.
#[verifier::rlimit(100)]
pub proof fn lemma_parse_enc_counter(c: CounterV, rest: Seq<char>)
    ensures
        sp_record(enc_counter(c) + rest) == Some((RecordV::Counter(c), rest)),
{
    reveal(sp_counter_fields);
    reveal_strlit("{\"name\":");
    reveal_strlit(",\"count\":");
    reveal_strlit(",\"owner_id\":");
    reveal_strlit(",\"public_edit\":");
    reveal_strlit(",\"queries\":");
    reveal_strlit(",\"location\":");
    reveal_strlit(",\"created_at\":");
    reveal_strlit(",\"blacklisted_users\":");
    reveal_strlit(",\"whitelisted_users\":");
    reveal_strlit("}");
    let a0 = "{\"name\":"@;
    let a1 = enc_str(c.name);
    let a2 = ",\"count\":"@;
    let a3 = dec_int(c.count as int);
    let a4 = ",\"owner_id\":"@;
    let a5 = dec_nat(c.owner_id as nat);
    let a6 = ",\"public_edit\":"@;
    let a7 = enc_bool(c.public_edit);
    let a8 = ",\"queries\":"@;
    let a9 = dec_nat(c.queries as nat);
    let a10 = ",\"location\":"@;
    let a11 = enc_opt_str(c.location);
    let a12 = ",\"created_at\":"@;
    let a13 = dec_int(c.created_at as int);
    let a14 = ",\"blacklisted_users\":"@;
    let a15 = enc_u64_arr(c.blacklisted_users);
    let a16 = ",\"whitelisted_users\":"@;
    let a17 = enc_u64_arr(c.whitelisted_users);
    let a18 = "}"@;
    let p1 = a0 + a1;
    let p2 = p1 + a2;
    let p3 = p2 + a3;
    let p4 = p3 + a4;
    let p5 = p4 + a5;
    let p6 = p5 + a6;
    let p7 = p6 + a7;
    let p8 = p7 + a8;
    let p9 = p8 + a9;
    let p10 = p9 + a10;
    let p11 = p10 + a11;
    let p12 = p11 + a12;
    let p13 = p12 + a13;
    let p14 = p13 + a14;
    let p15 = p14 + a15;
    let p16 = p15 + a16;
    let p17 = p16 + a17;
    let p18 = p17 + a18;
    assert(enc_counter(c) == p18);
    let w = enc_counter(c) + rest;
    let t18 = a18 + rest;
    seq_assoc(p17, a18, rest);
    let t17 = a17 + t18;
    seq_assoc(p16, a17, t18);
    let t16 = a16 + t17;
    seq_assoc(p15, a16, t17);
    let t15 = a15 + t16;
    seq_assoc(p14, a15, t16);
    let t14 = a14 + t15;
    seq_assoc(p13, a14, t15);
    let t13 = a13 + t14;
    seq_assoc(p12, a13, t14);
    let t12 = a12 + t13;
    seq_assoc(p11, a12, t13);
    let t11 = a11 + t12;
    seq_assoc(p10, a11, t12);
    let t10 = a10 + t11;
    seq_assoc(p9, a10, t11);
    let t9 = a9 + t10;
    seq_assoc(p8, a9, t10);
    let t8 = a8 + t9;
    seq_assoc(p7, a8, t9);
    let t7 = a7 + t8;
    seq_assoc(p6, a7, t8);
    let t6 = a6 + t7;
    seq_assoc(p5, a6, t7);
    let t5 = a5 + t6;
    seq_assoc(p4, a5, t6);
    let t4 = a4 + t5;
    seq_assoc(p3, a4, t5);
    let t3 = a3 + t4;
    seq_assoc(p2, a3, t4);
    let t2 = a2 + t3;
    seq_assoc(p1, a2, t3);
    let t1 = a1 + t2;
    seq_assoc(a0, a1, t2);
    assert(w == a0 + t1);
    lemma_parse_lit(a0, t1);
    lemma_parse_enc_str(c.name, t2);
    lemma_parse_lit(a2, t3);
    assert(t4[0] == ',' && !is_digit(','));
    lemma_parse_dec_i64(c.count, t4);
    lemma_parse_lit(a4, t5);
    assert(t6[0] == ',' && !is_digit(','));
    lemma_parse_dec_u64(c.owner_id, t6);
    lemma_parse_lit(a6, t7);
    lemma_parse_enc_bool(c.public_edit, t8);
    lemma_parse_lit(a8, t9);
    assert(t10[0] == ',' && !is_digit(','));
    lemma_parse_dec_u64(c.queries as u64, t10);
    lemma_parse_lit(a10, t11);
    lemma_parse_enc_opt_str(c.location, t12);
    lemma_parse_lit(a12, t13);
    assert(t14[0] == ',' && !is_digit(','));
    lemma_parse_dec_i64(c.created_at, t14);
    lemma_parse_lit(a14, t15);
    lemma_parse_enc_u64_arr(c.blacklisted_users, t16);
    lemma_parse_lit(a16, t17);
    lemma_parse_enc_u64_arr(c.whitelisted_users, t18);
    lemma_parse_lit(a18, rest);
    assert(sp_counter_fields(c.name, t3) == Some((RecordV::Counter(c), rest)));
}

/// Round trip for tags.
#[verifier::rlimit(100)]
pub proof fn lemma_parse_enc_tag(t: TagV, rest: Seq<char>)
    ensures
        sp_record(enc_tag(t) + rest) == Some((RecordV::Tag(t), rest)),
{
    reveal(sp_tag_fields);
    reveal_strlit("{\"name\":");
    reveal_strlit(",\"count\":");
    reveal_strlit(",\"content\":");
    reveal_strlit(",\"owner_id\":");
    reveal_strlit(",\"uses\":");
    reveal_strlit(",\"location\":");
    reveal_strlit(",\"created_at\":");
    reveal_strlit("}");
    let a0 = "{\"name\":"@;
    let a1 = enc_str(t.name);
    let a2 = ",\"content\":"@;
    let a3 = enc_str(t.content);
    let a4 = ",\"owner_id\":"@;
    let a5 = dec_nat(t.owner_id as nat);
    let a6 = ",\"uses\":"@;
    let a7 = dec_nat(t.uses as nat);
    let a8 = ",\"location\":"@;
    let a9 = enc_opt_str(t.location);
    let a10 = ",\"created_at\":"@;
    let a11 = dec_int(t.created_at as int);
    let a12 = "}"@;
    let p1 = a0 + a1;
    let p2 = p1 + a2;
    let p3 = p2 + a3;
    let p4 = p3 + a4;
    let p5 = p4 + a5;
    let p6 = p5 + a6;
    let p7 = p6 + a7;
    let p8 = p7 + a8;
    let p9 = p8 + a9;
    let p10 = p9 + a10;
    let p11 = p10 + a11;
    let p12 = p11 + a12;
    assert(enc_tag(t) == p12);
    let w = enc_tag(t) + rest;
    let t12 = a12 + rest;
    seq_assoc(p11, a12, rest);
    let t11 = a11 + t12;
    seq_assoc(p10, a11, t12);
    let t10 = a10 + t11;
    seq_assoc(p9, a10, t11);
    let t9 = a9 + t10;
    seq_assoc(p8, a9, t10);
    let t8 = a8 + t9;
    seq_assoc(p7, a8, t9);
    let t7 = a7 + t8;
    seq_assoc(p6, a7, t8);
    let t6 = a6 + t7;
    seq_assoc(p5, a6, t7);
    let t5 = a5 + t6;
    seq_assoc(p4, a5, t6);
    let t4 = a4 + t5;
    seq_assoc(p3, a4, t5);
    let t3 = a3 + t4;
    seq_assoc(p2, a3, t4);
    let t2 = a2 + t3;
    seq_assoc(p1, a2, t3);
    let t1 = a1 + t2;
    seq_assoc(a0, a1, t2);
    assert(w == a0 + t1);
    lemma_parse_lit(a0, t1);
    lemma_parse_enc_str(t.name, t2);
    assert(sp_lit(t2, ",\"count\":"@) is None) by {
        if sp_lit(t2, ",\"count\":"@) is Some {
            assert(t2.take(10)[4] == t2[4]);
            assert(t2[4] == a2[4]);
        }
    }
    lemma_parse_lit(a2, t3);
    lemma_parse_enc_str(t.content, t4);
    lemma_parse_lit(a4, t5);
    assert(t6[0] == ',' && !is_digit(','));
    lemma_parse_dec_u64(t.owner_id, t6);
    lemma_parse_lit(a6, t7);
    assert(t8[0] == ',' && !is_digit(','));
    lemma_parse_dec_u64(t.uses as u64, t8);
    lemma_parse_lit(a8, t9);
    lemma_parse_enc_opt_str(t.location, t10);
    lemma_parse_lit(a10, t11);
    assert(t12[0] == '}' && !is_digit('}'));
    lemma_parse_dec_i64(t.created_at, t12);
    lemma_parse_lit(a12, rest);
    assert(sp_tag_fields(t.name, t3) == Some((RecordV::Tag(t), rest)));
}

/// Round trip for either record kind.
pub proof fn lemma_parse_enc_record(r: RecordV, rest: Seq<char>)
    ensures
        sp_record(enc_record(r) + rest) == Some((r, rest)),
{
    match r {
        RecordV::Counter(c) => lemma_parse_enc_counter(c, rest),
        RecordV::Tag(t) => lemma_parse_enc_tag(t, rest),
    }
}

/// One namespace entry: the quoted name, a colon, the record.
pub open spec fn enc_ns_entry(k: Seq<char>, r: RecordV) -> Seq<char> {
    enc_str(k) + seq![':'] + enc_record(r)
}

/// The comma-separated entries of a namespace object.
pub open spec fn enc_ns_items(ns: Seq<(Seq<char>, RecordV)>) -> Seq<char>
    decreases ns.len(),
{
    if ns.len() == 0 {
        Seq::empty()
    } else if ns.len() == 1 {
        enc_ns_entry(ns[0].0, ns[0].1)
    } else {
        enc_ns_entry(ns[0].0, ns[0].1) + seq![','] + enc_ns_items(ns.drop_first())
    }
}

/// A namespace as a JSON object from record name to record.
pub open spec fn enc_ns(ns: Seq<(Seq<char>, RecordV)>) -> Seq<char> {
    seq!['{'] + enc_ns_items(ns) + seq!['}']
}

/// What parsing one-or-more namespace entries followed by the closing
/// brace yields.
pub open spec fn sp_ns_items(s: Seq<char>) -> Option<(Seq<(Seq<char>, RecordV)>, Seq<char>)>
    decreases s.len(),
{
    match sp_str(s) {
        None => None,
        Some((k, s1)) => match sp_lit(s1, seq![':']) {
            None => None,
            Some(s2) => match sp_record(s2) {
                None => None,
                Some((r, s3)) => if s3.len() < s.len() {
                    if s3.len() > 0 && s3[0] == ',' {
                        match sp_ns_items(s3.drop_first()) {
                            Some(q) => Some((seq![(k, r)] + q.0, q.1)),
                            None => None,
                        }
                    } else if s3.len() > 0 && s3[0] == '}' {
                        Some((seq![(k, r)], s3.drop_first()))
                    } else {
                        None
                    }
                } else {
                    None
                },
            },
        },
    }
}

/// What parsing a whole namespace object yields.
pub open spec fn sp_ns(s: Seq<char>) -> Option<(Seq<(Seq<char>, RecordV)>, Seq<char>)> {
    if s.len() > 0 && s[0] == '{' {
        let t = s.drop_first();
        if t.len() > 0 && t[0] == '}' {
            Some((Seq::empty(), t.drop_first()))
        } else {
            sp_ns_items(t)
        }
    } else {
        None
    }
}

/// One store entry: the quoted location key, a colon, the namespace.
pub open spec fn enc_store_entry(k: Seq<char>, ns: Seq<(Seq<char>, RecordV)>) -> Seq<char> {
    enc_str(k) + seq![':'] + enc_ns(ns)
}

/// The comma-separated entries of the store object.
pub open spec fn enc_store_items(st: Seq<(Seq<char>, Seq<(Seq<char>, RecordV)>)>) -> Seq<char>
    decreases st.len(),
{
    if st.len() == 0 {
        Seq::empty()
    } else if st.len() == 1 {
        enc_store_entry(st[0].0, st[0].1)
    } else {
        enc_store_entry(st[0].0, st[0].1) + seq![','] + enc_store_items(st.drop_first())
    }
}

/// The whole store file: a JSON object from location key to namespace.
pub open spec fn enc_store(st: Seq<(Seq<char>, Seq<(Seq<char>, RecordV)>)>) -> Seq<char> {
    seq!['{'] + enc_store_items(st) + seq!['}']
}

/// What parsing one-or-more store entries followed by the closing brace
/// yields.
pub open spec fn sp_store_items(s: Seq<char>) -> Option<
    (Seq<(Seq<char>, Seq<(Seq<char>, RecordV)>)>, Seq<char>),
>
    decreases s.len(),
{
    match sp_str(s) {
        None => None,
        Some((k, s1)) => match sp_lit(s1, seq![':']) {
            None => None,
            Some(s2) => match sp_ns(s2) {
                None => None,
                Some((ns, s3)) => if s3.len() < s.len() {
                    if s3.len() > 0 && s3[0] == ',' {
                        match sp_store_items(s3.drop_first()) {
                            Some(q) => Some((seq![(k, ns)] + q.0, q.1)),
                            None => None,
                        }
                    } else if s3.len() > 0 && s3[0] == '}' {
                        Some((seq![(k, ns)], s3.drop_first()))
                    } else {
                        None
                    }
                } else {
                    None
                },
            },
        },
    }
}

/// What parsing the whole store file yields.
pub open spec fn sp_store(s: Seq<char>) -> Option<
    (Seq<(Seq<char>, Seq<(Seq<char>, RecordV)>)>, Seq<char>),
> {
    if s.len() > 0 && s[0] == '{' {
        let t = s.drop_first();
        if t.len() > 0 && t[0] == '}' {
            Some((Seq::empty(), t.drop_first()))
        } else {
            sp_store_items(t)
        }
    } else {
        None
    }
}

/// The view of a sequence of named namespaces, as the store encodes it.
pub open spec fn store_view(entries: Seq<(String, Namespace)>) -> Seq<
    (Seq<char>, Seq<(Seq<char>, RecordV)>),
> {
    Seq::new(entries.len(), |i: int| (entries[i].0@, entries[i].1@))
}

proof fn lemma_enc_ns_items_snoc(ns: Seq<(Seq<char>, RecordV)>, k: Seq<char>, r: RecordV)
    ensures
        enc_ns_items(ns.push((k, r))) == if ns.len() == 0 {
            enc_ns_entry(k, r)
        } else {
            enc_ns_items(ns) + seq![','] + enc_ns_entry(k, r)
        },
    decreases ns.len(),
{
    let w = ns.push((k, r));
    if ns.len() == 0 {
        assert(w.len() == 1);
        assert(w[0] == (k, r));
    } else {
        assert(w.len() >= 2);
        assert(w[0] == ns[0]);
        assert(w.drop_first() =~= ns.drop_first().push((k, r)));
        lemma_enc_ns_items_snoc(ns.drop_first(), k, r);
        if ns.len() == 1 {
            assert(enc_ns_items(ns) == enc_ns_entry(ns[0].0, ns[0].1));
        } else {
            assert(enc_ns_items(w) == enc_ns_entry(ns[0].0, ns[0].1) + seq![','] + (enc_ns_items(
                ns.drop_first(),
            ) + seq![','] + enc_ns_entry(k, r)));
            assert(enc_ns_entry(ns[0].0, ns[0].1) + seq![','] + (enc_ns_items(ns.drop_first())
                + seq![','] + enc_ns_entry(k, r)) =~= (enc_ns_entry(ns[0].0, ns[0].1) + seq![',']
                + enc_ns_items(ns.drop_first())) + seq![','] + enc_ns_entry(k, r));
        }
    }
}

proof fn lemma_enc_store_items_snoc(
    st: Seq<(Seq<char>, Seq<(Seq<char>, RecordV)>)>,
    k: Seq<char>,
    ns: Seq<(Seq<char>, RecordV)>,
)
    ensures
        enc_store_items(st.push((k, ns))) == if st.len() == 0 {
            enc_store_entry(k, ns)
        } else {
            enc_store_items(st) + seq![','] + enc_store_entry(k, ns)
        },
    decreases st.len(),
{
    let w = st.push((k, ns));
    if st.len() == 0 {
        assert(w.len() == 1);
        assert(w[0] == (k, ns));
    } else {
        assert(w.len() >= 2);
        assert(w[0] == st[0]);
        assert(w.drop_first() =~= st.drop_first().push((k, ns)));
        lemma_enc_store_items_snoc(st.drop_first(), k, ns);
        if st.len() == 1 {
            assert(enc_store_items(st) == enc_store_entry(st[0].0, st[0].1));
        } else {
            assert(enc_store_items(w) == enc_store_entry(st[0].0, st[0].1) + seq![','] + (
            enc_store_items(st.drop_first()) + seq![','] + enc_store_entry(k, ns)));
            assert(enc_store_entry(st[0].0, st[0].1) + seq![','] + (enc_store_items(
                st.drop_first(),
            ) + seq![','] + enc_store_entry(k, ns)) =~= (enc_store_entry(st[0].0, st[0].1)
                + seq![','] + enc_store_items(st.drop_first())) + seq![','] + enc_store_entry(
                k,
                ns,
            ));
        }
    }
}

/// Appends the encoded form of a namespace to `out`.
#[verifier::rlimit(100)]
pub fn push_ns(out: &mut Vec<char>, ns: &Namespace)
    ensures
        final(out)@ == old(out)@ + enc_ns(ns@),
{
    out.push('{');
    let mut i: usize = 0;
    while i < ns.entries.len()
        invariant
            i <= ns.entries.len(),
            out@ == old(out)@ + seq!['{'] + enc_ns_items(ns@.take(i as int)),
        decreases ns.entries.len() - i,
    {
        proof {
            assert(ns@.take(i as int + 1) =~= ns@.take(i as int).push(ns@[i as int]));
            lemma_enc_ns_items_snoc(ns@.take(i as int), ns@[i as int].0, ns@[i as int].1);
        }
        if i > 0 {
            out.push(',');
        }
        let name_chars = crate::text::str_to_chars(ns.entries[i].0.as_str());
        push_quoted(out, &name_chars);
        out.push(':');
        push_record(out, &ns.entries[i].1);
        i = i + 1;
        assert(out@ =~= old(out)@ + seq!['{'] + enc_ns_items(ns@.take(i as int)));
    }
    out.push('}');
    proof {
        assert(ns@.take(ns@.len() as int) =~= ns@);
        assert(out@ =~= old(out)@ + enc_ns(ns@));
    }
}

/// Appends the encoded form of the whole store to `out`.
#[verifier::rlimit(100)]
pub fn push_store(out: &mut Vec<char>, entries: &Vec<(String, Namespace)>)
    ensures
        final(out)@ == old(out)@ + enc_store(store_view(entries@)),
{
    let ghost sv = store_view(entries@);
    out.push('{');
    let mut i: usize = 0;
    while i < entries.len()
        invariant
            i <= entries.len(),
            sv == store_view(entries@),
            sv.len() == entries.len(),
            forall|j: int| 0 <= j < entries@.len() ==> #[trigger] sv[j] == (entries@[j].0@, entries@[j].1@),
            out@ == old(out)@ + seq!['{'] + enc_store_items(sv.take(i as int)),
        decreases entries.len() - i,
    {
        proof {
            assert(sv.take(i as int + 1) =~= sv.take(i as int).push(sv[i as int]));
            lemma_enc_store_items_snoc(sv.take(i as int), sv[i as int].0, sv[i as int].1);
        }
        if i > 0 {
            out.push(',');
        }
        let key_chars = crate::text::str_to_chars(entries[i].0.as_str());
        push_quoted(out, &key_chars);
        out.push(':');
        push_ns(out, &entries[i].1);
        i = i + 1;
        assert(out@ =~= old(out)@ + seq!['{'] + enc_store_items(sv.take(i as int)));
    }
    out.push('}');
    proof {
        assert(sv.take(sv.len() as int) =~= sv);
        assert(out@ =~= old(out)@ + enc_store(sv));
    }
}

/// Parses a namespace object at `pos`. The namespace's name-uniqueness
/// invariant is not checked here; the caller checks it.
#[verifier::rlimit(100)]
pub fn parse_ns(v: &Vec<char>, pos: usize) -> (r: Option<(Namespace, usize)>)
    requires
        pos <= v.len(),
    ensures
        match r {
            Some(p) => {
                &&& pos < p.1 <= v.len()
                &&& sp_ns(v@.skip(pos as int)) == Some((p.0@, v@.skip(p.1 as int)))
            },
            None => sp_ns(v@.skip(pos as int)) is None,
        },
{
    if pos == v.len() || v[pos] != '{' {
        proof {
            if pos < v.len() {
                assert(v@.skip(pos as int)[0] == v@[pos as int]);
            }
        }
        return None;
    }
    proof {
        assert(v@.skip(pos as int)[0] == v@[pos as int]);
        assert(v@.skip(pos as int).drop_first() =~= v@.skip(pos as int + 1));
    }
    if pos + 1 < v.len() && v[pos + 1] == '}' {
        proof {
            assert(v@.skip(pos as int + 1)[0] == v@[pos as int + 1]);
            assert(v@.skip(pos as int + 1).drop_first() =~= v@.skip(pos as int + 2));
        }
        let ns = Namespace::new();
        proof {
            assert(ns@ =~= Seq::<(Seq<char>, RecordV)>::empty());
        }
        return Some((ns, pos + 2));
    }
    proof {
        if pos + 1 < v.len() {
            assert(v@.skip(pos as int + 1)[0] == v@[pos as int + 1]);
        }
    }
    let ghost s1 = v@.skip(pos as int + 1);
    let mut acc: Vec<(String, Record)> = Vec::new();
    let ghost accv = Seq::<(Seq<char>, RecordV)>::empty();
    let mut cur: usize = pos + 1;
    loop
        invariant
            pos + 1 <= cur <= v.len(),
            s1 == v@.skip(pos as int + 1),
            pos < v.len(),
            v@.skip(pos as int)[0] == '{',
            v@.skip(pos as int).drop_first() == s1,
            !(s1.len() > 0 && s1[0] == '}'),
            accv.len() == acc@.len(),
            forall|j: int| 0 <= j < acc@.len() ==> #[trigger] accv[j] == (acc@[j].0@, acc@[j].1@),
            match sp_ns_items(v@.skip(cur as int)) {
                Some(p) => sp_ns_items(s1) == Some((accv + p.0, p.1)),
                None => sp_ns_items(s1) is None,
            },
        decreases v.len() - cur,
    {
        let (key_chars, p1) = match parse_string(v, cur) {
            Some(x) => x,
            None => {
                return None;
            },
        };
        let key = chars_to_string(&key_chars);
        let p2 = match expect_char(v, p1, ':') {
            Some(x) => x,
            None => {
                return None;
            },
        };
        let (rec, p3) = match parse_record(v, p2) {
            Some(x) => x,
            None => {
                return None;
            },
        };
        let ghost sc = v@.skip(cur as int);
        let ghost sr = v@.skip(p3 as int);
        proof {
            assert(sr.len() < sc.len());
        }
        if p3 < v.len() && v[p3] == ',' {
            proof {
                assert(sr[0] == v@[p3 as int]);
                assert(sr.drop_first() =~= v@.skip(p3 as int + 1));
            }
            let ghost before = accv;
            acc.push((key, rec));
            proof {
                accv = accv.push((key@, rec@));
            }
            cur = p3 + 1;
            proof {
                if sp_ns_items(v@.skip(cur as int)) is Some {
                    let q = sp_ns_items(v@.skip(cur as int)).unwrap();
                    assert(before + (seq![(key@, rec@)] + q.0) =~= accv + q.0);
                }
            }
        } else if p3 < v.len() && v[p3] == '}' {
            proof {
                assert(sr[0] == v@[p3 as int]);
                assert(sr.drop_first() =~= v@.skip(p3 as int + 1));
                assert(sp_ns_items(sc) == Some((seq![(key@, rec@)], v@.skip(p3 as int + 1))));
            }
            let ghost before = accv;
            acc.push((key, rec));
            proof {
                accv = accv.push((key@, rec@));
                assert(before + seq![(key@, rec@)] =~= accv);
            }
            let ns = Namespace { entries: acc };
            proof {
                assert(ns@ =~= accv);
            }
            return Some((ns, p3 + 1));
        } else {
            proof {
                if p3 < v.len() {
                    assert(sr[0] == v@[p3 as int]);
                }
                assert(sp_ns_items(sc) is None);
            }
            return None;
        }
    }
}

/// Parses the whole store file at `pos`: the sequence of named
/// namespaces. Key uniqueness is checked by the caller.
#[verifier::rlimit(100)]
pub fn parse_store(v: &Vec<char>, pos: usize) -> (r: Option<(Vec<(String, Namespace)>, usize)>)
    requires
        pos <= v.len(),
    ensures
        match r {
            Some(p) => {
                &&& pos < p.1 <= v.len()
                &&& sp_store(v@.skip(pos as int)) == Some((store_view(p.0@), v@.skip(p.1 as int)))
            },
            None => sp_store(v@.skip(pos as int)) is None,
        },
{
    if pos == v.len() || v[pos] != '{' {
        proof {
            if pos < v.len() {
                assert(v@.skip(pos as int)[0] == v@[pos as int]);
            }
        }
        return None;
    }
    proof {
        assert(v@.skip(pos as int)[0] == v@[pos as int]);
        assert(v@.skip(pos as int).drop_first() =~= v@.skip(pos as int + 1));
    }
    if pos + 1 < v.len() && v[pos + 1] == '}' {
        proof {
            assert(v@.skip(pos as int + 1)[0] == v@[pos as int + 1]);
            assert(v@.skip(pos as int + 1).drop_first() =~= v@.skip(pos as int + 2));
        }
        let entries: Vec<(String, Namespace)> = Vec::new();
        proof {
            assert(store_view(entries@) =~= Seq::<(Seq<char>, Seq<(Seq<char>, RecordV)>)>::empty());
        }
        return Some((entries, pos + 2));
    }
    proof {
        if pos + 1 < v.len() {
            assert(v@.skip(pos as int + 1)[0] == v@[pos as int + 1]);
        }
    }
    let ghost s1 = v@.skip(pos as int + 1);
    let mut acc: Vec<(String, Namespace)> = Vec::new();
    let ghost accv = Seq::<(Seq<char>, Seq<(Seq<char>, RecordV)>)>::empty();
    let mut cur: usize = pos + 1;
    loop
        invariant
            pos + 1 <= cur <= v.len(),
            s1 == v@.skip(pos as int + 1),
            pos < v.len(),
            v@.skip(pos as int)[0] == '{',
            v@.skip(pos as int).drop_first() == s1,
            !(s1.len() > 0 && s1[0] == '}'),
            accv.len() == acc@.len(),
            accv == store_view(acc@),
            match sp_store_items(v@.skip(cur as int)) {
                Some(p) => sp_store_items(s1) == Some((accv + p.0, p.1)),
                None => sp_store_items(s1) is None,
            },
        decreases v.len() - cur,
    {
        let (key_chars, p1) = match parse_string(v, cur) {
            Some(x) => x,
            None => {
                return None;
            },
        };
        let key = chars_to_string(&key_chars);
        let p2 = match expect_char(v, p1, ':') {
            Some(x) => x,
            None => {
                return None;
            },
        };
        let (ns, p3) = match parse_ns(v, p2) {
            Some(x) => x,
            None => {
                return None;
            },
        };
        let ghost sc = v@.skip(cur as int);
        let ghost sr = v@.skip(p3 as int);
        proof {
            assert(sr.len() < sc.len());
        }
        if p3 < v.len() && v[p3] == ',' {
            proof {
                assert(sr[0] == v@[p3 as int]);
                assert(sr.drop_first() =~= v@.skip(p3 as int + 1));
            }
            let ghost before = accv;
            let ghost nsv = ns@;
            acc.push((key, ns));
            proof {
                accv = accv.push((key@, nsv));
                assert(accv =~= store_view(acc@));
            }
            cur = p3 + 1;
            proof {
                if sp_store_items(v@.skip(cur as int)) is Some {
                    let q = sp_store_items(v@.skip(cur as int)).unwrap();
                    assert(before + (seq![(key@, nsv)] + q.0) =~= accv + q.0);
                }
            }
        } else if p3 < v.len() && v[p3] == '}' {
            proof {
                assert(sr[0] == v@[p3 as int]);
                assert(sr.drop_first() =~= v@.skip(p3 as int + 1));
            }
            let ghost nsv = ns@;
            proof {
                assert(sp_store_items(sc) == Some((seq![(key@, nsv)], v@.skip(p3 as int + 1))));
            }
            let ghost before = accv;
            acc.push((key, ns));
            proof {
                accv = accv.push((key@, nsv));
                assert(accv =~= store_view(acc@));
                assert(before + seq![(key@, nsv)] =~= accv);
            }
            return Some((acc, p3 + 1));
        } else {
            proof {
                if p3 < v.len() {
                    assert(sr[0] == v@[p3 as int]);
                }
                assert(sp_store_items(sc) is None);
            }
            return None;
        }
    }
}

/// Round trip for the entries of a non-empty namespace object.
#[verifier::rlimit(100)]
proof fn lemma_parse_enc_ns_items(ns: Seq<(Seq<char>, RecordV)>, rest: Seq<char>)
    requires
        ns.len() >= 1,
    ensures
        sp_ns_items(enc_ns_items(ns) + seq!['}'] + rest) == Some((ns, rest)),
    decreases ns.len(),
{
    let k = ns[0].0;
    let r = ns[0].1;
    let e = enc_ns_entry(k, r);
    if ns.len() == 1 {
        let tail = seq!['}'] + rest;
        let w = enc_ns_items(ns) + seq!['}'] + rest;
        assert(w =~= e + tail);
        let x2 = enc_record(r) + tail;
        let x1 = seq![':'] + x2;
        seq_assoc(enc_str(k) + seq![':'], enc_record(r), tail);
        seq_assoc(enc_str(k), seq![':'], x2);
        assert(w == enc_str(k) + x1);
        lemma_parse_enc_str(k, x1);
        lemma_parse_lit(seq![':'], x2);
        lemma_parse_enc_record(r, tail);
        assert(e.len() >= 1) by {
            assert(enc_str(k).len() >= 2);
        }
        assert(tail.len() < w.len());
        assert(tail[0] == '}');
        assert(tail[0] != ',');
        assert(tail.drop_first() =~= rest);
        assert(seq![(k, r)] =~= ns);
    } else {
        let more = enc_ns_items(ns.drop_first());
        let tail = seq![','] + (more + seq!['}'] + rest);
        let w = enc_ns_items(ns) + seq!['}'] + rest;
        assert(w =~= e + tail) by {
            assert(enc_ns_items(ns) == e + seq![','] + more);
            assert((e + seq![','] + more) + seq!['}'] + rest =~= e + (seq![','] + (more + seq!['}']
                + rest)));
        }
        let x2 = enc_record(r) + tail;
        let x1 = seq![':'] + x2;
        seq_assoc(enc_str(k) + seq![':'], enc_record(r), tail);
        seq_assoc(enc_str(k), seq![':'], x2);
        assert(w == enc_str(k) + x1);
        lemma_parse_enc_str(k, x1);
        lemma_parse_lit(seq![':'], x2);
        lemma_parse_enc_record(r, tail);
        assert(e.len() >= 1) by {
            assert(enc_str(k).len() >= 2);
        }
        assert(tail.len() < w.len());
        assert(tail[0] == ',');
        assert(tail.drop_first() =~= more + seq!['}'] + rest);
        lemma_parse_enc_ns_items(ns.drop_first(), rest);
        assert(seq![(k, r)] + ns.drop_first() =~= ns);
    }
}

/// Round trip for namespace objects.
pub proof fn lemma_parse_enc_ns(ns: Seq<(Seq<char>, RecordV)>, rest: Seq<char>)
    ensures
        sp_ns(enc_ns(ns) + rest) == Some((ns, rest)),
{
    let w = enc_ns(ns) + rest;
    assert(w[0] == '{');
    let t = w.drop_first();
    assert(t =~= enc_ns_items(ns) + seq!['}'] + rest);
    if ns.len() == 0 {
        assert(enc_ns_items(ns).len() == 0);
        assert(t[0] == '}');
        assert(t.drop_first() =~= rest);
    } else {
        assert(enc_ns_items(ns)[0] == '"') by {
            let e = enc_ns_entry(ns[0].0, ns[0].1);
            assert(e[0] == enc_str(ns[0].0)[0]);
            assert(enc_str(ns[0].0)[0] == '"');
            if ns.len() == 1 {
            } else {
                assert(enc_ns_items(ns) == e + seq![','] + enc_ns_items(ns.drop_first()));
                assert(enc_ns_items(ns)[0] == e[0]) by {
                    assert(enc_str(ns[0].0).len() >= 2);
                }
            }
        }
        assert(t[0] == '"');
        assert(t[0] != '}');
        lemma_parse_enc_ns_items(ns, rest);
    }
}

/// Round trip for the entries of a non-empty store object.
#[verifier::rlimit(100)]
proof fn lemma_parse_enc_store_items(
    st: Seq<(Seq<char>, Seq<(Seq<char>, RecordV)>)>,
    rest: Seq<char>,
)
    requires
        st.len() >= 1,
    ensures
        sp_store_items(enc_store_items(st) + seq!['}'] + rest) == Some((st, rest)),
    decreases st.len(),
{
    let k = st[0].0;
    let ns = st[0].1;
    let e = enc_store_entry(k, ns);
    if st.len() == 1 {
        let tail = seq!['}'] + rest;
        let w = enc_store_items(st) + seq!['}'] + rest;
        assert(w =~= e + tail);
        let x2 = enc_ns(ns) + tail;
        let x1 = seq![':'] + x2;
        seq_assoc(enc_str(k) + seq![':'], enc_ns(ns), tail);
        seq_assoc(enc_str(k), seq![':'], x2);
        assert(w == enc_str(k) + x1);
        lemma_parse_enc_str(k, x1);
        lemma_parse_lit(seq![':'], x2);
        lemma_parse_enc_ns(ns, tail);
        assert(e.len() >= 1) by {
            assert(enc_str(k).len() >= 2);
        }
        assert(tail.len() < w.len());
        assert(tail[0] == '}');
        assert(tail[0] != ',');
        assert(tail.drop_first() =~= rest);
        assert(seq![(k, ns)] =~= st);
    } else {
        let more = enc_store_items(st.drop_first());
        let tail = seq![','] + (more + seq!['}'] + rest);
        let w = enc_store_items(st) + seq!['}'] + rest;
        assert(w =~= e + tail) by {
            assert(enc_store_items(st) == e + seq![','] + more);
            assert((e + seq![','] + more) + seq!['}'] + rest =~= e + (seq![','] + (more + seq!['}']
                + rest)));
        }
        let x2 = enc_ns(ns) + tail;
        let x1 = seq![':'] + x2;
        seq_assoc(enc_str(k) + seq![':'], enc_ns(ns), tail);
        seq_assoc(enc_str(k), seq![':'], x2);
        assert(w == enc_str(k) + x1);
        lemma_parse_enc_str(k, x1);
        lemma_parse_lit(seq![':'], x2);
        lemma_parse_enc_ns(ns, tail);
        assert(e.len() >= 1) by {
            assert(enc_str(k).len() >= 2);
        }
        assert(tail.len() < w.len());
        assert(tail[0] == ',');
        assert(tail.drop_first() =~= more + seq!['}'] + rest);
        lemma_parse_enc_store_items(st.drop_first(), rest);
        assert(seq![(k, ns)] + st.drop_first() =~= st);
    }
}

/// Round trip for whole store files followed by anything.
pub proof fn lemma_parse_enc_store(st: Seq<(Seq<char>, Seq<(Seq<char>, RecordV)>)>, rest: Seq<char>)
    ensures
        sp_store(enc_store(st) + rest) == Some((st, rest)),
{
    let w = enc_store(st) + rest;
    assert(w[0] == '{');
    let t = w.drop_first();
    assert(t =~= enc_store_items(st) + seq!['}'] + rest);
    if st.len() == 0 {
        assert(enc_store_items(st).len() == 0);
        assert(t[0] == '}');
        assert(t.drop_first() =~= rest);
    } else {
        assert(enc_store_items(st)[0] == '"') by {
            let e = enc_store_entry(st[0].0, st[0].1);
            assert(e[0] == enc_str(st[0].0)[0]);
            assert(enc_str(st[0].0)[0] == '"');
            if st.len() == 1 {
            } else {
                assert(enc_store_items(st) == e + seq![','] + enc_store_items(st.drop_first()));
                assert(enc_store_items(st)[0] == e[0]) by {
                    assert(enc_str(st[0].0).len() >= 2);
                }
            }
        }
        assert(t[0] == '"');
        assert(t[0] != '}');
        lemma_parse_enc_store_items(st, rest);
    }
}

/// The persistence round trip: parsing the encoded form of a store
/// yields exactly that store, with nothing left over.
pub proof fn lemma_store_round_trip(st: Seq<(Seq<char>, Seq<(Seq<char>, RecordV)>)>)
    ensures
        sp_store(enc_store(st)) == Some((st, Seq::<char>::empty())),
{
    lemma_parse_enc_store(st, Seq::<char>::empty());
    assert(enc_store(st) + Seq::<char>::empty() =~= enc_store(st));
}

} // verus!
