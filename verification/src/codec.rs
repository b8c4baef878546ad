//! The wire codec: every message goes over TCP as one externally-tagged JSON
//! value on a line of its own.
//!
//! The encoders render exactly the compact form `{"Tag":{"field":value,...}}`
//! with the fields in declaration order; the decoders read that form back.
//! Reading back what was rendered gives the original message: the round-trip
//! lemmas at the end of the module state that for every message type, over
//! the message models.

use vstd::prelude::*;

use crate::text::dec_seq;
use crate::text::digit_char_exec;
use crate::text::digit_val_exec;
use crate::text::is_digit;
use crate::text::is_digit_exec;
use crate::text::push_char;

verus! {

/// The hexadecimal digit for a value below sixteen, lower case.
pub open spec fn hex_char(d: nat) -> char
    recommends
        d < 16,
{
    if d < 10 {
        (48 + d) as char
    } else {
        (87 + d) as char
    }
}

/// How one character is written inside a JSON string: quote and backslash get
/// a backslash, control characters become `\u00xx`, everything else stands
/// as itself.
pub open spec fn esc_char(c: char) -> Seq<char> {
    if c == '"' {
        seq!['\\', '"']
    } else if c == '\\' {
        seq!['\\', '\\']
    } else if (c as u32) < 32 {
        seq!['\\', 'u', '0', '0', hex_char((c as u32 / 16) as nat), hex_char(
            (c as u32 % 16) as nat,
        )]
    } else {
        seq![c]
    }
}

/// A whole string body, escaped.
pub open spec fn esc(s: Seq<char>) -> Seq<char>
    decreases s.len(),
{
    if s.len() == 0 {
        Seq::empty()
    } else {
        esc_char(s[0]) + esc(s.drop_first())
    }
}

/// A JSON string: the escaped body between quotes.
pub open spec fn enc_str(s: Seq<char>) -> Seq<char> {
    seq!['"'] + esc(s) + seq!['"']
}

/// The bodies of a string list, comma-separated.
pub open spec fn enc_items(l: Seq<Seq<char>>) -> Seq<char>
    decreases l.len(),
{
    if l.len() == 0 {
        Seq::empty()
    } else if l.len() == 1 {
        enc_str(l[0])
    } else {
        enc_str(l[0]) + seq![','] + enc_items(l.drop_first())
    }
}

/// A JSON list of strings.
pub open spec fn enc_list(l: Seq<Seq<char>>) -> Seq<char> {
    seq!['['] + enc_items(l) + seq![']']
}

/// An `Ok`-or-message result, externally tagged the way serde writes it.
pub open spec fn enc_result(r: crate::wire::ResultV) -> Seq<char> {
    match r {
        crate::wire::ResultV::Okay => "{\"Ok\":null}"@,
        crate::wire::ResultV::Failed(e) => "{\"Err\":"@ + enc_str(e) + "}"@,
    }
}

/// Drops a required literal from the front.
pub open spec fn parse_lit(s: Seq<char>, l: Seq<char>) -> Option<Seq<char>> {
    if s.len() >= l.len() && s.subrange(0, l.len() as int) == l {
        Some(s.skip(l.len() as int))
    } else {
        None
    }
}

/// Reads up to the next quote: the raw characters before it and what follows
/// it.
pub open spec fn parse_until_quote(s: Seq<char>) -> Option<(Seq<char>, Seq<char>)>
    decreases s.len(),
{
    if s.len() == 0 {
        None
    } else if s[0] == '"' {
        Some((Seq::empty(), s.drop_first()))
    } else {
        match parse_until_quote(s.drop_first()) {
            Some(tr) => Some((seq![s[0]] + tr.0, tr.1)),
            None => None,
        }
    }
}

/// Reads a decimal numeral greedily, with the value carried along.
pub open spec fn parse_dec_loop(s: Seq<char>, acc: nat) -> (nat, Seq<char>)
    decreases s.len(),
{
    if s.len() > 0 && is_digit(s[0]) {
        parse_dec_loop(s.drop_first(), acc * 10 + (s[0] as u32 - 48) as nat)
    } else {
        (acc, s)
    }
}

/// Reads a decimal numeral: at least one digit, taken greedily.
pub open spec fn parse_dec(s: Seq<char>) -> Option<(nat, Seq<char>)> {
    if s.len() > 0 && is_digit(s[0]) {
        Some(parse_dec_loop(s, 0))
    } else {
        None
    }
}

/// Reads a JSON string body up to its closing quote, undoing the escapes.
pub open spec fn parse_jstr(s: Seq<char>) -> Option<(Seq<char>, Seq<char>)>
    decreases s.len(),
{
    if s.len() == 0 {
        None
    } else if s[0] == '"' {
        Some((Seq::empty(), s.drop_first()))
    } else if s[0] == '\\' {
        if s.len() < 2 {
            None
        } else if s[1] == '"' || s[1] == '\\' {
            match parse_jstr(s.skip(2)) {
                Some(tr) => Some((seq![s[1]] + tr.0, tr.1)),
                None => None,
            }
        } else if s[1] == 'u' {
            if s.len() < 6 {
                None
            } else if is_hex(s[2]) && is_hex(s[3]) && is_hex(s[4]) && is_hex(s[5]) {
                let code = ((hex_val(s[2]) * 16 + hex_val(s[3])) * 16 + hex_val(s[4])) * 16
                    + hex_val(s[5]);
                if code < 0xD800 {
                    match parse_jstr(s.skip(6)) {
                        Some(tr) => Some((seq![code as char] + tr.0, tr.1)),
                        None => None,
                    }
                } else {
                    None
                }
            } else {
                None
            }
        } else {
            None
        }
    } else {
        match parse_jstr(s.drop_first()) {
            Some(tr) => Some((seq![s[0]] + tr.0, tr.1)),
            None => None,
        }
    }
}

/// Whether a character is a lower-case hexadecimal digit.
pub open spec fn is_hex(c: char) -> bool {
    (48 <= c as u32 && c as u32 <= 57) || (97 <= c as u32 && c as u32 <= 102)
}

/// The value of a hexadecimal digit.
pub open spec fn hex_val(c: char) -> nat {
    if 48 <= c as u32 && c as u32 <= 57 {
        (c as u32 - 48) as nat
    } else if 97 <= c as u32 && c as u32 <= 102 {
        (c as u32 - 87) as nat
    } else {
        0
    }
}

/// A parsed string body leaves a strictly shorter rest.
pub proof fn lemma_parse_jstr_shrinks(s: Seq<char>)
    ensures
        match parse_jstr(s) {
            Some(tr) => tr.1.len() < s.len(),
            None => true,
        },
    decreases s.len(),
{
    if s.len() == 0 {
    } else if s[0] == '"' {
    } else if s[0] == '\\' {
        if s.len() < 2 {
        } else if s[1] == '"' || s[1] == '\\' {
            lemma_parse_jstr_shrinks(s.skip(2));
        } else if s[1] == 'u' {
            if s.len() >= 6 {
                lemma_parse_jstr_shrinks(s.skip(6));
            }
        }
    } else {
        lemma_parse_jstr_shrinks(s.drop_first());
    }
}

/// Reads a JSON list of strings after its opening bracket.
pub open spec fn parse_items(s: Seq<char>) -> Option<(Seq<Seq<char>>, Seq<char>)>
    decreases s.len(), 1int,
{
    if s.len() == 0 {
        None
    } else if s[0] == ']' {
        Some((Seq::empty(), s.drop_first()))
    } else if s[0] == '"' {
        match parse_jstr(s.drop_first()) {
            Some(tr) => parse_items_rest(tr.0, tr.1, s.len() as int),
            None => None,
        }
    } else {
        None
    }
}

/// After one list element: a comma continues the list, a bracket ends it.
/// `bound` carries the shrinking input length for termination.
pub open spec fn parse_items_rest(first: Seq<char>, s: Seq<char>, bound: int) -> Option<
    (Seq<Seq<char>>, Seq<char>),
>
    decreases bound, 0int,
{
    if s.len() >= bound {
        None
    } else if s.len() == 0 {
        None
    } else if s[0] == ']' {
        Some((seq![first], s.drop_first()))
    } else if s[0] == ',' {
        match parse_items(s.drop_first()) {
            Some(lr) => if lr.0.len() == 0 {
                None
            } else {
                Some((seq![first] + lr.0, lr.1))
            },
            None => None,
        }
    } else {
        None
    }
}

/// Reads a JSON list of strings, bracket to bracket.
pub open spec fn parse_list(s: Seq<char>) -> Option<(Seq<Seq<char>>, Seq<char>)> {
    match parse_lit(s, "["@) {
        Some(t) => parse_items(t),
        None => None,
    }
}

/// Reads an externally tagged `Ok`-or-message result.
pub open spec fn parse_result(s: Seq<char>) -> Option<(crate::wire::ResultV, Seq<char>)> {
    if parse_lit(s, "{\"Ok\":null}"@) is Some {
        Some((crate::wire::ResultV::Okay, parse_lit(s, "{\"Ok\":null}"@).unwrap()))
    } else {
        match parse_lit(s, "{\"Err\":\""@) {
            Some(t) => match parse_jstr(t) {
                Some(er) => match parse_lit(er.1, "}"@) {
                    Some(rest) => Some((crate::wire::ResultV::Failed(er.0), rest)),
                    None => None,
                },
                None => None,
            },
            None => None,
        }
    }
}

/// Dropping a literal from a text that starts with it leaves the rest.
pub proof fn lemma_parse_lit(l: Seq<char>, r: Seq<char>)
    ensures
        parse_lit(l + r, l) == Some(r),
{
    let s = l + r;
    assert(s.subrange(0, l.len() as int) =~= l);
    assert(s.skip(l.len() as int) =~= r);
}

/// Reading to the quote undoes writing a quote-free text before one.
pub proof fn lemma_parse_until_quote(t: Seq<char>, r: Seq<char>)
    requires
        forall|i: int| 0 <= i < t.len() ==> t[i] != '"',
    ensures
        parse_until_quote(t + seq!['"'] + r) == Some((t, r)),
    decreases t.len(),
{
    let s = t + seq!['"'] + r;
    if t.len() == 0 {
        assert(s[0] == '"');
        assert(s.drop_first() =~= r);
        assert(t =~= Seq::<char>::empty());
    } else {
        assert(s[0] == t[0]);
        assert(s.drop_first() =~= t.drop_first() + seq!['"'] + r);
        assert forall|i: int| 0 <= i < t.drop_first().len() implies t.drop_first()[i] != '"' by {
            assert(t.drop_first()[i] == t[i + 1]);
        }
        lemma_parse_until_quote(t.drop_first(), r);
        assert(seq![s[0]] + t.drop_first() =~= t);
    }
}

/// Ten to the power.
pub open spec fn pow10(k: nat) -> nat
    decreases k,
{
    if k == 0 {
        1
    } else {
        10 * pow10((k - 1) as nat)
    }
}

/// Greedy digit reading walks over a numeral and accumulates its value.
proof fn lemma_parse_dec_loop(n: nat, r: Seq<char>, acc: nat)
    ensures
        parse_dec_loop(dec_seq(n) + r, acc) == parse_dec_loop(
            r,
            acc * pow10(dec_seq(n).len() as nat) + n,
        ),
    decreases n,
{
    crate::text::lemma_dec_seq_digits(n);
    let s = dec_seq(n) + r;
    if n < 10 {
        assert(s[0] == dec_seq(n)[0]);
        assert(s.drop_first() =~= r);
        assert((48 + n) as char as u32 == 48 + n);
        assert(parse_dec_loop(s, acc) == parse_dec_loop(r, acc * 10 + n));
        assert(pow10(0) == 1);
        assert(pow10(1) == 10);
    } else {
        let head = dec_seq(n / 10);
        let d = crate::text::digit_char(n % 10);
        assert(dec_seq(n) =~= head + seq![d]);
        assert(s =~= head + (seq![d] + r));
        lemma_parse_dec_loop(n / 10, seq![d] + r, acc);
        let k = head.len() as nat;
        assert(parse_dec_loop(s, acc) == parse_dec_loop(seq![d] + r, acc * pow10(k) + n / 10));
        assert((48 + n % 10) as char as u32 == 48 + n % 10);
        assert(is_digit(d));
        assert((seq![d] + r)[0] == d);
        assert((seq![d] + r).drop_first() =~= r);
        assert(parse_dec_loop(seq![d] + r, acc * pow10(k) + n / 10) == parse_dec_loop(
            r,
            (acc * pow10(k) + n / 10) * 10 + n % 10,
        ));
        assert((acc * pow10(k) + n / 10) * 10 + n % 10 == acc * (pow10(k) * 10) + (n / 10 * 10
            + n % 10)) by (nonlinear_arith);
        assert(n / 10 * 10 + n % 10 == n);
        assert(pow10(k) * 10 == pow10(k + 1)) by {
            lemma_pow10_step(k);
        }
        assert(dec_seq(n).len() == k + 1);
    }
}

/// One more digit multiplies the power by ten.
proof fn lemma_pow10_step(k: nat)
    ensures
        pow10(k + 1) == pow10(k) * 10,
    decreases k,
{
    if k > 0 {
        lemma_pow10_step((k - 1) as nat);
    }
}

/// Reading a numeral back after a non-digit undoes writing it.
pub proof fn lemma_parse_dec(n: nat, r: Seq<char>)
    requires
        r.len() == 0 || !is_digit(r[0]),
    ensures
        parse_dec(dec_seq(n) + r) == Some((n, r)),
{
    crate::text::lemma_dec_seq_digits(n);
    let s = dec_seq(n) + r;
    assert(s[0] == dec_seq(n)[0]);
    lemma_parse_dec_loop(n, r, 0);
    if r.len() > 0 {
        assert(!is_digit(r[0]));
    }
    assert(parse_dec_loop(r, 0 * pow10(dec_seq(n).len() as nat) + n) == (n, r));
}

/// The greedy value only grows from its accumulator.
pub proof fn lemma_parse_dec_loop_grows(s: Seq<char>, acc: nat)
    ensures
        parse_dec_loop(s, acc).0 >= acc,
    decreases s.len(),
{
    if s.len() > 0 && is_digit(s[0]) {
        lemma_parse_dec_loop_grows(s.drop_first(), acc * 10 + (s[0] as u32 - 48) as nat);
    }
}

/// Reading a string body back undoes escaping it: the whole escaped text up
/// to the closing quote turns back into the original characters.
#[verifier::rlimit(50)]
pub proof fn lemma_parse_jstr(t: Seq<char>, r: Seq<char>)
    ensures
        parse_jstr(esc(t) + seq!['"'] + r) == Some((t, r)),
    decreases t.len(),
{
    let s = esc(t) + seq!['"'] + r;
    if t.len() == 0 {
        assert(esc(t) =~= Seq::<char>::empty());
        assert(s[0] == '"');
        assert(s.drop_first() =~= r);
    } else {
        let c = t[0];
        let rest = t.drop_first();
        lemma_parse_jstr(rest, r);
        let tail = esc(rest) + seq!['"'] + r;
        assert(esc(t) =~= esc_char(c) + esc(rest));
        if c == '"' {
            assert(s =~= seq!['\\', '"'] + tail);
            assert(s[0] == '\\' && s[1] == '"');
            assert(s.skip(2) =~= tail);
            assert(seq![s[1]] + rest =~= t);
        } else if c == '\\' {
            assert(s =~= seq!['\\', '\\'] + tail);
            assert(s[0] == '\\' && s[1] == '\\');
            assert(s.skip(2) =~= tail);
            assert(seq![s[1]] + rest =~= t);
        } else if (c as u32) < 32 {
            let hi = (c as u32 / 16) as nat;
            let lo = (c as u32 % 16) as nat;
            assert(s =~= seq!['\\', 'u', '0', '0', hex_char(hi), hex_char(lo)] + tail);
            assert(s[0] == '\\' && s[1] == 'u' && s[2] == '0' && s[3] == '0');
            assert(s[4] == hex_char(hi) && s[5] == hex_char(lo));
            assert(hi < 2 && lo < 16);
            assert(hex_char(hi) as u32 == 48 + hi);
            if lo < 10 {
                assert(hex_char(lo) as u32 == 48 + lo);
            } else {
                assert(hex_char(lo) as u32 == 87 + lo);
            }
            assert(is_hex(s[2]) && is_hex(s[3]) && is_hex(s[4]) && is_hex(s[5]));
            assert(hex_val(s[2]) == 0 && hex_val(s[3]) == 0);
            assert(hex_val(s[4]) == hi && hex_val(s[5]) == lo);
            let code = ((hex_val(s[2]) * 16 + hex_val(s[3])) * 16 + hex_val(s[4])) * 16 + hex_val(
                s[5],
            );
            assert(code == hi * 16 + lo);
            assert(code == c as u32) by {
                assert(c as u32 / 16 * 16 + c as u32 % 16 == c as u32);
            }
            assert(code < 0xD800);
            vstd::utf8::char_u32_cast(c, c as u32);
            assert(code as char == c);
            assert(s.skip(6) =~= tail);
            assert(seq![code as char] + rest =~= t);
        } else {
            assert(s[0] == c);
            assert(c != '"' && c != '\\');
            assert(s.drop_first() =~= tail);
            assert(seq![s[0]] + rest =~= t);
        }
    }
}

/// Reading a list back undoes writing it.
pub proof fn lemma_parse_list(l: Seq<Seq<char>>, r: Seq<char>)
    ensures
        parse_list(enc_list(l) + r) == Some((l, r)),
{
    let s = enc_list(l) + r;
    assert(s =~= "["@ + (enc_items(l) + seq![']'] + r)) by {
        reveal_strlit("[");
    }
    lemma_parse_lit("["@, enc_items(l) + seq![']'] + r);
    assert(parse_lit(s, "["@) == Some(enc_items(l) + seq![']'] + r));
    lemma_parse_items(l, r);
}

/// Reading list items back undoes writing them.
#[verifier::rlimit(60)]
proof fn lemma_parse_items(l: Seq<Seq<char>>, r: Seq<char>)
    ensures
        parse_items(enc_items(l) + seq![']'] + r) == Some((l, r)),
    decreases l.len(),
{
    let s = enc_items(l) + seq![']'] + r;
    if l.len() == 0 {
        assert(enc_items(l) =~= Seq::<char>::empty());
        assert(s[0] == ']');
        assert(s.drop_first() =~= r);
        assert(l =~= Seq::<Seq<char>>::empty());
    } else {
        let first = l[0];
        assert(s[0] == '"') by {
            assert(enc_str(first)[0] == '"');
            if l.len() == 1 {
                assert(enc_items(l) == enc_str(first));
            } else {
                assert(enc_items(l) == enc_str(first) + seq![','] + enc_items(l.drop_first()));
                assert(enc_items(l)[0] == enc_str(first)[0]);
            }
        }
        assert(s[0] != ']' && s[0] != '"' || true);
        if l.len() == 1 {
            // "first" ⟶ body, then the closing bracket ends the list.
            assert(s =~= seq!['"'] + (esc(first) + seq!['"'] + (seq![']'] + r)));
            assert(s.drop_first() =~= esc(first) + seq!['"'] + (seq![']'] + r));
            lemma_parse_jstr(first, seq![']'] + r);
            let after = seq![']'] + r;
            assert(parse_jstr(s.drop_first()) == Some((first, after)));
            assert(after[0] == ']');
            assert(after.len() < s.len());
            assert(after.drop_first() =~= r);
            assert(parse_items_rest(first, after, s.len() as int) == Some((seq![first], r)));
            assert(seq![first] =~= l);
        } else {
            // "first" ⟶ body, then a comma and the remaining items.
            let rest_items = l.drop_first();
            let tail = seq![','] + (enc_items(rest_items) + seq![']'] + r);
            assert(s =~= seq!['"'] + (esc(first) + seq!['"'] + tail));
            assert(s.drop_first() =~= esc(first) + seq!['"'] + tail);
            lemma_parse_jstr(first, tail);
            assert(parse_jstr(s.drop_first()) == Some((first, tail)));
            assert(tail[0] == ',');
            assert(tail.len() < s.len()) by {
                assert(esc(first).len() >= 0);
            }
            assert(tail.drop_first() =~= enc_items(rest_items) + seq![']'] + r);
            lemma_parse_items(rest_items, r);
            assert(parse_items(tail.drop_first()) == Some((rest_items, r)));
            assert(rest_items.len() > 0);
            assert(parse_items_rest(first, tail, s.len() as int) == Some(
                (seq![first] + rest_items, r),
            ));
            assert(seq![first] + rest_items =~= l);
        }
    }
}

/// Reading a result back undoes writing it.
pub proof fn lemma_parse_result(v: crate::wire::ResultV, r: Seq<char>)
    ensures
        parse_result(enc_result(v) + r) == Some((v, r)),
{
    let s = enc_result(v) + r;
    match v {
        crate::wire::ResultV::Okay => {
            lemma_parse_lit("{\"Ok\":null}"@, r);
            assert(parse_lit(s, "{\"Ok\":null}"@) == Some(r));
        },
        crate::wire::ResultV::Failed(e) => {
            reveal_strlit("{\"Ok\":null}");
            reveal_strlit("{\"Err\":\"");
            reveal_strlit("{\"Err\":");
            reveal_strlit("}");
            assert(s =~= "{\"Err\":\""@ + (esc(e) + seq!['"'] + (seq!['}'] + r)));
            lemma_parse_lit("{\"Err\":\""@, esc(e) + seq!['"'] + (seq!['}'] + r));
            assert(parse_lit(s, "{\"Ok\":null}"@) is None) by {
                if s.len() >= "{\"Ok\":null}"@.len() {
                    let p = s.subrange(0, "{\"Ok\":null}"@.len() as int);
                    assert(s[2] == 'E');
                    assert("{\"Ok\":null}"@[2] == 'O');
                    assert(p[2] == s[2]);
                }
            }
            assert(parse_lit(s, "{\"Err\":\""@) == Some(esc(e) + seq!['"'] + (seq!['}'] + r)));
            lemma_parse_jstr(e, seq!['}'] + r);
            assert(parse_jstr(esc(e) + seq!['"'] + (seq!['}'] + r)) == Some((e, seq!['}'] + r)));
            assert(parse_lit(seq!['}'] + r, "}"@) == Some(r)) by {
                assert(seq!['}'] + r =~= "}"@ + r);
                lemma_parse_lit("}"@, r);
            }
            assert(parse_result(s) == Some((v, r)));
        },
    }
}

/// The wire text of a screen request.
pub open spec fn enc_request(v: crate::wire::RequestV) -> Seq<char> {
    match v {
        crate::wire::RequestV::Order { index, flavors, size } => "{\""@
            + "ScreenToRobotOrder"@ + seq!['"'] + ":{\"index\":"@ + dec_seq(index)
            + ",\"flavors\":"@ + enc_list(flavors) + ",\"size\":"@ + dec_seq(size) + "}}"@,
        crate::wire::RequestV::AskLeader => "{\""@ + "ScreenToRobotAskLeader"@ + seq!['"']
            + ":{}}"@,
    }
}

/// The screen request a wire line holds.
pub open spec fn parse_request(s: Seq<char>) -> Option<crate::wire::RequestV> {
    match parse_lit(s, "{\""@) {
        None => None,
        Some(r0) => match parse_until_quote(r0) {
            None => None,
            Some((tag, r1)) => if tag == "ScreenToRobotOrder"@ {
                match parse_lit(r1, ":{\"index\":"@) {
                    None => None,
                    Some(r2) => match parse_dec(r2) {
                        None => None,
                        Some((index, r3)) => match parse_lit(r3, ",\"flavors\":"@) {
                            None => None,
                            Some(r4) => match parse_list(r4) {
                                None => None,
                                Some((flavors, r5)) => match parse_lit(r5, ",\"size\":"@) {
                                    None => None,
                                    Some(r6) => match parse_dec(r6) {
                                        None => None,
                                        Some((size, r7)) => if r7 == "}}"@ {
                                            Some(
                                                crate::wire::RequestV::Order {
                                                    index,
                                                    flavors,
                                                    size,
                                                },
                                            )
                                        } else {
                                            None
                                        },
                                    },
                                },
                            },
                        },
                    },
                }
            } else if tag == "ScreenToRobotAskLeader"@ {
                if r1 == ":{}}"@ {
                    Some(crate::wire::RequestV::AskLeader)
                } else {
                    None
                }
            } else {
                None
            },
        },
    }
}

/// The wire text of a robot-to-screen response.
pub open spec fn enc_response(v: crate::wire::ResponseV) -> Seq<char> {
    match v {
        crate::wire::ResponseV::Result { index, result } => "{\""@ + "RobotToScreenResult"@
            + seq!['"'] + ":{\"index\":"@ + dec_seq(index) + ",\"result\":"@ + enc_result(result)
            + "}}"@,
        crate::wire::ResponseV::LeaderPort { leader_port } => "{\""@
            + "RobotToScreenLeaderPort"@ + seq!['"'] + ":{\"leader_port\":"@ + dec_seq(
            leader_port,
        ) + "}}"@,
    }
}

/// The robot-to-screen response a wire line holds.
pub open spec fn parse_response(s: Seq<char>) -> Option<crate::wire::ResponseV> {
    match parse_lit(s, "{\""@) {
        None => None,
        Some(r0) => match parse_until_quote(r0) {
            None => None,
            Some((tag, r1)) => if tag == "RobotToScreenResult"@ {
                match parse_lit(r1, ":{\"index\":"@) {
                    None => None,
                    Some(r2) => match parse_dec(r2) {
                        None => None,
                        Some((index, r3)) => match parse_lit(r3, ",\"result\":"@) {
                            None => None,
                            Some(r4) => match parse_result(r4) {
                                None => None,
                                Some((result, r5)) => if r5 == "}}"@ {
                                    Some(crate::wire::ResponseV::Result { index, result })
                                } else {
                                    None
                                },
                            },
                        },
                    },
                }
            } else if tag == "RobotToScreenLeaderPort"@ {
                match parse_lit(r1, ":{\"leader_port\":"@) {
                    None => None,
                    Some(r2) => match parse_dec(r2) {
                        None => None,
                        Some((leader_port, r3)) => if r3 == "}}"@ {
                            Some(crate::wire::ResponseV::LeaderPort { leader_port })
                        } else {
                            None
                        },
                    },
                }
            } else {
                None
            },
        },
    }
}

/// The wire text of a robot-to-robot request.
pub open spec fn enc_robot_request(v: crate::wire::RobotRequestV) -> Seq<char> {
    match v {
        crate::wire::RobotRequestV::GetMyInformation { robot_to_robot_id } => "{\""@
            + "GetMyInformation"@ + seq!['"'] + ":{\"robot_to_robot_id\":"@ + dec_seq(
            robot_to_robot_id,
        ) + "}}"@,
        crate::wire::RobotRequestV::StartElection => "{\""@ + "StartElection"@ + seq!['"']
            + ":{}}"@,
        crate::wire::RobotRequestV::LeaderSelected {
            robot_to_robot_leader_id,
            robot_to_screen_leader_id,
        } => "{\""@ + "LeaderSelected"@ + seq!['"'] + ":{\"robot_to_robot_leader_id\":"@
            + dec_seq(robot_to_robot_leader_id) + ",\"robot_to_screen_leader_id\":"@ + dec_seq(
            robot_to_screen_leader_id,
        ) + "}}"@,
    }
}

/// The robot-to-robot request a wire line holds.
pub open spec fn parse_robot_request(s: Seq<char>) -> Option<crate::wire::RobotRequestV> {
    match parse_lit(s, "{\""@) {
        None => None,
        Some(r0) => match parse_until_quote(r0) {
            None => None,
            Some((tag, r1)) => if tag == "GetMyInformation"@ {
                match parse_lit(r1, ":{\"robot_to_robot_id\":"@) {
                    None => None,
                    Some(r2) => match parse_dec(r2) {
                        None => None,
                        Some((id, r3)) => if r3 == "}}"@ {
                            Some(
                                crate::wire::RobotRequestV::GetMyInformation {
                                    robot_to_robot_id: id,
                                },
                            )
                        } else {
                            None
                        },
                    },
                }
            } else if tag == "StartElection"@ {
                if r1 == ":{}}"@ {
                    Some(crate::wire::RobotRequestV::StartElection)
                } else {
                    None
                }
            } else if tag == "LeaderSelected"@ {
                match parse_lit(r1, ":{\"robot_to_robot_leader_id\":"@) {
                    None => None,
                    Some(r2) => match parse_dec(r2) {
                        None => None,
                        Some((a, r3)) => match parse_lit(r3, ",\"robot_to_screen_leader_id\":"@) {
                            None => None,
                            Some(r4) => match parse_dec(r4) {
                                None => None,
                                Some((b, r5)) => if r5 == "}}"@ {
                                    Some(
                                        crate::wire::RobotRequestV::LeaderSelected {
                                            robot_to_robot_leader_id: a,
                                            robot_to_screen_leader_id: b,
                                        },
                                    )
                                } else {
                                    None
                                },
                            },
                        },
                    },
                }
            } else {
                None
            },
        },
    }
}

/// The wire text of a shop request.
pub open spec fn enc_shop_request(v: crate::wire::ShopRequestV) -> Seq<char> {
    match v {
        crate::wire::ShopRequestV::IceCreamOrder { flavors, size, screen_id, screen_address } =>
            "{\""@ + "IceCreamOrder"@ + seq!['"'] + ":{\"flavors\":"@ + enc_list(flavors)
            + ",\"size\":"@ + dec_seq(size) + ",\"screen_id\":"@ + dec_seq(screen_id)
            + ",\"screen_address\":"@ + enc_str(screen_address) + "}}"@,
    }
}

/// The shop request a wire line holds.
pub open spec fn parse_shop_request(s: Seq<char>) -> Option<crate::wire::ShopRequestV> {
    match parse_lit(s, "{\""@) {
        None => None,
        Some(r0) => match parse_until_quote(r0) {
            None => None,
            Some((tag, r1)) => if tag == "IceCreamOrder"@ {
                match parse_lit(r1, ":{\"flavors\":"@) {
                    None => None,
                    Some(r2) => match parse_list(r2) {
                        None => None,
                        Some((flavors, r3)) => match parse_lit(r3, ",\"size\":"@) {
                            None => None,
                            Some(r4) => match parse_dec(r4) {
                                None => None,
                                Some((size, r5)) => match parse_lit(r5, ",\"screen_id\":"@) {
                                    None => None,
                                    Some(r6) => match parse_dec(r6) {
                                        None => None,
                                        Some((screen_id, r7)) => match parse_lit(
                                            r7,
                                            ",\"screen_address\":\""@,
                                        ) {
                                            None => None,
                                            Some(r8) => match parse_jstr(r8) {
                                                None => None,
                                                Some((addr, r9)) => if r9 == "}}"@ {
                                                    Some(
                                                        crate::wire::ShopRequestV::IceCreamOrder {
                                                            flavors,
                                                            size,
                                                            screen_id,
                                                            screen_address: addr,
                                                        },
                                                    )
                                                } else {
                                                    None
                                                },
                                            },
                                        },
                                    },
                                },
                            },
                        },
                    },
                }
            } else {
                None
            },
        },
    }
}

/// The wire text of a shop response.
pub open spec fn enc_shop_response(v: crate::wire::ShopResponseV) -> Seq<char> {
    match v {
        crate::wire::ShopResponseV::OrderResult { screen_id, result, screen_address } => "{\""@
            + "OrderResult"@ + seq!['"'] + ":{\"screen_id\":"@ + dec_seq(screen_id)
            + ",\"result\":"@ + enc_result(result) + ",\"screen_address\":"@ + enc_str(
            screen_address,
        ) + "}}"@,
    }
}

/// The shop response a wire line holds.
pub open spec fn parse_shop_response(s: Seq<char>) -> Option<crate::wire::ShopResponseV> {
    match parse_lit(s, "{\""@) {
        None => None,
        Some(r0) => match parse_until_quote(r0) {
            None => None,
            Some((tag, r1)) => if tag == "OrderResult"@ {
                match parse_lit(r1, ":{\"screen_id\":"@) {
                    None => None,
                    Some(r2) => match parse_dec(r2) {
                        None => None,
                        Some((screen_id, r3)) => match parse_lit(r3, ",\"result\":"@) {
                            None => None,
                            Some(r4) => match parse_result(r4) {
                                None => None,
                                Some((result, r5)) => match parse_lit(
                                    r5,
                                    ",\"screen_address\":\""@,
                                ) {
                                    None => None,
                                    Some(r6) => match parse_jstr(r6) {
                                        None => None,
                                        Some((addr, r7)) => if r7 == "}}"@ {
                                            Some(
                                                crate::wire::ShopResponseV::OrderResult {
                                                    screen_id,
                                                    result,
                                                    screen_address: addr,
                                                },
                                            )
                                        } else {
                                            None
                                        },
                                    },
                                },
                            },
                        },
                    },
                }
            } else {
                None
            },
        },
    }
}

/// Writing a screen request and reading it back gives the original message.
pub proof fn lemma_request_round_trip(v: crate::wire::RequestV)
    ensures
        parse_request(enc_request(v)) == Some(v),
{
    reveal_strlit("{\"");
    reveal_strlit("ScreenToRobotOrder");
    reveal_strlit("ScreenToRobotAskLeader");
    reveal_strlit(":{\"index\":");
    reveal_strlit(",\"flavors\":");
    reveal_strlit(",\"size\":");
    reveal_strlit("}}");
    reveal_strlit(":{}}");
    let s = enc_request(v);
    match v {
        crate::wire::RequestV::Order { index, flavors, size } => {
            let tag = "ScreenToRobotOrder"@;
            let t4 = "}}"@;
            let t3 = ",\"size\":"@ + dec_seq(size) + t4;
            let t2 = ",\"flavors\":"@ + enc_list(flavors) + t3;
            let t1 = ":{\"index\":"@ + dec_seq(index) + t2;
            assert(s =~= "{\""@ + (tag + seq!['"'] + t1));
            lemma_parse_lit("{\""@, tag + seq!['"'] + t1);
            assert(forall|i: int| 0 <= i < tag.len() ==> tag[i] != '"');
            lemma_parse_until_quote(tag, t1);
            assert(t1 =~= ":{\"index\":"@ + (dec_seq(index) + t2));
            lemma_parse_lit(":{\"index\":"@, dec_seq(index) + t2);
            assert(t2[0] == ',' && !is_digit(','));
            lemma_parse_dec(index, t2);
            assert(t2 =~= ",\"flavors\":"@ + (enc_list(flavors) + t3));
            lemma_parse_lit(",\"flavors\":"@, enc_list(flavors) + t3);
            lemma_parse_list(flavors, t3);
            assert(t3 =~= ",\"size\":"@ + (dec_seq(size) + t4));
            lemma_parse_lit(",\"size\":"@, dec_seq(size) + t4);
            assert(t4[0] == '}' && !is_digit('}'));
            lemma_parse_dec(size, t4);
            assert(parse_request(s) == Some(v));
        },
        crate::wire::RequestV::AskLeader => {
            let tag = "ScreenToRobotAskLeader"@;
            assert(s =~= "{\""@ + (tag + seq!['"'] + ":{}}"@));
            lemma_parse_lit("{\""@, tag + seq!['"'] + ":{}}"@);
            assert(forall|i: int| 0 <= i < tag.len() ==> tag[i] != '"');
            lemma_parse_until_quote(tag, ":{}}"@);
            assert(tag != "ScreenToRobotOrder"@) by {
                assert(tag.len() == 22);
                assert("ScreenToRobotOrder"@.len() == 18);
            }
            assert(parse_request(s) == Some(v));
        },
    }
}

/// Writing a robot-to-screen response and reading it back gives the original
/// message.
pub proof fn lemma_response_round_trip(v: crate::wire::ResponseV)
    ensures
        parse_response(enc_response(v)) == Some(v),
{
    reveal_strlit("{\"");
    reveal_strlit("RobotToScreenResult");
    reveal_strlit("RobotToScreenLeaderPort");
    reveal_strlit(":{\"index\":");
    reveal_strlit(",\"result\":");
    reveal_strlit(":{\"leader_port\":");
    reveal_strlit("}}");
    let s = enc_response(v);
    match v {
        crate::wire::ResponseV::Result { index, result } => {
            let tag = "RobotToScreenResult"@;
            let t4 = "}}"@;
            let t3 = ",\"result\":"@ + enc_result(result) + t4;
            let t1 = ":{\"index\":"@ + dec_seq(index) + t3;
            assert(s =~= "{\""@ + (tag + seq!['"'] + t1));
            lemma_parse_lit("{\""@, tag + seq!['"'] + t1);
            assert(forall|i: int| 0 <= i < tag.len() ==> tag[i] != '"');
            lemma_parse_until_quote(tag, t1);
            assert(t1 =~= ":{\"index\":"@ + (dec_seq(index) + t3));
            lemma_parse_lit(":{\"index\":"@, dec_seq(index) + t3);
            assert(t3[0] == ',' && !is_digit(','));
            lemma_parse_dec(index, t3);
            assert(t3 =~= ",\"result\":"@ + (enc_result(result) + t4));
            lemma_parse_lit(",\"result\":"@, enc_result(result) + t4);
            lemma_parse_result(result, t4);
            assert(parse_response(s) == Some(v));
        },
        crate::wire::ResponseV::LeaderPort { leader_port } => {
            let tag = "RobotToScreenLeaderPort"@;
            let t4 = "}}"@;
            let t1 = ":{\"leader_port\":"@ + dec_seq(leader_port) + t4;
            assert(s =~= "{\""@ + (tag + seq!['"'] + t1));
            lemma_parse_lit("{\""@, tag + seq!['"'] + t1);
            assert(forall|i: int| 0 <= i < tag.len() ==> tag[i] != '"');
            lemma_parse_until_quote(tag, t1);
            assert(tag != "RobotToScreenResult"@) by {
                assert(tag.len() == 23);
                assert("RobotToScreenResult"@.len() == 19);
            }
            assert(t1 =~= ":{\"leader_port\":"@ + (dec_seq(leader_port) + t4));
            lemma_parse_lit(":{\"leader_port\":"@, dec_seq(leader_port) + t4);
            assert(t4[0] == '}' && !is_digit('}'));
            lemma_parse_dec(leader_port, t4);
            assert(parse_response(s) == Some(v));
        },
    }
}

/// Writing a robot-to-robot request and reading it back gives the original
/// message.
pub proof fn lemma_robot_request_round_trip(v: crate::wire::RobotRequestV)
    ensures
        parse_robot_request(enc_robot_request(v)) == Some(v),
{
    reveal_strlit("{\"");
    reveal_strlit("GetMyInformation");
    reveal_strlit("StartElection");
    reveal_strlit("LeaderSelected");
    reveal_strlit(":{\"robot_to_robot_id\":");
    reveal_strlit(":{\"robot_to_robot_leader_id\":");
    reveal_strlit(",\"robot_to_screen_leader_id\":");
    reveal_strlit(":{}}");
    reveal_strlit("}}");
    let s = enc_robot_request(v);
    match v {
        crate::wire::RobotRequestV::GetMyInformation { robot_to_robot_id } => {
            let tag = "GetMyInformation"@;
            let t4 = "}}"@;
            let t1 = ":{\"robot_to_robot_id\":"@ + dec_seq(robot_to_robot_id) + t4;
            assert(s =~= "{\""@ + (tag + seq!['"'] + t1));
            lemma_parse_lit("{\""@, tag + seq!['"'] + t1);
            assert(forall|i: int| 0 <= i < tag.len() ==> tag[i] != '"');
            lemma_parse_until_quote(tag, t1);
            assert(t1 =~= ":{\"robot_to_robot_id\":"@ + (dec_seq(robot_to_robot_id) + t4));
            lemma_parse_lit(":{\"robot_to_robot_id\":"@, dec_seq(robot_to_robot_id) + t4);
            assert(t4[0] == '}' && !is_digit('}'));
            lemma_parse_dec(robot_to_robot_id, t4);
            assert(parse_robot_request(s) == Some(v));
        },
        crate::wire::RobotRequestV::StartElection => {
            let tag = "StartElection"@;
            assert(s =~= "{\""@ + (tag + seq!['"'] + ":{}}"@));
            lemma_parse_lit("{\""@, tag + seq!['"'] + ":{}}"@);
            assert(forall|i: int| 0 <= i < tag.len() ==> tag[i] != '"');
            lemma_parse_until_quote(tag, ":{}}"@);
            assert(tag != "GetMyInformation"@) by {
                assert(tag.len() == 13);
                assert("GetMyInformation"@.len() == 16);
            }
            assert(parse_robot_request(s) == Some(v));
        },
        crate::wire::RobotRequestV::LeaderSelected {
            robot_to_robot_leader_id,
            robot_to_screen_leader_id,
        } => {
            let tag = "LeaderSelected"@;
            let t4 = "}}"@;
            let t2 = ",\"robot_to_screen_leader_id\":"@ + dec_seq(robot_to_screen_leader_id)
                + t4;
            let t1 = ":{\"robot_to_robot_leader_id\":"@ + dec_seq(robot_to_robot_leader_id)
                + t2;
            assert(s =~= "{\""@ + (tag + seq!['"'] + t1));
            lemma_parse_lit("{\""@, tag + seq!['"'] + t1);
            assert(forall|i: int| 0 <= i < tag.len() ==> tag[i] != '"');
            lemma_parse_until_quote(tag, t1);
            assert(tag != "GetMyInformation"@) by {
                assert(tag.len() == 14);
                assert("GetMyInformation"@.len() == 16);
            }
            assert(tag != "StartElection"@) by {
                assert(tag.len() == 14);
                assert("StartElection"@.len() == 13);
            }
            assert(t1 =~= ":{\"robot_to_robot_leader_id\":"@ + (dec_seq(robot_to_robot_leader_id)
                + t2));
            lemma_parse_lit(
                ":{\"robot_to_robot_leader_id\":"@,
                dec_seq(robot_to_robot_leader_id) + t2,
            );
            assert(t2[0] == ',' && !is_digit(','));
            lemma_parse_dec(robot_to_robot_leader_id, t2);
            assert(t2 =~= ",\"robot_to_screen_leader_id\":"@ + (dec_seq(
                robot_to_screen_leader_id,
            ) + t4));
            lemma_parse_lit(
                ",\"robot_to_screen_leader_id\":"@,
                dec_seq(robot_to_screen_leader_id) + t4,
            );
            assert(t4[0] == '}' && !is_digit('}'));
            lemma_parse_dec(robot_to_screen_leader_id, t4);
            assert(parse_robot_request(s) == Some(v));
        },
    }
}

/// Writing a shop request and reading it back gives the original message.
#[verifier::rlimit(100)]
pub proof fn lemma_shop_request_round_trip(v: crate::wire::ShopRequestV)
    ensures
        parse_shop_request(enc_shop_request(v)) == Some(v),
{
    reveal_strlit("{\"");
    reveal_strlit("IceCreamOrder");
    reveal_strlit(":{\"flavors\":");
    reveal_strlit(",\"size\":");
    reveal_strlit(",\"screen_id\":");
    reveal_strlit(",\"screen_address\":");
    reveal_strlit(",\"screen_address\":\"");
    reveal_strlit("}}");
    let s = enc_shop_request(v);
    match v {
        crate::wire::ShopRequestV::IceCreamOrder { flavors, size, screen_id, screen_address } => {
            let tag = "IceCreamOrder"@;
            let t6 = "}}"@;
            let t5 = ",\"screen_address\":"@ + enc_str(screen_address) + t6;
            let t4 = ",\"screen_id\":"@ + dec_seq(screen_id) + t5;
            let t3 = ",\"size\":"@ + dec_seq(size) + t4;
            let t1 = ":{\"flavors\":"@ + enc_list(flavors) + t3;
            assert(s =~= "{\""@ + (tag + seq!['"'] + t1));
            lemma_parse_lit("{\""@, tag + seq!['"'] + t1);
            assert(forall|i: int| 0 <= i < tag.len() ==> tag[i] != '"');
            lemma_parse_until_quote(tag, t1);
            assert(t1 =~= ":{\"flavors\":"@ + (enc_list(flavors) + t3));
            lemma_parse_lit(":{\"flavors\":"@, enc_list(flavors) + t3);
            lemma_parse_list(flavors, t3);
            assert(t3 =~= ",\"size\":"@ + (dec_seq(size) + t4));
            lemma_parse_lit(",\"size\":"@, dec_seq(size) + t4);
            assert(t4[0] == ',' && !is_digit(','));
            lemma_parse_dec(size, t4);
            assert(t4 =~= ",\"screen_id\":"@ + (dec_seq(screen_id) + t5));
            lemma_parse_lit(",\"screen_id\":"@, dec_seq(screen_id) + t5);
            assert(t5[0] == ',' && !is_digit(','));
            lemma_parse_dec(screen_id, t5);
            assert(t5 =~= ",\"screen_address\":\""@ + (esc(screen_address) + seq!['"'] + t6));
            lemma_parse_lit(",\"screen_address\":\""@, esc(screen_address) + seq!['"'] + t6);
            lemma_parse_jstr(screen_address, t6);
            assert(parse_shop_request(s) == Some(v));
        },
    }
}

/// Writing a shop response and reading it back gives the original message.
#[verifier::rlimit(100)]
pub proof fn lemma_shop_response_round_trip(v: crate::wire::ShopResponseV)
    ensures
        parse_shop_response(enc_shop_response(v)) == Some(v),
{
    reveal_strlit("{\"");
    reveal_strlit("OrderResult");
    reveal_strlit(":{\"screen_id\":");
    reveal_strlit(",\"result\":");
    reveal_strlit(",\"screen_address\":");
    reveal_strlit(",\"screen_address\":\"");
    reveal_strlit("}}");
    let s = enc_shop_response(v);
    match v {
        crate::wire::ShopResponseV::OrderResult { screen_id, result, screen_address } => {
            let tag = "OrderResult"@;
            let t6 = "}}"@;
            let t5 = ",\"screen_address\":"@ + enc_str(screen_address) + t6;
            let t4 = ",\"result\":"@ + enc_result(result) + t5;
            let t1 = ":{\"screen_id\":"@ + dec_seq(screen_id) + t4;
            assert(s =~= "{\""@ + (tag + seq!['"'] + t1));
            lemma_parse_lit("{\""@, tag + seq!['"'] + t1);
            assert(forall|i: int| 0 <= i < tag.len() ==> tag[i] != '"');
            lemma_parse_until_quote(tag, t1);
            assert(t1 =~= ":{\"screen_id\":"@ + (dec_seq(screen_id) + t4));
            lemma_parse_lit(":{\"screen_id\":"@, dec_seq(screen_id) + t4);
            assert(t4[0] == ',' && !is_digit(','));
            lemma_parse_dec(screen_id, t4);
            assert(t4 =~= ",\"result\":"@ + (enc_result(result) + t5));
            lemma_parse_lit(",\"result\":"@, enc_result(result) + t5);
            lemma_parse_result(result, t5);
            assert(t5 =~= ",\"screen_address\":\""@ + (esc(screen_address) + seq!['"'] + t6));
            lemma_parse_lit(",\"screen_address\":\""@, esc(screen_address) + seq!['"'] + t6);
            lemma_parse_jstr(screen_address, t6);
            assert(parse_shop_response(s) == Some(v));
        },
    }
}

/// The hexadecimal digit character for a value below sixteen.
fn hex_char_exec(d: u32) -> (r: char)
    requires
        d < 16,
    ensures
        r == hex_char(d as nat),
{
    match d {
        0 => '0',
        1 => '1',
        2 => '2',
        3 => '3',
        4 => '4',
        5 => '5',
        6 => '6',
        7 => '7',
        8 => '8',
        9 => '9',
        10 => 'a',
        11 => 'b',
        12 => 'c',
        13 => 'd',
        14 => 'e',
        _ => 'f',
    }
}

/// Relies on char::from_u32: a scalar value below the surrogate range reads
/// back as exactly that character.
#[verifier::external_body]
fn char_from_u32(code: u32) -> (r: char)
    requires
        code < 0xD800,
    ensures
        r == code as char,
{
    char::from_u32(code).unwrap_or(' ')
}

/// Escaping one more character appends its escape.
proof fn lemma_esc_snoc(t: Seq<char>, c: char)
    ensures
        esc(t.push(c)) == esc(t) + esc_char(c),
    decreases t.len(),
{
    if t.len() == 0 {
        let p = t.push(c);
        assert(p.len() == 1);
        assert(p[0] == c);
        assert(p.drop_first() =~= Seq::<char>::empty());
        assert(esc(p) == esc_char(c) + esc(p.drop_first()));
        assert(esc(p.drop_first()) =~= Seq::<char>::empty());
        assert(esc(p) =~= esc_char(c));
        assert(esc(t) =~= Seq::<char>::empty());
        assert(esc(t) + esc_char(c) =~= esc_char(c));
    } else {
        assert(t.push(c)[0] == t[0]);
        assert(t.push(c).drop_first() =~= t.drop_first().push(c));
        lemma_esc_snoc(t.drop_first(), c);
        assert(esc(t.push(c)) =~= esc(t) + esc_char(c));
    }
}

/// Writes a number in decimal at the end of the text.
fn push_num(out: &mut String, n: u64)
    ensures
        final(out)@ == old(out)@ + dec_seq(n as nat),
{
    let digits = crate::text::u64_to_string(n);
    out.append(digits.as_str());
}

/// Writes a JSON string, quotes and escapes included, at the end of the text.
fn push_jstr(out: &mut String, s: &str)
    ensures
        final(out)@ == old(out)@ + enc_str(s@),
{
    push_char(out, '"');
    let n = s.unicode_len();
    let mut i: usize = 0;
    proof {
        assert(s@.take(0) =~= Seq::<char>::empty());
        assert(out@ =~= old(out)@ + seq!['"'] + esc(s@.take(0)));
    }
    while i < n
        invariant
            i <= n,
            n == s@.len(),
            out@ == old(out)@ + seq!['"'] + esc(s@.take(i as int)),
        decreases n - i,
    {
        let c = s.get_char(i);
        let ghost before = out@;
        if c == '"' {
            push_char(out, '\\');
            push_char(out, '"');
        } else if c == '\\' {
            push_char(out, '\\');
            push_char(out, '\\');
        } else if (c as u32) < 32 {
            push_char(out, '\\');
            push_char(out, 'u');
            push_char(out, '0');
            push_char(out, '0');
            push_char(out, hex_char_exec((c as u32) / 16));
            push_char(out, hex_char_exec((c as u32) % 16));
        } else {
            push_char(out, c);
        }
        proof {
            assert(out@ =~= before + esc_char(c));
            lemma_esc_snoc(s@.take(i as int), c);
            assert(s@.take(i as int).push(c) =~= s@.take(i + 1));
        }
        i = i + 1;
    }
    push_char(out, '"');
    proof {
        assert(s@.take(n as int) =~= s@);
        assert(out@ =~= old(out)@ + enc_str(s@));
    }
}

/// What remains of a list rendering after the first `k` items: a comma and an
/// item each, then nothing.
spec fn items_rest(l: Seq<Seq<char>>, k: int) -> Seq<char>
    decreases l.len() - k,
{
    if k < 0 || k >= l.len() {
        Seq::empty()
    } else {
        seq![','] + enc_str(l[k]) + items_rest(l, k + 1)
    }
}

/// A non-empty list renders as its first item and the rest.
proof fn lemma_enc_items_as_rest(l: Seq<Seq<char>>)
    requires
        l.len() >= 1,
    ensures
        enc_items(l) == enc_str(l[0]) + items_rest(l, 1),
    decreases l.len(),
{
    if l.len() == 1 {
        assert(items_rest(l, 1) =~= Seq::<char>::empty());
        assert(enc_str(l[0]) + items_rest(l, 1) =~= enc_str(l[0]));
    } else {
        let df = l.drop_first();
        lemma_enc_items_as_rest(df);
        lemma_items_rest_shift(l, 2);
        assert(df[0] == l[1]);
        assert(enc_items(l) == enc_str(l[0]) + seq![','] + enc_items(df));
        assert(items_rest(l, 1) == seq![','] + enc_str(l[1]) + items_rest(l, 2));
        assert(items_rest(df, 1) == items_rest(l, 2));
        assert(enc_str(l[0]) + items_rest(l, 1) =~= enc_str(l[0]) + seq![','] + (enc_str(df[0])
            + items_rest(df, 1)));
    }
}

/// The rest of a list is the rest of its tail, one position over.
proof fn lemma_items_rest_shift(l: Seq<Seq<char>>, k: int)
    requires
        l.len() >= 1,
        1 <= k,
    ensures
        items_rest(l, k) == items_rest(l.drop_first(), k - 1),
    decreases l.len() - k,
{
    let df = l.drop_first();
    if k >= l.len() {
        assert(items_rest(l, k) =~= Seq::<char>::empty());
        assert(items_rest(df, k - 1) =~= Seq::<char>::empty());
    } else {
        lemma_items_rest_shift(l, k + 1);
        assert(df[k - 1] == l[k]);
        assert(items_rest(l, k) =~= items_rest(df, k - 1));
    }
}

/// Writes a JSON list of strings at the end of the text.
fn push_list(out: &mut String, items: &Vec<String>)
    ensures
        final(out)@ == old(out)@ + enc_list(crate::text::strings_view(items@)),
{
    let ghost lv = crate::text::strings_view(items@);
    push_char(out, '[');
    let n = items.len();
    if n == 0 {
        push_char(out, ']');
        proof {
            assert(enc_items(lv) =~= Seq::<char>::empty());
            assert(out@ =~= old(out)@ + enc_list(lv));
        }
        return ;
    }
    push_jstr(out, items[0].as_str());
    proof {
        assert(lv[0] == items@[0]@);
        lemma_enc_items_as_rest(lv);
    }
    let mut k: usize = 1;
    while k < n
        invariant
            1 <= k <= n,
            n == items@.len(),
            lv == crate::text::strings_view(items@),
            out@ + items_rest(lv, k as int) + seq![']'] == old(out)@ + enc_list(lv),
        decreases n - k,
    {
        let ghost before = out@;
        push_char(out, ',');
        push_jstr(out, items[k].as_str());
        proof {
            assert(lv[k as int] == items@[k as int]@);
            assert(out@ =~= before + (seq![','] + enc_str(lv[k as int])));
            assert(items_rest(lv, k as int) == seq![','] + enc_str(lv[k as int]) + items_rest(
                lv,
                k + 1,
            ));
            assert(out@ + items_rest(lv, k + 1) + seq![']'] =~= before + items_rest(
                lv,
                k as int,
            ) + seq![']']);
        }
        k = k + 1;
    }
    push_char(out, ']');
    proof {
        assert(items_rest(lv, n as int) =~= Seq::<char>::empty());
        assert(out@ =~= old(out)@ + enc_list(lv));
    }
}

/// Renders a screen request on the wire.
pub fn encode_request(m: &crate::wire::Request) -> (r: String)
    ensures
        r@ == enc_request(m@),
{
    let mut out = String::new();
    match m {
        crate::wire::Request::ScreenToRobotOrder { index, flavors, size } => {
            out.append("{\"");
            out.append("ScreenToRobotOrder");
            push_char(&mut out, '"');
            out.append(":{\"index\":");
            push_num(&mut out, *index as u64);
            out.append(",\"flavors\":");
            push_list(&mut out, flavors);
            out.append(",\"size\":");
            push_num(&mut out, *size as u64);
            out.append("}}");
            proof {
                assert(out@ =~= enc_request(m@));
            }
        },
        crate::wire::Request::ScreenToRobotAskLeader {} => {
            out.append("{\"");
            out.append("ScreenToRobotAskLeader");
            push_char(&mut out, '"');
            out.append(":{}}");
            proof {
                assert(out@ =~= enc_request(m@));
            }
        },
    }
    out
}

/// Renders an `Ok`-or-message result on the wire.
fn push_result(out: &mut String, res: &Result<(), String>)
    ensures
        final(out)@ == old(out)@ + enc_result(crate::wire::result_view(*res)),
{
    match res {
        Ok(_) => {
            out.append("{\"Ok\":null}");
        },
        Err(e) => {
            out.append("{\"Err\":");
            push_jstr(out, e.as_str());
            out.append("}");
            proof {
                assert(out@ =~= old(out)@ + enc_result(crate::wire::result_view(*res)));
            }
        },
    }
}

/// Renders a robot-to-screen response on the wire.
pub fn encode_response(m: &crate::wire::Response) -> (r: String)
    ensures
        r@ == enc_response(m@),
{
    let mut out = String::new();
    match m {
        crate::wire::Response::RobotToScreenResult { index, result } => {
            out.append("{\"");
            out.append("RobotToScreenResult");
            push_char(&mut out, '"');
            out.append(":{\"index\":");
            push_num(&mut out, *index as u64);
            out.append(",\"result\":");
            push_result(&mut out, result);
            out.append("}}");
            proof {
                assert(out@ =~= enc_response(m@));
            }
        },
        crate::wire::Response::RobotToScreenLeaderPort { leader_port } => {
            out.append("{\"");
            out.append("RobotToScreenLeaderPort");
            push_char(&mut out, '"');
            out.append(":{\"leader_port\":");
            push_num(&mut out, *leader_port as u64);
            out.append("}}");
            proof {
                assert(out@ =~= enc_response(m@));
            }
        },
    }
    out
}

/// Renders a robot-to-robot request on the wire.
pub fn encode_robot_request(m: &crate::wire::RobotRequest) -> (r: String)
    ensures
        r@ == enc_robot_request(m@),
{
    let mut out = String::new();
    match m {
        crate::wire::RobotRequest::GetMyInformation { robot_to_robot_id } => {
            out.append("{\"");
            out.append("GetMyInformation");
            push_char(&mut out, '"');
            out.append(":{\"robot_to_robot_id\":");
            push_num(&mut out, *robot_to_robot_id as u64);
            out.append("}}");
            proof {
                assert(out@ =~= enc_robot_request(m@));
            }
        },
        crate::wire::RobotRequest::StartElection {} => {
            out.append("{\"");
            out.append("StartElection");
            push_char(&mut out, '"');
            out.append(":{}}");
            proof {
                assert(out@ =~= enc_robot_request(m@));
            }
        },
        crate::wire::RobotRequest::LeaderSelected {
            robot_to_robot_leader_id,
            robot_to_screen_leader_id,
        } => {
            out.append("{\"");
            out.append("LeaderSelected");
            push_char(&mut out, '"');
            out.append(":{\"robot_to_robot_leader_id\":");
            push_num(&mut out, *robot_to_robot_leader_id as u64);
            out.append(",\"robot_to_screen_leader_id\":");
            push_num(&mut out, *robot_to_screen_leader_id as u64);
            out.append("}}");
            proof {
                assert(out@ =~= enc_robot_request(m@));
            }
        },
    }
    out
}

/// Renders a shop request on the wire.
pub fn encode_shop_request(m: &crate::wire::ShopRequest) -> (r: String)
    ensures
        r@ == enc_shop_request(m@),
{
    let mut out = String::new();
    match m {
        crate::wire::ShopRequest::IceCreamOrder { flavors, size, screen_id, screen_address } => {
            out.append("{\"");
            out.append("IceCreamOrder");
            push_char(&mut out, '"');
            out.append(":{\"flavors\":");
            push_list(&mut out, flavors);
            out.append(",\"size\":");
            push_num(&mut out, *size as u64);
            out.append(",\"screen_id\":");
            push_num(&mut out, *screen_id as u64);
            out.append(",\"screen_address\":");
            push_jstr(&mut out, screen_address.as_str());
            out.append("}}");
            proof {
                assert(out@ =~= enc_shop_request(m@));
            }
        },
    }
    out
}

/// Renders a shop response on the wire.
pub fn encode_shop_response(m: &crate::wire::ShopResponse) -> (r: String)
    ensures
        r@ == enc_shop_response(m@),
{
    let mut out = String::new();
    match m {
        crate::wire::ShopResponse::OrderResult { screen_id, result, screen_address } => {
            out.append("{\"");
            out.append("OrderResult");
            push_char(&mut out, '"');
            out.append(":{\"screen_id\":");
            push_num(&mut out, *screen_id as u64);
            out.append(",\"result\":");
            push_result(&mut out, result);
            out.append(",\"screen_address\":");
            push_jstr(&mut out, screen_address.as_str());
            out.append("}}");
            proof {
                assert(out@ =~= enc_shop_response(m@));
            }
        },
    }
    out
}

/// Checks one literal at the given position and steps over it.
fn p_lit(s: &str, pos: usize, lit: &str) -> (r: Option<usize>)
    requires
        pos <= s@.len(),
    ensures
        match r {
            Some(p2) => pos <= p2 <= s@.len() && parse_lit(s@.skip(pos as int), lit@) == Some(
                s@.skip(p2 as int),
            ),
            None => parse_lit(s@.skip(pos as int), lit@) is None,
        },
{
    let n = s.unicode_len();
    let m = lit.unicode_len();
    if n - pos < m {
        proof {
            assert(s@.skip(pos as int).len() < lit@.len());
        }
        return None;
    }
    let mut j: usize = 0;
    while j < m
        invariant
            j <= m,
            m == lit@.len(),
            n == s@.len(),
            pos <= n,
            m <= n - pos,
            forall|k: int| 0 <= k < j ==> s@[pos + k] == lit@[k],
        decreases m - j,
    {
        if s.get_char(pos + j) != lit.get_char(j) {
            proof {
                let t = s@.skip(pos as int);
                assert(t[j as int] == s@[pos + j]);
                if t.len() >= lit@.len() && t.subrange(0, lit@.len() as int) == lit@ {
                    assert(t.subrange(0, lit@.len() as int)[j as int] == t[j as int]);
                }
            }
            return None;
        }
        j = j + 1;
    }
    proof {
        let t = s@.skip(pos as int);
        assert(t.subrange(0, m as int) =~= lit@) by {
            assert forall|k: int| 0 <= k < m implies t.subrange(0, m as int)[k] == lit@[k] by {
                assert(t[k] == s@[pos + k]);
            }
        }
        assert(t.skip(m as int) =~= s@.skip(pos + m));
    }
    Some(pos + m)
}

/// Reads raw characters up to the next quote.
fn p_until_quote(s: &str, pos: usize) -> (r: Option<(String, usize)>)
    requires
        pos <= s@.len(),
    ensures
        match r {
            Some(tp) => tp.1 <= s@.len() && parse_until_quote(s@.skip(pos as int)) == Some(
                (tp.0@, s@.skip(tp.1 as int)),
            ),
            None => parse_until_quote(s@.skip(pos as int)) is None,
        },
{
    let n = s.unicode_len();
    let mut out = String::new();
    let mut cur = pos;
    while cur < n
        invariant
            pos <= cur <= n,
            n == s@.len(),
            (match parse_until_quote(s@.skip(cur as int)) {
                Some(tr) => parse_until_quote(s@.skip(pos as int)) == Some((out@ + tr.0, tr.1)),
                None => parse_until_quote(s@.skip(pos as int)) is None,
            }),
        decreases n - cur,
    {
        let c = s.get_char(cur);
        proof {
            assert(s@.skip(cur as int)[0] == s@[cur as int]);
            assert(s@.skip(cur as int).drop_first() =~= s@.skip(cur + 1));
        }
        if c == '"' {
            proof {
                assert(out@ + Seq::<char>::empty() =~= out@);
            }
            return Some((out, cur + 1));
        }
        let ghost out0 = out@;
        push_char(&mut out, c);
        proof {
            let inner = parse_until_quote(s@.skip(cur + 1));
            if inner is Some {
                assert(out0 + (seq![c] + inner.unwrap().0) =~= out@ + inner.unwrap().0);
            }
        }
        cur = cur + 1;
    }
    proof {
        assert(s@.skip(n as int).len() == 0);
    }
    None
}

/// Reads a decimal numeral that fits a 64-bit value.
fn p_dec_u64(s: &str, pos: usize) -> (r: Option<(u64, usize)>)
    requires
        pos <= s@.len(),
    ensures
        match r {
            Some(vp) => vp.1 <= s@.len() && parse_dec(s@.skip(pos as int)) == Some(
                (vp.0 as nat, s@.skip(vp.1 as int)),
            ),
            None => parse_dec(s@.skip(pos as int)) is None || parse_dec(
                s@.skip(pos as int),
            ).unwrap().0 > u64::MAX as nat,
        },
{
    let n = s.unicode_len();
    if pos >= n {
        proof {
            assert(s@.skip(pos as int).len() == 0);
        }
        return None;
    }
    proof {
        assert(s@.skip(pos as int)[0] == s@[pos as int]);
    }
    if !is_digit_exec(s.get_char(pos)) {
        return None;
    }
    let mut acc: u64 = 0;
    let mut cur = pos;
    while cur < n && is_digit_exec(s.get_char(cur))
        invariant
            pos <= cur <= n,
            n == s@.len(),
            s@.skip(pos as int).len() > 0,
            is_digit(s@.skip(pos as int)[0]),
            parse_dec_loop(s@.skip(pos as int), 0) == parse_dec_loop(
                s@.skip(cur as int),
                acc as nat,
            ),
        decreases n - cur,
    {
        let c = s.get_char(cur);
        let d = digit_val_exec(c);
        proof {
            assert(s@.skip(cur as int)[0] == s@[cur as int]);
            assert(s@.skip(cur as int).drop_first() =~= s@.skip(cur + 1));
        }
        let wide: u128 = (acc as u128) * 10 + (d as u128);
        if wide > u64::MAX as u128 {
            proof {
                lemma_parse_dec_loop_grows(s@.skip(cur + 1), acc as nat * 10 + d as nat);
            }
            return None;
        }
        acc = wide as u64;
        cur = cur + 1;
    }
    proof {
        if cur < n {
            assert(s@.skip(cur as int)[0] == s@[cur as int]);
        } else {
            assert(s@.skip(cur as int).len() == 0);
        }
    }
    Some((acc, cur))
}

/// Whether a character is a lower-case hexadecimal digit.
fn is_hex_exec(c: char) -> (r: bool)
    ensures
        r == is_hex(c),
{
    let u = c as u32;
    (48 <= u && u <= 57) || (97 <= u && u <= 102)
}

/// The value of a hexadecimal digit.
fn hex_val_exec(c: char) -> (r: u32)
    requires
        is_hex(c),
    ensures
        r == hex_val(c),
        r < 16,
{
    let u = c as u32;
    if u <= 57 {
        u - 48
    } else {
        u - 87
    }
}

/// Reads a JSON string body up to its closing quote, undoing the escapes.
fn p_jstr(s: &str, pos: usize) -> (r: Option<(String, usize)>)
    requires
        pos <= s@.len(),
    ensures
        match r {
            Some(tp) => tp.1 <= s@.len() && parse_jstr(s@.skip(pos as int)) == Some(
                (tp.0@, s@.skip(tp.1 as int)),
            ),
            None => parse_jstr(s@.skip(pos as int)) is None,
        },
{
    let n = s.unicode_len();
    let mut out = String::new();
    let mut cur = pos;
    while cur < n
        invariant
            pos <= cur <= n,
            n == s@.len(),
            (match parse_jstr(s@.skip(cur as int)) {
                Some(tr) => parse_jstr(s@.skip(pos as int)) == Some((out@ + tr.0, tr.1)),
                None => parse_jstr(s@.skip(pos as int)) is None,
            }),
        decreases n - cur,
    {
        let c = s.get_char(cur);
        let ghost t = s@.skip(cur as int);
        proof {
            assert(t[0] == s@[cur as int]);
            assert(t.drop_first() =~= s@.skip(cur + 1));
        }
        if c == '"' {
            proof {
                assert(out@ + Seq::<char>::empty() =~= out@);
            }
            return Some((out, cur + 1));
        } else if c == '\\' {
            if cur + 1 >= n {
                proof {
                    assert(t.len() < 2);
                }
                return None;
            }
            let c2 = s.get_char(cur + 1);
            proof {
                assert(t[1] == s@[cur + 1]);
            }
            if c2 == '"' || c2 == '\\' {
                let ghost out0 = out@;
                push_char(&mut out, c2);
                proof {
                    assert(t.skip(2) =~= s@.skip(cur + 2));
                    let inner = parse_jstr(s@.skip(cur + 2));
                    if inner is Some {
                        assert(out0 + (seq![c2] + inner.unwrap().0) =~= out@ + inner.unwrap().0);
                    }
                }
                cur = cur + 2;
            } else if c2 == 'u' {
                if n - cur < 6 {
                    proof {
                        assert(t.len() < 6);
                    }
                    return None;
                }
                let h2 = s.get_char(cur + 2);
                let h3 = s.get_char(cur + 3);
                let h4 = s.get_char(cur + 4);
                let h5 = s.get_char(cur + 5);
                proof {
                    assert(t[2] == s@[cur + 2] && t[3] == s@[cur + 3]);
                    assert(t[4] == s@[cur + 4] && t[5] == s@[cur + 5]);
                }
                if !(is_hex_exec(h2) && is_hex_exec(h3) && is_hex_exec(h4) && is_hex_exec(h5)) {
                    return None;
                }
                let code: u32 = ((hex_val_exec(h2) * 16 + hex_val_exec(h3)) * 16 + hex_val_exec(
                    h4,
                )) * 16 + hex_val_exec(h5);
                if code >= 0xD800 {
                    return None;
                }
                let ch = char_from_u32(code);
                let ghost out0 = out@;
                push_char(&mut out, ch);
                proof {
                    assert(t.skip(6) =~= s@.skip(cur + 6));
                    let inner = parse_jstr(s@.skip(cur + 6));
                    if inner is Some {
                        assert(out0 + (seq![code as char] + inner.unwrap().0) =~= out@
                            + inner.unwrap().0);
                    }
                }
                cur = cur + 6;
            } else {
                return None;
            }
        } else {
            let ghost out0 = out@;
            push_char(&mut out, c);
            proof {
                let inner = parse_jstr(s@.skip(cur + 1));
                if inner is Some {
                    assert(out0 + (seq![c] + inner.unwrap().0) =~= out@ + inner.unwrap().0);
                }
            }
            cur = cur + 1;
        }
    }
    proof {
        assert(s@.skip(n as int).len() == 0);
    }
    None
}

/// Items already read, glued in front of what a list parse still yields; a
/// continuation that yields nothing after a comma refuses the whole list.
spec fn glue_items(acc: Seq<Seq<char>>, opt: Option<(Seq<Seq<char>>, Seq<char>)>) -> Option<
    (Seq<Seq<char>>, Seq<char>),
> {
    match opt {
        Some(lr) => if acc.len() > 0 && lr.0.len() == 0 {
            None
        } else {
            Some((acc + lr.0, lr.1))
        },
        None => None,
    }
}

/// Reads a JSON list of strings, bracket to bracket.
fn p_list(s: &str, pos: usize) -> (r: Option<(Vec<String>, usize)>)
    requires
        pos <= s@.len(),
    ensures
        match r {
            Some(lp) => lp.1 <= s@.len() && parse_list(s@.skip(pos as int)) == Some(
                (crate::text::strings_view(lp.0@), s@.skip(lp.1 as int)),
            ),
            None => parse_list(s@.skip(pos as int)) is None,
        },
{
    let n = s.unicode_len();
    let p0 = match p_lit(s, pos, "[") {
        None => {
            proof {
                reveal_strlit("[");
            }
            return None;
        },
        Some(p) => p,
    };
    proof {
        reveal_strlit("[");
    }
    let mut items: Vec<String> = Vec::new();
    if p0 < n && s.get_char(p0) == ']' {
        proof {
            assert(s@.skip(p0 as int)[0] == s@[p0 as int]);
            assert(s@.skip(p0 as int).drop_first() =~= s@.skip(p0 + 1));
            assert(crate::text::strings_view(items@) =~= Seq::<Seq<char>>::empty());
        }
        return Some((items, p0 + 1));
    }
    let mut cur = p0;
    proof {
        assert(glue_items(
            crate::text::strings_view(items@),
            parse_items(s@.skip(cur as int)),
        ) == parse_items(s@.skip(p0 as int))) by {
            let x = parse_items(s@.skip(p0 as int));
            if x is Some {
                assert(crate::text::strings_view(items@) + x.unwrap().0 =~= x.unwrap().0);
            }
        }
    }
    loop
        invariant
            p0 <= cur <= n,
            n == s@.len(),
            parse_items(s@.skip(p0 as int)) == glue_items(
                crate::text::strings_view(items@),
                parse_items(s@.skip(cur as int)),
            ),
            parse_list(s@.skip(pos as int)) == parse_items(s@.skip(p0 as int)),
        decreases n - cur,
    {
        if cur >= n {
            proof {
                assert(s@.skip(cur as int).len() == 0);
            }
            return None;
        }
        let c = s.get_char(cur);
        let ghost t = s@.skip(cur as int);
        proof {
            assert(t[0] == s@[cur as int]);
            assert(t.drop_first() =~= s@.skip(cur + 1));
        }
        if c == ']' {
            if items.len() == 0 {
                proof {
                    assert(crate::text::strings_view(items@) =~= Seq::<Seq<char>>::empty());
                    assert(crate::text::strings_view(items@) + Seq::<Seq<char>>::empty()
                        =~= crate::text::strings_view(items@));
                }
                return Some((items, cur + 1));
            } else {
                return None;
            }
        }
        if c != '"' {
            return None;
        }
        let (item, p2) = match p_jstr(s, cur + 1) {
            None => {
                return None;
            },
            Some(tp) => tp,
        };
        proof {
            lemma_parse_jstr_shrinks(s@.skip(cur + 1));
            assert(s@.skip(p2 as int).len() < s@.skip(cur + 1).len());
            assert(parse_items(t) == parse_items_rest(item@, s@.skip(p2 as int), t.len() as int));
        }
        if p2 >= n {
            proof {
                assert(s@.skip(p2 as int).len() == 0);
            }
            return None;
        }
        let c2 = s.get_char(p2);
        let ghost t2 = s@.skip(p2 as int);
        proof {
            assert(t2[0] == s@[p2 as int]);
            assert(t2.drop_first() =~= s@.skip(p2 + 1));
        }
        if c2 == ']' {
            let ghost sv0 = crate::text::strings_view(items@);
            items.push(item);
            proof {
                assert(parse_items(t) == Some((seq![item@], s@.skip(p2 + 1))));
                assert(crate::text::strings_view(items@) =~= sv0 + seq![item@]);
                assert(sv0 + seq![item@] =~= sv0 + (seq![item@]
                    + Seq::<Seq<char>>::empty()));
            }
            return Some((items, p2 + 1));
        } else if c2 == ',' {
            let ghost sv0 = crate::text::strings_view(items@);
            items.push(item);
            proof {
                let x = parse_items(s@.skip(p2 + 1));
                assert(parse_items(t) == glue_items(seq![item@], x)) by {
                    if x is Some {
                        assert(seq![item@] + x.unwrap().0 =~= seq![item@] + x.unwrap().0);
                    }
                }
                assert(crate::text::strings_view(items@) =~= sv0 + seq![item@]);
                if x is Some {
                    let lr = x.unwrap();
                    if lr.0.len() > 0 {
                        assert(sv0 + (seq![item@] + lr.0) =~= (sv0 + seq![item@]) + lr.0);
                    }
                }
            }
            cur = p2 + 1;
        } else {
            return None;
        }
    }
}

/// Reads an externally tagged `Ok`-or-message result.
fn p_result(s: &str, pos: usize) -> (r: Option<(Result<(), String>, usize)>)
    requires
        pos <= s@.len(),
    ensures
        match r {
            Some(rp) => rp.1 <= s@.len() && parse_result(s@.skip(pos as int)) == Some(
                (crate::wire::result_view(rp.0), s@.skip(rp.1 as int)),
            ),
            None => parse_result(s@.skip(pos as int)) is None,
        },
{
    match p_lit(s, pos, "{\"Ok\":null}") {
        Some(p2) => {
            return Some((Ok(()), p2));
        },
        None => {},
    }
    let p1 = match p_lit(s, pos, "{\"Err\":\"") {
        None => {
            return None;
        },
        Some(p) => p,
    };
    let (e, p2) = match p_jstr(s, p1) {
        None => {
            return None;
        },
        Some(tp) => tp,
    };
    let p3 = match p_lit(s, p2, "}") {
        None => {
            return None;
        },
        Some(p) => p,
    };
    Some((Err(e), p3))
}

/// When a literal parse leaves nothing, the text was exactly the literal;
/// when something is left, it was not.
proof fn lemma_lit_rest(t: Seq<char>, l: Seq<char>, rest: Seq<char>)
    requires
        parse_lit(t, l) == Some(rest),
    ensures
        rest.len() == 0 ==> t == l,
        rest.len() > 0 ==> t != l,
{
    assert(t.skip(l.len() as int) == rest);
    if rest.len() == 0 {
        assert(t =~= t.subrange(0, l.len() as int));
    }
}

/// A literal parses against itself.
proof fn lemma_lit_self(l: Seq<char>)
    ensures
        parse_lit(l, l) is Some,
{
    lemma_parse_lit(l, Seq::<char>::empty());
    assert(l + Seq::<char>::empty() =~= l);
}

/// Whether a parsed screen request fits the executable field types.
pub open spec fn request_bounded(v: crate::wire::RequestV) -> bool {
    match v {
        crate::wire::RequestV::Order { index, flavors, size } => index <= usize::MAX
            && size <= u32::MAX,
        crate::wire::RequestV::AskLeader => true,
    }
}

/// Reads a screen request off the wire.  A line the grammar refuses, or whose
/// numbers do not fit the field types, gives nothing back and is dropped.
pub fn decode_request(s: &str) -> (r: Option<crate::wire::Request>)
    ensures
        match r {
            Some(m) => parse_request(s@) == Some(m@),
            None => parse_request(s@) is None || !request_bounded(
                parse_request(s@).unwrap(),
            ),
        },
{
    let n = s.unicode_len();
    proof {
        assert(s@.skip(0) =~= s@);
    }
    let p0 = match p_lit(s, 0, "{\"") {
        None => {
            return None;
        },
        Some(p) => p,
    };
    let (tag, p1) = match p_until_quote(s, p0) {
        None => {
            return None;
        },
        Some(tp) => tp,
    };
    if crate::text::str_eq(tag.as_str(), "ScreenToRobotOrder") {
        let p2 = match p_lit(s, p1, ":{\"index\":") {
            None => {
                return None;
            },
            Some(p) => p,
        };
        let (index64, p3) = match p_dec_u64(s, p2) {
            None => {
                return None;
            },
            Some(vp) => vp,
        };
        if index64 > usize::MAX as u64 {
            proof {
                assert(s@.skip(0) == s@);
                assert(parse_request(s@) is Some ==> !request_bounded(parse_request(s@).unwrap())) by {
                    if parse_request(s@) is Some {
                        let v = parse_request(s@).unwrap();
                        assert(v matches crate::wire::RequestV::Order { index, flavors, size } && index == index64 as nat);
                        assert(!request_bounded(v));
                    }
                }
            }
            return None;
        }
        let p4 = match p_lit(s, p3, ",\"flavors\":") {
            None => {
                return None;
            },
            Some(p) => p,
        };
        let (flavors, p5) = match p_list(s, p4) {
            None => {
                return None;
            },
            Some(lp) => lp,
        };
        let p6 = match p_lit(s, p5, ",\"size\":") {
            None => {
                return None;
            },
            Some(p) => p,
        };
        let (size64, p7) = match p_dec_u64(s, p6) {
            None => {
                return None;
            },
            Some(vp) => vp,
        };
        if size64 > u32::MAX as u64 {
            proof {
                assert(s@.skip(0) == s@);
                assert(parse_request(s@) is Some ==> !request_bounded(parse_request(s@).unwrap())) by {
                    if parse_request(s@) is Some {
                        let v = parse_request(s@).unwrap();
                        assert(v matches crate::wire::RequestV::Order { index, flavors, size } && size == size64 as nat);
                        assert(!request_bounded(v));
                    }
                }
            }
            return None;
        }
        let p8 = match p_lit(s, p7, "}}") {
            None => {
                proof {
                    assert(s@.skip(p7 as int) != "}}"@) by {
                        if s@.skip(p7 as int) == "}}"@ {
                            lemma_lit_self("}}"@);
                        }
                    }
                }
                return None;
            },
            Some(p) => p,
        };
        proof {
            lemma_lit_rest(s@.skip(p7 as int), "}}"@, s@.skip(p8 as int));
        }
        if p8 != n {
            return None;
        }
        let m = crate::wire::Request::ScreenToRobotOrder {
            index: index64 as usize,
            flavors,
            size: size64 as u32,
        };
        proof {
            assert(s@.skip(p8 as int).len() == 0);
            assert(parse_request(s@) == Some(m@));
        }
        Some(m)
    } else if crate::text::str_eq(tag.as_str(), "ScreenToRobotAskLeader") {
        let p2 = match p_lit(s, p1, ":{}}") {
            None => {
                proof {
                    assert(s@.skip(p1 as int) != ":{}}"@) by {
                        if s@.skip(p1 as int) == ":{}}"@ {
                            lemma_lit_self(":{}}"@);
                        }
                    }
                }
                return None;
            },
            Some(p) => p,
        };
        proof {
            lemma_lit_rest(s@.skip(p1 as int), ":{}}"@, s@.skip(p2 as int));
        }
        if p2 != n {
            return None;
        }
        proof {
            assert(s@.skip(p2 as int).len() == 0);
        }
        Some(crate::wire::Request::ScreenToRobotAskLeader {})
    } else {
        None
    }
}

/// Whether a parsed response fits the executable field types.
pub open spec fn response_bounded(v: crate::wire::ResponseV) -> bool {
    match v {
        crate::wire::ResponseV::Result { index, result } => index <= usize::MAX,
        crate::wire::ResponseV::LeaderPort { leader_port } => leader_port <= usize::MAX,
    }
}

/// Reads a robot-to-screen response off the wire.
pub fn decode_response(s: &str) -> (r: Option<crate::wire::Response>)
    ensures
        match r {
            Some(m) => parse_response(s@) == Some(m@),
            None => parse_response(s@) is None || !response_bounded(
                parse_response(s@).unwrap(),
            ),
        },
{
    let n = s.unicode_len();
    proof {
        assert(s@.skip(0) =~= s@);
    }
    let p0 = match p_lit(s, 0, "{\"") {
        None => {
            return None;
        },
        Some(p) => p,
    };
    let (tag, p1) = match p_until_quote(s, p0) {
        None => {
            return None;
        },
        Some(tp) => tp,
    };
    if crate::text::str_eq(tag.as_str(), "RobotToScreenResult") {
        let p2 = match p_lit(s, p1, ":{\"index\":") {
            None => {
                return None;
            },
            Some(p) => p,
        };
        let (index64, p3) = match p_dec_u64(s, p2) {
            None => {
                return None;
            },
            Some(vp) => vp,
        };
        if index64 > usize::MAX as u64 {
            proof {
                assert(s@.skip(0) == s@);
                assert(parse_response(s@) is Some ==> !response_bounded(parse_response(s@).unwrap())) by {
                    if parse_response(s@) is Some {
                        let v = parse_response(s@).unwrap();
                        assert(v matches crate::wire::ResponseV::Result { index, result } && index == index64 as nat);
                        assert(!response_bounded(v));
                    }
                }
            }
            return None;
        }
        let p4 = match p_lit(s, p3, ",\"result\":") {
            None => {
                return None;
            },
            Some(p) => p,
        };
        let (result, p5) = match p_result(s, p4) {
            None => {
                return None;
            },
            Some(rp) => rp,
        };
        let p6 = match p_lit(s, p5, "}}") {
            None => {
                proof {
                    assert(s@.skip(p5 as int) != "}}"@) by {
                        if s@.skip(p5 as int) == "}}"@ {
                            lemma_lit_self("}}"@);
                        }
                    }
                }
                return None;
            },
            Some(p) => p,
        };
        proof {
            lemma_lit_rest(s@.skip(p5 as int), "}}"@, s@.skip(p6 as int));
        }
        if p6 != n {
            return None;
        }
        let m = crate::wire::Response::RobotToScreenResult { index: index64 as usize, result };
        proof {
            assert(s@.skip(p6 as int).len() == 0);
            assert(parse_response(s@) == Some(m@));
        }
        Some(m)
    } else if crate::text::str_eq(tag.as_str(), "RobotToScreenLeaderPort") {
        let p2 = match p_lit(s, p1, ":{\"leader_port\":") {
            None => {
                return None;
            },
            Some(p) => p,
        };
        let (port64, p3) = match p_dec_u64(s, p2) {
            None => {
                return None;
            },
            Some(vp) => vp,
        };
        if port64 > usize::MAX as u64 {
            proof {
                assert(s@.skip(0) == s@);
                assert(parse_response(s@) is Some ==> !response_bounded(parse_response(s@).unwrap())) by {
                    if parse_response(s@) is Some {
                        let v = parse_response(s@).unwrap();
                        assert(v matches crate::wire::ResponseV::LeaderPort { leader_port } && leader_port == port64 as nat);
                        assert(!response_bounded(v));
                    }
                }
            }
            return None;
        }
        let p4 = match p_lit(s, p3, "}}") {
            None => {
                proof {
                    assert(s@.skip(p3 as int) != "}}"@) by {
                        if s@.skip(p3 as int) == "}}"@ {
                            lemma_lit_self("}}"@);
                        }
                    }
                }
                return None;
            },
            Some(p) => p,
        };
        proof {
            lemma_lit_rest(s@.skip(p3 as int), "}}"@, s@.skip(p4 as int));
        }
        if p4 != n {
            return None;
        }
        let m = crate::wire::Response::RobotToScreenLeaderPort { leader_port: port64 as usize };
        proof {
            assert(s@.skip(p4 as int).len() == 0);
            assert(parse_response(s@) == Some(m@));
        }
        Some(m)
    } else {
        None
    }
}

/// Whether a parsed robot-to-robot request fits the executable field types.
pub open spec fn robot_request_bounded(v: crate::wire::RobotRequestV) -> bool {
    match v {
        crate::wire::RobotRequestV::GetMyInformation { robot_to_robot_id } => robot_to_robot_id
            <= usize::MAX,
        crate::wire::RobotRequestV::StartElection => true,
        crate::wire::RobotRequestV::LeaderSelected {
            robot_to_robot_leader_id,
            robot_to_screen_leader_id,
        } => robot_to_robot_leader_id <= usize::MAX && robot_to_screen_leader_id <= usize::MAX,
    }
}

/// Reads a robot-to-robot request off the wire.
pub fn decode_robot_request(s: &str) -> (r: Option<crate::wire::RobotRequest>)
    ensures
        match r {
            Some(m) => parse_robot_request(s@) == Some(m@),
            None => parse_robot_request(s@) is None || !robot_request_bounded(
                parse_robot_request(s@).unwrap(),
            ),
        },
{
    let n = s.unicode_len();
    proof {
        assert(s@.skip(0) =~= s@);
    }
    let p0 = match p_lit(s, 0, "{\"") {
        None => {
            return None;
        },
        Some(p) => p,
    };
    let (tag, p1) = match p_until_quote(s, p0) {
        None => {
            return None;
        },
        Some(tp) => tp,
    };
    if crate::text::str_eq(tag.as_str(), "GetMyInformation") {
        let p2 = match p_lit(s, p1, ":{\"robot_to_robot_id\":") {
            None => {
                return None;
            },
            Some(p) => p,
        };
        let (id64, p3) = match p_dec_u64(s, p2) {
            None => {
                return None;
            },
            Some(vp) => vp,
        };
        if id64 > usize::MAX as u64 {
            proof {
                assert(s@.skip(0) == s@);
                assert(parse_robot_request(s@) is Some ==> !robot_request_bounded(parse_robot_request(s@).unwrap())) by {
                    if parse_robot_request(s@) is Some {
                        let v = parse_robot_request(s@).unwrap();
                        assert(v matches crate::wire::RobotRequestV::GetMyInformation { robot_to_robot_id } && robot_to_robot_id == id64 as nat);
                        assert(!robot_request_bounded(v));
                    }
                }
            }
            return None;
        }
        let p4 = match p_lit(s, p3, "}}") {
            None => {
                proof {
                    assert(s@.skip(p3 as int) != "}}"@) by {
                        if s@.skip(p3 as int) == "}}"@ {
                            lemma_lit_self("}}"@);
                        }
                    }
                }
                return None;
            },
            Some(p) => p,
        };
        proof {
            lemma_lit_rest(s@.skip(p3 as int), "}}"@, s@.skip(p4 as int));
        }
        if p4 != n {
            return None;
        }
        let m = crate::wire::RobotRequest::GetMyInformation { robot_to_robot_id: id64 as usize };
        proof {
            assert(s@.skip(p4 as int).len() == 0);
            assert(parse_robot_request(s@) == Some(m@));
        }
        Some(m)
    } else if crate::text::str_eq(tag.as_str(), "StartElection") {
        let p2 = match p_lit(s, p1, ":{}}") {
            None => {
                proof {
                    assert(s@.skip(p1 as int) != ":{}}"@) by {
                        if s@.skip(p1 as int) == ":{}}"@ {
                            lemma_lit_self(":{}}"@);
                        }
                    }
                }
                return None;
            },
            Some(p) => p,
        };
        proof {
            lemma_lit_rest(s@.skip(p1 as int), ":{}}"@, s@.skip(p2 as int));
        }
        if p2 != n {
            return None;
        }
        proof {
            assert(s@.skip(p2 as int).len() == 0);
        }
        Some(crate::wire::RobotRequest::StartElection {})
    } else if crate::text::str_eq(tag.as_str(), "LeaderSelected") {
        let p2 = match p_lit(s, p1, ":{\"robot_to_robot_leader_id\":") {
            None => {
                return None;
            },
            Some(p) => p,
        };
        let (a64, p3) = match p_dec_u64(s, p2) {
            None => {
                return None;
            },
            Some(vp) => vp,
        };
        if a64 > usize::MAX as u64 {
            proof {
                assert(s@.skip(0) == s@);
                assert(parse_robot_request(s@) is Some ==> !robot_request_bounded(parse_robot_request(s@).unwrap())) by {
                    if parse_robot_request(s@) is Some {
                        let v = parse_robot_request(s@).unwrap();
                        assert(v matches crate::wire::RobotRequestV::LeaderSelected { robot_to_robot_leader_id, robot_to_screen_leader_id } && robot_to_robot_leader_id == a64 as nat);
                        assert(!robot_request_bounded(v));
                    }
                }
            }
            return None;
        }
        let p4 = match p_lit(s, p3, ",\"robot_to_screen_leader_id\":") {
            None => {
                return None;
            },
            Some(p) => p,
        };
        let (b64, p5) = match p_dec_u64(s, p4) {
            None => {
                return None;
            },
            Some(vp) => vp,
        };
        if b64 > usize::MAX as u64 {
            proof {
                assert(s@.skip(0) == s@);
                assert(parse_robot_request(s@) is Some ==> !robot_request_bounded(parse_robot_request(s@).unwrap())) by {
                    if parse_robot_request(s@) is Some {
                        let v = parse_robot_request(s@).unwrap();
                        assert(v matches crate::wire::RobotRequestV::LeaderSelected { robot_to_robot_leader_id, robot_to_screen_leader_id } && robot_to_screen_leader_id == b64 as nat);
                        assert(!robot_request_bounded(v));
                    }
                }
            }
            return None;
        }
        let p6 = match p_lit(s, p5, "}}") {
            None => {
                proof {
                    assert(s@.skip(p5 as int) != "}}"@) by {
                        if s@.skip(p5 as int) == "}}"@ {
                            lemma_lit_self("}}"@);
                        }
                    }
                }
                return None;
            },
            Some(p) => p,
        };
        proof {
            lemma_lit_rest(s@.skip(p5 as int), "}}"@, s@.skip(p6 as int));
        }
        if p6 != n {
            return None;
        }
        let m = crate::wire::RobotRequest::LeaderSelected {
            robot_to_robot_leader_id: a64 as usize,
            robot_to_screen_leader_id: b64 as usize,
        };
        proof {
            assert(s@.skip(p6 as int).len() == 0);
            assert(parse_robot_request(s@) == Some(m@));
        }
        Some(m)
    } else {
        None
    }
}

/// Whether a parsed shop request fits the executable field types.
pub open spec fn shop_request_bounded(v: crate::wire::ShopRequestV) -> bool {
    match v {
        crate::wire::ShopRequestV::IceCreamOrder { flavors, size, screen_id, screen_address } =>
            size <= u32::MAX && screen_id <= usize::MAX,
    }
}

/// Reads a shop request off the wire.
pub fn decode_shop_request(s: &str) -> (r: Option<crate::wire::ShopRequest>)
    ensures
        match r {
            Some(m) => parse_shop_request(s@) == Some(m@),
            None => parse_shop_request(s@) is None || !shop_request_bounded(
                parse_shop_request(s@).unwrap(),
            ),
        },
{
    let n = s.unicode_len();
    proof {
        assert(s@.skip(0) =~= s@);
    }
    let p0 = match p_lit(s, 0, "{\"") {
        None => {
            return None;
        },
        Some(p) => p,
    };
    let (tag, p1) = match p_until_quote(s, p0) {
        None => {
            return None;
        },
        Some(tp) => tp,
    };
    if crate::text::str_eq(tag.as_str(), "IceCreamOrder") {
        let p2 = match p_lit(s, p1, ":{\"flavors\":") {
            None => {
                return None;
            },
            Some(p) => p,
        };
        let (flavors, p3) = match p_list(s, p2) {
            None => {
                return None;
            },
            Some(lp) => lp,
        };
        let p4 = match p_lit(s, p3, ",\"size\":") {
            None => {
                return None;
            },
            Some(p) => p,
        };
        let (size64, p5) = match p_dec_u64(s, p4) {
            None => {
                return None;
            },
            Some(vp) => vp,
        };
        if size64 > u32::MAX as u64 {
            proof {
                assert(s@.skip(0) == s@);
                assert(parse_shop_request(s@) is Some ==> !shop_request_bounded(parse_shop_request(s@).unwrap())) by {
                    if parse_shop_request(s@) is Some {
                        let v = parse_shop_request(s@).unwrap();
                        assert(v matches crate::wire::ShopRequestV::IceCreamOrder { flavors, size, screen_id, screen_address } && size == size64 as nat);
                        assert(!shop_request_bounded(v));
                    }
                }
            }
            return None;
        }
        let p6 = match p_lit(s, p5, ",\"screen_id\":") {
            None => {
                return None;
            },
            Some(p) => p,
        };
        let (id64, p7) = match p_dec_u64(s, p6) {
            None => {
                return None;
            },
            Some(vp) => vp,
        };
        if id64 > usize::MAX as u64 {
            proof {
                assert(s@.skip(0) == s@);
                assert(parse_shop_request(s@) is Some ==> !shop_request_bounded(parse_shop_request(s@).unwrap())) by {
                    if parse_shop_request(s@) is Some {
                        let v = parse_shop_request(s@).unwrap();
                        assert(v matches crate::wire::ShopRequestV::IceCreamOrder { flavors, size, screen_id, screen_address } && screen_id == id64 as nat);
                        assert(!shop_request_bounded(v));
                    }
                }
            }
            return None;
        }
        let p8 = match p_lit(s, p7, ",\"screen_address\":\"") {
            None => {
                return None;
            },
            Some(p) => p,
        };
        let (addr, p9) = match p_jstr(s, p8) {
            None => {
                return None;
            },
            Some(tp) => tp,
        };
        let p10 = match p_lit(s, p9, "}}") {
            None => {
                proof {
                    assert(s@.skip(p9 as int) != "}}"@) by {
                        if s@.skip(p9 as int) == "}}"@ {
                            lemma_lit_self("}}"@);
                        }
                    }
                }
                return None;
            },
            Some(p) => p,
        };
        proof {
            lemma_lit_rest(s@.skip(p9 as int), "}}"@, s@.skip(p10 as int));
        }
        if p10 != n {
            return None;
        }
        let m = crate::wire::ShopRequest::IceCreamOrder {
            flavors,
            size: size64 as u32,
            screen_id: id64 as usize,
            screen_address: addr,
        };
        proof {
            assert(s@.skip(p10 as int).len() == 0);
            assert(parse_shop_request(s@) == Some(m@));
        }
        Some(m)
    } else {
        None
    }
}

/// Whether a parsed shop response fits the executable field types.
pub open spec fn shop_response_bounded(v: crate::wire::ShopResponseV) -> bool {
    match v {
        crate::wire::ShopResponseV::OrderResult { screen_id, result, screen_address } => screen_id
            <= usize::MAX,
    }
}

/// Reads a shop response off the wire.
pub fn decode_shop_response(s: &str) -> (r: Option<crate::wire::ShopResponse>)
    ensures
        match r {
            Some(m) => parse_shop_response(s@) == Some(m@),
            None => parse_shop_response(s@) is None || !shop_response_bounded(
                parse_shop_response(s@).unwrap(),
            ),
        },
{
    let n = s.unicode_len();
    proof {
        assert(s@.skip(0) =~= s@);
    }
    let p0 = match p_lit(s, 0, "{\"") {
        None => {
            return None;
        },
        Some(p) => p,
    };
    let (tag, p1) = match p_until_quote(s, p0) {
        None => {
            return None;
        },
        Some(tp) => tp,
    };
    if crate::text::str_eq(tag.as_str(), "OrderResult") {
        let p2 = match p_lit(s, p1, ":{\"screen_id\":") {
            None => {
                return None;
            },
            Some(p) => p,
        };
        let (id64, p3) = match p_dec_u64(s, p2) {
            None => {
                return None;
            },
            Some(vp) => vp,
        };
        if id64 > usize::MAX as u64 {
            proof {
                assert(s@.skip(0) == s@);
                assert(parse_shop_response(s@) is Some ==> !shop_response_bounded(parse_shop_response(s@).unwrap())) by {
                    if parse_shop_response(s@) is Some {
                        let v = parse_shop_response(s@).unwrap();
                        assert(v matches crate::wire::ShopResponseV::OrderResult { screen_id, result, screen_address } && screen_id == id64 as nat);
                        assert(!shop_response_bounded(v));
                    }
                }
            }
            return None;
        }
        let p4 = match p_lit(s, p3, ",\"result\":") {
            None => {
                return None;
            },
            Some(p) => p,
        };
        let (result, p5) = match p_result(s, p4) {
            None => {
                return None;
            },
            Some(rp) => rp,
        };
        let p6 = match p_lit(s, p5, ",\"screen_address\":\"") {
            None => {
                return None;
            },
            Some(p) => p,
        };
        let (addr, p7) = match p_jstr(s, p6) {
            None => {
                return None;
            },
            Some(tp) => tp,
        };
        let p8 = match p_lit(s, p7, "}}") {
            None => {
                proof {
                    assert(s@.skip(p7 as int) != "}}"@) by {
                        if s@.skip(p7 as int) == "}}"@ {
                            lemma_lit_self("}}"@);
                        }
                    }
                }
                return None;
            },
            Some(p) => p,
        };
        proof {
            lemma_lit_rest(s@.skip(p7 as int), "}}"@, s@.skip(p8 as int));
        }
        if p8 != n {
            return None;
        }
        let m = crate::wire::ShopResponse::OrderResult {
            screen_id: id64 as usize,
            result,
            screen_address: addr,
        };
        proof {
            assert(s@.skip(p8 as int).len() == 0);
            assert(parse_shop_response(s@) == Some(m@));
        }
        Some(m)
    } else {
        None
    }
}

} // verus!
