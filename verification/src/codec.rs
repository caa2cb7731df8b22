use vstd::prelude::*;
use crate::entities::quiz::{
    MultipleChoiceQuestion, MultipleChoiceQuestionV, NumericQuestion, NumericQuestionV,
    QuestionType, QuestionTypeV, TrueOrFalseQuestion, TrueOrFalseQuestionV,
};
use crate::fault::Fault;
use crate::text::{chars_to_string, str_to_chars};

verus! {

// ---------------------------------------------------------------------------
// The serialized form of a question payload. A payload is a single JSON
// object whose first member tags the variant:
//   {"type":"MultipleChoice","answers":[..strings..],"correct_answer":N}
//   {"type":"Numeric","range_start":N,"range_end":N}
//   {"type":"TrueOrFalse","correct_answer":B}
// Strings escape backslash and double quote with a backslash; numbers are
// decimal with an optional leading minus. The parser below defines the
// format; the serializer emits one canonical form of it.
// ---------------------------------------------------------------------------
pub open spec fn spec_is_digit(c: char) -> bool {
    '0' <= c <= '9'
}

pub open spec fn digit_val(c: char) -> int {
    c as int - '0' as int
}

pub open spec fn digit_char(d: int) -> char
    recommends
        0 <= d <= 9,
{
    ((d + '0' as int) as u8) as char
}

/// The canonical decimal digits of `n >= 0`, most significant first.
pub open spec fn ser_nat(n: int) -> Seq<char>
    recommends
        n >= 0,
    decreases n,
{
    if n < 10 {
        seq![digit_char(n)]
    } else {
        ser_nat(n / 10).push(digit_char(n % 10))
    }
}

/// The canonical decimal form of `n`, with a minus sign when negative.
pub open spec fn ser_i32(n: int) -> Seq<char> {
    if n < 0 {
        seq!['-'] + ser_nat(-n)
    } else {
        ser_nat(n)
    }
}

/// A string body character by character, escaping `\` and `"`.
pub open spec fn ser_string_body(t: Seq<char>) -> Seq<char>
    decreases t.len(),
{
    if t.len() == 0 {
        Seq::empty()
    } else {
        let head: Seq<char> = if t[0] == '"' || t[0] == '\\' {
            seq!['\\', t[0]]
        } else {
            seq![t[0]]
        };
        head + ser_string_body(t.drop_first())
    }
}

/// A quoted, escaped JSON string.
pub open spec fn ser_string(t: Seq<char>) -> Seq<char> {
    seq!['"'] + ser_string_body(t) + seq!['"']
}

/// The members of a string array, comma separated.
pub open spec fn ser_answers(ts: Seq<Seq<char>>) -> Seq<char>
    decreases ts.len(),
{
    if ts.len() == 0 {
        Seq::empty()
    } else if ts.len() == 1 {
        ser_string(ts[0])
    } else {
        ser_string(ts[0]) + seq![','] + ser_answers(ts.drop_first())
    }
}

pub open spec fn ser_bool(b: bool) -> Seq<char> {
    if b {
        "true"@
    } else {
        "false"@
    }
}

/// The canonical serialized payload of a question.
pub open spec fn ser_question(q: QuestionTypeV) -> Seq<char> {
    match q {
        QuestionTypeV::MultipleChoice(m) => "{\"type\":\"MultipleChoice\",\"answers\":["@
            + ser_answers(m.answers) + "],\"correct_answer\":"@ + ser_i32(m.correct_answer as int)
            + "}"@,
        QuestionTypeV::Numeric(n) => "{\"type\":\"Numeric\",\"range_start\":"@ + ser_i32(
            n.range_start as int,
        ) + ",\"range_end\":"@ + ser_i32(n.range_end as int) + "}"@,
        QuestionTypeV::TrueOrFalse(t) => "{\"type\":\"TrueOrFalse\",\"correct_answer\":"@
            + ser_bool(t.correct_answer) + "}"@,
    }
}

// ---------------------------------------------------------------------------
// The parser, over suffixes: each function consumes a prefix of `s` and
// yields the parsed value beside the unconsumed rest.
// ---------------------------------------------------------------------------
/// Consumes `lit` from the front of `s`.
pub open spec fn parse_lit(s: Seq<char>, lit: Seq<char>) -> Option<Seq<char>> {
    if lit.len() <= s.len() && s.subrange(0, lit.len() as int) == lit {
        Some(s.skip(lit.len() as int))
    } else {
        None
    }
}

/// Consumes decimal digits greedily, folding them onto `acc`.
pub open spec fn parse_nat_acc(s: Seq<char>, acc: int) -> (int, Seq<char>)
    decreases s.len(),
{
    if s.len() > 0 && spec_is_digit(s[0]) {
        parse_nat_acc(s.drop_first(), acc * 10 + digit_val(s[0]))
    } else {
        (acc, s)
    }
}

/// Consumes a decimal integer with optional minus sign; rejects a value
/// outside the 32-bit signed range.
pub open spec fn parse_i32(s: Seq<char>) -> Option<(int, Seq<char>)> {
    if s.len() > 0 && s[0] == '-' {
        let t = s.drop_first();
        if t.len() > 0 && spec_is_digit(t[0]) {
            let (v, rest) = parse_nat_acc(t, 0);
            if -v >= i32::MIN {
                Some((-v, rest))
            } else {
                None
            }
        } else {
            None
        }
    } else if s.len() > 0 && spec_is_digit(s[0]) {
        let (v, rest) = parse_nat_acc(s, 0);
        if v <= i32::MAX {
            Some((v, rest))
        } else {
            None
        }
    } else {
        None
    }
}

/// Consumes a string body up to and including the closing quote,
/// interpreting backslash escapes.
pub open spec fn parse_string_body(s: Seq<char>) -> Option<(Seq<char>, Seq<char>)>
    decreases s.len(),
{
    if s.len() == 0 {
        None
    } else if s[0] == '"' {
        Some((Seq::empty(), s.drop_first()))
    } else if s[0] == '\\' {
        if s.len() >= 2 && (s[1] == '"' || s[1] == '\\') {
            match parse_string_body(s.skip(2)) {
                Some((t, rest)) => Some((seq![s[1]] + t, rest)),
                None => None,
            }
        } else {
            None
        }
    } else {
        match parse_string_body(s.drop_first()) {
            Some((t, rest)) => Some((seq![s[0]] + t, rest)),
            None => None,
        }
    }
}

/// Consumes a quoted string.
pub open spec fn parse_string(s: Seq<char>) -> Option<(Seq<char>, Seq<char>)> {
    if s.len() > 0 && s[0] == '"' {
        parse_string_body(s.drop_first())
    } else {
        None
    }
}

pub open spec fn parse_bool(s: Seq<char>) -> Option<(bool, Seq<char>)> {
    match parse_lit(s, "true"@) {
        Some(rest) => Some((true, rest)),
        None => match parse_lit(s, "false"@) {
            Some(rest) => Some((false, rest)),
            None => None,
        },
    }
}

/// Consumes the members of a string array after the opening bracket, up to
/// and including the closing bracket.
pub open spec fn parse_answers(s: Seq<char>) -> Option<(Seq<Seq<char>>, Seq<char>)>
    decreases s.len(), 1int,
{
    if s.len() > 0 && s[0] == ']' {
        Some((Seq::empty(), s.drop_first()))
    } else {
        parse_answers_more(s)
    }
}

/// Consumes one or more comma-separated strings, then the closing bracket.
pub open spec fn parse_answers_more(s: Seq<char>) -> Option<(Seq<Seq<char>>, Seq<char>)>
    decreases s.len(), 0int,
    via parse_answers_more_decreases
{
    match parse_string(s) {
        Some((t, rest)) => {
            if rest.len() > 0 && rest[0] == ',' {
                match parse_answers_more(rest.drop_first()) {
                    Some((ts, rest2)) => Some((seq![t] + ts, rest2)),
                    None => None,
                }
            } else if rest.len() > 0 && rest[0] == ']' {
                Some((seq![t], rest.drop_first()))
            } else {
                None
            }
        },
        None => None,
    }
}

/// Parsing a string consumes at least the quotes.
pub proof fn lemma_parse_string_body_shrinks(s: Seq<char>)
    ensures
        parse_string_body(s) matches Some(r) ==> r.1.len() < s.len(),
    decreases s.len(),
{
    if s.len() == 0 {
    } else if s[0] == '"' {
    } else if s[0] == '\\' {
        if s.len() >= 2 && (s[1] == '"' || s[1] == '\\') {
            lemma_parse_string_body_shrinks(s.skip(2));
        }
    } else {
        lemma_parse_string_body_shrinks(s.drop_first());
    }
}

#[via_fn]
proof fn parse_answers_more_decreases(s: Seq<char>) {
    match parse_string(s) {
        Some((t, rest)) => {
            if s.len() > 0 && s[0] == '"' {
                lemma_parse_string_body_shrinks(s.drop_first());
            }
        },
        None => {},
    }
}

/// The whole-input parse of a question payload: `None` is a malformed
/// payload.
pub open spec fn parse_question(s: Seq<char>) -> Option<QuestionTypeV> {
    match parse_lit(s, "{\"type\":\"MultipleChoice\",\"answers\":["@) {
        Some(r1) => match parse_answers(r1) {
            Some((answers, r2)) => match parse_lit(r2, ",\"correct_answer\":"@) {
                Some(r3) => match parse_i32(r3) {
                    Some((n, r4)) => {
                        if r4 =~= "}"@ {
                            Some(
                                QuestionTypeV::MultipleChoice(
                                    MultipleChoiceQuestionV {
                                        answers,
                                        correct_answer: n as i32,
                                    },
                                ),
                            )
                        } else {
                            None
                        }
                    },
                    None => None,
                },
                None => None,
            },
            None => None,
        },
        None => match parse_lit(s, "{\"type\":\"Numeric\",\"range_start\":"@) {
            Some(r1) => match parse_i32(r1) {
                Some((a, r2)) => match parse_lit(r2, ",\"range_end\":"@) {
                    Some(r3) => match parse_i32(r3) {
                        Some((b, r4)) => {
                            if r4 =~= "}"@ {
                                Some(
                                    QuestionTypeV::Numeric(
                                        NumericQuestionV {
                                            range_start: a as i32,
                                            range_end: b as i32,
                                        },
                                    ),
                                )
                            } else {
                                None
                            }
                        },
                        None => None,
                    },
                    None => None,
                },
                None => None,
            },
            None => match parse_lit(s, "{\"type\":\"TrueOrFalse\",\"correct_answer\":"@) {
                Some(r1) => match parse_bool(r1) {
                    Some((b, r2)) => {
                        if r2 =~= "}"@ {
                            Some(
                                QuestionTypeV::TrueOrFalse(
                                    TrueOrFalseQuestionV { correct_answer: b },
                                ),
                            )
                        } else {
                            None
                        }
                    },
                    None => None,
                },
                None => None,
            },
        },
    }
}


// ---------------------------------------------------------------------------
// Round trip: parsing a serialized payload yields the payload back.
// ---------------------------------------------------------------------------
pub open spec fn pow10(k: nat) -> int
    decreases k,
{
    if k == 0 {
        1
    } else {
        10 * pow10((k - 1) as nat)
    }
}

proof fn lemma_digit_char(d: int)
    requires
        0 <= d <= 9,
    ensures
        spec_is_digit(digit_char(d)),
        digit_val(digit_char(d)) == d,
{
    assert(('0' as int) == 48);
    assert(('9' as int) == 57);
    assert(digit_char(d) as int == d + 48);
}

proof fn lemma_ser_nat_first(n: int)
    requires
        n >= 0,
    ensures
        ser_nat(n).len() >= 1,
        spec_is_digit(ser_nat(n)[0]),
    decreases n,
{
    if n < 10 {
        lemma_digit_char(n);
    } else {
        lemma_ser_nat_first(n / 10);
    }
}

proof fn lemma_parse_nat_acc_ser(n: int, rest: Seq<char>, acc: int)
    requires
        n >= 0,
    ensures
        parse_nat_acc(ser_nat(n) + rest, acc) == parse_nat_acc(
            rest,
            acc * pow10(ser_nat(n).len() as nat) + n,
        ),
    decreases n,
{
    if n < 10 {
        lemma_digit_char(n);
        let s = ser_nat(n) + rest;
        assert(s[0] == digit_char(n));
        assert(s.drop_first() =~= rest);
        assert(parse_nat_acc(s, acc) == parse_nat_acc(rest, acc * 10 + n));
        assert(ser_nat(n).len() == 1);
        assert(pow10(0) == 1);
        assert(pow10(1) == 10);
        assert(acc * 10 + n == acc * pow10(1) + n);
    } else {
        let d = n % 10;
        let m = n / 10;
        assert(m * 10 + d == n) by (nonlinear_arith)
            requires
                m == n / 10,
                d == n % 10,
                n >= 10,
        ;
        lemma_digit_char(d);
        let dr = seq![digit_char(d)] + rest;
        assert(ser_nat(n) =~= ser_nat(m) + seq![digit_char(d)]);
        assert(ser_nat(n) + rest =~= ser_nat(m) + dr);
        lemma_parse_nat_acc_ser(m, dr, acc);
        let l1 = ser_nat(m).len() as nat;
        let a2 = acc * pow10(l1) + m;
        assert(dr[0] == digit_char(d));
        assert(dr.drop_first() =~= rest);
        assert(parse_nat_acc(dr, a2) == parse_nat_acc(rest, a2 * 10 + d));
        assert(ser_nat(n).len() == l1 + 1);
        assert(pow10(l1 + 1) == 10 * pow10(l1));
        assert((acc * pow10(l1) + m) * 10 + d == acc * (10 * pow10(l1)) + (m * 10 + d))
            by (nonlinear_arith);
        assert(a2 * 10 + d == acc * pow10((l1 + 1) as nat) + n);
    }
}

proof fn lemma_parse_nat_acc_stop(rest: Seq<char>, acc: int)
    requires
        rest.len() == 0 || !spec_is_digit(rest[0]),
    ensures
        parse_nat_acc(rest, acc) == (acc, rest),
{
}

proof fn lemma_parse_i32_ser(n: int, rest: Seq<char>)
    requires
        i32::MIN <= n <= i32::MAX,
        rest.len() > 0,
        !spec_is_digit(rest[0]),
    ensures
        parse_i32(ser_i32(n) + rest) == Some((n, rest)),
{
    if n >= 0 {
        let s = ser_i32(n) + rest;
        assert(s =~= ser_nat(n) + rest);
        lemma_ser_nat_first(n);
        assert(s[0] == ser_nat(n)[0]);
        assert(('-' as int) == 45);
        assert(('0' as int) == 48);
        assert(s[0] != '-');
        lemma_parse_nat_acc_ser(n, rest, 0);
        assert(0 * pow10(ser_nat(n).len() as nat) == 0) by (nonlinear_arith);
        lemma_parse_nat_acc_stop(rest, n);
    } else {
        let p = -n;
        let s = ser_i32(n) + rest;
        assert(s =~= seq!['-'] + (ser_nat(p) + rest));
        assert(s[0] == '-');
        let t = s.drop_first();
        assert(t =~= ser_nat(p) + rest);
        lemma_ser_nat_first(p);
        assert(t[0] == ser_nat(p)[0]);
        lemma_parse_nat_acc_ser(p, rest, 0);
        assert(0 * pow10(ser_nat(p).len() as nat) == 0) by (nonlinear_arith);
        lemma_parse_nat_acc_stop(rest, p);
        assert(parse_nat_acc(t, 0) == (p, rest));
    }
}

proof fn lemma_parse_lit_prefix(lit: Seq<char>, rest: Seq<char>)
    ensures
        parse_lit(lit + rest, lit) == Some(rest),
{
    let s = lit + rest;
    assert(s.subrange(0, lit.len() as int) =~= lit);
    assert(s.skip(lit.len() as int) =~= rest);
}

proof fn lemma_parse_lit_mismatch(s: Seq<char>, lit: Seq<char>, k: int)
    requires
        0 <= k < lit.len(),
        k < s.len(),
        s[k] != lit[k],
    ensures
        parse_lit(s, lit) is None,
{
    if lit.len() <= s.len() && s.subrange(0, lit.len() as int) == lit {
        assert(s.subrange(0, lit.len() as int)[k] == s[k]);
        assert(false);
    }
}

proof fn lemma_parse_string_body_ser(t: Seq<char>, rest: Seq<char>)
    ensures
        parse_string_body(ser_string_body(t) + seq!['"'] + rest) == Some((t, rest)),
    decreases t.len(),
{
    let s = ser_string_body(t) + seq!['"'] + rest;
    if t.len() == 0 {
        assert(s =~= seq!['"'] + rest);
        assert(s[0] == '"');
        assert(s.drop_first() =~= rest);
        assert(parse_string_body(s) == Some((Seq::<char>::empty(), rest)));
        assert(t =~= Seq::<char>::empty());
    } else {
        let c = t[0];
        let tl = t.drop_first();
        lemma_parse_string_body_ser(tl, rest);
        let inner = ser_string_body(tl) + seq!['"'] + rest;
        if c == '"' || c == '\\' {
            assert(ser_string_body(t) =~= seq!['\\', c] + ser_string_body(tl));
            assert(s =~= seq!['\\', c] + inner);
            assert(s[0] == '\\');
            assert(s[1] == c);
            assert(s.len() >= 2);
            assert(s.skip(2) =~= inner);
            assert(parse_string_body(s) == Some((seq![c] + tl, rest)));
            assert(seq![c] + tl =~= t);
        } else {
            assert(ser_string_body(t) =~= seq![c] + ser_string_body(tl));
            assert(s =~= seq![c] + inner);
            assert(s[0] == c);
            assert(s.drop_first() =~= inner);
            assert(parse_string_body(s) == Some((seq![c] + tl, rest)));
            assert(seq![c] + tl =~= t);
        }
    }
}

proof fn lemma_parse_string_ser(t: Seq<char>, rest: Seq<char>)
    ensures
        parse_string(ser_string(t) + rest) == Some((t, rest)),
{
    let s = ser_string(t) + rest;
    assert(s =~= seq!['"'] + (ser_string_body(t) + seq!['"'] + rest));
    assert(s[0] == '"');
    assert(s.drop_first() =~= ser_string_body(t) + seq!['"'] + rest);
    lemma_parse_string_body_ser(t, rest);
}

proof fn lemma_parse_answers_ser(ts: Seq<Seq<char>>, tail: Seq<char>)
    ensures
        parse_answers(ser_answers(ts) + seq![']'] + tail) == Some((ts, tail)),
    decreases ts.len(),
{
    let s = ser_answers(ts) + seq![']'] + tail;
    if ts.len() == 0 {
        assert(s =~= seq![']'] + tail);
        assert(s[0] == ']');
        assert(s.drop_first() =~= tail);
        assert(ts =~= Seq::<Seq<char>>::empty());
    } else if ts.len() == 1 {
        assert(s =~= ser_string(ts[0]) + (seq![']'] + tail));
        lemma_parse_string_ser(ts[0], seq![']'] + tail);
        assert(s[0] == '"');
        let rest = seq![']'] + tail;
        assert(rest[0] == ']');
        assert(rest.drop_first() =~= tail);
        assert(parse_answers_more(s) == Some((seq![ts[0]], tail)));
        assert(seq![ts[0]] =~= ts);
    } else {
        let tl = ts.drop_first();
        let after = seq![','] + (ser_answers(tl) + seq![']'] + tail);
        assert(ser_answers(ts) =~= ser_string(ts[0]) + seq![','] + ser_answers(tl));
        assert(s =~= ser_string(ts[0]) + after);
        lemma_parse_string_ser(ts[0], after);
        assert(s[0] == '"');
        assert(after[0] == ',');
        assert(after.drop_first() =~= ser_answers(tl) + seq![']'] + tail);
        lemma_parse_answers_ser(tl, tail);
        assert(parse_answers_more(s) == Some((seq![ts[0]] + tl, tail)));
        assert(seq![ts[0]] + tl =~= ts);
    }
}

proof fn lemma_parse_bool_ser(b: bool, rest: Seq<char>)
    ensures
        parse_bool(ser_bool(b) + rest) == Some((b, rest)),
{
    proof_strlits();
    if b {
        lemma_parse_lit_prefix("true"@, rest);
    } else {
        let s = "false"@ + rest;
        assert(s[0] == 'f');
        lemma_parse_lit_mismatch(s, "true"@, 0);
        lemma_parse_lit_prefix("false"@, rest);
    }
}

/// Makes the contents of every literal of the payload grammar available.
proof fn proof_strlits()
    ensures
        "{\"type\":\"MultipleChoice\",\"answers\":["@.len() == 36,
        "{\"type\":\"Numeric\",\"range_start\":"@.len() == 32,
        "{\"type\":\"TrueOrFalse\",\"correct_answer\":"@.len() == 39,
        "{\"type\":\"MultipleChoice\",\"answers\":["@[9] == 'M',
        "{\"type\":\"Numeric\",\"range_start\":"@[9] == 'N',
        "{\"type\":\"TrueOrFalse\",\"correct_answer\":"@[9] == 'T',
        "],\"correct_answer\":"@ =~= seq![']'] + ",\"correct_answer\":"@,
        ",\"correct_answer\":"@[0] == ',',
        ",\"correct_answer\":"@.len() == 18,
        ",\"range_end\":"@[0] == ',',
        ",\"range_end\":"@.len() == 13,
        "}"@ =~= seq!['}'],
        "true"@[0] == 't',
        "false"@[0] == 'f',
        "true"@.len() == 4,
        "false"@.len() == 5,
{
    reveal_strlit("{\"type\":\"MultipleChoice\",\"answers\":[");
    reveal_strlit("{\"type\":\"Numeric\",\"range_start\":");
    reveal_strlit("{\"type\":\"TrueOrFalse\",\"correct_answer\":");
    reveal_strlit("],\"correct_answer\":");
    reveal_strlit(",\"correct_answer\":");
    reveal_strlit(",\"range_end\":");
    reveal_strlit("}");
    reveal_strlit("true");
    reveal_strlit("false");
    assert("],\"correct_answer\":"@ =~= seq![']'] + ",\"correct_answer\":"@);
    assert("}"@ =~= seq!['}']);
}

/// Parsing the canonical serialization of a question yields the question:
/// the payload format loses nothing.
pub proof fn lemma_question_round_trip(q: QuestionTypeV)
    ensures
        parse_question(ser_question(q)) == Some(q),
{
    proof_strlits();
    assert(('}' as int) == 125);
    assert((',' as int) == 44);
    assert(('0' as int) == 48);
    assert(('9' as int) == 57);
    let s = ser_question(q);
    match q {
        QuestionTypeV::MultipleChoice(m) => {
            let p1 = "{\"type\":\"MultipleChoice\",\"answers\":["@;
            let mid = ",\"correct_answer\":"@;
            let ca = m.correct_answer as int;
            let tail2 = mid + ser_i32(ca) + "}"@;
            let x = ser_answers(m.answers) + seq![']'] + tail2;
            assert(s =~= p1 + x);
            lemma_parse_lit_prefix(p1, x);
            assert(parse_lit(s, p1) == Some(x));
            lemma_parse_answers_ser(m.answers, tail2);
            assert(tail2 =~= mid + (ser_i32(ca) + "}"@));
            lemma_parse_lit_prefix(mid, ser_i32(ca) + "}"@);
            assert(parse_lit(tail2, mid) == Some(ser_i32(ca) + "}"@));
            assert(!spec_is_digit('}'));
            lemma_parse_i32_ser(ca, "}"@);
            assert(parse_i32(ser_i32(ca) + "}"@) == Some((ca, "}"@)));
            assert((ca as i32) == m.correct_answer);
        },
        QuestionTypeV::Numeric(nq) => {
            let pm = "{\"type\":\"MultipleChoice\",\"answers\":["@;
            let p1 = "{\"type\":\"Numeric\",\"range_start\":"@;
            let mid = ",\"range_end\":"@;
            let a = nq.range_start as int;
            let b = nq.range_end as int;
            let x = ser_i32(a) + mid + ser_i32(b) + "}"@;
            assert(s =~= p1 + x);
            assert(s[9] == p1[9]);
            lemma_parse_lit_mismatch(s, pm, 9);
            lemma_parse_lit_prefix(p1, x);
            assert(parse_lit(s, p1) == Some(x));
            assert(x =~= ser_i32(a) + (mid + ser_i32(b) + "}"@));
            assert(!spec_is_digit(','));
            assert((mid + ser_i32(b) + "}"@)[0] == ',');
            lemma_parse_i32_ser(a, mid + ser_i32(b) + "}"@);
            assert(mid + ser_i32(b) + "}"@ =~= mid + (ser_i32(b) + "}"@));
            lemma_parse_lit_prefix(mid, ser_i32(b) + "}"@);
            assert(!spec_is_digit('}'));
            lemma_parse_i32_ser(b, "}"@);
            assert((a as i32) == nq.range_start);
            assert((b as i32) == nq.range_end);
        },
        QuestionTypeV::TrueOrFalse(t) => {
            let pm = "{\"type\":\"MultipleChoice\",\"answers\":["@;
            let pn = "{\"type\":\"Numeric\",\"range_start\":"@;
            let p1 = "{\"type\":\"TrueOrFalse\",\"correct_answer\":"@;
            let x = ser_bool(t.correct_answer) + "}"@;
            assert(s =~= p1 + x);
            assert(s[9] == p1[9]);
            lemma_parse_lit_mismatch(s, pm, 9);
            lemma_parse_lit_mismatch(s, pn, 9);
            lemma_parse_lit_prefix(p1, x);
            assert(parse_lit(s, p1) == Some(x));
            assert(x =~= ser_bool(t.correct_answer) + "}"@);
            lemma_parse_bool_ser(t.correct_answer, "}"@);
        },
    }
}


// ---------------------------------------------------------------------------
// Executable serializer.
// ---------------------------------------------------------------------------
/// Serialization distributes over concatenation of string bodies.
proof fn lemma_ser_string_body_concat(a: Seq<char>, b: Seq<char>)
    ensures
        ser_string_body(a + b) == ser_string_body(a) + ser_string_body(b),
    decreases a.len(),
{
    if a.len() == 0 {
        assert(a + b =~= b);
        assert(ser_string_body(a) + ser_string_body(b) =~= ser_string_body(b));
    } else {
        assert((a + b)[0] == a[0]);
        assert((a + b).drop_first() =~= a.drop_first() + b);
        lemma_ser_string_body_concat(a.drop_first(), b);
        assert(ser_string_body(a + b) =~= ser_string_body(a) + ser_string_body(b));
    }
}

fn digit_to_char(d: u64) -> (c: char)
    requires
        d <= 9,
    ensures
        c == digit_char(d as int),
{
    let c = (48u8 + d as u8) as char;
    proof {
        assert(('0' as int) == 48);
    }
    c
}

fn push_nat(out: &mut Vec<char>, m: u64)
    ensures
        final(out)@ == old(out)@ + ser_nat(m as int),
    decreases m,
{
    if m < 10 {
        out.push(digit_to_char(m));
        assert(out@ =~= old(out)@ + ser_nat(m as int));
    } else {
        push_nat(out, m / 10);
        out.push(digit_to_char(m % 10));
        assert(out@ =~= old(out)@ + ser_nat(m as int));
    }
}

fn push_i32(out: &mut Vec<char>, n: i32)
    ensures
        final(out)@ == old(out)@ + ser_i32(n as int),
{
    if n < 0 {
        out.push('-');
        let m: u64 = (-(n as i64)) as u64;
        push_nat(out, m);
        assert(out@ =~= old(out)@ + ser_i32(n as int));
    } else {
        push_nat(out, n as u64);
    }
}

fn push_lit(out: &mut Vec<char>, lit: &str)
    ensures
        final(out)@ == old(out)@ + lit@,
{
    let mut tmp = str_to_chars(lit);
    out.append(&mut tmp);
}

fn push_string_body(out: &mut Vec<char>, t: &Vec<char>)
    ensures
        final(out)@ == old(out)@ + ser_string_body(t@),
{
    let n = t.len();
    let mut i: usize = 0;
    proof {
        assert(t@.take(0) =~= Seq::<char>::empty());
    }
    while i < n
        invariant
            i <= n,
            n == t.len(),
            out@ == old(out)@ + ser_string_body(t@.take(i as int)),
        decreases n - i,
    {
        let c = t[i];
        if c == '"' || c == '\\' {
            out.push('\\');
            out.push(c);
        } else {
            out.push(c);
        }
        i = i + 1;
        proof {
            let a = t@.take(i as int - 1);
            lemma_ser_string_body_concat(a, seq![c]);
            assert(t@.take(i as int) =~= a + seq![c]);
            assert(seq![c].drop_first() =~= Seq::<char>::empty());
            assert(ser_string_body(Seq::<char>::empty()) =~= Seq::<char>::empty());
            assert(ser_string_body(seq![c]) =~= if c == '"' || c == '\\' {
                seq!['\\', c]
            } else {
                seq![c]
            });
            assert(out@ =~= old(out)@ + ser_string_body(t@.take(i as int)));
        }
    }
    proof {
        assert(t@.take(n as int) =~= t@);
    }
}

fn push_string(out: &mut Vec<char>, t: &Vec<char>)
    ensures
        final(out)@ == old(out)@ + ser_string(t@),
{
    out.push('"');
    push_string_body(out, t);
    out.push('"');
    assert(out@ =~= old(out)@ + ser_string(t@));
}

fn push_answers(out: &mut Vec<char>, answers: &Vec<String>, i: usize)
    requires
        i <= answers.len(),
    ensures
        final(out)@ == old(out)@ + ser_answers(answers.deep_view().skip(i as int)),
    decreases answers.len() - i,
{
    let ghost whole = answers.deep_view();
    if i == answers.len() {
        proof {
            assert(whole.skip(i as int) =~= Seq::<Seq<char>>::empty());
            assert(out@ =~= old(out)@ + ser_answers(whole.skip(i as int)));
        }
    } else {
        let chars = str_to_chars(answers[i].as_str());
        proof {
            assert(chars@ == whole.skip(i as int)[0]);
        }
        push_string(out, &chars);
        if i + 1 < answers.len() {
            out.push(',');
            push_answers(out, answers, i + 1);
            proof {
                assert(whole.skip(i as int).drop_first() =~= whole.skip(i as int + 1));
                assert(whole.skip(i as int).len() >= 2);
                assert(out@ =~= old(out)@ + ser_answers(whole.skip(i as int)));
            }
        } else {
            proof {
                assert(whole.skip(i as int).len() == 1);
                assert(out@ =~= old(out)@ + ser_answers(whole.skip(i as int)));
            }
        }
    }
}

/// Serializes a question payload into its canonical stored form.
pub fn encode_question(q: &QuestionType) -> (r: String)
    ensures
        r@ == ser_question(q@),
{
    let mut out: Vec<char> = Vec::new();
    match q {
        QuestionType::MultipleChoice(m) => {
            push_lit(&mut out, "{\"type\":\"MultipleChoice\",\"answers\":[");
            push_answers(&mut out, &m.answers, 0);
            push_lit(&mut out, "],\"correct_answer\":");
            push_i32(&mut out, m.correct_answer);
            push_lit(&mut out, "}");
            proof {
                assert(m.answers.deep_view().skip(0) =~= m.answers.deep_view());
                assert(out@ =~= ser_question(q@));
            }
        },
        QuestionType::Numeric(n) => {
            push_lit(&mut out, "{\"type\":\"Numeric\",\"range_start\":");
            push_i32(&mut out, n.range_start);
            push_lit(&mut out, ",\"range_end\":");
            push_i32(&mut out, n.range_end);
            push_lit(&mut out, "}");
            proof {
                assert(out@ =~= ser_question(q@));
            }
        },
        QuestionType::TrueOrFalse(t) => {
            push_lit(&mut out, "{\"type\":\"TrueOrFalse\",\"correct_answer\":");
            if t.correct_answer {
                push_lit(&mut out, "true");
            } else {
                push_lit(&mut out, "false");
            }
            push_lit(&mut out, "}");
            proof {
                assert(out@ =~= ser_question(q@));
            }
        },
    }
    chars_to_string(&out)
}


// ---------------------------------------------------------------------------
// Executable parser. Functions take the input as characters and a cursor,
// and mirror the suffix-style specification parsers.
// ---------------------------------------------------------------------------
fn is_digit_char(c: char) -> (r: bool)
    ensures
        r == spec_is_digit(c),
{
    '0' <= c && c <= '9'
}

fn parse_lit_at(v: &Vec<char>, i: usize, lit: &Vec<char>) -> (r: Option<usize>)
    requires
        i <= v.len(),
    ensures
        r matches Some(j) ==> i <= j <= v.len() && parse_lit(v@.skip(i as int), lit@) == Some(
            v@.skip(j as int),
        ),
        r is None ==> parse_lit(v@.skip(i as int), lit@) is None,
{
    let l = lit.len();
    if v.len() - i < l {
        return None;
    }
    let mut k: usize = 0;
    while k < l
        invariant
            k <= l,
            l == lit.len(),
            i + l <= v.len(),
            forall|t: int| 0 <= t < k ==> v@[i + t] == lit@[t],
        decreases l - k,
    {
        if v[i + k] != lit[k] {
            proof {
                let s = v@.skip(i as int);
                assert(s[k as int] == v@[i + k]);
                if lit@.len() <= s.len() && s.subrange(0, lit@.len() as int) == lit@ {
                    assert(s.subrange(0, lit@.len() as int)[k as int] == s[k as int]);
                    assert(false);
                }
            }
            return None;
        }
        k = k + 1;
    }
    proof {
        let s = v@.skip(i as int);
        assert(s.subrange(0, l as int) =~= lit@);
        assert(s.skip(l as int) =~= v@.skip(i as int + l as int));
    }
    Some(i + l)
}

/// Greedy digits onto `acc` never shrink the accumulator.
proof fn lemma_parse_nat_acc_ge(s: Seq<char>, acc: int)
    requires
        acc >= 0,
    ensures
        parse_nat_acc(s, acc).0 >= acc,
    decreases s.len(),
{
    if s.len() > 0 && spec_is_digit(s[0]) {
        assert(acc * 10 + digit_val(s[0]) >= acc) by (nonlinear_arith)
            requires
                acc >= 0,
                digit_val(s[0]) >= 0,
        ;
        lemma_parse_nat_acc_ge(s.drop_first(), acc * 10 + digit_val(s[0]));
    }
}

fn parse_i32_at(v: &Vec<char>, i: usize) -> (r: Option<(i32, usize)>)
    requires
        i <= v.len(),
    ensures
        r matches Some(p) ==> i <= p.1 <= v.len() && (parse_i32(v@.skip(i as int)) matches Some(q)
            && q.0 == p.0 as int && q.1 == v@.skip(p.1 as int)),
        r is None ==> parse_i32(v@.skip(i as int)) is None,
{
    let neg = i < v.len() && v[i] == '-';
    let start: usize = if neg {
        i + 1
    } else {
        i
    };
    if start >= v.len() || !is_digit_char(v[start]) {
        proof {
            if neg {
                assert(v@.skip(i as int).drop_first() =~= v@.skip(start as int));
            }
        }
        return None;
    }
    let limit: u64 = if neg {
        2147483648u64
    } else {
        2147483647u64
    };
    let ghost t = v@.skip(start as int);
    let mut j: usize = start;
    let mut acc: u64 = 0;
    while j < v.len() && is_digit_char(v[j])
        invariant
            i <= start <= j <= v.len(),
            neg ==> i < v.len() && v@[i as int] == '-' && start == i + 1,
            !neg ==> start == i,
            acc <= limit,
            limit == (if neg { 2147483648u64 } else { 2147483647u64 }),
            t == v@.skip(start as int),
            t.len() > 0 && spec_is_digit(t[0]),
            parse_nat_acc(t, 0) == parse_nat_acc(v@.skip(j as int), acc as int),
        decreases v.len() - j,
    {
        let c = v[j];
        let d: u64 = (c as u8 - 48u8) as u64;
        proof {
            assert(('0' as int) == 48);
            assert(('9' as int) == 57);
            assert(c as u8 == c as int);
            assert(d as int == digit_val(c));
            assert(v@.skip(j as int)[0] == c);
            assert(v@.skip(j as int).drop_first() =~= v@.skip(j as int + 1));
        }
        acc = acc * 10 + d;
        j = j + 1;
        if acc > limit {
            proof {
                lemma_parse_nat_acc_ge(v@.skip(j as int), acc as int);
                assert(parse_nat_acc(t, 0).0 >= acc);
                assert(t[0] == v@[start as int]);
                if neg {
                    assert(v@.skip(i as int)[0] == '-');
                    assert(v@.skip(i as int).drop_first() =~= t);
                }
            }
            return None;
        }
    }
    proof {
        let rest = v@.skip(j as int);
        assert(rest.len() == 0 || !spec_is_digit(rest[0]));
        lemma_parse_nat_acc_stop(rest, acc as int);
        assert(parse_nat_acc(t, 0) == (acc as int, rest));
        if neg {
            assert(v@.skip(i as int)[0] == '-');
            assert(v@.skip(i as int).drop_first() =~= t);
        }
    }
    if neg {
        let value: i32 = (-(acc as i64)) as i32;
        Some((value, j))
    } else {
        let value: i32 = acc as i32;
        Some((value, j))
    }
}

fn parse_string_body_at(v: &Vec<char>, i: usize) -> (r: Option<(Vec<char>, usize)>)
    requires
        i <= v.len(),
    ensures
        r matches Some(p) ==> i <= p.1 <= v.len() && (parse_string_body(v@.skip(i as int))
            matches Some(q) && q.0 == p.0@ && q.1 == v@.skip(p.1 as int)),
        r is None ==> parse_string_body(v@.skip(i as int)) is None,
{
    let mut out: Vec<char> = Vec::new();
    let mut j: usize = i;
    loop
        invariant
            i <= j <= v.len(),
            parse_string_body(v@.skip(i as int)) == (match parse_string_body(v@.skip(j as int)) {
                Some((t, rest)) => Some((out@ + t, rest)),
                None => None,
            }),
        decreases v.len() - j,
    {
        if j >= v.len() {
            return None;
        }
        let c = v[j];
        proof {
            assert(v@.skip(j as int)[0] == c);
        }
        if c == '"' {
            proof {
                assert(v@.skip(j as int).drop_first() =~= v@.skip(j as int + 1));
                assert(out@ + Seq::<char>::empty() =~= out@);
            }
            return Some((out, j + 1));
        }
        if c == '\\' {
            if j + 1 < v.len() && (v[j + 1] == '"' || v[j + 1] == '\\') {
                let e = v[j + 1];
                proof {
                    assert(v@.skip(j as int)[1] == e);
                    assert(v@.skip(j as int).skip(2) =~= v@.skip(j as int + 2));
                }
                let ghost prevout = out@;
                out.push(e);
                j = j + 2;
                proof {
                    assert forall|t: Seq<char>| prevout + (seq![e] + t) =~= out@ + t by {}
                    assert(parse_string_body(v@.skip(i as int)) == (
                    match parse_string_body(v@.skip(j as int)) {
                        Some((t, rest)) => Some((out@ + t, rest)),
                        None => None,
                    }));
                }
            } else {
                proof {
                    if v@.skip(j as int).len() >= 2 {
                        assert(v@.skip(j as int)[1] == v@[j + 1]);
                    }
                }
                return None;
            }
        } else {
            let ghost prevout = out@;
            out.push(c);
            j = j + 1;
            proof {
                assert(v@.skip(j as int - 1).drop_first() =~= v@.skip(j as int));
                assert forall|t: Seq<char>| prevout + (seq![c] + t) =~= out@ + t by {}
                assert(parse_string_body(v@.skip(i as int)) == (
                match parse_string_body(v@.skip(j as int)) {
                    Some((t, rest)) => Some((out@ + t, rest)),
                    None => None,
                }));
            }
        }
    }
}

fn parse_answers_more_at(v: &Vec<char>, i: usize) -> (r: Option<(Vec<String>, usize)>)
    requires
        i <= v.len(),
    ensures
        r matches Some(p) ==> i <= p.1 <= v.len() && (parse_answers_more(v@.skip(i as int))
            matches Some(q) && q.0 == p.0.deep_view() && q.1 == v@.skip(p.1 as int)),
        r is None ==> parse_answers_more(v@.skip(i as int)) is None,
    decreases v.len() - i,
{
    if i >= v.len() || v[i] != '"' {
        proof {
            if v@.skip(i as int).len() > 0 {
                assert(v@.skip(i as int)[0] == v@[i as int]);
            }
        }
        return None;
    }
    proof {
        assert(v@.skip(i as int)[0] == '"');
        assert(v@.skip(i as int).drop_first() =~= v@.skip(i as int + 1));
    }
    let (t, j) = match parse_string_body_at(v, i + 1) {
        Some(p) => p,
        None => {
            return None;
        },
    };
    if j < v.len() && v[j] == ',' {
        proof {
            assert(v@.skip(j as int)[0] == ',');
            assert(v@.skip(j as int).drop_first() =~= v@.skip(j as int + 1));
        }
        match parse_answers_more_at(v, j + 1) {
            Some((ts, j2)) => {
                let mut ts2 = ts;
                let ghost prevdeep = ts2.deep_view();
                let head = chars_to_string(&t);
                ts2.insert(0, head);
                proof {
                    assert forall|k: int| 0 <= k < ts2@.len() implies ts2.deep_view()[k] == (seq![
                        t@,
                    ] + prevdeep)[k] by {
                        if k == 0 {
                            assert(ts2@[0] == head);
                        } else {
                            assert(ts2@[k] == ts2@.subrange(1, ts2@.len() as int)[k - 1]);
                        }
                    }
                    assert(ts2.deep_view() =~= seq![t@] + prevdeep);
                }
                Some((ts2, j2))
            },
            None => None,
        }
    } else if j < v.len() && v[j] == ']' {
        proof {
            assert(v@.skip(j as int)[0] == ']');
            assert(v@.skip(j as int).drop_first() =~= v@.skip(j as int + 1));
        }
        let mut ts: Vec<String> = Vec::new();
        ts.push(chars_to_string(&t));
        proof {
            assert(ts.deep_view() =~= seq![t@]);
        }
        Some((ts, j + 1))
    } else {
        proof {
            if v@.skip(j as int).len() > 0 {
                assert(v@.skip(j as int)[0] == v@[j as int]);
            }
        }
        None
    }
}

fn parse_answers_at(v: &Vec<char>, i: usize) -> (r: Option<(Vec<String>, usize)>)
    requires
        i <= v.len(),
    ensures
        r matches Some(p) ==> i <= p.1 <= v.len() && (parse_answers(v@.skip(i as int))
            matches Some(q) && q.0 == p.0.deep_view() && q.1 == v@.skip(p.1 as int)),
        r is None ==> parse_answers(v@.skip(i as int)) is None,
{
    if i < v.len() && v[i] == ']' {
        proof {
            assert(v@.skip(i as int)[0] == ']');
            assert(v@.skip(i as int).drop_first() =~= v@.skip(i as int + 1));
        }
        let empty: Vec<String> = Vec::new();
        proof {
            assert(empty.deep_view() =~= Seq::<Seq<char>>::empty());
        }
        return Some((empty, i + 1));
    }
    proof {
        if v@.skip(i as int).len() > 0 {
            assert(v@.skip(i as int)[0] == v@[i as int]);
        }
    }
    parse_answers_more_at(v, i)
}

/// Parses a stored payload back into its tagged variant; a payload outside
/// the format is a fatal integrity fault for the read.
#[verifier::rlimit(60)]
pub fn decode_question(s: &str) -> (r: Result<QuestionType, Fault>)
    ensures
        r matches Ok(q) ==> parse_question(s@) == Some(q@),
        r matches Err(f) ==> f == Fault::Integrity && parse_question(s@) is None,
{
    let v = str_to_chars(s);
    proof {
        assert(v@.skip(0) =~= s@);
        reveal_strlit("}");
    }
    let lit_mc = str_to_chars("{\"type\":\"MultipleChoice\",\"answers\":[");
    match parse_lit_at(&v, 0, &lit_mc) {
        Some(r1) => {
            let (answers, r2) = match parse_answers_at(&v, r1) {
                Some(p) => p,
                None => {
                    return Err(Fault::Integrity);
                },
            };
            let lit_ca = str_to_chars(",\"correct_answer\":");
            let r3 = match parse_lit_at(&v, r2, &lit_ca) {
                Some(j) => j,
                None => {
                    return Err(Fault::Integrity);
                },
            };
            let (n, r4) = match parse_i32_at(&v, r3) {
                Some(p) => p,
                None => {
                    return Err(Fault::Integrity);
                },
            };
            if v.len() - r4 == 1 && v[r4] == '}' {
                proof {
                    assert(v@.skip(r4 as int) =~= "}"@);
                }
                Ok(
                    QuestionType::MultipleChoice(
                        MultipleChoiceQuestion { answers, correct_answer: n },
                    ),
                )
            } else {
                proof {
                    if v@.skip(r4 as int) =~= "}"@ {
                        assert(v@.skip(r4 as int).len() == 1);
                        assert(v@.skip(r4 as int)[0] == '}');
                        assert(v@[r4 as int] == '}');
                        assert(false);
                    }
                }
                Err(Fault::Integrity)
            }
        },
        None => {
            let lit_num = str_to_chars("{\"type\":\"Numeric\",\"range_start\":");
            match parse_lit_at(&v, 0, &lit_num) {
                Some(r1) => {
                    let (a, r2) = match parse_i32_at(&v, r1) {
                        Some(p) => p,
                        None => {
                            return Err(Fault::Integrity);
                        },
                    };
                    let lit_re = str_to_chars(",\"range_end\":");
                    let r3 = match parse_lit_at(&v, r2, &lit_re) {
                        Some(j) => j,
                        None => {
                            return Err(Fault::Integrity);
                        },
                    };
                    let (b, r4) = match parse_i32_at(&v, r3) {
                        Some(p) => p,
                        None => {
                            return Err(Fault::Integrity);
                        },
                    };
                    if v.len() - r4 == 1 && v[r4] == '}' {
                        proof {
                            assert(v@.skip(r4 as int) =~= "}"@);
                        }
                        Ok(
                            QuestionType::Numeric(
                                NumericQuestion { range_start: a, range_end: b },
                            ),
                        )
                    } else {
                        proof {
                            if v@.skip(r4 as int) =~= "}"@ {
                                assert(v@.skip(r4 as int).len() == 1);
                                assert(v@.skip(r4 as int)[0] == '}');
                                assert(false);
                            }
                        }
                        Err(Fault::Integrity)
                    }
                },
                None => {
                    let lit_tf = str_to_chars("{\"type\":\"TrueOrFalse\",\"correct_answer\":");
                    let r1 = match parse_lit_at(&v, 0, &lit_tf) {
                        Some(j) => j,
                        None => {
                            return Err(Fault::Integrity);
                        },
                    };
                    let lit_true = str_to_chars("true");
                    let lit_false = str_to_chars("false");
                    let (b, r2) = match parse_lit_at(&v, r1, &lit_true) {
                        Some(j) => (true, j),
                        None => match parse_lit_at(&v, r1, &lit_false) {
                            Some(j) => (false, j),
                            None => {
                                return Err(Fault::Integrity);
                            },
                        },
                    };
                    if v.len() - r2 == 1 && v[r2] == '}' {
                        proof {
                            assert(v@.skip(r2 as int) =~= "}"@);
                        }
                        Ok(QuestionType::TrueOrFalse(TrueOrFalseQuestion { correct_answer: b }))
                    } else {
                        proof {
                            if v@.skip(r2 as int) =~= "}"@ {
                                assert(v@.skip(r2 as int).len() == 1);
                                assert(v@.skip(r2 as int)[0] == '}');
                                assert(false);
                            }
                        }
                        Err(Fault::Integrity)
                    }
                },
            }
        },
    }
}

} // verus!
