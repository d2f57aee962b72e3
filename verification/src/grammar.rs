//! The grammar of the language, as a parsing function on bytes.
//!
//! Each rule is a function from the input and a start position to a result:
//! `Done(end, value)`, or one of three failures. `Error` means the input does
//! not match; `Incomplete` means the input ended before the rule could decide;
//! `Abort` means the rule matched a shape that the front end refuses outright
//! (an integer literal beyond `i64`, or `Array.create` with other than two
//! arguments). An ordered choice moves on to its next alternative after
//! `Error` or `Incomplete`, except in its last alternative, whose result it
//! returns as it is; `Abort` ends the whole parse. Blanks (space, tab, carriage
//! return and line feed) are skipped before and after every token.

use vstd::prelude::*;
use crate::syntax::{BinderV, CompBin, FloatBin, FundefV, IntBin, SyntaxV, TypeV};

verus! {

/// The outcome of a rule started at some position.
pub enum PRes<T> {
    Done(nat, T),
    Error,
    Incomplete,
    Abort,
}

impl<T> PRes<T> {
    /// The same failure, for a result of another type.
    pub open spec fn fail<U>(self) -> PRes<U> {
        match self {
            PRes::Incomplete => PRes::Incomplete,
            PRes::Abort => PRes::Abort,
            _ => PRes::Error,
        }
    }
}

/// Ordered choice between two alternatives.
pub open spec fn or_else<T>(first: PRes<T>, second: PRes<T>) -> PRes<T> {
    match first {
        PRes::Done(_, _) => first,
        PRes::Abort => first,
        _ => second,
    }
}

/// The number of bytes left after position `p`.
pub open spec fn rem(s: Seq<u8>, p: nat) -> nat {
    if p <= s.len() { (s.len() - p) as nat } else { 0 }
}

pub open spec fn is_blank(b: u8) -> bool {
    b == 32 || b == 9 || b == 13 || b == 10
}

/// The position after the blanks that start at `p`.
pub open spec fn ws(s: Seq<u8>, p: nat) -> nat
    decreases rem(s, p),
{
    if p < s.len() && is_blank(s[p as int]) { ws(s, p + 1) } else { p }
}

/// The bytes `t` at position `p`, with no blanks skipped. Input that ends in
/// the middle of `t`, after a prefix of it, is `Incomplete`.
pub open spec fn tag_at(s: Seq<u8>, p: nat, t: Seq<u8>) -> PRes<()> {
    if p > s.len() {
        PRes::Incomplete
    } else if p + t.len() <= s.len() {
        if s.subrange(p as int, (p + t.len()) as int) == t { PRes::Done(p + t.len(), ()) } else { PRes::Error }
    } else if s.subrange(p as int, s.len() as int) == t.subrange(0, (s.len() - p) as int) {
        PRes::Incomplete
    } else {
        PRes::Error
    }
}

/// The token `t`, with blanks skipped before and after it.
pub open spec fn wtag(s: Seq<u8>, p: nat, t: Seq<u8>) -> PRes<()> {
    match tag_at(s, ws(s, p), t) {
        PRes::Done(q, _) => PRes::Done(ws(s, q), ()),
        r => r,
    }
}

pub open spec fn is_digit(b: u8) -> bool {
    48 <= b <= 57
}

pub open spec fn is_ident_byte(b: u8) -> bool {
    is_digit(b) || (65 <= b <= 90) || (97 <= b <= 122) || b == 95
}

/// The end of the run of bytes that satisfy `is_digit` starting at `p`.
pub open spec fn digits_end(s: Seq<u8>, p: nat) -> nat
    decreases rem(s, p),
{
    if p < s.len() && is_digit(s[p as int]) { digits_end(s, p + 1) } else { p }
}

/// The end of the run of identifier bytes starting at `p`.
pub open spec fn ident_end(s: Seq<u8>, p: nat) -> nat
    decreases rem(s, p),
{
    if p < s.len() && is_ident_byte(s[p as int]) { ident_end(s, p + 1) } else { p }
}

/// One or more decimal digits, with no blanks skipped.
pub open spec fn digit(s: Seq<u8>, p: nat) -> PRes<()> {
    if p >= s.len() {
        PRes::Incomplete
    } else if digits_end(s, p) == p {
        PRes::Error
    } else {
        PRes::Done(digits_end(s, p), ())
    }
}

/// The value of a string of decimal digits.
pub open spec fn decimal_value(w: Seq<u8>) -> nat
    decreases w.len(),
{
    if w.len() == 0 { 0 } else { decimal_value(w.drop_last()) * 10 + (w.last() - 48) as nat }
}

/// The characters of a string of ASCII bytes.
pub open spec fn chars_of(w: Seq<u8>) -> Seq<char> {
    Seq::new(w.len(), |i: int| w[i] as char)
}

// The tokens of the language, as bytes.
pub open spec fn tok_lparen() -> Seq<u8> { seq![40u8] }
pub open spec fn tok_rparen() -> Seq<u8> { seq![41u8] }
pub open spec fn tok_dot() -> Seq<u8> { seq![46u8] }
pub open spec fn tok_comma() -> Seq<u8> { seq![44u8] }
pub open spec fn tok_semicolon() -> Seq<u8> { seq![59u8] }
pub open spec fn tok_equal() -> Seq<u8> { seq![61u8] }
pub open spec fn tok_bang() -> Seq<u8> { seq![33u8] }
pub open spec fn tok_assign() -> Seq<u8> { seq![60u8, 45] }
pub open spec fn tok_le() -> Seq<u8> { seq![60u8, 61] }
pub open spec fn tok_ge() -> Seq<u8> { seq![62u8, 61] }
pub open spec fn tok_ne() -> Seq<u8> { seq![60u8, 62] }
pub open spec fn tok_lt() -> Seq<u8> { seq![60u8] }
pub open spec fn tok_gt() -> Seq<u8> { seq![62u8] }
pub open spec fn tok_plus_dot() -> Seq<u8> { seq![43u8, 46] }
pub open spec fn tok_minus_dot() -> Seq<u8> { seq![45u8, 46] }
pub open spec fn tok_plus() -> Seq<u8> { seq![43u8] }
pub open spec fn tok_minus() -> Seq<u8> { seq![45u8] }
pub open spec fn tok_star_dot() -> Seq<u8> { seq![42u8, 46] }
pub open spec fn tok_slash_dot() -> Seq<u8> { seq![47u8, 46] }
pub open spec fn kw_let() -> Seq<u8> { seq![108u8, 101, 116] }
pub open spec fn kw_rec() -> Seq<u8> { seq![114u8, 101, 99] }
pub open spec fn kw_in() -> Seq<u8> { seq![105u8, 110] }
pub open spec fn kw_true() -> Seq<u8> { seq![116u8, 114, 117, 101] }
pub open spec fn kw_false() -> Seq<u8> { seq![102u8, 97, 108, 115, 101] }
pub open spec fn kw_if() -> Seq<u8> { seq![105u8, 102] }
pub open spec fn kw_then() -> Seq<u8> { seq![116u8, 104, 101, 110] }
pub open spec fn kw_else() -> Seq<u8> { seq![101u8, 108, 115, 101] }
pub open spec fn kw_array_create() -> Seq<u8> { seq![65u8, 114, 114, 97, 121, 46, 99, 114, 101, 97, 116, 101] }
pub open spec fn kw_array_make() -> Seq<u8> { seq![65u8, 114, 114, 97, 121, 46, 109, 97, 107, 101] }

/// Words that cannot name a variable.
pub open spec fn is_keyword(w: Seq<u8>) -> bool {
    w == kw_let() || w == kw_rec() || w == kw_in() || w == kw_true() || w == kw_false()
        || w == kw_if() || w == kw_then() || w == kw_else() || w == kw_array_create()
        || w == kw_array_make()
}

/// A word that names a variable: not empty, not a keyword, and not starting
/// with a digit.
pub open spec fn is_ident(w: Seq<u8>) -> bool {
    w.len() > 0 && !is_keyword(w) && !is_digit(w[0])
}

/// An identifier: the longest run of identifier bytes, if it names a variable.
pub open spec fn ident(s: Seq<u8>, p: nat) -> PRes<Seq<char>> {
    let q = ws(s, p);
    let e = ident_end(s, q);
    if q <= s.len() && is_ident(s.subrange(q as int, e as int)) {
        PRes::Done(ws(s, e), chars_of(s.subrange(q as int, e as int)))
    } else {
        PRes::Error
    }
}

/// `true` or `false`.
pub open spec fn bool_lit(s: Seq<u8>, p: nat) -> PRes<bool> {
    match wtag(s, p, kw_true()) {
        PRes::Done(q, _) => PRes::Done(q, true),
        _ => match wtag(s, p, kw_false()) {
            PRes::Done(q, _) => PRes::Done(q, false),
            r => r.fail(),
        },
    }
}

/// A decimal integer literal; one beyond `i64` aborts.
pub open spec fn int_lit(s: Seq<u8>, p: nat) -> PRes<i64> {
    let q = ws(s, p);
    match digit(s, q) {
        PRes::Done(e, _) => {
            let v = decimal_value(s.subrange(q as int, e as int));
            if v > i64::MAX { PRes::Abort } else { PRes::Done(ws(s, e), v as i64) }
        },
        r => r.fail(),
    }
}

/// A float literal, digits and a dot and digits, or digits and a dot, with no
/// blanks inside; its value is its text.
pub open spec fn float_raw(s: Seq<u8>, p: nat) -> PRes<Seq<u8>> {
    let with_fraction = match digit(s, p) {
        PRes::Done(e1, _) => match tag_at(s, e1, tok_dot()) {
            PRes::Done(e2, _) => match digit(s, e2) {
                PRes::Done(e3, _) => PRes::Done(e3, s.subrange(p as int, e3 as int)),
                r => r.fail(),
            },
            r => r.fail(),
        },
        r => r.fail(),
    };
    let bare = match digit(s, p) {
        PRes::Done(e1, _) => match tag_at(s, e1, tok_dot()) {
            PRes::Done(e2, _) => PRes::Done(e2, s.subrange(p as int, e2 as int)),
            r => r.fail(),
        },
        r => r.fail(),
    };
    or_else(with_fraction, bare)
}

/// A float literal with blanks skipped around it.
pub open spec fn float_lit(s: Seq<u8>, p: nat) -> PRes<Seq<u8>> {
    match float_raw(s, ws(s, p)) {
        PRes::Done(e, v) => PRes::Done(ws(s, e), v),
        r => r,
    }
}

/// `Array.create` or `Array.make`.
pub open spec fn array_kw(s: Seq<u8>, p: nat) -> PRes<()> {
    let q = ws(s, p);
    match or_else(tag_at(s, q, kw_array_create()), tag_at(s, q, kw_array_make())) {
        PRes::Done(e, _) => PRes::Done(ws(s, e), ()),
        r => r,
    }
}

/// A comparison operator: the operator, whether the comparison is negated,
/// and whether its operands are swapped.
pub open spec fn comp_op(s: Seq<u8>, p: nat) -> PRes<(CompBin, bool, bool)> {
    let q = ws(s, p);
    let r = match tag_at(s, q, tok_le()) {
        PRes::Done(e, _) => PRes::Done(e, (CompBin::LE, false, false)),
        _ => match tag_at(s, q, tok_ge()) {
            PRes::Done(e, _) => PRes::Done(e, (CompBin::LE, false, true)),
            _ => match tag_at(s, q, tok_ne()) {
                PRes::Done(e, _) => PRes::Done(e, (CompBin::Eq, true, false)),
                _ => match tag_at(s, q, tok_equal()) {
                    PRes::Done(e, _) => PRes::Done(e, (CompBin::Eq, false, false)),
                    _ => match tag_at(s, q, tok_lt()) {
                        PRes::Done(e, _) => PRes::Done(e, (CompBin::LE, true, true)),
                        _ => match tag_at(s, q, tok_gt()) {
                            PRes::Done(e, _) => PRes::Done(e, (CompBin::LE, true, false)),
                            r => r.fail(),
                        },
                    },
                },
            },
        },
    };
    match r {
        PRes::Done(e, v) => PRes::Done(ws(s, e), v),
        r => r,
    }
}

/// An additive operator: `Ok` for integers, `Err` for floats.
pub open spec fn add_op(s: Seq<u8>, p: nat) -> PRes<Result<IntBin, FloatBin>> {
    let q = ws(s, p);
    let r = match tag_at(s, q, tok_plus_dot()) {
        PRes::Done(e, _) => PRes::Done(e, Err(FloatBin::FAdd)),
        _ => match tag_at(s, q, tok_minus_dot()) {
            PRes::Done(e, _) => PRes::Done(e, Err(FloatBin::FSub)),
            _ => match tag_at(s, q, tok_plus()) {
                PRes::Done(e, _) => PRes::Done(e, Ok(IntBin::Add)),
                _ => match tag_at(s, q, tok_minus()) {
                    PRes::Done(e, _) => PRes::Done(e, Ok(IntBin::Sub)),
                    r => r.fail(),
                },
            },
        },
    };
    match r {
        PRes::Done(e, v) => PRes::Done(ws(s, e), v),
        r => r,
    }
}

/// A multiplicative operator (on floats only).
pub open spec fn mult_op(s: Seq<u8>, p: nat) -> PRes<FloatBin> {
    let q = ws(s, p);
    let r = match tag_at(s, q, tok_star_dot()) {
        PRes::Done(e, _) => PRes::Done(e, FloatBin::FMul),
        _ => match tag_at(s, q, tok_slash_dot()) {
            PRes::Done(e, _) => PRes::Done(e, FloatBin::FDiv),
            r => r.fail(),
        },
    };
    match r {
        PRes::Done(e, v) => PRes::Done(ws(s, e), v),
        r => r,
    }
}

// Facts about the rules above that do not call the expression rules: each
// one that succeeds ends after its start and no later than the input's end.

pub proof fn lemma_ws(s: Seq<u8>, p: nat)
    ensures
        p <= ws(s, p),
        p <= s.len() ==> ws(s, p) <= s.len(),
        ws(s, p) < s.len() ==> !is_blank(s[ws(s, p) as int]),
        ws(s, ws(s, p)) == ws(s, p),
    decreases rem(s, p),
{
    if p < s.len() && is_blank(s[p as int]) {
        lemma_ws(s, p + 1);
    }
}

pub proof fn lemma_tag_at(s: Seq<u8>, p: nat, t: Seq<u8>)
    ensures
        tag_at(s, p, t) matches PRes::Done(e, _) ==> e == p + t.len() && e <= s.len(),
        !(tag_at(s, p, t) is Abort),
{
}

pub proof fn lemma_wtag(s: Seq<u8>, p: nat, t: Seq<u8>)
    ensures
        wtag(s, p, t) matches PRes::Done(e, _) ==> p + t.len() <= e <= s.len(),
        !(wtag(s, p, t) is Abort),
{
    lemma_ws(s, p);
    lemma_tag_at(s, ws(s, p), t);
    if let PRes::Done(q, _) = tag_at(s, ws(s, p), t) {
        lemma_ws(s, q);
    }
}

pub proof fn lemma_digits_end(s: Seq<u8>, p: nat)
    ensures
        p <= digits_end(s, p),
        p <= s.len() ==> digits_end(s, p) <= s.len(),
        forall|i: int| p <= i < digits_end(s, p) ==> is_digit(#[trigger] s[i]),
        digits_end(s, p) < s.len() ==> !is_digit(s[digits_end(s, p) as int]),
    decreases rem(s, p),
{
    if p < s.len() && is_digit(s[p as int]) {
        lemma_digits_end(s, p + 1);
    }
}

pub proof fn lemma_ident_end(s: Seq<u8>, p: nat)
    ensures
        p <= ident_end(s, p),
        p <= s.len() ==> ident_end(s, p) <= s.len(),
        forall|i: int| p <= i < ident_end(s, p) ==> is_ident_byte(#[trigger] s[i]),
        ident_end(s, p) < s.len() ==> !is_ident_byte(s[ident_end(s, p) as int]),
    decreases rem(s, p),
{
    if p < s.len() && is_ident_byte(s[p as int]) {
        lemma_ident_end(s, p + 1);
    }
}

pub proof fn lemma_digit(s: Seq<u8>, p: nat)
    ensures
        digit(s, p) matches PRes::Done(e, _) ==> p < e <= s.len() && e == digits_end(s, p),
        !(digit(s, p) is Abort),
{
    lemma_digits_end(s, p);
}

pub proof fn lemma_ident(s: Seq<u8>, p: nat)
    ensures
        ident(s, p) matches PRes::Done(e, _) ==> p < e <= s.len(),
        !(ident(s, p) is Abort),
        !(ident(s, p) is Incomplete),
{
    let q = ws(s, p);
    lemma_ws(s, p);
    lemma_ident_end(s, q);
    lemma_ws(s, ident_end(s, q));
}

pub proof fn lemma_bool_lit(s: Seq<u8>, p: nat)
    ensures
        bool_lit(s, p) matches PRes::Done(e, _) ==> p < e <= s.len(),
        !(bool_lit(s, p) is Abort),
{
    lemma_wtag(s, p, kw_true());
    lemma_wtag(s, p, kw_false());
}

pub proof fn lemma_int_lit(s: Seq<u8>, p: nat)
    ensures
        int_lit(s, p) matches PRes::Done(e, _) ==> p < e <= s.len(),
{
    let q = ws(s, p);
    lemma_ws(s, p);
    lemma_digit(s, q);
    if let PRes::Done(e, _) = digit(s, q) {
        lemma_ws(s, e);
    }
}

pub proof fn lemma_float_lit(s: Seq<u8>, p: nat)
    ensures
        float_lit(s, p) matches PRes::Done(e, _) ==> p < e <= s.len(),
        !(float_lit(s, p) is Abort),
{
    let q = ws(s, p);
    lemma_ws(s, p);
    lemma_digit(s, q);
    if let PRes::Done(e, _) = digit(s, q) {
        lemma_tag_at(s, e, tok_dot());
        lemma_digit(s, e + 1);
        if let PRes::Done(e3, _) = digit(s, e + 1) {
            lemma_ws(s, e3);
        }
        lemma_ws(s, e + 1);
    }
}

pub proof fn lemma_array_kw(s: Seq<u8>, p: nat)
    ensures
        array_kw(s, p) matches PRes::Done(e, _) ==> p < e <= s.len(),
        !(array_kw(s, p) is Abort),
{
    let q = ws(s, p);
    lemma_ws(s, p);
    lemma_tag_at(s, q, kw_array_create());
    lemma_tag_at(s, q, kw_array_make());
    lemma_ws(s, q + 12);
    lemma_ws(s, q + 10);
}

pub proof fn lemma_ops(s: Seq<u8>, p: nat)
    ensures
        comp_op(s, p) matches PRes::Done(e, _) ==> p < e <= s.len(),
        add_op(s, p) matches PRes::Done(e, _) ==> p < e <= s.len(),
        mult_op(s, p) matches PRes::Done(e, _) ==> p < e <= s.len(),
        !(comp_op(s, p) is Abort),
        !(add_op(s, p) is Abort),
        !(mult_op(s, p) is Abort),
{
    let q = ws(s, p);
    lemma_ws(s, p);
    lemma_ws(s, q + 2);
    lemma_ws(s, q + 1);
    lemma_tag_at(s, q, tok_le());
    lemma_tag_at(s, q, tok_ge());
    lemma_tag_at(s, q, tok_ne());
    lemma_tag_at(s, q, tok_equal());
    lemma_tag_at(s, q, tok_lt());
    lemma_tag_at(s, q, tok_gt());
    lemma_tag_at(s, q, tok_plus_dot());
    lemma_tag_at(s, q, tok_minus_dot());
    lemma_tag_at(s, q, tok_plus());
    lemma_tag_at(s, q, tok_minus());
    lemma_tag_at(s, q, tok_star_dot());
    lemma_tag_at(s, q, tok_slash_dot());
}

/// An index suffix `.( exp )`.
pub open spec fn index_suffix(s: Seq<u8>, p: nat) -> PRes<SyntaxV>
    decreases rem(s, p), 1nat,
{
    match wtag(s, p, tok_dot()) {
        PRes::Done(p1, _) => match wtag(s, p1, tok_lparen()) {
            PRes::Done(p2, _) => {
                proof {
                    lemma_wtag(s, p, tok_dot());
                    lemma_wtag(s, p1, tok_lparen());
                }
                match exp(s, p2) {
                    PRes::Done(p3, e) => match wtag(s, p3, tok_rparen()) {
                        PRes::Done(p4, _) => PRes::Done(p4, e),
                        r => r.fail(),
                    },
                    r => r,
                }
            },
            r => r.fail(),
        },
        r => r.fail(),
    }
}

/// A simple expression without index suffixes: a parenthesized expression,
/// `()`, a boolean, a float, an integer, or a variable, tried in this order.
pub open spec fn simple_exp_no_index(s: Seq<u8>, p: nat) -> PRes<SyntaxV>
    decreases rem(s, p), 1nat,
{
    let paren = match wtag(s, p, tok_lparen()) {
        PRes::Done(p1, _) => {
            proof { lemma_wtag(s, p, tok_lparen()); }
            match exp(s, p1) {
                PRes::Done(p2, e) => match wtag(s, p2, tok_rparen()) {
                    PRes::Done(p3, _) => PRes::Done(p3, e),
                    r => r.fail(),
                },
                r => r,
            }
        },
        r => r.fail(),
    };
    let unit = match wtag(s, p, tok_lparen()) {
        PRes::Done(p1, _) => match wtag(s, p1, tok_rparen()) {
            PRes::Done(p2, _) => PRes::Done(p2, SyntaxV::Unit),
            r => r.fail(),
        },
        r => r.fail(),
    };
    let boolean = match bool_lit(s, p) {
        PRes::Done(p1, b) => PRes::Done(p1, SyntaxV::Bool(b)),
        r => r.fail(),
    };
    let float = match float_lit(s, p) {
        PRes::Done(p1, f) => PRes::Done(p1, SyntaxV::Float(f)),
        r => r.fail(),
    };
    let integer = match int_lit(s, p) {
        PRes::Done(p1, i) => PRes::Done(p1, SyntaxV::Int(i)),
        r => r.fail(),
    };
    let var = match ident(s, p) {
        PRes::Done(p1, x) => PRes::Done(p1, SyntaxV::Var(x)),
        r => r.fail(),
    };
    or_else(paren, or_else(unit, or_else(boolean, or_else(float, or_else(integer, var)))))
}

/// Zero or more index suffixes applied to `acc`, from position `p`. The loop
/// ends at the end of the input or when no suffix follows.
pub open spec fn index_fold(s: Seq<u8>, p: nat, acc: SyntaxV) -> PRes<SyntaxV>
    decreases rem(s, p), 2nat,
{
    if p >= s.len() {
        PRes::Done(p, acc)
    } else {
        match index_suffix(s, p) {
            PRes::Done(p1, i) => if p1 <= p || p1 > s.len() {
                PRes::Error
            } else {
                index_fold(s, p1, SyntaxV::Get(Box::new(acc), Box::new(i)))
            },
            PRes::Error => PRes::Done(p, acc),
            r => r,
        }
    }
}

/// A simple expression followed by any number of index suffixes.
pub open spec fn simple_exp(s: Seq<u8>, p: nat) -> PRes<SyntaxV>
    decreases rem(s, p), 3nat,
{
    match simple_exp_no_index(s, p) {
        PRes::Done(p1, e) => if p1 < p || p1 > s.len() { PRes::Error } else { index_fold(s, p1, e) },
        r => r,
    }
}

/// Further index suffixes after the first, collected in `acc`.
pub open spec fn index_list_loop(s: Seq<u8>, p: nat, acc: Seq<SyntaxV>) -> PRes<Seq<SyntaxV>>
    decreases rem(s, p), 2nat,
{
    if p >= s.len() {
        PRes::Done(p, acc)
    } else {
        match index_suffix(s, p) {
            PRes::Done(p1, i) => if p1 == p {
                PRes::Done(p, acc)
            } else if p1 < p || p1 > s.len() {
                PRes::Error
            } else {
                index_list_loop(s, p1, acc.push(i))
            },
            PRes::Error => PRes::Done(p, acc),
            r => r.fail(),
        }
    }
}

/// A simple expression without suffixes and one or more index suffixes.
pub open spec fn array_index_list(s: Seq<u8>, p: nat) -> PRes<(SyntaxV, Seq<SyntaxV>)>
    decreases rem(s, p), 3nat,
{
    match simple_exp_no_index(s, p) {
        PRes::Done(p1, base) => if p1 < p || p1 > s.len() {
            PRes::Error
        } else {
            match index_suffix(s, p1) {
                PRes::Done(p2, i) => if p2 < p || p2 > s.len() {
                    PRes::Error
                } else if p2 == s.len() {
                    PRes::Done(p2, (base, seq![i]))
                } else {
                    match index_list_loop(s, p2, seq![i]) {
                        PRes::Done(p3, is) => PRes::Done(p3, (base, is)),
                        r => r.fail(),
                    }
                },
                r => r.fail(),
            }
        },
        r => r.fail(),
    }
}

/// Further simple expressions after the first, collected in `acc`.
pub open spec fn simple_exps_loop(s: Seq<u8>, p: nat, acc: Seq<SyntaxV>) -> PRes<Seq<SyntaxV>>
    decreases rem(s, p), 4nat,
{
    if p >= s.len() {
        PRes::Done(p, acc)
    } else {
        match simple_exp(s, p) {
            PRes::Done(p1, e) => if p1 == p {
                PRes::Done(p, acc)
            } else if p1 < p || p1 > s.len() {
                PRes::Error
            } else {
                simple_exps_loop(s, p1, acc.push(e))
            },
            PRes::Error => PRes::Done(p, acc),
            r => r.fail(),
        }
    }
}

/// One or more simple expressions.
pub open spec fn simple_exps(s: Seq<u8>, p: nat) -> PRes<Seq<SyntaxV>>
    decreases rem(s, p), 5nat,
{
    match simple_exp(s, p) {
        PRes::Done(p1, e) => if p1 < p || p1 > s.len() {
            PRes::Error
        } else if p1 == s.len() {
            PRes::Done(p1, seq![e])
        } else {
            simple_exps_loop(s, p1, seq![e])
        },
        r => r.fail(),
    }
}

/// `! exp_app`.
pub open spec fn app_not(s: Seq<u8>, p: nat) -> PRes<SyntaxV>
    decreases rem(s, p), 6nat,
{
    match wtag(s, p, tok_bang()) {
        PRes::Done(p1, _) => {
            proof { lemma_wtag(s, p, tok_bang()); }
            match exp_app(s, p1) {
                PRes::Done(p2, e) => PRes::Done(p2, SyntaxV::Not(Box::new(e))),
                r => r,
            }
        },
        r => r.fail(),
    }
}

/// `Array.create` or `Array.make` and its arguments, which must be two.
pub open spec fn app_array(s: Seq<u8>, p: nat) -> PRes<SyntaxV>
    decreases rem(s, p), 6nat,
{
    match array_kw(s, p) {
        PRes::Done(p1, _) => {
            proof { lemma_array_kw(s, p); }
            match simple_exps(s, p1) {
                PRes::Done(p2, es) => if es.len() != 2 {
                    PRes::Abort
                } else {
                    PRes::Done(p2, SyntaxV::Array(Box::new(es[0]), Box::new(es[1])))
                },
                r => r.fail(),
            }
        },
        r => r.fail(),
    }
}

/// A function applied to one or more arguments.
pub open spec fn app_apply(s: Seq<u8>, p: nat) -> PRes<SyntaxV>
    decreases rem(s, p), 6nat,
{
    match simple_exp(s, p) {
        PRes::Done(p1, f) => if p1 < p || p1 > s.len() {
            PRes::Error
        } else {
            match simple_exps(s, p1) {
                PRes::Done(p2, es) => PRes::Done(p2, SyntaxV::App(Box::new(f), es)),
                r => r.fail(),
            }
        },
        r => r,
    }
}

/// Negation with `!`, array creation, application, or a simple expression.
pub open spec fn exp_app(s: Seq<u8>, p: nat) -> PRes<SyntaxV>
    decreases rem(s, p), 7nat,
{
    or_else(app_not(s, p), or_else(app_array(s, p), or_else(app_apply(s, p), simple_exp(s, p))))
}

/// Unary minus, `-.` for floats and `-` for integers; `-` before a float
/// literal is a float negation.
pub open spec fn exp_unary_minus(s: Seq<u8>, p: nat) -> PRes<SyntaxV>
    decreases rem(s, p), 8nat,
{
    let fneg = match wtag(s, p, tok_minus_dot()) {
        PRes::Done(p1, _) => {
            proof { lemma_wtag(s, p, tok_minus_dot()); }
            match exp_unary_minus(s, p1) {
                PRes::Done(p2, e) => PRes::Done(p2, SyntaxV::FNeg(Box::new(e))),
                r => r,
            }
        },
        r => r.fail(),
    };
    let neg = match wtag(s, p, tok_minus()) {
        PRes::Done(p1, _) => {
            proof { lemma_wtag(s, p, tok_minus()); }
            match exp_unary_minus(s, p1) {
                PRes::Done(p2, e) => PRes::Done(
                    p2,
                    if e is Float { SyntaxV::FNeg(Box::new(e)) } else { SyntaxV::Neg(Box::new(e)) },
                ),
                r => r,
            }
        },
        r => r.fail(),
    };
    or_else(fneg, or_else(neg, exp_app(s, p)))
}

/// Multiplicative operators and their right operands folded into `acc`.
pub open spec fn mult_fold(s: Seq<u8>, p: nat, acc: SyntaxV) -> PRes<SyntaxV>
    decreases rem(s, p), 8nat,
{
    if p >= s.len() {
        PRes::Done(p, acc)
    } else {
        match mult_op(s, p) {
            PRes::Done(p1, op) => {
                proof { lemma_ops(s, p); }
                match exp_unary_minus(s, p1) {
                    PRes::Done(p2, e) => if p2 <= p || p2 > s.len() {
                        PRes::Error
                    } else {
                        mult_fold(s, p2, SyntaxV::FloatBin(op, Box::new(acc), Box::new(e)))
                    },
                    PRes::Error => PRes::Done(p, acc),
                    r => r,
                }
            },
            PRes::Error => PRes::Done(p, acc),
            r => r.fail(),
        }
    }
}

/// A left-associated chain of multiplicative operators.
pub open spec fn exp_multiplicative(s: Seq<u8>, p: nat) -> PRes<SyntaxV>
    decreases rem(s, p), 9nat,
{
    match exp_unary_minus(s, p) {
        PRes::Done(p1, e) => if p1 < p || p1 > s.len() { PRes::Error } else { mult_fold(s, p1, e) },
        r => r,
    }
}

/// The binary operation that an additive operator denotes.
pub open spec fn additive(op: Result<IntBin, FloatBin>, acc: SyntaxV, arg: SyntaxV) -> SyntaxV {
    match op {
        Ok(iop) => SyntaxV::IntBin(iop, Box::new(acc), Box::new(arg)),
        Err(fop) => SyntaxV::FloatBin(fop, Box::new(acc), Box::new(arg)),
    }
}

/// Additive operators and their right operands folded into `acc`.
pub open spec fn add_fold(s: Seq<u8>, p: nat, acc: SyntaxV) -> PRes<SyntaxV>
    decreases rem(s, p), 9nat,
{
    if p >= s.len() {
        PRes::Done(p, acc)
    } else {
        match add_op(s, p) {
            PRes::Done(p1, op) => {
                proof { lemma_ops(s, p); }
                match exp_multiplicative(s, p1) {
                    PRes::Done(p2, e) => if p2 <= p || p2 > s.len() {
                        PRes::Error
                    } else {
                        add_fold(s, p2, additive(op, acc, e))
                    },
                    PRes::Error => PRes::Done(p, acc),
                    r => r,
                }
            },
            PRes::Error => PRes::Done(p, acc),
            r => r.fail(),
        }
    }
}

/// A left-associated chain of additive operators.
pub open spec fn exp_additive(s: Seq<u8>, p: nat) -> PRes<SyntaxV>
    decreases rem(s, p), 10nat,
{
    match exp_multiplicative(s, p) {
        PRes::Done(p1, e) => if p1 < p || p1 > s.len() { PRes::Error } else { add_fold(s, p1, e) },
        r => r,
    }
}

/// The comparison of `acc` with `arg`, as the operator found says.
pub open spec fn comparison(op: (CompBin, bool, bool), acc: SyntaxV, arg: SyntaxV) -> SyntaxV {
    let ast = if op.2 {
        SyntaxV::CompBin(op.0, Box::new(arg), Box::new(acc))
    } else {
        SyntaxV::CompBin(op.0, Box::new(acc), Box::new(arg))
    };
    if op.1 { SyntaxV::Not(Box::new(ast)) } else { ast }
}

/// Comparison operators and their right operands folded into `acc`.
pub open spec fn comp_fold(s: Seq<u8>, p: nat, acc: SyntaxV) -> PRes<SyntaxV>
    decreases rem(s, p), 10nat,
{
    if p >= s.len() {
        PRes::Done(p, acc)
    } else {
        match comp_op(s, p) {
            PRes::Done(p1, op) => {
                proof { lemma_ops(s, p); }
                match exp_additive(s, p1) {
                    PRes::Done(p2, e) => if p2 <= p || p2 > s.len() {
                        PRes::Error
                    } else {
                        comp_fold(s, p2, comparison(op, acc, e))
                    },
                    PRes::Error => PRes::Done(p, acc),
                    r => r,
                }
            },
            PRes::Error => PRes::Done(p, acc),
            r => r.fail(),
        }
    }
}

/// A left-associated chain of comparisons.
pub open spec fn exp_comparative(s: Seq<u8>, p: nat) -> PRes<SyntaxV>
    decreases rem(s, p), 11nat,
{
    match exp_additive(s, p) {
        PRes::Done(p1, e) => if p1 < p || p1 > s.len() { PRes::Error } else { comp_fold(s, p1, e) },
        r => r,
    }
}

/// Further `, exp_comparative` elements of a tuple, collected in `acc`.
pub open spec fn comma_loop(s: Seq<u8>, p: nat, acc: Seq<SyntaxV>) -> PRes<Seq<SyntaxV>>
    decreases rem(s, p), 11nat,
{
    if p >= s.len() {
        PRes::Done(p, acc)
    } else {
        match wtag(s, p, tok_comma()) {
            PRes::Done(p1, _) => {
                proof { lemma_wtag(s, p, tok_comma()); }
                match exp_comparative(s, p1) {
                    PRes::Done(p2, e) => if p2 == p {
                        PRes::Done(p, acc)
                    } else if p2 < p || p2 > s.len() {
                        PRes::Error
                    } else {
                        comma_loop(s, p2, acc.push(e))
                    },
                    PRes::Error => PRes::Done(p, acc),
                    r => r.fail(),
                }
            },
            PRes::Error => PRes::Done(p, acc),
            r => r.fail(),
        }
    }
}

/// The rest of a tuple whose first elements `acc` end at `p`.
pub open spec fn tuple_tail(s: Seq<u8>, p: nat, acc: Seq<SyntaxV>) -> PRes<SyntaxV>
    decreases rem(s, p), 12nat,
{
    if p == s.len() {
        PRes::Done(p, SyntaxV::Tuple(acc))
    } else {
        match comma_loop(s, p, acc) {
            PRes::Done(p1, es) => PRes::Done(p1, SyntaxV::Tuple(es)),
            r => r.fail(),
        }
    }
}

/// After the first comparison of a tuple, `acc`, which ends at `p`: a
/// comma, a second comparison, and any further ones.
pub open spec fn comma_rest(s: Seq<u8>, p: nat, acc: Seq<SyntaxV>) -> PRes<SyntaxV>
    decreases rem(s, p), 12nat,
{
    match wtag(s, p, tok_comma()) {
        PRes::Done(p1, _) => {
            proof { lemma_wtag(s, p, tok_comma()); }
            match exp_comparative(s, p1) {
                PRes::Done(p2, second) => if p2 <= p || p2 > s.len() {
                    PRes::Error
                } else {
                    tuple_tail(s, p2, acc.push(second))
                },
                r => r,
            }
        },
        r => r.fail(),
    }
}

/// Two or more comparisons separated by commas.
pub open spec fn comma_tuple(s: Seq<u8>, p: nat) -> PRes<SyntaxV>
    decreases rem(s, p), 13nat,
{
    match exp_comparative(s, p) {
        PRes::Done(p1, first) => if p1 < p || p1 > s.len() { PRes::Error } else { comma_rest(s, p1, seq![first]) },
        r => r,
    }
}

/// A tuple of comparisons, or one comparison.
pub open spec fn exp_comma(s: Seq<u8>, p: nat) -> PRes<SyntaxV>
    decreases rem(s, p), 14nat,
{
    or_else(comma_tuple(s, p), exp_comparative(s, p))
}

/// `base` indexed by each of `is` in turn.
pub open spec fn get_chain(base: SyntaxV, is: Seq<SyntaxV>) -> SyntaxV
    decreases is.len(),
{
    if is.len() == 0 {
        base
    } else {
        SyntaxV::Get(Box::new(get_chain(base, is.drop_last())), Box::new(is.last()))
    }
}

/// An assignment `a.(i)...(j) <- e` to an array element.
pub open spec fn assign_put(s: Seq<u8>, p: nat) -> PRes<SyntaxV>
    decreases rem(s, p), 15nat,
{
    match array_index_list(s, p) {
        PRes::Done(p1, (base, is)) => match wtag(s, p1, tok_assign()) {
            PRes::Done(p2, _) => if p2 <= p || p2 > s.len() {
                PRes::Error
            } else {
                match exp_comma(s, p2) {
                    PRes::Done(p3, e) => PRes::Done(
                        p3,
                        SyntaxV::Put(Box::new(get_chain(base, is.drop_last())), Box::new(is.last()), Box::new(e)),
                    ),
                    r => r,
                }
            },
            r => r.fail(),
        },
        r => r.fail(),
    }
}

/// An assignment to an array element, or a tuple.
pub open spec fn exp_assign(s: Seq<u8>, p: nat) -> PRes<SyntaxV>
    decreases rem(s, p), 16nat,
{
    or_else(assign_put(s, p), exp_comma(s, p))
}

/// `if exp then exp else ...`, whose else branch extends as far as it can.
pub open spec fn if_then_else(s: Seq<u8>, p: nat) -> PRes<SyntaxV>
    decreases rem(s, p), 17nat,
{
    match wtag(s, p, kw_if()) {
        PRes::Done(p1, _) => {
            proof { lemma_wtag(s, p, kw_if()); }
            match exp(s, p1) {
                PRes::Done(p2, c) => match wtag(s, p2, kw_then()) {
                    PRes::Done(p3, _) => if p3 <= p || p3 > s.len() {
                        PRes::Error
                    } else {
                        match exp(s, p3) {
                            PRes::Done(p4, a) => match wtag(s, p4, kw_else()) {
                                PRes::Done(p5, _) => if p5 <= p || p5 > s.len() {
                                    PRes::Error
                                } else {
                                    match exp_let_forms(s, p5, true) {
                                        PRes::Done(p6, b) => PRes::Done(
                                            p6,
                                            SyntaxV::If(Box::new(c), Box::new(a), Box::new(b)),
                                        ),
                                        r => r,
                                    }
                                },
                                r => r.fail(),
                            },
                            r => r,
                        }
                    },
                    r => r.fail(),
                },
                r => r,
            }
        },
        r => r.fail(),
    }
}

/// A conditional, or an assignment.
pub open spec fn exp_if(s: Seq<u8>, p: nat) -> PRes<SyntaxV>
    decreases rem(s, p), 18nat,
{
    or_else(if_then_else(s, p), exp_assign(s, p))
}

/// The name of the unit binder that sequencing introduces.
pub open spec fn dummy_name() -> Seq<char> {
    seq!['_', 'd', 'u', 'm', 'm', 'y']
}

/// `e1; e2`, read as a `let` of a unit binder; right-associative.
pub open spec fn seq_semicolon(s: Seq<u8>, p: nat) -> PRes<SyntaxV>
    decreases rem(s, p), 19nat,
{
    match exp_if(s, p) {
        PRes::Done(p1, a) => match wtag(s, p1, tok_semicolon()) {
            PRes::Done(p2, _) => if p2 <= p || p2 > s.len() {
                PRes::Error
            } else {
                match exp(s, p2) {
                    PRes::Done(p3, b) => PRes::Done(
                        p3,
                        SyntaxV::Let((dummy_name(), TypeV::Unit), Box::new(a), Box::new(b)),
                    ),
                    r => r,
                }
            },
            r => r.fail(),
        },
        r => r,
    }
}

/// A sequence, or a conditional.
pub open spec fn exp_semicolon(s: Seq<u8>, p: nat) -> PRes<SyntaxV>
    decreases rem(s, p), 20nat,
{
    or_else(seq_semicolon(s, p), exp_if(s, p))
}

/// `let x = e1 in e2`.
pub open spec fn let_simple(s: Seq<u8>, p: nat, after_if: bool) -> PRes<SyntaxV>
    decreases rem(s, p), 21nat,
{
    match wtag(s, p, kw_let()) {
        PRes::Done(p1, _) => match ident(s, p1) {
            PRes::Done(p2, x) => match wtag(s, p2, tok_equal()) {
                PRes::Done(p3, _) => {
                    proof {
                        lemma_wtag(s, p, kw_let());
                        lemma_ident(s, p1);
                        lemma_wtag(s, p2, tok_equal());
                    }
                    match exp(s, p3) {
                        PRes::Done(p4, e1) => match wtag(s, p4, kw_in()) {
                            PRes::Done(p5, _) => if p5 <= p || p5 > s.len() {
                                PRes::Error
                            } else {
                                match exp_let_forms(s, p5, after_if) {
                                    PRes::Done(p6, e2) => PRes::Done(
                                        p6,
                                        SyntaxV::Let((x, TypeV::Var(0)), Box::new(e1), Box::new(e2)),
                                    ),
                                    r => r,
                                }
                            },
                            r => r.fail(),
                        },
                        r => r,
                    }
                },
                r => r.fail(),
            },
            r => r.fail(),
        },
        r => r.fail(),
    }
}

/// `let rec f x ... = e1 in e2`.
pub open spec fn let_rec(s: Seq<u8>, p: nat, after_if: bool) -> PRes<SyntaxV>
    decreases rem(s, p), 21nat,
{
    match wtag(s, p, kw_let()) {
        PRes::Done(p1, _) => match wtag(s, p1, kw_rec()) {
            PRes::Done(p2, _) => {
                proof {
                    lemma_wtag(s, p, kw_let());
                    lemma_wtag(s, p1, kw_rec());
                }
                match fundef(s, p2) {
                    PRes::Done(p3, f) => match wtag(s, p3, kw_in()) {
                        PRes::Done(p4, _) => if p4 <= p || p4 > s.len() {
                            PRes::Error
                        } else {
                            match exp_let_forms(s, p4, after_if) {
                                PRes::Done(p5, e) => PRes::Done(p5, SyntaxV::LetRec(f, Box::new(e))),
                                r => r,
                            }
                        },
                        r => r.fail(),
                    },
                    r => r.fail(),
                }
            },
            r => r.fail(),
        },
        r => r.fail(),
    }
}

/// `let (x, y, ...) = e1 in e2`.
pub open spec fn let_tuple(s: Seq<u8>, p: nat, after_if: bool) -> PRes<SyntaxV>
    decreases rem(s, p), 21nat,
{
    match wtag(s, p, kw_let()) {
        PRes::Done(p1, _) => match wtag(s, p1, tok_lparen()) {
            PRes::Done(p2, _) => match pat(s, p2) {
                PRes::Done(p3, xs) => match wtag(s, p3, tok_rparen()) {
                    PRes::Done(p4, _) => match wtag(s, p4, tok_equal()) {
                        PRes::Done(p5, _) => if p5 <= p || p5 > s.len() {
                            PRes::Error
                        } else {
                            match exp(s, p5) {
                                PRes::Done(p6, e1) => match wtag(s, p6, kw_in()) {
                                    PRes::Done(p7, _) => if p7 <= p || p7 > s.len() {
                                        PRes::Error
                                    } else {
                                        match exp_let_forms(s, p7, after_if) {
                                            PRes::Done(p8, e2) => PRes::Done(
                                                p8,
                                                SyntaxV::LetTuple(xs, Box::new(e1), Box::new(e2)),
                                            ),
                                            r => r,
                                        }
                                    },
                                    r => r.fail(),
                                },
                                r => r,
                            }
                        },
                        r => r.fail(),
                    },
                    r => r.fail(),
                },
                r => r.fail(),
            },
            r => r.fail(),
        },
        r => r.fail(),
    }
}

/// The three `let` forms, tried in order, and otherwise a sequence; in an
/// else branch (`after_if`), a conditional takes the place of the sequence.
pub open spec fn exp_let_forms(s: Seq<u8>, p: nat, after_if: bool) -> PRes<SyntaxV>
    decreases rem(s, p), 22nat,
{
    let rest = if after_if { exp_if(s, p) } else { exp_semicolon(s, p) };
    or_else(let_simple(s, p, after_if), or_else(let_rec(s, p, after_if), or_else(let_tuple(s, p, after_if), rest)))
}

/// A function definition: name, one or more parameters, `=`, and a body.
pub open spec fn fundef(s: Seq<u8>, p: nat) -> PRes<FundefV>
    decreases rem(s, p), 0nat,
{
    match ident(s, p) {
        PRes::Done(p1, f) => match formal_args(s, p1) {
            PRes::Done(p2, xs) => match wtag(s, p2, tok_equal()) {
                PRes::Done(p3, _) => if p3 <= p || p3 > s.len() {
                    PRes::Error
                } else {
                    match exp(s, p3) {
                        PRes::Done(p4, e) => PRes::Done(
                            p4,
                            FundefV { name: (f, TypeV::Var(0)), args: xs, body: Box::new(e) },
                        ),
                        r => r.fail(),
                    }
                },
                r => r.fail(),
            },
            r => r.fail(),
        },
        r => r.fail(),
    }
}

/// An expression.
pub open spec fn exp(s: Seq<u8>, p: nat) -> PRes<SyntaxV>
    decreases rem(s, p), 23nat,
{
    proof { lemma_ws(s, p); }
    exp_let_forms(s, ws(s, p), false)
}

/// Blanks before an expression do not matter: parsing from `p` is parsing
/// from the first byte at or after `p` that is not a blank.
pub proof fn lemma_exp_skips_blanks(s: Seq<u8>, p: nat)
    ensures
        exp(s, p) == exp(s, ws(s, p)),
{
    lemma_ws(s, p);
}

/// A binder with a placeholder type, from an identifier.
pub open spec fn untyped(x: Seq<char>) -> BinderV {
    (x, TypeV::Var(0))
}

/// Further identifiers of `formal_args`, collected in `acc`.
pub open spec fn formal_args_loop(s: Seq<u8>, p: nat, acc: Seq<BinderV>) -> PRes<Seq<BinderV>>
    decreases rem(s, p),
{
    if p >= s.len() {
        PRes::Done(p, acc)
    } else {
        match ident(s, p) {
            PRes::Done(p1, x) => {
                proof { lemma_ident(s, p); }
                formal_args_loop(s, p1, acc.push(untyped(x)))
            },
            PRes::Error => PRes::Done(p, acc),
            r => r.fail(),
        }
    }
}

/// One or more parameter names.
pub open spec fn formal_args(s: Seq<u8>, p: nat) -> PRes<Seq<BinderV>> {
    match ident(s, p) {
        PRes::Done(p1, x) => if p1 == s.len() {
            PRes::Done(p1, seq![untyped(x)])
        } else {
            formal_args_loop(s, p1, seq![untyped(x)])
        },
        r => r.fail(),
    }
}

/// Further `, ident` elements of a pattern, collected in `acc`.
pub open spec fn pat_loop(s: Seq<u8>, p: nat, acc: Seq<BinderV>) -> PRes<Seq<BinderV>>
    decreases rem(s, p),
{
    if p >= s.len() {
        PRes::Done(p, acc)
    } else {
        match wtag(s, p, tok_comma()) {
            PRes::Done(p1, _) => match ident(s, p1) {
                PRes::Done(p2, x) => {
                    proof {
                        lemma_wtag(s, p, tok_comma());
                        lemma_ident(s, p1);
                    }
                    pat_loop(s, p2, acc.push(untyped(x)))
                },
                PRes::Error => PRes::Done(p, acc),
                r => r.fail(),
            },
            PRes::Error => PRes::Done(p, acc),
            r => r.fail(),
        }
    }
}

/// A tuple pattern: two or more identifiers separated by commas.
pub open spec fn pat(s: Seq<u8>, p: nat) -> PRes<Seq<BinderV>> {
    match ident(s, p) {
        PRes::Done(p1, x) => match wtag(s, p1, tok_comma()) {
            PRes::Done(p2, _) => match ident(s, p2) {
                PRes::Done(p3, y) => if p3 == s.len() {
                    PRes::Done(p3, seq![untyped(x), untyped(y)])
                } else {
                    pat_loop(s, p3, seq![untyped(x), untyped(y)])
                },
                r => r.fail(),
            },
            r => r.fail(),
        },
        r => r.fail(),
    }
}

// ---------------------------------------------------------------------------
// What the operator tokens mean
// ---------------------------------------------------------------------------

proof fn lemma_tag_mismatch(s: Seq<u8>, q: nat, t: Seq<u8>, i: int)
    requires
        0 <= i < t.len(),
        q + i < s.len(),
        s[q + i] != t[i],
    ensures
        !(tag_at(s, q, t) is Done),
{
    if q + t.len() <= s.len() {
        assert(s.subrange(q as int, (q + t.len()) as int)[i] == s[q + i]);
    } else {
        assert(s.subrange(q as int, s.len() as int)[i] == s[q + i]);
        assert(t.subrange(0, (s.len() - q) as int)[i] == t[i]);
    }
}

proof fn lemma_tag_short(s: Seq<u8>, q: nat, t: Seq<u8>)
    requires
        q + t.len() > s.len(),
    ensures
        !(tag_at(s, q, t) is Done),
{
}

proof fn lemma_tag_match(s: Seq<u8>, q: nat, t: Seq<u8>)
    requires
        q + t.len() <= s.len(),
        forall|i: int| 0 <= i < t.len() ==> s[q + i] == t[i],
    ensures
        tag_at(s, q, t) == PRes::Done(q + t.len(), ()),
{
    assert(s.subrange(q as int, (q + t.len()) as int) =~= t);
}

/// The additive operators mean what they are written as: after blanks,
/// `+.` is float addition, `-.` float subtraction, `+` (not before a dot)
/// integer addition, `-` (not before a dot) integer subtraction; any other
/// byte is no additive operator.
pub proof fn lemma_add_op_meaning(s: Seq<u8>, p: nat, q: nat)
    requires
        q == ws(s, p),
        q < s.len(),
    ensures
        s[q as int] == 43 && q + 1 < s.len() && s[(q + 1) as int] == 46
            ==> add_op(s, p) == PRes::Done(ws(s, q + 2), Err::<IntBin, FloatBin>(FloatBin::FAdd)),
        s[q as int] == 45 && q + 1 < s.len() && s[(q + 1) as int] == 46
            ==> add_op(s, p) == PRes::Done(ws(s, q + 2), Err::<IntBin, FloatBin>(FloatBin::FSub)),
        s[q as int] == 43 && !(q + 1 < s.len() && s[(q + 1) as int] == 46)
            ==> add_op(s, p) == PRes::Done(ws(s, q + 1), Ok::<IntBin, FloatBin>(IntBin::Add)),
        s[q as int] == 45 && !(q + 1 < s.len() && s[(q + 1) as int] == 46)
            ==> add_op(s, p) == PRes::Done(ws(s, q + 1), Ok::<IntBin, FloatBin>(IntBin::Sub)),
        s[q as int] != 43 && s[q as int] != 45 ==> add_op(s, p) is Error,
{
    let b = s[q as int];
    let dot = q + 1 < s.len() && s[(q + 1) as int] == 46;
    if b == 43 {
        lemma_tag_mismatch(s, q, seq![45u8, 46], 0);
        lemma_tag_mismatch(s, q, seq![45u8], 0);
        if dot {
            lemma_tag_match(s, q, seq![43u8, 46]);
        } else {
            if q + 1 < s.len() {
                lemma_tag_mismatch(s, q, seq![43u8, 46], 1);
            } else {
                lemma_tag_short(s, q, seq![43u8, 46]);
            }
            lemma_tag_match(s, q, seq![43u8]);
        }
    } else if b == 45 {
        lemma_tag_mismatch(s, q, seq![43u8, 46], 0);
        lemma_tag_mismatch(s, q, seq![43u8], 0);
        if dot {
            lemma_tag_match(s, q, seq![45u8, 46]);
        } else {
            if q + 1 < s.len() {
                lemma_tag_mismatch(s, q, seq![45u8, 46], 1);
            } else {
                lemma_tag_short(s, q, seq![45u8, 46]);
            }
            lemma_tag_match(s, q, seq![45u8]);
        }
    } else {
        lemma_tag_mismatch(s, q, seq![43u8, 46], 0);
        lemma_tag_mismatch(s, q, seq![45u8, 46], 0);
        lemma_tag_mismatch(s, q, seq![43u8], 0);
        lemma_tag_mismatch(s, q, seq![45u8], 0);
    }
}

/// The multiplicative operators mean what they are written as: after
/// blanks, `*.` is float multiplication and `/.` float division.
pub proof fn lemma_mult_op_meaning(s: Seq<u8>, p: nat, q: nat)
    requires
        q == ws(s, p),
        q + 1 < s.len(),
        s[(q + 1) as int] == 46,
    ensures
        s[q as int] == 42 ==> mult_op(s, p) == PRes::Done(ws(s, q + 2), FloatBin::FMul),
        s[q as int] == 47 ==> mult_op(s, p) == PRes::Done(ws(s, q + 2), FloatBin::FDiv),
{
    if s[q as int] == 42 {
        lemma_tag_match(s, q, seq![42u8, 46]);
    } else if s[q as int] == 47 {
        lemma_tag_mismatch(s, q, seq![42u8, 46], 0);
        lemma_tag_match(s, q, seq![47u8, 46]);
    }
}

/// The truth of a comparison between two integer constants, possibly
/// negated.
pub open spec fn truth_of(e: SyntaxV) -> Option<bool>
    decreases e,
{
    match e {
        SyntaxV::CompBin(op, a, b) => match (*a, *b) {
            (SyntaxV::Int(x), SyntaxV::Int(y)) => Some(
                match op {
                    CompBin::Eq => x == y,
                    CompBin::LE => x <= y,
                },
            ),
            _ => None,
        },
        SyntaxV::Not(a) => match truth_of(*a) {
            Some(v) => Some(!v),
            None => None,
        },
        _ => None,
    }
}

/// Whether the comparison operator found by `comp_op` at `p`, applied to the
/// integers `x` and `y`, holds exactly when `truth` does.
pub open spec fn compares_as(s: Seq<u8>, p: nat, x: i64, y: i64, truth: bool) -> bool {
    comp_op(s, p) matches PRes::Done(_, op)
        && truth_of(comparison(op, SyntaxV::Int(x), SyntaxV::Int(y))) == Some(truth)
}

/// The comparison operators mean what they are written as: after blanks,
/// `<=`, `>=`, `<>`, `=`, `<` and `>` compare their left operand `x` with
/// their right operand `y` as `x <= y`, `x >= y`, `x != y`, `x == y`,
/// `x < y` and `x > y`.
pub proof fn lemma_comp_op_meaning(s: Seq<u8>, p: nat, q: nat, x: i64, y: i64)
    requires
        q == ws(s, p),
        q < s.len(),
    ensures
        s[q as int] == 60 && q + 1 < s.len() && s[(q + 1) as int] == 61 ==> compares_as(s, p, x, y, x <= y),
        s[q as int] == 62 && q + 1 < s.len() && s[(q + 1) as int] == 61 ==> compares_as(s, p, x, y, x >= y),
        s[q as int] == 60 && q + 1 < s.len() && s[(q + 1) as int] == 62 ==> compares_as(s, p, x, y, x != y),
        s[q as int] == 61 ==> compares_as(s, p, x, y, x == y),
        s[q as int] == 60 && !(q + 1 < s.len() && (s[(q + 1) as int] == 61 || s[(q + 1) as int] == 62))
            ==> compares_as(s, p, x, y, x < y),
        s[q as int] == 62 && !(q + 1 < s.len() && s[(q + 1) as int] == 61) ==> compares_as(s, p, x, y, x > y),
{
    reveal_with_fuel(truth_of, 2);
    let b = s[q as int];
    let two = q + 1 < s.len();
    if b == 60 {
        lemma_tag_mismatch(s, q, seq![62u8, 61], 0);
        lemma_tag_mismatch(s, q, seq![61u8], 0);
        if two && s[(q + 1) as int] == 61 {
            lemma_tag_match(s, q, seq![60u8, 61]);
        } else if two && s[(q + 1) as int] == 62 {
            lemma_tag_mismatch(s, q, seq![60u8, 61], 1);
            lemma_tag_match(s, q, seq![60u8, 62]);
        } else {
            if two {
                lemma_tag_mismatch(s, q, seq![60u8, 61], 1);
                lemma_tag_mismatch(s, q, seq![60u8, 62], 1);
            } else {
                lemma_tag_short(s, q, seq![60u8, 61]);
                lemma_tag_short(s, q, seq![60u8, 62]);
            }
            lemma_tag_match(s, q, seq![60u8]);
        }
    } else if b == 62 {
        lemma_tag_mismatch(s, q, seq![60u8, 61], 0);
        lemma_tag_mismatch(s, q, seq![60u8, 62], 0);
        lemma_tag_mismatch(s, q, seq![61u8], 0);
        lemma_tag_mismatch(s, q, seq![60u8], 0);
        if two && s[(q + 1) as int] == 61 {
            lemma_tag_match(s, q, seq![62u8, 61]);
        } else {
            if two {
                lemma_tag_mismatch(s, q, seq![62u8, 61], 1);
            } else {
                lemma_tag_short(s, q, seq![62u8, 61]);
            }
            lemma_tag_match(s, q, seq![62u8]);
        }
    } else if b == 61 {
        lemma_tag_mismatch(s, q, seq![60u8, 61], 0);
        lemma_tag_mismatch(s, q, seq![62u8, 61], 0);
        lemma_tag_mismatch(s, q, seq![60u8, 62], 0);
        lemma_tag_match(s, q, seq![61u8]);
    }
}

/// In a chain of additive operators, `-` (not before a dot) subtracts the
/// next operand from what came before it, and `+` adds it.
pub proof fn lemma_add_fold_meaning(s: Seq<u8>, p: nat, acc: SyntaxV, q: nat, p2: nat, e: SyntaxV)
    requires
        p < s.len(),
        q == ws(s, p),
        q < s.len(),
        s[q as int] == 43 || s[q as int] == 45,
        !(q + 1 < s.len() && s[(q + 1) as int] == 46),
        exp_multiplicative(s, ws(s, q + 1)) == PRes::Done(p2, e),
        p < p2 <= s.len(),
    ensures
        s[q as int] == 45 ==> add_fold(s, p, acc) == add_fold(s, p2, SyntaxV::IntBin(IntBin::Sub, Box::new(acc), Box::new(e))),
        s[q as int] == 43 ==> add_fold(s, p, acc) == add_fold(s, p2, SyntaxV::IntBin(IntBin::Add, Box::new(acc), Box::new(e))),
{
    lemma_add_op_meaning(s, p, q);
}

/// The identifiers after a tuple pattern's first two are appended in the
/// order they are read: what was collected stays in front.
pub proof fn lemma_pat_loop_keeps_order(s: Seq<u8>, p: nat, acc: Seq<BinderV>)
    ensures
        pat_loop(s, p, acc) matches PRes::Done(_, bs) ==> acc.len() <= bs.len() && bs.take(acc.len() as int) == acc,
    decreases rem(s, p),
{
    if p < s.len() {
        if let PRes::Done(p1, _) = wtag(s, p, tok_comma()) {
            if let PRes::Done(p2, x) = ident(s, p1) {
                lemma_wtag(s, p, tok_comma());
                lemma_ident(s, p1);
                lemma_pat_loop_keeps_order(s, p2, acc.push(untyped(x)));
                if let PRes::Done(_, bs) = pat_loop(s, p, acc) {
                    assert(bs.take(acc.len() as int) =~= bs.take((acc.len() + 1) as int).take(acc.len() as int));
                    assert(acc.push(untyped(x)).take(acc.len() as int) =~= acc);
                }
            }
        }
    } else {
        assert(acc.take(acc.len() as int) =~= acc);
    }
}

/// A tuple pattern keeps its identifiers in the order of the text: its
/// first binder is the identifier at `p`, and its second is the identifier
/// after the comma that follows it.
pub proof fn lemma_pat_order(s: Seq<u8>, p: nat)
    ensures
        pat(s, p) matches PRes::Done(_, bs) ==> {
            &&& bs.len() >= 2
            &&& ident(s, p) matches PRes::Done(p1, x)
            &&& bs[0].0 == x
            &&& wtag(s, p1, seq![44u8]) matches PRes::Done(p2, _)
            &&& ident(s, p2) matches PRes::Done(_, y)
            &&& bs[1].0 == y
        },
{
    if let PRes::Done(p1, x) = ident(s, p) {
        if let PRes::Done(p2, _) = wtag(s, p1, tok_comma()) {
            if let PRes::Done(p3, y) = ident(s, p2) {
                if p3 != s.len() {
                    lemma_pat_loop_keeps_order(s, p3, seq![untyped(x), untyped(y)]);
                    if let PRes::Done(_, bs) = pat(s, p) {
                        assert(bs.take(2)[0] == bs[0]);
                        assert(bs.take(2)[1] == bs[1]);
                    }
                }
            }
        }
    }
}

/// `let (x, y, ...) = e1 in e2` binds the identifiers of the pattern as
/// the pattern reads them, after `let` and `(`.
pub proof fn lemma_let_tuple_binds_pattern(s: Seq<u8>, p: nat, after_if: bool)
    ensures
        let_tuple(s, p, after_if) matches PRes::Done(_, v) ==> {
            &&& wtag(s, p, seq![108u8, 101, 116]) matches PRes::Done(p1, _)
            &&& wtag(s, p1, seq![40u8]) matches PRes::Done(p2, _)
            &&& pat(s, p2) matches PRes::Done(_, xs)
            &&& v matches SyntaxV::LetTuple(ys, _, _)
            &&& ys == xs
        },
{
}

/// In a chain of multiplicative operators, `*.` multiplies what came before
/// by the next operand and `/.` divides it by the next operand.
pub proof fn lemma_mult_fold_meaning(s: Seq<u8>, p: nat, acc: SyntaxV, q: nat, p2: nat, e: SyntaxV)
    requires
        p < s.len(),
        q == ws(s, p),
        q + 1 < s.len(),
        s[q as int] == 42 || s[q as int] == 47,
        s[(q + 1) as int] == 46,
        exp_unary_minus(s, ws(s, q + 2)) == PRes::Done(p2, e),
        p < p2 <= s.len(),
    ensures
        s[q as int] == 42 ==> mult_fold(s, p, acc) == mult_fold(s, p2, SyntaxV::FloatBin(FloatBin::FMul, Box::new(acc), Box::new(e))),
        s[q as int] == 47 ==> mult_fold(s, p, acc) == mult_fold(s, p2, SyntaxV::FloatBin(FloatBin::FDiv, Box::new(acc), Box::new(e))),
{
    lemma_mult_op_meaning(s, p, q);
}

/// The tree that a comparison of `acc` with `e`, written with the operator
/// at `q`, stands for: `<=` and `>=` as less-or-equal in the order they
/// read, `<` and `>` as the negation of less-or-equal with the operands
/// swapped, `=` as equality and `<>` as its negation.
pub open spec fn written_comparison(s: Seq<u8>, q: nat, acc: SyntaxV, e: SyntaxV) -> SyntaxV {
    let two = q + 1 < s.len();
    let b = s[q as int];
    let eq = SyntaxV::CompBin(CompBin::Eq, Box::new(acc), Box::new(e));
    let le_ae = SyntaxV::CompBin(CompBin::LE, Box::new(acc), Box::new(e));
    let le_ea = SyntaxV::CompBin(CompBin::LE, Box::new(e), Box::new(acc));
    if b == 60 && two && s[(q + 1) as int] == 61 {
        le_ae
    } else if b == 62 && two && s[(q + 1) as int] == 61 {
        le_ea
    } else if b == 60 && two && s[(q + 1) as int] == 62 {
        SyntaxV::Not(Box::new(eq))
    } else if b == 61 {
        eq
    } else if b == 60 {
        SyntaxV::Not(Box::new(le_ea))
    } else {
        SyntaxV::Not(Box::new(le_ae))
    }
}

proof fn lemma_comp_op_written(s: Seq<u8>, p: nat, q: nat, acc: SyntaxV, e: SyntaxV)
    requires
        q == ws(s, p),
        q < s.len(),
        s[q as int] == 60 || s[q as int] == 61 || s[q as int] == 62,
    ensures
        comp_op(s, p) matches PRes::Done(_, op) && comparison(op, acc, e) == written_comparison(s, q, acc, e),
{
    let b = s[q as int];
    let two = q + 1 < s.len();
    if b == 60 {
        lemma_tag_mismatch(s, q, seq![62u8, 61], 0);
        lemma_tag_mismatch(s, q, seq![61u8], 0);
        if two && s[(q + 1) as int] == 61 {
            lemma_tag_match(s, q, seq![60u8, 61]);
        } else if two && s[(q + 1) as int] == 62 {
            lemma_tag_mismatch(s, q, seq![60u8, 61], 1);
            lemma_tag_match(s, q, seq![60u8, 62]);
        } else {
            if two {
                lemma_tag_mismatch(s, q, seq![60u8, 61], 1);
                lemma_tag_mismatch(s, q, seq![60u8, 62], 1);
            } else {
                lemma_tag_short(s, q, seq![60u8, 61]);
                lemma_tag_short(s, q, seq![60u8, 62]);
            }
            lemma_tag_match(s, q, seq![60u8]);
        }
    } else if b == 62 {
        lemma_tag_mismatch(s, q, seq![60u8, 61], 0);
        lemma_tag_mismatch(s, q, seq![60u8, 62], 0);
        lemma_tag_mismatch(s, q, seq![61u8], 0);
        lemma_tag_mismatch(s, q, seq![60u8], 0);
        if two && s[(q + 1) as int] == 61 {
            lemma_tag_match(s, q, seq![62u8, 61]);
        } else {
            if two {
                lemma_tag_mismatch(s, q, seq![62u8, 61], 1);
            } else {
                lemma_tag_short(s, q, seq![62u8, 61]);
            }
            lemma_tag_match(s, q, seq![62u8]);
        }
    } else {
        lemma_tag_mismatch(s, q, seq![60u8, 61], 0);
        lemma_tag_mismatch(s, q, seq![62u8, 61], 0);
        lemma_tag_mismatch(s, q, seq![60u8, 62], 0);
        lemma_tag_match(s, q, seq![61u8]);
    }
}

/// In a chain of comparisons, each operator compares what came before with
/// the next operand as it is written.
pub proof fn lemma_comp_fold_meaning(s: Seq<u8>, p: nat, acc: SyntaxV, q: nat, p2: nat, e: SyntaxV)
    requires
        p < s.len(),
        q == ws(s, p),
        q < s.len(),
        s[q as int] == 60 || s[q as int] == 61 || s[q as int] == 62,
        comp_op(s, p) matches PRes::Done(p1, _) && exp_additive(s, p1) == PRes::Done(p2, e),
        p < p2 <= s.len(),
    ensures
        comp_fold(s, p, acc) == comp_fold(s, p2, written_comparison(s, q, acc, e)),
{
    lemma_comp_op_written(s, p, q, acc, e);
}

} // verus!
