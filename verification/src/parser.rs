//! The parser: source bytes to a syntax tree, following `grammar`.

use vstd::prelude::*;
use vstd::slice::slice_subrange;
use crate::grammar;
use crate::grammar::PRes;
use crate::id::{string_push, IdGen, next_count};
use crate::syntax::{
    vec1, vec2, CompBin, FloatBin, Fundef, FundefV, IntBin, Syntax, SyntaxV, Type, TypeV, BinderV,
    syntaxes_view, binders_view, binder_view, syn_size, syns_size, copy_type,
    lemma_syntaxes_push, lemma_binders_push, lemma_syntaxes_remove_first,
};

verus! {

/// How a parse fails: the input does not match, or it ends too early to tell.
#[derive(Debug, Clone, Copy, PartialEq, Eq)]
pub enum ParseError {
    Error,
    Incomplete,
}

/// The executable result `r` is the grammar's result `g`, with values
/// related by `f`.
pub open spec fn agrees<T, V>(r: Result<(usize, T), ParseError>, g: PRes<V>, f: spec_fn(T) -> V) -> bool {
    match r {
        Ok((n, v)) => g == PRes::Done(n as nat, f(v)),
        Err(ParseError::Error) => g is Error,
        Err(ParseError::Incomplete) => g is Incomplete,
    }
}

/// The same, for a token, whose result has no value.
pub open spec fn agrees_tok(r: Result<usize, ParseError>, g: PRes<()>) -> bool {
    match r {
        Ok(n) => g == PRes::Done(n as nat, ()),
        Err(ParseError::Error) => g is Error,
        Err(ParseError::Incomplete) => g is Incomplete,
    }
}

/// The same, for an expression.
pub open spec fn agrees_syn(r: Result<(usize, Syntax), ParseError>, g: PRes<SyntaxV>) -> bool {
    agrees(r, g, |e: Syntax| e@)
}

/// The same, for a sequence of expressions.
pub open spec fn agrees_syns(r: Result<(usize, Vec<Syntax>), ParseError>, g: PRes<Seq<SyntaxV>>) -> bool {
    agrees(r, g, |es: Vec<Syntax>| syntaxes_view(&es))
}

/// The same, for a sequence of binders.
pub open spec fn agrees_binders(
    r: Result<(usize, Vec<(String, Type)>), ParseError>,
    g: PRes<Seq<(Seq<char>, TypeV)>>,
) -> bool {
    agrees(r, g, |bs: Vec<(String, Type)>| binders_view(&bs))
}

/// A successful result ends between `lo` and the end of the input.
pub open spec fn ends_in<T>(r: Result<(usize, T), ParseError>, lo: usize, s: Seq<u8>) -> bool {
    r matches Ok((n, _)) ==> lo <= n <= s.len()
}

/// Whether no blank follows position `n`, as where a rule stops that skips
/// the blanks after its last token.
pub open spec fn settled(s: Seq<u8>, n: nat) -> bool {
    grammar::ws(s, n) == n
}

/// A successful result ends where no blank follows.
pub open spec fn ends_settled<T>(r: Result<(usize, T), ParseError>, s: Seq<u8>) -> bool {
    r matches Ok((n, _)) ==> settled(s, n as nat)
}

// The tokens of the language, as byte arrays.
pub(crate) fn tok_lparen() -> (r: [u8; 1])
    ensures
        r@ == grammar::tok_lparen(),
{
    let a = [40u8];
    assert(a@ =~= grammar::tok_lparen());
    a
}

pub(crate) fn tok_rparen() -> (r: [u8; 1])
    ensures
        r@ == grammar::tok_rparen(),
{
    let a = [41u8];
    assert(a@ =~= grammar::tok_rparen());
    a
}

pub(crate) fn tok_dot() -> (r: [u8; 1])
    ensures
        r@ == grammar::tok_dot(),
{
    let a = [46u8];
    assert(a@ =~= grammar::tok_dot());
    a
}

pub(crate) fn tok_comma() -> (r: [u8; 1])
    ensures
        r@ == grammar::tok_comma(),
{
    let a = [44u8];
    assert(a@ =~= grammar::tok_comma());
    a
}

pub(crate) fn tok_semicolon() -> (r: [u8; 1])
    ensures
        r@ == grammar::tok_semicolon(),
{
    let a = [59u8];
    assert(a@ =~= grammar::tok_semicolon());
    a
}

pub(crate) fn tok_equal() -> (r: [u8; 1])
    ensures
        r@ == grammar::tok_equal(),
{
    let a = [61u8];
    assert(a@ =~= grammar::tok_equal());
    a
}

pub(crate) fn tok_bang() -> (r: [u8; 1])
    ensures
        r@ == grammar::tok_bang(),
{
    let a = [33u8];
    assert(a@ =~= grammar::tok_bang());
    a
}

pub(crate) fn tok_assign() -> (r: [u8; 2])
    ensures
        r@ == grammar::tok_assign(),
{
    let a = [60u8, 45];
    assert(a@ =~= grammar::tok_assign());
    a
}

pub(crate) fn tok_le() -> (r: [u8; 2])
    ensures
        r@ == grammar::tok_le(),
{
    let a = [60u8, 61];
    assert(a@ =~= grammar::tok_le());
    a
}

pub(crate) fn tok_ge() -> (r: [u8; 2])
    ensures
        r@ == grammar::tok_ge(),
{
    let a = [62u8, 61];
    assert(a@ =~= grammar::tok_ge());
    a
}

pub(crate) fn tok_ne() -> (r: [u8; 2])
    ensures
        r@ == grammar::tok_ne(),
{
    let a = [60u8, 62];
    assert(a@ =~= grammar::tok_ne());
    a
}

pub(crate) fn tok_lt() -> (r: [u8; 1])
    ensures
        r@ == grammar::tok_lt(),
{
    let a = [60u8];
    assert(a@ =~= grammar::tok_lt());
    a
}

pub(crate) fn tok_gt() -> (r: [u8; 1])
    ensures
        r@ == grammar::tok_gt(),
{
    let a = [62u8];
    assert(a@ =~= grammar::tok_gt());
    a
}

pub(crate) fn tok_plus_dot() -> (r: [u8; 2])
    ensures
        r@ == grammar::tok_plus_dot(),
{
    let a = [43u8, 46];
    assert(a@ =~= grammar::tok_plus_dot());
    a
}

pub(crate) fn tok_minus_dot() -> (r: [u8; 2])
    ensures
        r@ == grammar::tok_minus_dot(),
{
    let a = [45u8, 46];
    assert(a@ =~= grammar::tok_minus_dot());
    a
}

pub(crate) fn tok_plus() -> (r: [u8; 1])
    ensures
        r@ == grammar::tok_plus(),
{
    let a = [43u8];
    assert(a@ =~= grammar::tok_plus());
    a
}

pub(crate) fn tok_minus() -> (r: [u8; 1])
    ensures
        r@ == grammar::tok_minus(),
{
    let a = [45u8];
    assert(a@ =~= grammar::tok_minus());
    a
}

pub(crate) fn tok_star_dot() -> (r: [u8; 2])
    ensures
        r@ == grammar::tok_star_dot(),
{
    let a = [42u8, 46];
    assert(a@ =~= grammar::tok_star_dot());
    a
}

pub(crate) fn tok_slash_dot() -> (r: [u8; 2])
    ensures
        r@ == grammar::tok_slash_dot(),
{
    let a = [47u8, 46];
    assert(a@ =~= grammar::tok_slash_dot());
    a
}

pub(crate) fn kw_let() -> (r: [u8; 3])
    ensures
        r@ == grammar::kw_let(),
{
    let a = [108u8, 101, 116];
    assert(a@ =~= grammar::kw_let());
    a
}

pub(crate) fn kw_rec() -> (r: [u8; 3])
    ensures
        r@ == grammar::kw_rec(),
{
    let a = [114u8, 101, 99];
    assert(a@ =~= grammar::kw_rec());
    a
}

pub(crate) fn kw_in() -> (r: [u8; 2])
    ensures
        r@ == grammar::kw_in(),
{
    let a = [105u8, 110];
    assert(a@ =~= grammar::kw_in());
    a
}

pub(crate) fn kw_true() -> (r: [u8; 4])
    ensures
        r@ == grammar::kw_true(),
{
    let a = [116u8, 114, 117, 101];
    assert(a@ =~= grammar::kw_true());
    a
}

pub(crate) fn kw_false() -> (r: [u8; 5])
    ensures
        r@ == grammar::kw_false(),
{
    let a = [102u8, 97, 108, 115, 101];
    assert(a@ =~= grammar::kw_false());
    a
}

pub(crate) fn kw_if() -> (r: [u8; 2])
    ensures
        r@ == grammar::kw_if(),
{
    let a = [105u8, 102];
    assert(a@ =~= grammar::kw_if());
    a
}

pub(crate) fn kw_then() -> (r: [u8; 4])
    ensures
        r@ == grammar::kw_then(),
{
    let a = [116u8, 104, 101, 110];
    assert(a@ =~= grammar::kw_then());
    a
}

pub(crate) fn kw_else() -> (r: [u8; 4])
    ensures
        r@ == grammar::kw_else(),
{
    let a = [101u8, 108, 115, 101];
    assert(a@ =~= grammar::kw_else());
    a
}

pub(crate) fn kw_array_create() -> (r: [u8; 12])
    ensures
        r@ == grammar::kw_array_create(),
{
    let a = [65u8, 114, 114, 97, 121, 46, 99, 114, 101, 97, 116, 101];
    assert(a@ =~= grammar::kw_array_create());
    a
}

pub(crate) fn kw_array_make() -> (r: [u8; 10])
    ensures
        r@ == grammar::kw_array_make(),
{
    let a = [65u8, 114, 114, 97, 121, 46, 109, 97, 107, 101];
    assert(a@ =~= grammar::kw_array_make());
    a
}

/// The position after the blanks that start at `p`.
pub(crate) fn ws(s: &[u8], p: usize) -> (r: usize)
    requires
        p <= s@.len(),
    ensures
        r == grammar::ws(s@, p as nat),
        p <= r <= s@.len(),
        settled(s@, r as nat),
{
    proof { grammar::lemma_ws(s@, p as nat); }
    let mut q = p;
    while q < s.len() && (s[q] == 32 || s[q] == 9 || s[q] == 13 || s[q] == 10)
        invariant
            p <= q <= s@.len(),
            grammar::ws(s@, q as nat) == grammar::ws(s@, p as nat),
        decreases s@.len() - q,
    {
        q += 1;
    }
    q
}

/// The bytes `t` at position `p`, with no blanks skipped.
pub(crate) fn tag_at(s: &[u8], p: usize, t: &[u8]) -> (r: Result<usize, ParseError>)
    requires
        p <= s@.len(),
    ensures
        agrees_tok(r, grammar::tag_at(s@, p as nat, t@)),
        r matches Ok(n) ==> n == p + t@.len() && n <= s@.len(),
{
    let rest = s.len() - p;
    let m = if rest < t.len() { rest } else { t.len() };
    let mut i: usize = 0;
    while i < m
        invariant
            i <= m,
            p <= s@.len(),
            s@.len() == s.len(),
            m == (if rest < t@.len() { rest as int } else { t@.len() as int }),
            m <= t@.len(),
            rest == s@.len() - p,
            forall|j: int| 0 <= j < i ==> s@[p + j] == t@[j],
        decreases m - i,
    {
        if s[p + i] != t[i] {
            proof {
                if m == t@.len() {
                    assert(s@.subrange(p as int, p + t@.len())[i as int] != t@[i as int]);
                } else {
                    assert(s@.subrange(p as int, s@.len() as int)[i as int] != t@.subrange(0, (s@.len() - p) as int)[i as int]);
                }
            }
            return Err(ParseError::Error);
        }
        i += 1;
    }
    if m < t.len() {
        assert(s@.subrange(p as int, s@.len() as int) =~= t@.subrange(0, (s@.len() - p) as int));
        Err(ParseError::Incomplete)
    } else {
        assert(s@.subrange(p as int, p + t@.len()) =~= t@);
        Ok(p + t.len())
    }
}

/// The token `t`, with blanks skipped before and after it.
pub(crate) fn wtag(s: &[u8], p: usize, t: &[u8]) -> (r: Result<usize, ParseError>)
    requires
        p <= s@.len(),
    ensures
        r matches Ok(n) ==> settled(s@, n as nat),
        agrees_tok(r, grammar::wtag(s@, p as nat, t@)),
        r matches Ok(n) ==> p + t@.len() <= n <= s@.len(),
{
    let q = ws(s, p);
    match tag_at(s, q, t) {
        Ok(e) => Ok(ws(s, e)),
        Err(err) => Err(err),
    }
}

/// Whether `x` is a byte that cannot appear in an identifier.
pub fn is_not_ident_u8(x: u8) -> (r: bool)
    ensures
        r == !grammar::is_ident_byte(x),
{
    !((48 <= x && x <= 57) || (65 <= x && x <= 90) || (97 <= x && x <= 122) || x == 95)
}

/// Whether two byte strings are equal.
fn bytes_eq(a: &[u8], b: &[u8]) -> (r: bool)
    ensures
        r == (a@ == b@),
{
    if a.len() != b.len() {
        return false;
    }
    let mut i: usize = 0;
    while i < a.len()
        invariant
            i <= a@.len(),
            a@.len() == b@.len(),
            forall|j: int| 0 <= j < i ==> a@[j] == b@[j],
        decreases a@.len() - i,
    {
        if a[i] != b[i] {
            return false;
        }
        i += 1;
    }
    assert(a@ =~= b@);
    true
}

/// Whether the word `x` names a variable: it is not empty, not a keyword,
/// and does not start with a digit.
pub fn is_ident(x: &[u8]) -> (r: bool)
    ensures
        r == grammar::is_ident(x@),
{
    if x.len() == 0 || bytes_eq(x, &kw_let()) || bytes_eq(x, &kw_rec())
        || bytes_eq(x, &kw_in()) || bytes_eq(x, &kw_true())
        || bytes_eq(x, &kw_false()) || bytes_eq(x, &kw_if())
        || bytes_eq(x, &kw_then()) || bytes_eq(x, &kw_else())
        || bytes_eq(x, &kw_array_create())
        || bytes_eq(x, &kw_array_make()) {
        return false;
    }
    !(48 <= x[0] && x[0] <= 57)
}

/// The end of the run of identifier bytes starting at `p`.
pub(crate) fn ident_end(s: &[u8], p: usize) -> (r: usize)
    requires
        p <= s@.len(),
    ensures
        r == grammar::ident_end(s@, p as nat),
        p <= r <= s@.len(),
{
    let mut q = p;
    while q < s.len() && !is_not_ident_u8(s[q])
        invariant
            p <= q <= s@.len(),
            grammar::ident_end(s@, q as nat) == grammar::ident_end(s@, p as nat),
        decreases s@.len() - q,
    {
        q += 1;
    }
    q
}

/// The end of the run of decimal digits starting at `p`.
pub(crate) fn digits_end(s: &[u8], p: usize) -> (r: usize)
    requires
        p <= s@.len(),
    ensures
        r == grammar::digits_end(s@, p as nat),
        p <= r <= s@.len(),
{
    let mut q = p;
    while q < s.len() && 48 <= s[q] && s[q] <= 57
        invariant
            p <= q <= s@.len(),
            grammar::digits_end(s@, q as nat) == grammar::digits_end(s@, p as nat),
        decreases s@.len() - q,
    {
        q += 1;
    }
    q
}

/// One or more decimal digits, with no blanks skipped.
pub(crate) fn digit(s: &[u8], p: usize) -> (r: Result<usize, ParseError>)
    requires
        p <= s@.len(),
    ensures
        agrees_tok(r, grammar::digit(s@, p as nat)),
        r matches Ok(n) ==> p < n <= s@.len(),
{
    if p >= s.len() {
        return Err(ParseError::Incomplete);
    }
    let e = digits_end(s, p);
    if e == p { Err(ParseError::Error) } else { Ok(e) }
}

/// An identifier, with blanks skipped around it.
pub(crate) fn ident(s: &[u8], p: usize) -> (r: Result<(usize, String), ParseError>)
    requires
        p <= s@.len(),
    ensures
        ends_settled(r, s@),
        agrees(r, grammar::ident(s@, p as nat), |x: String| x@),
        r matches Ok((n, _)) ==> p < n <= s@.len(),
{
    proof { grammar::lemma_ident(s@, p as nat); }
    let q = ws(s, p);
    let e = ident_end(s, q);
    let w = slice_subrange(s, q, e);
    if is_ident(w) {
        let mut name = String::new();
        let mut k = q;
        while k < e
            invariant
                q <= k <= e,
                e <= s@.len(),
                name@ == grammar::chars_of(s@.subrange(q as int, k as int)),
            decreases e - k,
        {
            string_push(&mut name, s[k] as char);
            assert(grammar::chars_of(s@.subrange(q as int, k + 1)) =~= grammar::chars_of(s@.subrange(q as int, k as int)).push(s@[k as int] as char));
            k += 1;
        }
        Ok((ws(s, e), name))
    } else {
        Err(ParseError::Error)
    }
}

/// The value of the digits `w` in base `radix`, by Horner's rule, each byte
/// standing for its distance from `0`.
pub open spec fn radix_value(w: Seq<u8>, radix: int) -> int
    decreases w.len(),
{
    if w.len() == 0 { 0 } else { radix_value(w.drop_last(), radix) * radix + (w.last() - 48) }
}

/// No step of Horner's rule on `w` leaves the range of `i64`.
pub open spec fn convert_fits(w: Seq<u8>, radix: int) -> bool {
    forall|k: int| 1 <= k <= w.len() ==> {
        &&& i64::MIN <= #[trigger] radix_value(w.take(k - 1), radix) * radix <= i64::MAX
        &&& i64::MIN <= radix_value(w.take(k), radix) <= i64::MAX
    }
}

/// The value of the digits `x` in base `radix`.
pub fn convert(x: &[u8], radix: i64) -> (r: i64)
    requires
        convert_fits(x@, radix as int),
    ensures
        r == radix_value(x@, radix as int),
{
    let mut cur: i64 = 0;
    let mut k: usize = 0;
    assert(x@.take(0) =~= Seq::<u8>::empty());
    while k < x.len()
        invariant
            k <= x@.len(),
            cur == radix_value(x@.take(k as int), radix as int),
            convert_fits(x@, radix as int),
        decreases x@.len() - k,
    {
        assert(x@.take(k + 1).drop_last() =~= x@.take(k as int));
        assert(x@.take(k + 1).last() == x@[k as int]);
        assert(i64::MIN <= radix_value(x@.take(k + 1 - 1), radix as int) * radix <= i64::MAX);
        assert(i64::MIN <= radix_value(x@.take(k + 1), radix as int) <= i64::MAX);
        cur = cur * radix;
        cur = cur + (x[k] as i64 - 48);
        k += 1;
    }
    assert(x@.take(x@.len() as int) =~= x@);
    cur
}

/// For decimal digits, Horner's rule in base ten is the decimal value.
proof fn lemma_decimal_radix(w: Seq<u8>)
    requires
        forall|i: int| 0 <= i < w.len() ==> grammar::is_digit(#[trigger] w[i]),
    ensures
        radix_value(w, 10) == grammar::decimal_value(w) as int,
    decreases w.len(),
{
    if w.len() > 0 {
        assert(forall|i: int| 0 <= i < w.drop_last().len() ==> w.drop_last()[i] == w[i]);
        lemma_decimal_radix(w.drop_last());
    }
}

/// The value of a prefix of decimal digits is at most that of the whole.
proof fn lemma_decimal_prefix(w: Seq<u8>, k: int)
    requires
        0 <= k <= w.len(),
        forall|i: int| 0 <= i < w.len() ==> grammar::is_digit(#[trigger] w[i]),
    ensures
        grammar::decimal_value(w.take(k)) <= grammar::decimal_value(w),
    decreases w.len() - k,
{
    if k < w.len() {
        lemma_decimal_prefix(w, k + 1);
        assert(w.take(k + 1).drop_last() =~= w.take(k));
    } else {
        assert(w.take(k) =~= w);
    }
}

/// A string of decimal digits whose value fits `i64` converts without
/// overflow.
proof fn lemma_decimal_fits(w: Seq<u8>)
    requires
        forall|i: int| 0 <= i < w.len() ==> grammar::is_digit(#[trigger] w[i]),
        grammar::decimal_value(w) <= i64::MAX,
    ensures
        convert_fits(w, 10),
        radix_value(w, 10) == grammar::decimal_value(w) as int,
{
    lemma_decimal_radix(w);
    assert forall|k: int| 1 <= k <= w.len() implies {
        &&& i64::MIN <= #[trigger] radix_value(w.take(k - 1), 10) * 10 <= i64::MAX
        &&& i64::MIN <= radix_value(w.take(k), 10) <= i64::MAX
    } by {
        assert(forall|i: int| 0 <= i < w.take(k).len() ==> w.take(k)[i] == w[i]);
        assert(forall|i: int| 0 <= i < w.take(k - 1).len() ==> w.take(k - 1)[i] == w[i]);
        lemma_decimal_radix(w.take(k));
        lemma_decimal_radix(w.take(k - 1));
        lemma_decimal_prefix(w, k);
        assert(w.take(k).drop_last() =~= w.take(k - 1));
    }
}

/// `true` or `false`.
pub(crate) fn bool_lit(s: &[u8], p: usize) -> (r: Result<(usize, bool), ParseError>)
    requires
        p <= s@.len(),
    ensures
        ends_settled(r, s@),
        agrees(r, grammar::bool_lit(s@, p as nat), |b: bool| b),
        r matches Ok((n, _)) ==> p < n <= s@.len(),
{
    proof { grammar::lemma_bool_lit(s@, p as nat); }
    match wtag(s, p, &kw_true()) {
        Ok(q) => Ok((q, true)),
        Err(_) => match wtag(s, p, &kw_false()) {
            Ok(q) => Ok((q, false)),
            Err(e) => Err(e),
        },
    }
}

/// A decimal integer literal.
pub(crate) fn int_lit(s: &[u8], p: usize) -> (r: Result<(usize, i64), ParseError>)
    requires
        p <= s@.len(),
        !(grammar::int_lit(s@, p as nat) is Abort),
    ensures
        ends_settled(r, s@),
        agrees(r, grammar::int_lit(s@, p as nat), |i: i64| i),
        r matches Ok((n, _)) ==> p < n <= s@.len(),
{
    proof { grammar::lemma_int_lit(s@, p as nat); }
    let q = ws(s, p);
    match digit(s, q) {
        Ok(e) => {
            let w = slice_subrange(s, q, e);
            proof {
                grammar::lemma_digits_end(s@, q as nat);
                assert(forall|i: int| 0 <= i < w@.len() ==> w@[i] == s@[q + i]);
                lemma_decimal_fits(w@);
            }
            let v = convert(w, 10);
            Ok((ws(s, e), v))
        },
        Err(err) => Err(err),
    }
}

/// The bytes of `s` from `a` to `b`, as a vector.
pub(crate) fn copy_bytes(s: &[u8], a: usize, b: usize) -> (r: Vec<u8>)
    requires
        a <= b <= s@.len(),
    ensures
        r@ == s@.subrange(a as int, b as int),
{
    let mut r: Vec<u8> = Vec::new();
    let mut k = a;
    while k < b
        invariant
            a <= k <= b,
            b <= s@.len(),
            r@ == s@.subrange(a as int, k as int),
        decreases b - k,
    {
        r.push(s[k]);
        assert(s@.subrange(a as int, k + 1) =~= s@.subrange(a as int, k as int).push(s@[k as int]));
        k += 1;
    }
    r
}

/// A float literal with no blanks inside: digits, a dot, and digits; or
/// digits and a dot.
pub(crate) fn float_raw(s: &[u8], p: usize) -> (r: Result<(usize, Vec<u8>), ParseError>)
    requires
        p <= s@.len(),
    ensures
        agrees(r, grammar::float_raw(s@, p as nat), |v: Vec<u8>| v@),
        ends_in(r, p, s@),
{
    if let Ok(e1) = digit(s, p) {
        if let Ok(e2) = tag_at(s, e1, &tok_dot()) {
            if let Ok(e3) = digit(s, e2) {
                let v = copy_bytes(s, p, e3);
                return Ok((e3, v));
            }
        }
    }
    match digit(s, p) {
        Ok(e1) => match tag_at(s, e1, &tok_dot()) {
            Ok(e2) => Ok((e2, copy_bytes(s, p, e2))),
            Err(err) => Err(err),
        },
        Err(err) => Err(err),
    }
}

/// A float literal with blanks skipped around it.
pub(crate) fn float_lit(s: &[u8], p: usize) -> (r: Result<(usize, Vec<u8>), ParseError>)
    requires
        p <= s@.len(),
    ensures
        ends_settled(r, s@),
        agrees(r, grammar::float_lit(s@, p as nat), |v: Vec<u8>| v@),
        r matches Ok((n, _)) ==> p < n <= s@.len(),
{
    proof { grammar::lemma_float_lit(s@, p as nat); }
    let q = ws(s, p);
    match float_raw(s, q) {
        Ok((e, v)) => Ok((ws(s, e), v)),
        Err(err) => Err(err),
    }
}

/// `Array.create` or `Array.make`.
pub(crate) fn array_kw(s: &[u8], p: usize) -> (r: Result<usize, ParseError>)
    requires
        p <= s@.len(),
    ensures
        r matches Ok(n) ==> settled(s@, n as nat),
        agrees_tok(r, grammar::array_kw(s@, p as nat)),
        r matches Ok(n) ==> p < n <= s@.len(),
{
    proof { grammar::lemma_array_kw(s@, p as nat); }
    let q = ws(s, p);
    let t = match tag_at(s, q, &kw_array_create()) {
        Ok(e) => Ok(e),
        Err(_) => tag_at(s, q, &kw_array_make()),
    };
    match t {
        Ok(e) => Ok(ws(s, e)),
        Err(err) => Err(err),
    }
}

/// A comparison operator, whether it is negated, and whether its operands
/// are swapped.
pub(crate) fn comp_op(s: &[u8], p: usize) -> (r: Result<(usize, (CompBin, bool, bool)), ParseError>)
    requires
        p <= s@.len(),
    ensures
        ends_settled(r, s@),
        agrees(r, grammar::comp_op(s@, p as nat), |v: (CompBin, bool, bool)| v),
        r matches Ok((n, _)) ==> p < n <= s@.len(),
{
    proof { grammar::lemma_ops(s@, p as nat); }
    let q = ws(s, p);
    let t = if let Ok(e) = tag_at(s, q, &tok_le()) {
        Ok((e, (CompBin::LE, false, false)))
    } else if let Ok(e) = tag_at(s, q, &tok_ge()) {
        Ok((e, (CompBin::LE, false, true)))
    } else if let Ok(e) = tag_at(s, q, &tok_ne()) {
        Ok((e, (CompBin::Eq, true, false)))
    } else if let Ok(e) = tag_at(s, q, &tok_equal()) {
        Ok((e, (CompBin::Eq, false, false)))
    } else if let Ok(e) = tag_at(s, q, &tok_lt()) {
        Ok((e, (CompBin::LE, true, true)))
    } else {
        match tag_at(s, q, &tok_gt()) {
            Ok(e) => Ok((e, (CompBin::LE, true, false))),
            Err(err) => Err(err),
        }
    };
    match t {
        Ok((e, v)) => Ok((ws(s, e), v)),
        Err(err) => Err(err),
    }
}

/// An additive operator: `Ok` for integers, `Err` for floats.
pub(crate) fn add_op(s: &[u8], p: usize) -> (r: Result<(usize, Result<IntBin, FloatBin>), ParseError>)
    requires
        p <= s@.len(),
    ensures
        ends_settled(r, s@),
        agrees(r, grammar::add_op(s@, p as nat), |v: Result<IntBin, FloatBin>| v),
        r matches Ok((n, _)) ==> p < n <= s@.len(),
{
    proof { grammar::lemma_ops(s@, p as nat); }
    let q = ws(s, p);
    let t = if let Ok(e) = tag_at(s, q, &tok_plus_dot()) {
        Ok((e, Err(FloatBin::FAdd)))
    } else if let Ok(e) = tag_at(s, q, &tok_minus_dot()) {
        Ok((e, Err(FloatBin::FSub)))
    } else if let Ok(e) = tag_at(s, q, &tok_plus()) {
        Ok((e, Ok(IntBin::Add)))
    } else {
        match tag_at(s, q, &tok_minus()) {
            Ok(e) => Ok((e, Ok(IntBin::Sub))),
            Err(err) => Err(err),
        }
    };
    match t {
        Ok((e, v)) => Ok((ws(s, e), v)),
        Err(err) => Err(err),
    }
}

/// A multiplicative operator.
pub(crate) fn mult_op(s: &[u8], p: usize) -> (r: Result<(usize, FloatBin), ParseError>)
    requires
        p <= s@.len(),
    ensures
        ends_settled(r, s@),
        agrees(r, grammar::mult_op(s@, p as nat), |v: FloatBin| v),
        r matches Ok((n, _)) ==> p < n <= s@.len(),
{
    proof { grammar::lemma_ops(s@, p as nat); }
    let q = ws(s, p);
    let t = if let Ok(e) = tag_at(s, q, &tok_star_dot()) {
        Ok((e, FloatBin::FMul))
    } else {
        match tag_at(s, q, &tok_slash_dot()) {
            Ok(e) => Ok((e, FloatBin::FDiv)),
            Err(err) => Err(err),
        }
    };
    match t {
        Ok((e, v)) => Ok((ws(s, e), v)),
        Err(err) => Err(err),
    }
}


/// An index suffix `.( exp )`.
pub(crate) fn index_suffix(s: &[u8], p: usize) -> (r: Result<(usize, Syntax), ParseError>)
    requires
        p <= s@.len(),
        !(grammar::index_suffix(s@, p as nat) is Abort),
    ensures
        ends_settled(r, s@),
        agrees_syn(r, grammar::index_suffix(s@, p as nat)),
        r matches Ok((n, _)) ==> p < n <= s@.len(),
    decreases s@.len() - p, 1nat,
{
    let p1 = match wtag(s, p, &tok_dot()) {
        Ok(n) => n,
        Err(e) => return Err(e),
    };
    let p2 = match wtag(s, p1, &tok_lparen()) {
        Ok(n) => n,
        Err(e) => return Err(e),
    };
    let (p3, e) = match exp_at(s, p2) {
        Ok(r) => r,
        Err(e) => return Err(e),
    };
    match wtag(s, p3, &tok_rparen()) {
        Ok(p4) => Ok((p4, e)),
        Err(err) => Err(err),
    }
}

/// A simple expression without index suffixes.
pub(crate) fn simple_exp_no_index(s: &[u8], p: usize) -> (r: Result<(usize, Syntax), ParseError>)
    requires
        p <= s@.len(),
        !(grammar::simple_exp_no_index(s@, p as nat) is Abort),
    ensures
        ends_settled(r, s@),
        agrees_syn(r, grammar::simple_exp_no_index(s@, p as nat)),
        r matches Ok((n, _)) ==> p < n <= s@.len(),
    decreases s@.len() - p, 1nat,
{
    if let Ok(p1) = wtag(s, p, &tok_lparen()) {
        if let Ok((p2, e)) = exp_at(s, p1) {
            if let Ok(p3) = wtag(s, p2, &tok_rparen()) {
                return Ok((p3, e));
            }
        }
    }
    if let Ok(p1) = wtag(s, p, &tok_lparen()) {
        if let Ok(p2) = wtag(s, p1, &tok_rparen()) {
            return Ok((p2, Syntax::Unit));
        }
    }
    if let Ok((p1, b)) = bool_lit(s, p) {
        return Ok((p1, Syntax::Bool(b)));
    }
    if let Ok((p1, f)) = float_lit(s, p) {
        return Ok((p1, Syntax::Float(f)));
    }
    if let Ok((p1, i)) = int_lit(s, p) {
        return Ok((p1, Syntax::Int(i)));
    }
    match ident(s, p) {
        Ok((p1, x)) => Ok((p1, Syntax::mk_var(x))),
        Err(e) => Err(e),
    }
}

/// Zero or more index suffixes applied to `acc0`.
pub(crate) fn index_fold(s: &[u8], p0: usize, acc0: Syntax) -> (r: Result<(usize, Syntax), ParseError>)
    requires
        settled(s@, p0 as nat),
        p0 <= s@.len(),
        !(grammar::index_fold(s@, p0 as nat, acc0@) is Abort),
    ensures
        ends_settled(r, s@),
        agrees_syn(r, grammar::index_fold(s@, p0 as nat, acc0@)),
        ends_in(r, p0, s@),
    decreases s@.len() - p0, 2nat,
{
    let mut p = p0;
    let mut acc = acc0;
    loop
        invariant
            p0 <= p <= s@.len(),
            settled(s@, p as nat),
            grammar::index_fold(s@, p as nat, acc@) == grammar::index_fold(s@, p0 as nat, acc0@),
            !(grammar::index_fold(s@, p0 as nat, acc0@) is Abort),
        decreases s@.len() - p,
    {
        if p >= s.len() {
            return Ok((p, acc));
        }
        match index_suffix(s, p) {
            Ok((p1, i)) => {
                acc = Syntax::mk_get(acc, i);
                p = p1;
            },
            Err(ParseError::Error) => return Ok((p, acc)),
            Err(e) => return Err(e),
        }
    }
}

/// A simple expression followed by any number of index suffixes.
pub(crate) fn simple_exp(s: &[u8], p: usize) -> (r: Result<(usize, Syntax), ParseError>)
    requires
        p <= s@.len(),
        !(grammar::simple_exp(s@, p as nat) is Abort),
    ensures
        ends_settled(r, s@),
        agrees_syn(r, grammar::simple_exp(s@, p as nat)),
        r matches Ok((n, _)) ==> p < n <= s@.len(),
    decreases s@.len() - p, 3nat,
{
    match simple_exp_no_index(s, p) {
        Ok((p1, e)) => index_fold(s, p1, e),
        Err(e) => Err(e),
    }
}

/// Further index suffixes, collected in `acc0`.
pub(crate) fn index_list_loop(s: &[u8], p0: usize, acc0: Vec<Syntax>) -> (r: Result<(usize, Vec<Syntax>), ParseError>)
    requires
        settled(s@, p0 as nat),
        p0 <= s@.len(),
        !(grammar::index_list_loop(s@, p0 as nat, syntaxes_view(&acc0)) is Abort),
    ensures
        ends_settled(r, s@),
        agrees_syns(r, grammar::index_list_loop(s@, p0 as nat, syntaxes_view(&acc0))),
        ends_in(r, p0, s@),
        r matches Ok((_, v)) ==> v@.len() >= acc0@.len(),
    decreases s@.len() - p0, 2nat,
{
    let mut p = p0;
    let mut acc = acc0;
    loop
        invariant
            p0 <= p <= s@.len(),
            settled(s@, p as nat),
            acc@.len() >= acc0@.len(),
            grammar::index_list_loop(s@, p as nat, syntaxes_view(&acc))
                == grammar::index_list_loop(s@, p0 as nat, syntaxes_view(&acc0)),
            !(grammar::index_list_loop(s@, p0 as nat, syntaxes_view(&acc0)) is Abort),
        decreases s@.len() - p,
    {
        if p >= s.len() {
            return Ok((p, acc));
        }
        match index_suffix(s, p) {
            Ok((p1, i)) => {
                let ghost old_acc = acc;
                let ghost iv = i@;
                acc.push(i);
                proof { lemma_syntaxes_push(old_acc, acc, i); }
                p = p1;
            },
            Err(ParseError::Error) => return Ok((p, acc)),
            Err(e) => return Err(e),
        }
    }
}

/// A simple expression without suffixes and one or more index suffixes.
pub(crate) fn array_index_list(s: &[u8], p: usize) -> (r: Result<(usize, (Syntax, Vec<Syntax>)), ParseError>)
    requires
        p <= s@.len(),
        !(grammar::array_index_list(s@, p as nat) is Abort),
    ensures
        ends_settled(r, s@),
        agrees(r, grammar::array_index_list(s@, p as nat), |v: (Syntax, Vec<Syntax>)| (v.0@, syntaxes_view(&v.1))),
        ends_in(r, p, s@),
        r matches Ok((_, (_, is))) ==> is@.len() >= 1,
    decreases s@.len() - p, 3nat,
{
    let (p1, base) = match simple_exp_no_index(s, p) {
        Ok(r) => r,
        Err(e) => return Err(e),
    };
    let (p2, i) = match index_suffix(s, p1) {
        Ok(r) => r,
        Err(e) => return Err(e),
    };
    let is = vec1(i);
    if p2 == s.len() {
        return Ok((p2, (base, is)));
    }
    match index_list_loop(s, p2, is) {
        Ok((p3, is)) => Ok((p3, (base, is))),
        Err(e) => Err(e),
    }
}

/// Further simple expressions, collected in `acc0`.
pub(crate) fn simple_exps_loop(s: &[u8], p0: usize, acc0: Vec<Syntax>) -> (r: Result<(usize, Vec<Syntax>), ParseError>)
    requires
        settled(s@, p0 as nat),
        p0 <= s@.len(),
        !(grammar::simple_exps_loop(s@, p0 as nat, syntaxes_view(&acc0)) is Abort),
    ensures
        ends_settled(r, s@),
        agrees_syns(r, grammar::simple_exps_loop(s@, p0 as nat, syntaxes_view(&acc0))),
        ends_in(r, p0, s@),
        r matches Ok((_, v)) ==> v@.len() >= acc0@.len(),
    decreases s@.len() - p0, 4nat,
{
    let mut p = p0;
    let mut acc = acc0;
    loop
        invariant
            p0 <= p <= s@.len(),
            settled(s@, p as nat),
            acc@.len() >= acc0@.len(),
            grammar::simple_exps_loop(s@, p as nat, syntaxes_view(&acc))
                == grammar::simple_exps_loop(s@, p0 as nat, syntaxes_view(&acc0)),
            !(grammar::simple_exps_loop(s@, p0 as nat, syntaxes_view(&acc0)) is Abort),
        decreases s@.len() - p,
    {
        if p >= s.len() {
            return Ok((p, acc));
        }
        match simple_exp(s, p) {
            Ok((p1, e)) => {
                let ghost old_acc = acc;
                acc.push(e);
                proof { lemma_syntaxes_push(old_acc, acc, e); }
                p = p1;
            },
            Err(ParseError::Error) => return Ok((p, acc)),
            Err(e) => return Err(e),
        }
    }
}

/// One or more simple expressions.
pub(crate) fn simple_exps(s: &[u8], p: usize) -> (r: Result<(usize, Vec<Syntax>), ParseError>)
    requires
        p <= s@.len(),
        !(grammar::simple_exps(s@, p as nat) is Abort),
    ensures
        ends_settled(r, s@),
        agrees_syns(r, grammar::simple_exps(s@, p as nat)),
        ends_in(r, p, s@),
        r matches Ok((_, v)) ==> v@.len() >= 1,
    decreases s@.len() - p, 5nat,
{
    let (p1, e) = match simple_exp(s, p) {
        Ok(r) => r,
        Err(e) => return Err(e),
    };
    let es = vec1(e);
    if p1 == s.len() {
        return Ok((p1, es));
    }
    simple_exps_loop(s, p1, es)
}

/// The two elements of a vector of two expressions.
pub(crate) fn take_two(es: Vec<Syntax>) -> (r: (Syntax, Syntax))
    requires
        es@.len() == 2,
    ensures
        r.0@ == syntaxes_view(&es)[0],
        r.1@ == syntaxes_view(&es)[1],
{
    let ghost v = syntaxes_view(&es);
    let mut es = es;
    let b = es.pop().unwrap();
    let a = es.pop().unwrap();
    (a, b)
}

/// `! exp_app`.
pub(crate) fn app_not(s: &[u8], p: usize) -> (r: Result<(usize, Syntax), ParseError>)
    requires
        p <= s@.len(),
        !(grammar::app_not(s@, p as nat) is Abort),
    ensures
        ends_settled(r, s@),
        agrees_syn(r, grammar::app_not(s@, p as nat)),
        r matches Ok((n, _)) ==> p < n <= s@.len(),
    decreases s@.len() - p, 6nat,
{
    let p1 = match wtag(s, p, &tok_bang()) {
        Ok(n) => n,
        Err(e) => return Err(e),
    };
    match exp_app(s, p1) {
        Ok((p2, e)) => Ok((p2, Syntax::mk_not(e))),
        Err(e) => Err(e),
    }
}

/// `Array.create` or `Array.make` with two arguments.
pub(crate) fn app_array(s: &[u8], p: usize) -> (r: Result<(usize, Syntax), ParseError>)
    requires
        p <= s@.len(),
        !(grammar::app_array(s@, p as nat) is Abort),
    ensures
        ends_settled(r, s@),
        agrees_syn(r, grammar::app_array(s@, p as nat)),
        r matches Ok((n, _)) ==> p < n <= s@.len(),
    decreases s@.len() - p, 6nat,
{
    let p1 = match array_kw(s, p) {
        Ok(n) => n,
        Err(e) => return Err(e),
    };
    match simple_exps(s, p1) {
        Ok((p2, es)) => {
            assert(syntaxes_view(&es).len() == es@.len());
            let (a, b) = take_two(es);
            Ok((p2, Syntax::mk_array(a, b)))
        },
        Err(e) => Err(e),
    }
}

/// Negation with `!`, array creation, application, or a simple expression.
pub(crate) fn exp_app(s: &[u8], p: usize) -> (r: Result<(usize, Syntax), ParseError>)
    requires
        p <= s@.len(),
        !(grammar::exp_app(s@, p as nat) is Abort),
    ensures
        ends_settled(r, s@),
        agrees_syn(r, grammar::exp_app(s@, p as nat)),
        r matches Ok((n, _)) ==> p < n <= s@.len(),
    decreases s@.len() - p, 7nat,
{
    if let Ok(r) = app_not(s, p) {
        return Ok(r);
    }
    if let Ok(r) = app_array(s, p) {
        return Ok(r);
    }
    match simple_exp(s, p) {
        Ok((p1, f)) => match simple_exps(s, p1) {
            Ok((p2, es)) => Ok((p2, Syntax::mk_app(f, es))),
            Err(_) => Ok((p1, f)),
        },
        Err(e) => Err(e),
    }
}

/// Unary minus, or an application.
pub(crate) fn exp_unary_minus(s: &[u8], p: usize) -> (r: Result<(usize, Syntax), ParseError>)
    requires
        p <= s@.len(),
        !(grammar::exp_unary_minus(s@, p as nat) is Abort),
    ensures
        ends_settled(r, s@),
        agrees_syn(r, grammar::exp_unary_minus(s@, p as nat)),
        r matches Ok((n, _)) ==> p < n <= s@.len(),
    decreases s@.len() - p, 8nat,
{
    if let Ok(p1) = wtag(s, p, &tok_minus_dot()) {
        if let Ok((p2, e)) = exp_unary_minus(s, p1) {
            return Ok((p2, Syntax::mk_fneg(e)));
        }
    }
    if let Ok(p1) = wtag(s, p, &tok_minus()) {
        if let Ok((p2, e)) = exp_unary_minus(s, p1) {
            let is_float = match &e {
                Syntax::Float(_) => true,
                _ => false,
            };
            if is_float {
                return Ok((p2, Syntax::mk_fneg(e)));
            } else {
                return Ok((p2, Syntax::mk_neg(e)));
            }
        }
    }
    exp_app(s, p)
}

/// Multiplicative operators and their right operands folded into `acc0`.
pub(crate) fn mult_fold(s: &[u8], p0: usize, acc0: Syntax) -> (r: Result<(usize, Syntax), ParseError>)
    requires
        settled(s@, p0 as nat),
        p0 <= s@.len(),
        !(grammar::mult_fold(s@, p0 as nat, acc0@) is Abort),
    ensures
        ends_settled(r, s@),
        agrees_syn(r, grammar::mult_fold(s@, p0 as nat, acc0@)),
        ends_in(r, p0, s@),
    decreases s@.len() - p0, 8nat,
{
    let mut p = p0;
    let mut acc = acc0;
    loop
        invariant
            p0 <= p <= s@.len(),
            settled(s@, p as nat),
            grammar::mult_fold(s@, p as nat, acc@) == grammar::mult_fold(s@, p0 as nat, acc0@),
            !(grammar::mult_fold(s@, p0 as nat, acc0@) is Abort),
        decreases s@.len() - p,
    {
        if p >= s.len() {
            return Ok((p, acc));
        }
        match mult_op(s, p) {
            Ok((p1, op)) => match exp_unary_minus(s, p1) {
                Ok((p2, e)) => {
                    acc = Syntax::mk_float_bin(op, acc, e);
                    p = p2;
                },
                Err(ParseError::Error) => return Ok((p, acc)),
                Err(e) => return Err(e),
            },
            Err(ParseError::Error) => return Ok((p, acc)),
            Err(e) => return Err(e),
        }
    }
}

/// A left-associated chain of multiplicative operators.
pub(crate) fn exp_multiplicative(s: &[u8], p: usize) -> (r: Result<(usize, Syntax), ParseError>)
    requires
        p <= s@.len(),
        !(grammar::exp_multiplicative(s@, p as nat) is Abort),
    ensures
        ends_settled(r, s@),
        agrees_syn(r, grammar::exp_multiplicative(s@, p as nat)),
        r matches Ok((n, _)) ==> p < n <= s@.len(),
    decreases s@.len() - p, 9nat,
{
    match exp_unary_minus(s, p) {
        Ok((p1, e)) => mult_fold(s, p1, e),
        Err(e) => Err(e),
    }
}

/// The binary operation that an additive operator denotes.
fn additive(op: Result<IntBin, FloatBin>, acc: Syntax, arg: Syntax) -> (r: Syntax)
    ensures
        r@ == grammar::additive(op, acc@, arg@),
{
    match op {
        Ok(iop) => Syntax::mk_int_bin(iop, acc, arg),
        Err(fop) => Syntax::mk_float_bin(fop, acc, arg),
    }
}

/// Additive operators and their right operands folded into `acc0`.
pub(crate) fn add_fold(s: &[u8], p0: usize, acc0: Syntax) -> (r: Result<(usize, Syntax), ParseError>)
    requires
        settled(s@, p0 as nat),
        p0 <= s@.len(),
        !(grammar::add_fold(s@, p0 as nat, acc0@) is Abort),
    ensures
        ends_settled(r, s@),
        agrees_syn(r, grammar::add_fold(s@, p0 as nat, acc0@)),
        ends_in(r, p0, s@),
    decreases s@.len() - p0, 9nat,
{
    let mut p = p0;
    let mut acc = acc0;
    loop
        invariant
            p0 <= p <= s@.len(),
            settled(s@, p as nat),
            grammar::add_fold(s@, p as nat, acc@) == grammar::add_fold(s@, p0 as nat, acc0@),
            !(grammar::add_fold(s@, p0 as nat, acc0@) is Abort),
        decreases s@.len() - p,
    {
        if p >= s.len() {
            return Ok((p, acc));
        }
        match add_op(s, p) {
            Ok((p1, op)) => match exp_multiplicative(s, p1) {
                Ok((p2, e)) => {
                    acc = additive(op, acc, e);
                    p = p2;
                },
                Err(ParseError::Error) => return Ok((p, acc)),
                Err(e) => return Err(e),
            },
            Err(ParseError::Error) => return Ok((p, acc)),
            Err(e) => return Err(e),
        }
    }
}

/// A left-associated chain of additive operators.
pub(crate) fn exp_additive(s: &[u8], p: usize) -> (r: Result<(usize, Syntax), ParseError>)
    requires
        p <= s@.len(),
        !(grammar::exp_additive(s@, p as nat) is Abort),
    ensures
        ends_settled(r, s@),
        agrees_syn(r, grammar::exp_additive(s@, p as nat)),
        r matches Ok((n, _)) ==> p < n <= s@.len(),
    decreases s@.len() - p, 10nat,
{
    match exp_multiplicative(s, p) {
        Ok((p1, e)) => add_fold(s, p1, e),
        Err(e) => Err(e),
    }
}

/// The comparison of `acc` with `arg`, as the operator found says.
fn comparison(op: (CompBin, bool, bool), acc: Syntax, arg: Syntax) -> (r: Syntax)
    ensures
        r@ == grammar::comparison(op, acc@, arg@),
{
    let (cop, negated, flipped) = op;
    let ast = if flipped {
        Syntax::mk_comp_bin(cop, arg, acc)
    } else {
        Syntax::mk_comp_bin(cop, acc, arg)
    };
    if negated { Syntax::mk_not(ast) } else { ast }
}

/// Comparison operators and their right operands folded into `acc0`.
pub(crate) fn comp_fold(s: &[u8], p0: usize, acc0: Syntax) -> (r: Result<(usize, Syntax), ParseError>)
    requires
        settled(s@, p0 as nat),
        p0 <= s@.len(),
        !(grammar::comp_fold(s@, p0 as nat, acc0@) is Abort),
    ensures
        ends_settled(r, s@),
        agrees_syn(r, grammar::comp_fold(s@, p0 as nat, acc0@)),
        ends_in(r, p0, s@),
    decreases s@.len() - p0, 10nat,
{
    let mut p = p0;
    let mut acc = acc0;
    loop
        invariant
            p0 <= p <= s@.len(),
            settled(s@, p as nat),
            grammar::comp_fold(s@, p as nat, acc@) == grammar::comp_fold(s@, p0 as nat, acc0@),
            !(grammar::comp_fold(s@, p0 as nat, acc0@) is Abort),
        decreases s@.len() - p,
    {
        if p >= s.len() {
            return Ok((p, acc));
        }
        match comp_op(s, p) {
            Ok((p1, op)) => match exp_additive(s, p1) {
                Ok((p2, e)) => {
                    acc = comparison(op, acc, e);
                    p = p2;
                },
                Err(ParseError::Error) => return Ok((p, acc)),
                Err(e) => return Err(e),
            },
            Err(ParseError::Error) => return Ok((p, acc)),
            Err(e) => return Err(e),
        }
    }
}

/// A left-associated chain of comparisons.
pub(crate) fn exp_comparative(s: &[u8], p: usize) -> (r: Result<(usize, Syntax), ParseError>)
    requires
        p <= s@.len(),
        !(grammar::exp_comparative(s@, p as nat) is Abort),
    ensures
        ends_settled(r, s@),
        agrees_syn(r, grammar::exp_comparative(s@, p as nat)),
        r matches Ok((n, _)) ==> p < n <= s@.len(),
    decreases s@.len() - p, 11nat,
{
    match exp_additive(s, p) {
        Ok((p1, e)) => comp_fold(s, p1, e),
        Err(e) => Err(e),
    }
}

/// Further `, exp_comparative` elements of a tuple, collected in `acc0`.
pub(crate) fn comma_loop(s: &[u8], p0: usize, acc0: Vec<Syntax>) -> (r: Result<(usize, Vec<Syntax>), ParseError>)
    requires
        settled(s@, p0 as nat),
        p0 <= s@.len(),
        !(grammar::comma_loop(s@, p0 as nat, syntaxes_view(&acc0)) is Abort),
    ensures
        ends_settled(r, s@),
        agrees_syns(r, grammar::comma_loop(s@, p0 as nat, syntaxes_view(&acc0))),
        ends_in(r, p0, s@),
    decreases s@.len() - p0, 11nat,
{
    let mut p = p0;
    let mut acc = acc0;
    loop
        invariant
            p0 <= p <= s@.len(),
            settled(s@, p as nat),
            grammar::comma_loop(s@, p as nat, syntaxes_view(&acc))
                == grammar::comma_loop(s@, p0 as nat, syntaxes_view(&acc0)),
            !(grammar::comma_loop(s@, p0 as nat, syntaxes_view(&acc0)) is Abort),
        decreases s@.len() - p,
    {
        if p >= s.len() {
            return Ok((p, acc));
        }
        match wtag(s, p, &tok_comma()) {
            Ok(p1) => match exp_comparative(s, p1) {
                Ok((p2, e)) => {
                    let ghost old_acc = acc;
                    acc.push(e);
                    proof { lemma_syntaxes_push(old_acc, acc, e); }
                    p = p2;
                },
                Err(ParseError::Error) => return Ok((p, acc)),
                Err(e) => return Err(e),
            },
            Err(ParseError::Error) => return Ok((p, acc)),
            Err(e) => return Err(e),
        }
    }
}

/// A comma, a second comparison, and any further ones, after `first`.
/// The rest of a tuple whose first elements `acc0` end at `p`.
pub(crate) fn tuple_tail(s: &[u8], p: usize, acc0: Vec<Syntax>) -> (r: Result<(usize, Syntax), ParseError>)
    requires
        settled(s@, p as nat),
        p <= s@.len(),
        !(grammar::tuple_tail(s@, p as nat, syntaxes_view(&acc0)) is Abort),
    ensures
        ends_settled(r, s@),
        agrees_syn(r, grammar::tuple_tail(s@, p as nat, syntaxes_view(&acc0))),
        ends_in(r, p, s@),
    decreases s@.len() - p, 12nat,
{
    if p == s.len() {
        return Ok((p, Syntax::mk_tuple(acc0)));
    }
    match comma_loop(s, p, acc0) {
        Ok((p1, es)) => Ok((p1, Syntax::mk_tuple(es))),
        Err(e) => Err(e),
    }
}

/// A comma, a second comparison, and any further ones, after the first
/// comparison `acc0` of a tuple.
pub(crate) fn comma_rest(s: &[u8], p: usize, acc0: Vec<Syntax>) -> (r: Result<(usize, Syntax), ParseError>)
    requires
        p <= s@.len(),
        !(grammar::comma_rest(s@, p as nat, syntaxes_view(&acc0)) is Abort),
    ensures
        ends_settled(r, s@),
        agrees_syn(r, grammar::comma_rest(s@, p as nat, syntaxes_view(&acc0))),
        ends_in(r, p, s@),
    decreases s@.len() - p, 12nat,
{
    let p1 = match wtag(s, p, &tok_comma()) {
        Ok(n) => n,
        Err(e) => return Err(e),
    };
    let (p2, second) = match exp_comparative(s, p1) {
        Ok(r) => r,
        Err(e) => return Err(e),
    };
    let ghost old_acc = acc0;
    let mut acc = acc0;
    acc.push(second);
    proof { lemma_syntaxes_push(old_acc, acc, second); }
    tuple_tail(s, p2, acc)
}

/// Two or more comparisons separated by commas.
pub(crate) fn comma_tuple(s: &[u8], p: usize) -> (r: Result<(usize, Syntax), ParseError>)
    requires
        p <= s@.len(),
        !(grammar::comma_tuple(s@, p as nat) is Abort),
    ensures
        ends_settled(r, s@),
        agrees_syn(r, grammar::comma_tuple(s@, p as nat)),
        r matches Ok((n, _)) ==> p < n <= s@.len(),
    decreases s@.len() - p, 13nat,
{
    match exp_comparative(s, p) {
        Ok((p1, first)) => comma_rest(s, p1, vec1(first)),
        Err(e) => Err(e),
    }
}

/// A tuple of comparisons, or one comparison.
pub(crate) fn exp_comma(s: &[u8], p: usize) -> (r: Result<(usize, Syntax), ParseError>)
    requires
        p <= s@.len(),
        !(grammar::exp_comma(s@, p as nat) is Abort),
    ensures
        ends_settled(r, s@),
        agrees_syn(r, grammar::exp_comma(s@, p as nat)),
        r matches Ok((n, _)) ==> p < n <= s@.len(),
    decreases s@.len() - p, 14nat,
{
    if let Ok(r) = comma_tuple(s, p) {
        return Ok(r);
    }
    exp_comparative(s, p)
}

/// `base` indexed by each of `is` in turn.
pub(crate) fn get_chain(base: Syntax, is: Vec<Syntax>) -> (r: Syntax)
    ensures
        r@ == grammar::get_chain(base@, syntaxes_view(&is)),
    decreases is@.len(),
{
    if is.len() == 0 {
        return base;
    }
    let ghost v = syntaxes_view(&is);
    assert(v.len() == is@.len());
    let mut is = is;
    let last = is.pop().unwrap();
    assert(syntaxes_view(&is) =~= v.drop_last());
    assert(last@ == v.last());
    let inner = get_chain(base, is);
    Syntax::mk_get(inner, last)
}

/// An assignment `a.(i)...(j) <- e` to an array element.
pub(crate) fn assign_put(s: &[u8], p: usize) -> (r: Result<(usize, Syntax), ParseError>)
    requires
        p <= s@.len(),
        !(grammar::assign_put(s@, p as nat) is Abort),
    ensures
        ends_settled(r, s@),
        agrees_syn(r, grammar::assign_put(s@, p as nat)),
        r matches Ok((n, _)) ==> p < n <= s@.len(),
    decreases s@.len() - p, 15nat,
{
    let (p1, (base, is)) = match array_index_list(s, p) {
        Ok(r) => r,
        Err(e) => return Err(e),
    };
    let p2 = match wtag(s, p1, &tok_assign()) {
        Ok(n) => n,
        Err(e) => return Err(e),
    };
    let (p3, e) = match exp_comma(s, p2) {
        Ok(r) => r,
        Err(e) => return Err(e),
    };
    let ghost v = syntaxes_view(&is);
    assert(v.len() == is@.len());
    let mut is = is;
    let last = is.pop().unwrap();
    assert(syntaxes_view(&is) =~= v.drop_last());
    assert(last@ == v.last());
    Ok((p3, Syntax::mk_put(get_chain(base, is), last, e)))
}

/// An assignment to an array element, or a tuple.
pub(crate) fn exp_assign(s: &[u8], p: usize) -> (r: Result<(usize, Syntax), ParseError>)
    requires
        p <= s@.len(),
        !(grammar::exp_assign(s@, p as nat) is Abort),
    ensures
        ends_settled(r, s@),
        agrees_syn(r, grammar::exp_assign(s@, p as nat)),
        r matches Ok((n, _)) ==> p < n <= s@.len(),
    decreases s@.len() - p, 16nat,
{
    if let Ok(r) = assign_put(s, p) {
        return Ok(r);
    }
    exp_comma(s, p)
}

/// `if exp then exp else ...`.
pub(crate) fn if_then_else(s: &[u8], p: usize) -> (r: Result<(usize, Syntax), ParseError>)
    requires
        p <= s@.len(),
        !(grammar::if_then_else(s@, p as nat) is Abort),
    ensures
        ends_settled(r, s@),
        agrees_syn(r, grammar::if_then_else(s@, p as nat)),
        r matches Ok((n, _)) ==> p < n <= s@.len(),
    decreases s@.len() - p, 17nat,
{
    let p1 = match wtag(s, p, &kw_if()) {
        Ok(n) => n,
        Err(e) => return Err(e),
    };
    let (p2, c) = match exp_at(s, p1) {
        Ok(r) => r,
        Err(e) => return Err(e),
    };
    let p3 = match wtag(s, p2, &kw_then()) {
        Ok(n) => n,
        Err(e) => return Err(e),
    };
    let (p4, a) = match exp_at(s, p3) {
        Ok(r) => r,
        Err(e) => return Err(e),
    };
    let p5 = match wtag(s, p4, &kw_else()) {
        Ok(n) => n,
        Err(e) => return Err(e),
    };
    match exp_let_forms(s, p5, true) {
        Ok((p6, b)) => Ok((p6, Syntax::mk_if(c, a, b))),
        Err(e) => Err(e),
    }
}

/// A conditional, or an assignment.
pub(crate) fn exp_if(s: &[u8], p: usize) -> (r: Result<(usize, Syntax), ParseError>)
    requires
        p <= s@.len(),
        !(grammar::exp_if(s@, p as nat) is Abort),
    ensures
        ends_settled(r, s@),
        agrees_syn(r, grammar::exp_if(s@, p as nat)),
        r matches Ok((n, _)) ==> p < n <= s@.len(),
    decreases s@.len() - p, 18nat,
{
    if let Ok(r) = if_then_else(s, p) {
        return Ok(r);
    }
    exp_assign(s, p)
}

/// The name of the unit binder that sequencing introduces.
fn dummy_name() -> (r: String)
    ensures
        r@ == grammar::dummy_name(),
{
    let mut name = String::new();
    string_push(&mut name, '_');
    string_push(&mut name, 'd');
    string_push(&mut name, 'u');
    string_push(&mut name, 'm');
    string_push(&mut name, 'm');
    string_push(&mut name, 'y');
    assert(name@ =~= grammar::dummy_name());
    name
}

/// A sequence `e1; e2`, or a conditional.
pub(crate) fn exp_semicolon(s: &[u8], p: usize) -> (r: Result<(usize, Syntax), ParseError>)
    requires
        p <= s@.len(),
        !(grammar::exp_semicolon(s@, p as nat) is Abort),
    ensures
        ends_settled(r, s@),
        agrees_syn(r, grammar::exp_semicolon(s@, p as nat)),
        r matches Ok((n, _)) ==> p < n <= s@.len(),
    decreases s@.len() - p, 20nat,
{
    let (p1, a) = match exp_if(s, p) {
        Ok(r) => r,
        Err(e) => return Err(e),
    };
    let p2 = match wtag(s, p1, &tok_semicolon()) {
        Ok(n) => n,
        Err(_) => return Ok((p1, a)),
    };
    match exp_at(s, p2) {
        Ok((p3, b)) => Ok((p3, Syntax::mk_let((dummy_name(), Type::Unit), a, b))),
        Err(_) => Ok((p1, a)),
    }
}

/// `let x = e1 in e2`.
pub(crate) fn let_simple(s: &[u8], p: usize, after_if: bool) -> (r: Result<(usize, Syntax), ParseError>)
    requires
        p <= s@.len(),
        !(grammar::let_simple(s@, p as nat, after_if) is Abort),
    ensures
        ends_settled(r, s@),
        agrees_syn(r, grammar::let_simple(s@, p as nat, after_if)),
        r matches Ok((n, _)) ==> p < n <= s@.len(),
    decreases s@.len() - p, 21nat,
{
    let p1 = match wtag(s, p, &kw_let()) {
        Ok(n) => n,
        Err(e) => return Err(e),
    };
    let (p2, x) = match ident(s, p1) {
        Ok(r) => r,
        Err(e) => return Err(e),
    };
    let p3 = match wtag(s, p2, &tok_equal()) {
        Ok(n) => n,
        Err(e) => return Err(e),
    };
    let (p4, e1) = match exp_at(s, p3) {
        Ok(r) => r,
        Err(e) => return Err(e),
    };
    let p5 = match wtag(s, p4, &kw_in()) {
        Ok(n) => n,
        Err(e) => return Err(e),
    };
    match exp_let_forms(s, p5, after_if) {
        Ok((p6, e2)) => Ok((p6, Syntax::mk_let((x, Type::Var(0)), e1, e2))),
        Err(e) => Err(e),
    }
}

/// `let rec f x ... = e1 in e2`.
pub(crate) fn let_rec(s: &[u8], p: usize, after_if: bool) -> (r: Result<(usize, Syntax), ParseError>)
    requires
        p <= s@.len(),
        !(grammar::let_rec(s@, p as nat, after_if) is Abort),
    ensures
        ends_settled(r, s@),
        agrees_syn(r, grammar::let_rec(s@, p as nat, after_if)),
        r matches Ok((n, _)) ==> p < n <= s@.len(),
    decreases s@.len() - p, 21nat,
{
    let p1 = match wtag(s, p, &kw_let()) {
        Ok(n) => n,
        Err(e) => return Err(e),
    };
    let p2 = match wtag(s, p1, &kw_rec()) {
        Ok(n) => n,
        Err(e) => return Err(e),
    };
    let (p3, f) = match fundef(s, p2) {
        Ok(r) => r,
        Err(e) => return Err(e),
    };
    let p4 = match wtag(s, p3, &kw_in()) {
        Ok(n) => n,
        Err(e) => return Err(e),
    };
    match exp_let_forms(s, p4, after_if) {
        Ok((p5, e)) => Ok((p5, Syntax::mk_let_rec(f, e))),
        Err(e) => Err(e),
    }
}

/// `let (x, y, ...) = e1 in e2`.
pub(crate) fn let_tuple(s: &[u8], p: usize, after_if: bool) -> (r: Result<(usize, Syntax), ParseError>)
    requires
        p <= s@.len(),
        !(grammar::let_tuple(s@, p as nat, after_if) is Abort),
    ensures
        ends_settled(r, s@),
        agrees_syn(r, grammar::let_tuple(s@, p as nat, after_if)),
        r matches Ok((n, _)) ==> p < n <= s@.len(),
    decreases s@.len() - p, 21nat,
{
    let p1 = match wtag(s, p, &kw_let()) {
        Ok(n) => n,
        Err(e) => return Err(e),
    };
    let p2 = match wtag(s, p1, &tok_lparen()) {
        Ok(n) => n,
        Err(e) => return Err(e),
    };
    let (p3, xs) = match pat(s, p2) {
        Ok(r) => r,
        Err(e) => return Err(e),
    };
    let p4 = match wtag(s, p3, &tok_rparen()) {
        Ok(n) => n,
        Err(e) => return Err(e),
    };
    let p5 = match wtag(s, p4, &tok_equal()) {
        Ok(n) => n,
        Err(e) => return Err(e),
    };
    let (p6, e1) = match exp_at(s, p5) {
        Ok(r) => r,
        Err(e) => return Err(e),
    };
    let p7 = match wtag(s, p6, &kw_in()) {
        Ok(n) => n,
        Err(e) => return Err(e),
    };
    match exp_let_forms(s, p7, after_if) {
        Ok((p8, e2)) => Ok((p8, Syntax::mk_let_tuple(xs, e1, e2))),
        Err(e) => Err(e),
    }
}

/// The `let` forms, then a sequence (or, in an else branch, a conditional).
pub(crate) fn exp_let_forms(s: &[u8], p: usize, after_if: bool) -> (r: Result<(usize, Syntax), ParseError>)
    requires
        p <= s@.len(),
        !(grammar::exp_let_forms(s@, p as nat, after_if) is Abort),
    ensures
        ends_settled(r, s@),
        agrees_syn(r, grammar::exp_let_forms(s@, p as nat, after_if)),
        r matches Ok((n, _)) ==> p < n <= s@.len(),
    decreases s@.len() - p, 22nat,
{
    if let Ok(r) = let_simple(s, p, after_if) {
        return Ok(r);
    }
    if let Ok(r) = let_rec(s, p, after_if) {
        return Ok(r);
    }
    if let Ok(r) = let_tuple(s, p, after_if) {
        return Ok(r);
    }
    if after_if { exp_if(s, p) } else { exp_semicolon(s, p) }
}

/// A function definition: name, parameters, `=`, and body.
pub(crate) fn fundef(s: &[u8], p: usize) -> (r: Result<(usize, Fundef), ParseError>)
    requires
        p <= s@.len(),
        !(grammar::fundef(s@, p as nat) is Abort),
    ensures
        ends_settled(r, s@),
        agrees(r, grammar::fundef(s@, p as nat), |f: Fundef| f@),
        r matches Ok((n, _)) ==> p < n <= s@.len(),
    decreases s@.len() - p, 0nat,
{
    let (p1, f) = match ident(s, p) {
        Ok(r) => r,
        Err(e) => return Err(e),
    };
    let (p2, xs) = match formal_args(s, p1) {
        Ok(r) => r,
        Err(e) => return Err(e),
    };
    let p3 = match wtag(s, p2, &tok_equal()) {
        Ok(n) => n,
        Err(e) => return Err(e),
    };
    match exp_at(s, p3) {
        Ok((p4, e)) => Ok((p4, Fundef { name: (f, Type::Var(0)), args: xs, body: Box::new(e) })),
        Err(e) => Err(e),
    }
}

/// An expression starting at position `p`.
pub(crate) fn exp_at(s: &[u8], p: usize) -> (r: Result<(usize, Syntax), ParseError>)
    requires
        p <= s@.len(),
        !(grammar::exp(s@, p as nat) is Abort),
    ensures
        ends_settled(r, s@),
        agrees_syn(r, grammar::exp(s@, p as nat)),
        r matches Ok((n, _)) ==> p < n <= s@.len(),
    decreases s@.len() - p, 23nat,
{
    let q = ws(s, p);
    exp_let_forms(s, q, false)
}


/// One or more parameter names.
pub(crate) fn formal_args(s: &[u8], p: usize) -> (r: Result<(usize, Vec<(String, Type)>), ParseError>)
    requires
        p <= s@.len(),
    ensures
        ends_settled(r, s@),
        agrees_binders(r, grammar::formal_args(s@, p as nat)),
        r matches Ok((n, _)) ==> p < n <= s@.len(),
{
    let (p1, x) = match ident(s, p) {
        Ok(r) => r,
        Err(e) => return Err(e),
    };
    let mut acc: Vec<(String, Type)> = Vec::new();
    let ghost xv = x@;
    acc.push((x, Type::Var(0)));
    assert(binders_view(&acc) =~= seq![grammar::untyped(xv)]);
    if p1 == s.len() {
        return Ok((p1, acc));
    }
    let mut q = p1;
    loop
        invariant
            p < q <= s@.len(),
            settled(s@, q as nat),
            grammar::formal_args_loop(s@, q as nat, binders_view(&acc)) == grammar::formal_args(s@, p as nat),
        decreases s@.len() - q,
    {
        if q >= s.len() {
            return Ok((q, acc));
        }
        match ident(s, q) {
            Ok((q1, y)) => {
                let ghost old_acc = acc;
                let b = (y, Type::Var(0));
                let ghost bv = binder_view(&b);
                acc.push(b);
                proof { lemma_binders_push(old_acc, acc, b); }
                q = q1;
            },
            Err(ParseError::Error) => return Ok((q, acc)),
            Err(e) => return Err(e),
        }
    }
}

/// A tuple pattern: two or more identifiers separated by commas.
pub(crate) fn pat(s: &[u8], p: usize) -> (r: Result<(usize, Vec<(String, Type)>), ParseError>)
    requires
        p <= s@.len(),
    ensures
        ends_settled(r, s@),
        agrees_binders(r, grammar::pat(s@, p as nat)),
        r matches Ok((n, _)) ==> p < n <= s@.len(),
{
    let (p1, x) = match ident(s, p) {
        Ok(r) => r,
        Err(e) => return Err(e),
    };
    let p2 = match wtag(s, p1, &tok_comma()) {
        Ok(n) => n,
        Err(e) => return Err(e),
    };
    let (p3, y) = match ident(s, p2) {
        Ok(r) => r,
        Err(e) => return Err(e),
    };
    let mut acc: Vec<(String, Type)> = Vec::new();
    let ghost xv = x@;
    let ghost yv = y@;
    acc.push((x, Type::Var(0)));
    acc.push((y, Type::Var(0)));
    assert(binders_view(&acc) =~= seq![grammar::untyped(xv), grammar::untyped(yv)]);
    if p3 == s.len() {
        return Ok((p3, acc));
    }
    let mut q = p3;
    loop
        invariant
            p < q <= s@.len(),
            settled(s@, q as nat),
            grammar::pat_loop(s@, q as nat, binders_view(&acc)) == grammar::pat(s@, p as nat),
        decreases s@.len() - q,
    {
        if q >= s.len() {
            return Ok((q, acc));
        }
        match wtag(s, q, &tok_comma()) {
            Ok(q1) => match ident(s, q1) {
                Ok((q2, z)) => {
                    let ghost old_acc = acc;
                    let b = (z, Type::Var(0));
                    acc.push(b);
                    proof { lemma_binders_push(old_acc, acc, b); }
                    q = q2;
                },
                Err(ParseError::Error) => return Ok((q, acc)),
                Err(e) => return Err(e),
            },
            Err(ParseError::Error) => return Ok((q, acc)),
            Err(e) => return Err(e),
        }
    }
}

/// Parses an expression at the start of `s`, skipping blanks around it.
/// The result is the rest of the input after the expression and the
/// expression; or how the parse failed.
pub fn exp(s: &[u8]) -> (r: Result<(&[u8], Syntax), ParseError>)
    requires
        !(grammar::exp(s@, 0) is Abort),
    ensures
        match r {
            Ok((rest, e)) => grammar::exp(s@, 0) matches PRes::Done(n, v)
                && rest@ == s@.subrange(n as int, s@.len() as int) && e@ == v,
            Err(ParseError::Error) => grammar::exp(s@, 0) is Error,
            Err(ParseError::Incomplete) => grammar::exp(s@, 0) is Incomplete,
        },
        r matches Ok((rest, _)) ==> rest@.len() < s@.len(),
        r matches Ok((rest, _)) ==> rest@.len() == 0 || !grammar::is_blank(rest@[0]),
{
    match exp_at(s, 0) {
        Ok((n, e)) => {
            proof { grammar::lemma_ws(s@, n as nat); }
            let rest = slice_subrange(s, n, s.len());
            assert(rest@.len() > 0 ==> rest@[0] == s@[n as int]);
            Ok((rest, e))
        },
        Err(err) => Err(err),
    }
}

// ---------------------------------------------------------------------------
// Fresh type variables for binders
// ---------------------------------------------------------------------------

/// The type of a binder annotated with `t`, with the counter at `n`, and the
/// counter afterwards: a type variable is replaced by a fresh one.
pub open spec fn fresh_type(t: TypeV, n: u64) -> (TypeV, u64) {
    match t {
        TypeV::Var(_) => (TypeV::Var(n), next_count(n)),
        _ => (t, n),
    }
}

/// `fresh_type` applied to each binder of `bs` in turn.
pub open spec fn uniq_binders(bs: Seq<BinderV>, n: u64) -> (Seq<BinderV>, u64)
    decreases bs.len(),
{
    if bs.len() == 0 {
        (bs, n)
    } else {
        let (front, n1) = uniq_binders(bs.drop_last(), n);
        let (t, n2) = fresh_type(bs.last().1, n1);
        (front.push((bs.last().0, t)), n2)
    }
}

/// `e` with each binder annotated by a type variable given a fresh one, in
/// the order of a left-to-right walk that visits a binder before the
/// expressions it scopes over; and the counter afterwards.
pub open spec fn uniq(e: SyntaxV, n: u64) -> (SyntaxV, u64)
    decreases syn_size(e),
{
    match e {
        SyntaxV::Let(xt, a, b) => {
            let (t, n1) = fresh_type(xt.1, n);
            let (a2, n2) = uniq(*a, n1);
            let (b2, n3) = uniq(*b, n2);
            (SyntaxV::Let((xt.0, t), Box::new(a2), Box::new(b2)), n3)
        },
        SyntaxV::LetRec(f, b) => {
            let (t, n1) = fresh_type(f.name.1, n);
            let (args, n2) = uniq_binders(f.args, n1);
            let (body, n3) = uniq(*f.body, n2);
            let (b2, n4) = uniq(*b, n3);
            (SyntaxV::LetRec(FundefV { name: (f.name.0, t), args: args, body: Box::new(body) }, Box::new(b2)), n4)
        },
        SyntaxV::LetTuple(xts, a, b) => {
            let (xts2, n1) = uniq_binders(xts, n);
            let (a2, n2) = uniq(*a, n1);
            let (b2, n3) = uniq(*b, n2);
            (SyntaxV::LetTuple(xts2, Box::new(a2), Box::new(b2)), n3)
        },
        SyntaxV::Not(a) => {
            let (a2, n1) = uniq(*a, n);
            (SyntaxV::Not(Box::new(a2)), n1)
        },
        SyntaxV::Neg(a) => {
            let (a2, n1) = uniq(*a, n);
            (SyntaxV::Neg(Box::new(a2)), n1)
        },
        SyntaxV::FNeg(a) => {
            let (a2, n1) = uniq(*a, n);
            (SyntaxV::FNeg(Box::new(a2)), n1)
        },
        SyntaxV::IntBin(op, a, b) => {
            let (a2, n1) = uniq(*a, n);
            let (b2, n2) = uniq(*b, n1);
            (SyntaxV::IntBin(op, Box::new(a2), Box::new(b2)), n2)
        },
        SyntaxV::FloatBin(op, a, b) => {
            let (a2, n1) = uniq(*a, n);
            let (b2, n2) = uniq(*b, n1);
            (SyntaxV::FloatBin(op, Box::new(a2), Box::new(b2)), n2)
        },
        SyntaxV::CompBin(op, a, b) => {
            let (a2, n1) = uniq(*a, n);
            let (b2, n2) = uniq(*b, n1);
            (SyntaxV::CompBin(op, Box::new(a2), Box::new(b2)), n2)
        },
        SyntaxV::If(c, a, b) => {
            let (c2, n1) = uniq(*c, n);
            let (a2, n2) = uniq(*a, n1);
            let (b2, n3) = uniq(*b, n2);
            (SyntaxV::If(Box::new(c2), Box::new(a2), Box::new(b2)), n3)
        },
        SyntaxV::App(f, args) => {
            let (f2, n1) = uniq(*f, n);
            let (args2, n2) = uniq_list(args, n1);
            (SyntaxV::App(Box::new(f2), args2), n2)
        },
        SyntaxV::Tuple(es) => {
            let (es2, n1) = uniq_list(es, n);
            (SyntaxV::Tuple(es2), n1)
        },
        SyntaxV::Array(a, b) => {
            let (a2, n1) = uniq(*a, n);
            let (b2, n2) = uniq(*b, n1);
            (SyntaxV::Array(Box::new(a2), Box::new(b2)), n2)
        },
        SyntaxV::Get(a, b) => {
            let (a2, n1) = uniq(*a, n);
            let (b2, n2) = uniq(*b, n1);
            (SyntaxV::Get(Box::new(a2), Box::new(b2)), n2)
        },
        SyntaxV::Put(a, b, c) => {
            let (a2, n1) = uniq(*a, n);
            let (b2, n2) = uniq(*b, n1);
            let (c2, n3) = uniq(*c, n2);
            (SyntaxV::Put(Box::new(a2), Box::new(b2), Box::new(c2)), n3)
        },
        _ => (e, n),
    }
}

/// `uniq` applied to each expression of `es` in turn.
pub open spec fn uniq_list(es: Seq<SyntaxV>, n: u64) -> (Seq<SyntaxV>, u64)
    decreases syns_size(es),
{
    if es.len() == 0 {
        (es, n)
    } else {
        let (e0, n1) = uniq(es[0], n);
        let (rest, n2) = uniq_list(es.drop_first(), n1);
        (seq![e0] + rest, n2)
    }
}

/// `t`, or a fresh type variable if `t` is a type variable.
fn fresh_type_of(t: Type, id_gen: &mut IdGen) -> (r: Type)
    ensures
        (r@, final(id_gen)@) == fresh_type(t@, old(id_gen)@),
{
    match t {
        Type::Var(_) => id_gen.gen_type(),
        t => t,
    }
}

/// The binders `bs`, each annotated by a type variable given a fresh one.
fn uniquify_binders(bs: Vec<(String, Type)>, id_gen: &mut IdGen) -> (r: Vec<(String, Type)>)
    ensures
        (binders_view(&r), final(id_gen)@) == uniq_binders(binders_view(&bs), old(id_gen)@),
{
    let ghost bv = binders_view(&bs);
    let ghost n0 = id_gen@;
    let mut r: Vec<(String, Type)> = Vec::new();
    let mut k: usize = 0;
    assert(bv.take(0) =~= Seq::<BinderV>::empty());
    assert(binders_view(&r) =~= Seq::<BinderV>::empty());
    while k < bs.len()
        invariant
            k <= bs@.len(),
            bv == binders_view(&bs),
            (binders_view(&r), id_gen@) == uniq_binders(bv.take(k as int), n0),
        decreases bs@.len() - k,
    {
        let ghost r0 = r;
        assert(bv.take(k + 1).drop_last() =~= bv.take(k as int));
        let t = fresh_type_of(copy_type(&bs[k].1), id_gen);
        let b = (bs[k].0.clone(), t);
        r.push(b);
        proof { lemma_binders_push(r0, r, b); }
        k += 1;
    }
    assert(bv.take(k as int) =~= bv);
    r
}

/// Replaces each expression of `es` by its `uniquify`.
fn uniquify_box(es: &mut Vec<Syntax>, id_gen: &mut IdGen)
    ensures
        (syntaxes_view(final(es)), final(id_gen)@) == uniq_list(syntaxes_view(old(es)), old(id_gen)@),
    decreases syns_size(syntaxes_view(old(es))), 0nat,
{
    let ghost orig = syntaxes_view(es);
    let ghost n0 = id_gen@;
    let mut rest: Vec<Syntax> = Vec::new();
    std::mem::swap(es, &mut rest);
    let mut out: Vec<Syntax> = Vec::new();
    assert(syntaxes_view(&out) =~= Seq::<SyntaxV>::empty());
    while rest.len() > 0
        invariant
            orig == syntaxes_view(old(es)),
            syns_size(syntaxes_view(&rest)) <= syns_size(orig),
            uniq_list(orig, n0) == (
                syntaxes_view(&out) + uniq_list(syntaxes_view(&rest), id_gen@).0,
                uniq_list(syntaxes_view(&rest), id_gen@).1,
            ),
        decreases rest@.len(),
    {
        let ghost rest0 = rest;
        let ghost out0 = out;
        let e0 = rest.remove(0);
        proof { lemma_syntaxes_remove_first(rest0, rest); }
        assert(syn_size(e0@) < syns_size(syntaxes_view(old(es))));
        let u = uniquify(e0, id_gen);
        out.push(u);
        proof {
            lemma_syntaxes_push(out0, out, u);
            assert(syntaxes_view(&out0) + (seq![u@] + uniq_list(syntaxes_view(&rest), id_gen@).0)
                =~= syntaxes_view(&out) + uniq_list(syntaxes_view(&rest), id_gen@).0);
        }
    }
    assert(uniq_list(syntaxes_view(&rest), id_gen@).0 =~= Seq::<SyntaxV>::empty());
    assert(syntaxes_view(&out) + Seq::<SyntaxV>::empty() =~= syntaxes_view(&out));
    *es = out;
}


/// Gives each binder of `expr` that is annotated with a type variable a
/// fresh type variable from `id_gen`, so that no two of them share one.
pub fn uniquify(expr: Syntax, id_gen: &mut IdGen) -> (r: Syntax)
    ensures
        (r@, final(id_gen)@) == uniq(expr@, old(id_gen)@),
        old(id_gen)@ + tvars(expr@).len() <= u64::MAX ==> counts_from(tvars(r@), old(id_gen)@ as int)
            && tvars(r@).no_duplicates(),
        plain(r@) == plain(expr@),
        old(id_gen)@ + var_numbers(binder_types(expr@)).len() <= u64::MAX
            ==> counts_from(var_numbers(binder_types(r@)), old(id_gen)@ as int)
            && var_numbers(binder_types(r@)).no_duplicates(),
    decreases syn_size(expr@), 1nat,
{
    proof {
        lemma_uniq_plain(expr@, old(id_gen)@);
        if old(id_gen)@ + var_numbers(binder_types(expr@)).len() <= u64::MAX {
            lemma_uniquify_all_binders(expr@, old(id_gen)@);
        }
        if old(id_gen)@ + tvars(expr@).len() <= u64::MAX {
            lemma_uniq_fresh(expr@, old(id_gen)@);
        }
    }
    match expr {
        Syntax::Let(xt, a, b) => {
            let (x, t) = xt;
            let t = fresh_type_of(t, id_gen);
            let a2 = uniquify(*a, id_gen);
            let b2 = uniquify(*b, id_gen);
            Syntax::mk_let((x, t), a2, b2)
        },
        Syntax::LetRec(f, b) => {
            let Fundef { name, args, body } = f;
            let (fname, t) = name;
            let t = fresh_type_of(t, id_gen);
            let args = uniquify_binders(args, id_gen);
            let body = uniquify(*body, id_gen);
            let b2 = uniquify(*b, id_gen);
            Syntax::mk_let_rec(Fundef { name: (fname, t), args: args, body: Box::new(body) }, b2)
        },
        Syntax::LetTuple(xts, a, b) => {
            let xts = uniquify_binders(xts, id_gen);
            let a2 = uniquify(*a, id_gen);
            let b2 = uniquify(*b, id_gen);
            Syntax::mk_let_tuple(xts, a2, b2)
        },
        Syntax::Not(a) => Syntax::mk_not(uniquify(*a, id_gen)),
        Syntax::Neg(a) => Syntax::mk_neg(uniquify(*a, id_gen)),
        Syntax::FNeg(a) => Syntax::mk_fneg(uniquify(*a, id_gen)),
        Syntax::IntBin(op, a, b) => {
            let a2 = uniquify(*a, id_gen);
            let b2 = uniquify(*b, id_gen);
            Syntax::mk_int_bin(op, a2, b2)
        },
        Syntax::FloatBin(op, a, b) => {
            let a2 = uniquify(*a, id_gen);
            let b2 = uniquify(*b, id_gen);
            Syntax::mk_float_bin(op, a2, b2)
        },
        Syntax::CompBin(op, a, b) => {
            let a2 = uniquify(*a, id_gen);
            let b2 = uniquify(*b, id_gen);
            Syntax::mk_comp_bin(op, a2, b2)
        },
        Syntax::If(c, a, b) => {
            let c2 = uniquify(*c, id_gen);
            let a2 = uniquify(*a, id_gen);
            let b2 = uniquify(*b, id_gen);
            Syntax::mk_if(c2, a2, b2)
        },
        Syntax::App(f, args) => {
            let f2 = uniquify(*f, id_gen);
            let mut args = args;
            uniquify_box(&mut args, id_gen);
            Syntax::mk_app(f2, args)
        },
        Syntax::Tuple(es) => {
            let mut es = es;
            uniquify_box(&mut es, id_gen);
            Syntax::mk_tuple(es)
        },
        Syntax::Array(a, b) => {
            let a2 = uniquify(*a, id_gen);
            let b2 = uniquify(*b, id_gen);
            Syntax::mk_array(a2, b2)
        },
        Syntax::Get(a, b) => {
            let a2 = uniquify(*a, id_gen);
            let b2 = uniquify(*b, id_gen);
            Syntax::mk_get(a2, b2)
        },
        Syntax::Put(a, b, c) => {
            let a2 = uniquify(*a, id_gen);
            let b2 = uniquify(*b, id_gen);
            let c2 = uniquify(*c, id_gen);
            Syntax::mk_put(a2, b2, c2)
        },
        e => e,
    }
}

// ---------------------------------------------------------------------------
// Comments
// ---------------------------------------------------------------------------

/// Why the comments of a text cannot be removed.
pub enum CommentFault {
    /// A `*)` closes no open comment.
    NotOpened,
    /// The text ends inside a comment.
    NotClosed,
}

/// The message reported for a fault.
pub open spec fn fault_message(f: CommentFault) -> Seq<char> {
    match f {
        CommentFault::NotOpened => "Corresponding \"(*\" not found"@,
        CommentFault::NotClosed => "Comments are not balanced"@,
    }
}

/// Whether a comment opens at `pos`.
pub open spec fn opens_at(a: Seq<u8>, pos: int) -> bool {
    0 <= pos && pos + 1 < a.len() && a[pos] == 40u8 && a[pos + 1] == 42u8
}

/// Whether a comment closes at `pos` (and none opens there).
pub open spec fn closes_at(a: Seq<u8>, pos: int) -> bool {
    0 <= pos && pos + 1 < a.len() && a[pos] == 42u8 && a[pos + 1] == 41u8
}

/// What is left of `a` from `pos` on, outside comments, when `level`
/// comments are open at `pos`. Comments nest: `(*` opens one and `*)`
/// closes the innermost; both are read left to right, two bytes at a time.
pub open spec fn uncommented(a: Seq<u8>, pos: int, level: nat) -> Result<Seq<u8>, CommentFault>
    decreases a.len() - pos,
{
    if pos >= a.len() {
        if level == 0 { Ok(Seq::empty()) } else { Err(CommentFault::NotClosed) }
    } else if opens_at(a, pos) {
        uncommented(a, pos + 2, level + 1)
    } else if closes_at(a, pos) {
        if level == 0 { Err(CommentFault::NotOpened) } else { uncommented(a, pos + 2, (level - 1) as nat) }
    } else if level == 0 {
        match uncommented(a, pos + 1, level) {
            Ok(rest) => Ok(seq![a[pos]] + rest),
            Err(f) => Err(f),
        }
    } else {
        uncommented(a, pos + 1, level)
    }
}

/// The text `a` with its comments removed, or the message of what is wrong
/// with them.
pub fn remove_comments(a: &[u8]) -> (r: Result<Vec<u8>, String>)
    ensures
        match r {
            Ok(v) => uncommented(a@, 0, 0) == Ok::<Seq<u8>, CommentFault>(v@) && v@.len() <= a@.len(),
            Err(m) => uncommented(a@, 0, 0) matches Err(f) && m@ == fault_message(f),
        },
{
    proof { lemma_uncommented_shorter(a@, 0, 0); }
    let mut ret: Vec<u8> = Vec::new();
    let mut level: usize = 0;
    let mut pos: usize = 0;
    let len = a.len();
    while pos < len
        invariant
            len == a@.len(),
            pos <= len + 1,
            level <= pos,
            match uncommented(a@, pos as int, level as nat) {
                Ok(rest) => uncommented(a@, 0, 0) == Ok::<Seq<u8>, CommentFault>(ret@ + rest),
                Err(f) => uncommented(a@, 0, 0) == Err::<Seq<u8>, CommentFault>(f),
            },
        decreases len + 1 - pos,
    {
        if pos < len - 1 && a[pos] == 40u8 && a[pos + 1] == 42u8 {
            pos += 2;
            level += 1;
            continue;
        }
        if pos < len - 1 && a[pos] == 42u8 && a[pos + 1] == 41u8 {
            pos += 2;
            if level == 0 {
                return Err("Corresponding \"(*\" not found".to_string());
            }
            level -= 1;
            continue;
        }
        if level == 0 {
            let ghost r0 = ret@;
            ret.push(a[pos]);
            proof {
                if let Ok(rest) = uncommented(a@, pos + 1, 0) {
                    assert(r0 + (seq![a@[pos as int]] + rest) =~= ret@ + rest);
                }
            }
        }
        pos += 1;
    }
    if level == 0 {
        assert(ret@ + Seq::<u8>::empty() =~= ret@);
        Ok(ret)
    } else {
        Err("Comments are not balanced".to_string())
    }
}

/// The type variable that annotates a binder of type `t`, if `t` is one.
pub open spec fn binder_tvar(t: TypeV) -> Seq<u64> {
    match t {
        TypeV::Var(k) => seq![k],
        _ => Seq::empty(),
    }
}

/// The type variables that annotate the binders `bs`, in order.
pub open spec fn binders_tvars(bs: Seq<BinderV>) -> Seq<u64>
    decreases bs.len(),
{
    if bs.len() == 0 {
        Seq::empty()
    } else {
        binders_tvars(bs.drop_last()) + binder_tvar(bs.last().1)
    }
}

/// The type variables that annotate the binders of `e`, in the order in
/// which `uniq` visits them.
pub open spec fn tvars(e: SyntaxV) -> Seq<u64>
    decreases syn_size(e),
{
    match e {
        SyntaxV::Let(xt, a, b) => binder_tvar(xt.1) + tvars(*a) + tvars(*b),
        SyntaxV::LetRec(f, b) => binder_tvar(f.name.1) + binders_tvars(f.args) + tvars(*f.body) + tvars(*b),
        SyntaxV::LetTuple(xts, a, b) => binders_tvars(xts) + tvars(*a) + tvars(*b),
        SyntaxV::Not(a) => tvars(*a),
        SyntaxV::Neg(a) => tvars(*a),
        SyntaxV::FNeg(a) => tvars(*a),
        SyntaxV::IntBin(_, a, b) => tvars(*a) + tvars(*b),
        SyntaxV::FloatBin(_, a, b) => tvars(*a) + tvars(*b),
        SyntaxV::CompBin(_, a, b) => tvars(*a) + tvars(*b),
        SyntaxV::If(c, a, b) => tvars(*c) + tvars(*a) + tvars(*b),
        SyntaxV::App(f, args) => tvars(*f) + tvars_list(args),
        SyntaxV::Tuple(es) => tvars_list(es),
        SyntaxV::Array(a, b) => tvars(*a) + tvars(*b),
        SyntaxV::Get(a, b) => tvars(*a) + tvars(*b),
        SyntaxV::Put(a, b, c) => tvars(*a) + tvars(*b) + tvars(*c),
        _ => Seq::empty(),
    }
}

/// The type variables of the binders of each of `es`, in order.
pub open spec fn tvars_list(es: Seq<SyntaxV>) -> Seq<u64>
    decreases syns_size(es),
{
    if es.len() == 0 {
        Seq::empty()
    } else {
        tvars(es[0]) + tvars_list(es.drop_first())
    }
}

/// `s` is `n, n + 1, n + 2, ...`.
pub open spec fn counts_from(s: Seq<u64>, n: int) -> bool {
    forall|i: int| 0 <= i < s.len() ==> s[i] == n + i
}

proof fn lemma_counts_concat(s1: Seq<u64>, s2: Seq<u64>, n: int)
    requires
        counts_from(s1, n),
        counts_from(s2, n + s1.len()),
    ensures
        counts_from(s1 + s2, n),
{
    assert forall|i: int| 0 <= i < (s1 + s2).len() implies (s1 + s2)[i] == n + i by {
        if i >= s1.len() {
            assert((s1 + s2)[i] == s2[i - s1.len()]);
        }
    }
}

proof fn lemma_counts_distinct(s: Seq<u64>, n: int)
    requires
        counts_from(s, n),
    ensures
        s.no_duplicates(),
{
    assert forall|i: int, j: int| 0 <= i < s.len() && 0 <= j < s.len() && i != j implies s[i] != s[j] by {}
}

proof fn lemma_fresh_type_counts(t: TypeV, n: u64)
    requires
        n + binder_tvar(t).len() <= u64::MAX,
    ensures
        counts_from(binder_tvar(fresh_type(t, n).0), n as int),
        binder_tvar(fresh_type(t, n).0).len() == binder_tvar(t).len(),
        fresh_type(t, n).1 == n + binder_tvar(t).len(),
{
}

proof fn lemma_uniq_binders_counts(bs: Seq<BinderV>, n: u64)
    requires
        n + binders_tvars(bs).len() <= u64::MAX,
    ensures
        counts_from(binders_tvars(uniq_binders(bs, n).0), n as int),
        binders_tvars(uniq_binders(bs, n).0).len() == binders_tvars(bs).len(),
        uniq_binders(bs, n).1 == n + binders_tvars(bs).len(),
    decreases bs.len(),
{
    if bs.len() > 0 {
        lemma_uniq_binders_counts(bs.drop_last(), n);
        let (front, n1) = uniq_binders(bs.drop_last(), n);
        lemma_fresh_type_counts(bs.last().1, n1);
        let (t, n2) = fresh_type(bs.last().1, n1);
        let out = front.push((bs.last().0, t));
        assert(out.drop_last() =~= front);
        lemma_counts_concat(binders_tvars(front), binder_tvar(t), n as int);
    }
}

/// Type variables handed out by `uniquify` are the counter values in order:
/// where the counter does not wrap around, the binders of the result that
/// were annotated with type variables carry `n, n + 1, ...` (so no two
/// share one), and the counter ends past the last of them.
pub proof fn lemma_uniq_fresh(e: SyntaxV, n: u64)
    requires
        n + tvars(e).len() <= u64::MAX,
    ensures
        counts_from(tvars(uniq(e, n).0), n as int),
        tvars(uniq(e, n).0).no_duplicates(),
        tvars(uniq(e, n).0).len() == tvars(e).len(),
        uniq(e, n).1 == n + tvars(e).len(),
{
    lemma_uniq_counts(e, n);
    lemma_counts_distinct(tvars(uniq(e, n).0), n as int);
}

proof fn lemma_uniq_counts(e: SyntaxV, n: u64)
    requires
        n + tvars(e).len() <= u64::MAX,
    ensures
        counts_from(tvars(uniq(e, n).0), n as int),
        tvars(uniq(e, n).0).len() == tvars(e).len(),
        uniq(e, n).1 == n + tvars(e).len(),
    decreases syn_size(e), 0nat,
{
    match e {
        SyntaxV::Let(xt, a, b) => {
            lemma_fresh_type_counts(xt.1, n);
            let (t, n1) = fresh_type(xt.1, n);
            lemma_uniq_pair(*a, *b, n1);
            let (a2, n2) = uniq(*a, n1);
            let (b2, n3) = uniq(*b, n2);
            lemma_counts_concat(binder_tvar(t), tvars(a2) + tvars(b2), n as int);
            assert(binder_tvar(t) + tvars(a2) + tvars(b2) =~= binder_tvar(t) + (tvars(a2) + tvars(b2)));
        },
        SyntaxV::LetRec(f, b) => {
            lemma_fresh_type_counts(f.name.1, n);
            let (t, n1) = fresh_type(f.name.1, n);
            lemma_uniq_binders_counts(f.args, n1);
            let (args, n2) = uniq_binders(f.args, n1);
            lemma_uniq_pair(*f.body, *b, n2);
            let (body, n3) = uniq(*f.body, n2);
            let (b2, n4) = uniq(*b, n3);
            lemma_counts_concat(binders_tvars(args), tvars(body) + tvars(b2), n1 as int);
            lemma_counts_concat(binder_tvar(t), binders_tvars(args) + (tvars(body) + tvars(b2)), n as int);
            assert(binder_tvar(t) + binders_tvars(args) + tvars(body) + tvars(b2)
                =~= binder_tvar(t) + (binders_tvars(args) + (tvars(body) + tvars(b2))));
        },
        SyntaxV::LetTuple(xts, a, b) => {
            lemma_uniq_binders_counts(xts, n);
            let (xts2, n1) = uniq_binders(xts, n);
            lemma_uniq_pair(*a, *b, n1);
            let (a2, n2) = uniq(*a, n1);
            let (b2, n3) = uniq(*b, n2);
            lemma_counts_concat(binders_tvars(xts2), tvars(a2) + tvars(b2), n as int);
            assert(binders_tvars(xts2) + tvars(a2) + tvars(b2) =~= binders_tvars(xts2) + (tvars(a2) + tvars(b2)));
        },
        SyntaxV::Not(a) => lemma_uniq_counts(*a, n),
        SyntaxV::Neg(a) => lemma_uniq_counts(*a, n),
        SyntaxV::FNeg(a) => lemma_uniq_counts(*a, n),
        SyntaxV::IntBin(_, a, b) => lemma_uniq_pair(*a, *b, n),
        SyntaxV::FloatBin(_, a, b) => lemma_uniq_pair(*a, *b, n),
        SyntaxV::CompBin(_, a, b) => lemma_uniq_pair(*a, *b, n),
        SyntaxV::Array(a, b) => lemma_uniq_pair(*a, *b, n),
        SyntaxV::Get(a, b) => lemma_uniq_pair(*a, *b, n),
        SyntaxV::If(c, a, b) => {
            lemma_uniq_counts(*c, n);
            let (c2, n1) = uniq(*c, n);
            lemma_uniq_pair(*a, *b, n1);
            let (a2, n2) = uniq(*a, n1);
            let (b2, n3) = uniq(*b, n2);
            lemma_counts_concat(tvars(c2), tvars(a2) + tvars(b2), n as int);
            assert(tvars(c2) + tvars(a2) + tvars(b2) =~= tvars(c2) + (tvars(a2) + tvars(b2)));
        },
        SyntaxV::Put(a, b, c) => {
            lemma_uniq_counts(*a, n);
            let (a2, n1) = uniq(*a, n);
            lemma_uniq_pair(*b, *c, n1);
            let (b2, n2) = uniq(*b, n1);
            let (c2, n3) = uniq(*c, n2);
            lemma_counts_concat(tvars(a2), tvars(b2) + tvars(c2), n as int);
            assert(tvars(a2) + tvars(b2) + tvars(c2) =~= tvars(a2) + (tvars(b2) + tvars(c2)));
        },
        SyntaxV::App(f, args) => {
            lemma_uniq_counts(*f, n);
            let (f2, n1) = uniq(*f, n);
            lemma_uniq_list_counts(args, n1);
            let (args2, n2) = uniq_list(args, n1);
            lemma_counts_concat(tvars(f2), tvars_list(args2), n as int);
        },
        SyntaxV::Tuple(es) => lemma_uniq_list_counts(es, n),
        _ => {},
    }
}

proof fn lemma_uniq_pair(a: SyntaxV, b: SyntaxV, n: u64)
    requires
        n + tvars(a).len() + tvars(b).len() <= u64::MAX,
    ensures
        counts_from(tvars(uniq(a, n).0) + tvars(uniq(b, uniq(a, n).1).0), n as int),
        tvars(uniq(a, n).0).len() == tvars(a).len(),
        tvars(uniq(b, uniq(a, n).1).0).len() == tvars(b).len(),
        uniq(b, uniq(a, n).1).1 == n + tvars(a).len() + tvars(b).len(),
    decreases syn_size(a) + syn_size(b), 0nat,
{
    lemma_uniq_counts(a, n);
    let (a2, n1) = uniq(a, n);
    lemma_uniq_counts(b, n1);
    lemma_counts_concat(tvars(a2), tvars(uniq(b, n1).0), n as int);
}

proof fn lemma_uniq_list_counts(es: Seq<SyntaxV>, n: u64)
    requires
        n + tvars_list(es).len() <= u64::MAX,
    ensures
        counts_from(tvars_list(uniq_list(es, n).0), n as int),
        tvars_list(uniq_list(es, n).0).len() == tvars_list(es).len(),
        uniq_list(es, n).1 == n + tvars_list(es).len(),
    decreases syns_size(es), 0nat,
{
    if es.len() > 0 {
        lemma_uniq_counts(es[0], n);
        let (e0, n1) = uniq(es[0], n);
        lemma_uniq_list_counts(es.drop_first(), n1);
        let (rest, n2) = uniq_list(es.drop_first(), n1);
        let out = seq![e0] + rest;
        assert(out[0] == e0);
        assert(out.drop_first() =~= rest);
        lemma_counts_concat(tvars(e0), tvars_list(rest), n as int);
    }
}

/// Text in which no comment opens or closes from `pos` on comes through
/// unchanged.
proof fn lemma_uncommented_plain(a: Seq<u8>, pos: int)
    requires
        0 <= pos <= a.len(),
        forall|i: int| pos <= i < a.len() ==> !opens_at(a, i) && !closes_at(a, i),
    ensures
        uncommented(a, pos, 0) == Ok::<Seq<u8>, CommentFault>(a.subrange(pos, a.len() as int)),
    decreases a.len() - pos,
{
    if pos < a.len() {
        lemma_uncommented_plain(a, pos + 1);
        assert(seq![a[pos]] + a.subrange(pos + 1, a.len() as int) =~= a.subrange(pos, a.len() as int));
    } else {
        assert(a.subrange(pos, a.len() as int) =~= Seq::<u8>::empty());
    }
}

/// A text with no `(*` and no `*)` has no comments: removing them gives it
/// back unchanged.
pub proof fn lemma_no_comments_unchanged(a: Seq<u8>)
    requires
        forall|i: int| 0 <= i < a.len() ==> !opens_at(a, i) && !closes_at(a, i),
    ensures
        uncommented(a, 0, 0) == Ok::<Seq<u8>, CommentFault>(a),
{
    lemma_uncommented_plain(a, 0);
    assert(a.subrange(0, a.len() as int) =~= a);
}

/// Removing comments from `pos` on keeps at most the bytes that are there.
pub proof fn lemma_uncommented_shorter(a: Seq<u8>, pos: int, level: nat)
    requires
        0 <= pos <= a.len(),
    ensures
        uncommented(a, pos, level) matches Ok(out) ==> out.len() <= a.len() - pos,
    decreases a.len() - pos,
{
    if pos < a.len() {
        if opens_at(a, pos) {
            lemma_uncommented_shorter(a, pos + 2, level + 1);
        } else if closes_at(a, pos) {
            if level > 0 {
                lemma_uncommented_shorter(a, pos + 2, (level - 1) as nat);
            }
        } else {
            lemma_uncommented_shorter(a, pos + 1, level);
        }
    }
}

/// A binder type with the number of a type variable forgotten.
pub open spec fn plain_type(t: TypeV) -> TypeV {
    match t {
        TypeV::Var(_) => TypeV::Var(0),
        _ => t,
    }
}

/// Binders with the numbers of their type variables forgotten.
pub open spec fn plain_binders(bs: Seq<BinderV>) -> Seq<BinderV> {
    Seq::new(bs.len(), |i: int| (bs[i].0, plain_type(bs[i].1)))
}

/// `e` with the numbers of the type variables of its binders forgotten.
pub open spec fn plain(e: SyntaxV) -> SyntaxV
    decreases syn_size(e),
{
    match e {
        SyntaxV::Let(xt, a, b) => SyntaxV::Let((xt.0, plain_type(xt.1)), Box::new(plain(*a)), Box::new(plain(*b))),
        SyntaxV::LetRec(f, b) => SyntaxV::LetRec(
            FundefV { name: (f.name.0, plain_type(f.name.1)), args: plain_binders(f.args), body: Box::new(plain(*f.body)) },
            Box::new(plain(*b)),
        ),
        SyntaxV::LetTuple(xts, a, b) => SyntaxV::LetTuple(plain_binders(xts), Box::new(plain(*a)), Box::new(plain(*b))),
        SyntaxV::Not(a) => SyntaxV::Not(Box::new(plain(*a))),
        SyntaxV::Neg(a) => SyntaxV::Neg(Box::new(plain(*a))),
        SyntaxV::FNeg(a) => SyntaxV::FNeg(Box::new(plain(*a))),
        SyntaxV::IntBin(op, a, b) => SyntaxV::IntBin(op, Box::new(plain(*a)), Box::new(plain(*b))),
        SyntaxV::FloatBin(op, a, b) => SyntaxV::FloatBin(op, Box::new(plain(*a)), Box::new(plain(*b))),
        SyntaxV::CompBin(op, a, b) => SyntaxV::CompBin(op, Box::new(plain(*a)), Box::new(plain(*b))),
        SyntaxV::If(c, a, b) => SyntaxV::If(Box::new(plain(*c)), Box::new(plain(*a)), Box::new(plain(*b))),
        SyntaxV::App(f, args) => SyntaxV::App(Box::new(plain(*f)), plain_list(args)),
        SyntaxV::Tuple(es) => SyntaxV::Tuple(plain_list(es)),
        SyntaxV::Array(a, b) => SyntaxV::Array(Box::new(plain(*a)), Box::new(plain(*b))),
        SyntaxV::Get(a, b) => SyntaxV::Get(Box::new(plain(*a)), Box::new(plain(*b))),
        SyntaxV::Put(a, b, c) => SyntaxV::Put(Box::new(plain(*a)), Box::new(plain(*b)), Box::new(plain(*c))),
        _ => e,
    }
}

/// `plain` applied to each of `es`.
pub open spec fn plain_list(es: Seq<SyntaxV>) -> Seq<SyntaxV>
    decreases syns_size(es),
{
    if es.len() == 0 {
        es
    } else {
        seq![plain(es[0])] + plain_list(es.drop_first())
    }
}

proof fn lemma_uniq_binders_plain(bs: Seq<BinderV>, n: u64)
    ensures
        plain_binders(uniq_binders(bs, n).0) == plain_binders(bs),
        uniq_binders(bs, n).0.len() == bs.len(),
    decreases bs.len(),
{
    if bs.len() > 0 {
        lemma_uniq_binders_plain(bs.drop_last(), n);
        let (front, n1) = uniq_binders(bs.drop_last(), n);
        let (t, n2) = fresh_type(bs.last().1, n1);
        let out = front.push((bs.last().0, t));
        assert(out.len() == bs.len());
        assert forall|i: int| 0 <= i < bs.len() implies plain_binders(out)[i] == plain_binders(bs)[i] by {
            if i < bs.len() - 1 {
                assert(plain_binders(front)[i] == plain_binders(bs.drop_last())[i]);
            }
        }
        assert(plain_binders(out) =~= plain_binders(bs));
    } else {
        assert(plain_binders(uniq_binders(bs, n).0) =~= plain_binders(bs));
    }
}

/// `uniquify` changes nothing but the numbers of the type variables that
/// annotate binders: with those numbers forgotten, its result is its input.
pub proof fn lemma_uniq_plain(e: SyntaxV, n: u64)
    ensures
        plain(uniq(e, n).0) == plain(e),
    decreases syn_size(e), 1nat,
{
    match e {
        SyntaxV::Let(xt, a, b) => {
            let (t, n1) = fresh_type(xt.1, n);
            lemma_uniq_plain(*a, n1);
            lemma_uniq_plain(*b, uniq(*a, n1).1);
        },
        SyntaxV::LetRec(f, b) => {
            let (t, n1) = fresh_type(f.name.1, n);
            lemma_uniq_binders_plain(f.args, n1);
            let (args, n2) = uniq_binders(f.args, n1);
            lemma_uniq_plain(*f.body, n2);
            lemma_uniq_plain(*b, uniq(*f.body, n2).1);
        },
        SyntaxV::LetTuple(xts, a, b) => {
            lemma_uniq_binders_plain(xts, n);
            let (xts2, n1) = uniq_binders(xts, n);
            lemma_uniq_plain(*a, n1);
            lemma_uniq_plain(*b, uniq(*a, n1).1);
        },
        SyntaxV::Not(a) => lemma_uniq_plain(*a, n),
        SyntaxV::Neg(a) => lemma_uniq_plain(*a, n),
        SyntaxV::FNeg(a) => lemma_uniq_plain(*a, n),
        SyntaxV::IntBin(_, a, b) => {
            lemma_uniq_plain(*a, n);
            lemma_uniq_plain(*b, uniq(*a, n).1);
        },
        SyntaxV::FloatBin(_, a, b) => {
            lemma_uniq_plain(*a, n);
            lemma_uniq_plain(*b, uniq(*a, n).1);
        },
        SyntaxV::CompBin(_, a, b) => {
            lemma_uniq_plain(*a, n);
            lemma_uniq_plain(*b, uniq(*a, n).1);
        },
        SyntaxV::Array(a, b) => {
            lemma_uniq_plain(*a, n);
            lemma_uniq_plain(*b, uniq(*a, n).1);
        },
        SyntaxV::Get(a, b) => {
            lemma_uniq_plain(*a, n);
            lemma_uniq_plain(*b, uniq(*a, n).1);
        },
        SyntaxV::If(c, a, b) => {
            lemma_uniq_plain(*c, n);
            let n1 = uniq(*c, n).1;
            lemma_uniq_plain(*a, n1);
            lemma_uniq_plain(*b, uniq(*a, n1).1);
        },
        SyntaxV::Put(a, b, c) => {
            lemma_uniq_plain(*a, n);
            let n1 = uniq(*a, n).1;
            lemma_uniq_plain(*b, n1);
            lemma_uniq_plain(*c, uniq(*b, n1).1);
        },
        SyntaxV::App(f, args) => {
            lemma_uniq_plain(*f, n);
            lemma_uniq_list_plain(args, uniq(*f, n).1);
        },
        SyntaxV::Tuple(es) => lemma_uniq_list_plain(es, n),
        _ => {},
    }
}

proof fn lemma_uniq_list_plain(es: Seq<SyntaxV>, n: u64)
    ensures
        plain_list(uniq_list(es, n).0) == plain_list(es),
    decreases syns_size(es), 0nat,
{
    if es.len() > 0 {
        lemma_uniq_plain(es[0], n);
        let (e0, n1) = uniq(es[0], n);
        lemma_uniq_list_plain(es.drop_first(), n1);
        let (rest, n2) = uniq_list(es.drop_first(), n1);
        let out = seq![e0] + rest;
        assert(out[0] == e0);
        assert(out.drop_first() =~= rest);
    }
}

/// The types that annotate the binders of `e`, all of them, at any depth.
pub open spec fn binder_types(e: SyntaxV) -> Seq<TypeV>
    decreases syn_size(e),
{
    match e {
        SyntaxV::Let(xt, a, b) => seq![xt.1] + binder_types(*a) + binder_types(*b),
        SyntaxV::LetRec(f, b) => seq![f.name.1] + binder_types_of(f.args) + binder_types(*f.body) + binder_types(*b),
        SyntaxV::LetTuple(xts, a, b) => binder_types_of(xts) + binder_types(*a) + binder_types(*b),
        SyntaxV::Not(a) => binder_types(*a),
        SyntaxV::Neg(a) => binder_types(*a),
        SyntaxV::FNeg(a) => binder_types(*a),
        SyntaxV::IntBin(_, a, b) => binder_types(*a) + binder_types(*b),
        SyntaxV::FloatBin(_, a, b) => binder_types(*a) + binder_types(*b),
        SyntaxV::CompBin(_, a, b) => binder_types(*a) + binder_types(*b),
        SyntaxV::If(c, a, b) => binder_types(*c) + binder_types(*a) + binder_types(*b),
        SyntaxV::App(f, args) => binder_types(*f) + binder_types_list(args),
        SyntaxV::Tuple(es) => binder_types_list(es),
        SyntaxV::Array(a, b) => binder_types(*a) + binder_types(*b),
        SyntaxV::Get(a, b) => binder_types(*a) + binder_types(*b),
        SyntaxV::Put(a, b, c) => binder_types(*a) + binder_types(*b) + binder_types(*c),
        _ => Seq::empty(),
    }
}

/// The types of the binders of each of `es`.
pub open spec fn binder_types_list(es: Seq<SyntaxV>) -> Seq<TypeV>
    decreases syns_size(es),
{
    if es.len() == 0 {
        Seq::empty()
    } else {
        binder_types(es[0]) + binder_types_list(es.drop_first())
    }
}

/// The types of the binders `bs`.
pub open spec fn binder_types_of(bs: Seq<BinderV>) -> Seq<TypeV> {
    Seq::new(bs.len(), |i: int| bs[i].1)
}

/// The numbers of the type variables among `ts`, in order.
pub open spec fn var_numbers(ts: Seq<TypeV>) -> Seq<u64>
    decreases ts.len(),
{
    if ts.len() == 0 {
        Seq::empty()
    } else {
        var_numbers(ts.drop_last()) + match ts.last() {
            TypeV::Var(k) => seq![k],
            _ => Seq::empty(),
        }
    }
}

proof fn lemma_var_numbers_concat(a: Seq<TypeV>, b: Seq<TypeV>)
    ensures
        var_numbers(a + b) == var_numbers(a) + var_numbers(b),
    decreases b.len(),
{
    if b.len() == 0 {
        assert(a + b =~= a);
        assert(var_numbers(a) + var_numbers(b) =~= var_numbers(a));
    } else {
        lemma_var_numbers_concat(a, b.drop_last());
        assert((a + b).drop_last() =~= a + b.drop_last());
        assert((a + b).last() == b.last());
        let tail = match b.last() {
            TypeV::Var(k) => seq![k],
            _ => Seq::<u64>::empty(),
        };
        assert(var_numbers(a) + var_numbers(b.drop_last()) + tail =~= var_numbers(a) + (var_numbers(b.drop_last()) + tail));
    }
}

proof fn lemma_binders_tvars_all(bs: Seq<BinderV>)
    ensures
        binders_tvars(bs) == var_numbers(binder_types_of(bs)),
    decreases bs.len(),
{
    if bs.len() > 0 {
        lemma_binders_tvars_all(bs.drop_last());
        assert(binder_types_of(bs).drop_last() =~= binder_types_of(bs.drop_last()));
        assert(binder_types_of(bs).last() == bs.last().1);
        let t = bs.last().1;
        assert(binder_tvar(t) == match t {
            TypeV::Var(k) => seq![k],
            _ => Seq::<u64>::empty(),
        });
    } else {
        assert(binder_types_of(bs) =~= Seq::<TypeV>::empty());
    }
}

proof fn lemma_binder_tvar_all(t: TypeV)
    ensures
        binder_tvar(t) == var_numbers(seq![t]),
{
    assert(seq![t].drop_last() =~= Seq::<TypeV>::empty());
    assert(var_numbers(seq![t]) =~= var_numbers(Seq::<TypeV>::empty()) + match t {
        TypeV::Var(k) => seq![k],
        _ => Seq::<u64>::empty(),
    });
}

/// The binder type variables that `uniq` numbers are all those of the
/// expression, at any depth.
proof fn lemma_tvars_all(e: SyntaxV)
    ensures
        tvars(e) == var_numbers(binder_types(e)),
    decreases syn_size(e), 1nat,
{
    match e {
        SyntaxV::Let(xt, a, b) => {
            lemma_tvars_all(*a);
            lemma_tvars_all(*b);
            lemma_binder_tvar_all(xt.1);
            lemma_var_numbers_concat(seq![xt.1], binder_types(*a));
            lemma_var_numbers_concat(seq![xt.1] + binder_types(*a), binder_types(*b));
        },
        SyntaxV::LetRec(f, b) => {
            lemma_tvars_all(*f.body);
            lemma_tvars_all(*b);
            lemma_binder_tvar_all(f.name.1);
            lemma_binders_tvars_all(f.args);
            let s1 = seq![f.name.1];
            let s2 = binder_types_of(f.args);
            lemma_var_numbers_concat(s1, s2);
            lemma_var_numbers_concat(s1 + s2, binder_types(*f.body));
            lemma_var_numbers_concat(s1 + s2 + binder_types(*f.body), binder_types(*b));
        },
        SyntaxV::LetTuple(xts, a, b) => {
            lemma_tvars_all(*a);
            lemma_tvars_all(*b);
            lemma_binders_tvars_all(xts);
            lemma_var_numbers_concat(binder_types_of(xts), binder_types(*a));
            lemma_var_numbers_concat(binder_types_of(xts) + binder_types(*a), binder_types(*b));
        },
        SyntaxV::Not(a) => lemma_tvars_all(*a),
        SyntaxV::Neg(a) => lemma_tvars_all(*a),
        SyntaxV::FNeg(a) => lemma_tvars_all(*a),
        SyntaxV::IntBin(_, a, b) => lemma_tvars_all_pair(*a, *b),
        SyntaxV::FloatBin(_, a, b) => lemma_tvars_all_pair(*a, *b),
        SyntaxV::CompBin(_, a, b) => lemma_tvars_all_pair(*a, *b),
        SyntaxV::Array(a, b) => lemma_tvars_all_pair(*a, *b),
        SyntaxV::Get(a, b) => lemma_tvars_all_pair(*a, *b),
        SyntaxV::If(c, a, b) => {
            lemma_tvars_all(*c);
            lemma_tvars_all_pair(*a, *b);
            lemma_var_numbers_concat(binder_types(*c), binder_types(*a) + binder_types(*b));
            assert(binder_types(*c) + binder_types(*a) + binder_types(*b)
                =~= binder_types(*c) + (binder_types(*a) + binder_types(*b)));
            assert(tvars(*c) + tvars(*a) + tvars(*b) =~= tvars(*c) + (tvars(*a) + tvars(*b)));
        },
        SyntaxV::Put(a, b, c) => {
            lemma_tvars_all(*a);
            lemma_tvars_all_pair(*b, *c);
            lemma_var_numbers_concat(binder_types(*a), binder_types(*b) + binder_types(*c));
            assert(binder_types(*a) + binder_types(*b) + binder_types(*c)
                =~= binder_types(*a) + (binder_types(*b) + binder_types(*c)));
            assert(tvars(*a) + tvars(*b) + tvars(*c) =~= tvars(*a) + (tvars(*b) + tvars(*c)));
        },
        SyntaxV::App(f, args) => {
            lemma_tvars_all(*f);
            lemma_tvars_list_all(args);
            lemma_var_numbers_concat(binder_types(*f), binder_types_list(args));
        },
        SyntaxV::Tuple(es) => lemma_tvars_list_all(es),
        _ => {
            assert(var_numbers(Seq::<TypeV>::empty()) =~= Seq::<u64>::empty());
        },
    }
}

proof fn lemma_tvars_all_pair(a: SyntaxV, b: SyntaxV)
    ensures
        tvars(a) + tvars(b) == var_numbers(binder_types(a) + binder_types(b)),
    decreases syn_size(a) + syn_size(b), 0nat,
{
    lemma_tvars_all(a);
    lemma_tvars_all(b);
    lemma_var_numbers_concat(binder_types(a), binder_types(b));
}

proof fn lemma_tvars_list_all(es: Seq<SyntaxV>)
    ensures
        tvars_list(es) == var_numbers(binder_types_list(es)),
    decreases syns_size(es), 0nat,
{
    if es.len() > 0 {
        lemma_tvars_all(es[0]);
        lemma_tvars_list_all(es.drop_first());
        lemma_var_numbers_concat(binder_types(es[0]), binder_types_list(es.drop_first()));
    } else {
        assert(var_numbers(Seq::<TypeV>::empty()) =~= Seq::<u64>::empty());
    }
}

/// Every binder of the result of `uniquify` that carries a type variable,
/// at any depth (function bodies included), carries a distinct one: where
/// the counter does not wrap around, the type variables on all binders of
/// the result are `n, n + 1, ...`, one for each that the input had.
pub proof fn lemma_uniquify_all_binders(e: SyntaxV, n: u64)
    requires
        n + var_numbers(binder_types(e)).len() <= u64::MAX,
    ensures
        counts_from(var_numbers(binder_types(uniq(e, n).0)), n as int),
        var_numbers(binder_types(uniq(e, n).0)).no_duplicates(),
        var_numbers(binder_types(uniq(e, n).0)).len() == var_numbers(binder_types(e)).len(),
        uniq(e, n).1 == n + var_numbers(binder_types(e)).len(),
{
    lemma_tvars_all(e);
    lemma_tvars_all(uniq(e, n).0);
    lemma_uniq_fresh(e, n);
}

/// Removing comments looks only at the text from the current position on.
proof fn lemma_uncommented_suffix(x: Seq<u8>, t: Seq<u8>, k: int, level: nat)
    requires
        0 <= k <= t.len(),
    ensures
        uncommented(x + t, x.len() + k, level) == uncommented(t, k, level),
    decreases t.len() - k,
{
    let a = x + t;
    let q = x.len() + k;
    if k < t.len() {
        assert(a[q] == t[k]);
        if k + 1 < t.len() {
            assert(a[q + 1] == t[k + 1]);
        }
        assert(opens_at(a, q) == opens_at(t, k));
        assert(closes_at(a, q) == closes_at(t, k));
        if opens_at(t, k) {
            lemma_uncommented_suffix(x, t, k + 2, level + 1);
        } else if closes_at(t, k) {
            if level > 0 {
                lemma_uncommented_suffix(x, t, k + 2, (level - 1) as nat);
            }
        } else {
            lemma_uncommented_suffix(x, t, k + 1, level);
        }
    }
}

/// Inside a comment, bytes that are neither `(` nor `*` are skipped.
proof fn lemma_uncommented_skip(a: Seq<u8>, pos: int, end: int, level: nat)
    requires
        level > 0,
        0 <= pos <= end <= a.len(),
        forall|i: int| pos <= i < end ==> a[i] != 40u8 && a[i] != 42u8,
    ensures
        uncommented(a, pos, level) == uncommented(a, end, level),
    decreases end - pos,
{
    if pos < end {
        lemma_uncommented_skip(a, pos + 1, end, level);
    }
}

/// A comment is removed whole, with what it holds: `(* c *)` followed by
/// `t` reads as `t`, when `c` holds no `(` and no `*`.
pub proof fn lemma_comment_removed(c: Seq<u8>, t: Seq<u8>)
    requires
        forall|i: int| 0 <= i < c.len() ==> c[i] != 40u8 && c[i] != 42u8,
    ensures
        uncommented(seq![40u8, 42u8] + c + seq![42u8, 41u8] + t, 0, 0) == uncommented(t, 0, 0),
{
    let x = seq![40u8, 42u8] + c + seq![42u8, 41u8];
    let a = x + t;
    assert(a[0] == 40u8 && a[1] == 42u8);
    assert(opens_at(a, 0));
    assert forall|i: int| 2 <= i < 2 + c.len() implies a[i] != 40u8 && a[i] != 42u8 by {
        assert(a[i] == c[i - 2]);
    }
    let m: int = (c.len() + 2) as int;
    lemma_uncommented_skip(a, 2, m, 1);
    assert(a[m] == 42u8 && a[m + 1] == 41u8);
    assert(closes_at(a, m));
    assert(!opens_at(a, m));
    assert(x.len() == m + 2);
    lemma_uncommented_suffix(x, t, 0, 0);
}

/// A `*)` that closes no comment is an error.
pub proof fn lemma_stray_close(t: Seq<u8>)
    ensures
        uncommented(seq![42u8, 41u8] + t, 0, 0) == Err::<Seq<u8>, CommentFault>(CommentFault::NotOpened),
{
    let a = seq![42u8, 41u8] + t;
    assert(a[0] == 42u8 && a[1] == 41u8);
}

/// A comment that is never closed is an error: `(*` followed by text with
/// no `(` and no `*`.
pub proof fn lemma_unclosed_comment(c: Seq<u8>)
    requires
        forall|i: int| 0 <= i < c.len() ==> c[i] != 40u8 && c[i] != 42u8,
    ensures
        uncommented(seq![40u8, 42u8] + c, 0, 0) == Err::<Seq<u8>, CommentFault>(CommentFault::NotClosed),
{
    let a = seq![40u8, 42u8] + c;
    assert(a[0] == 40u8 && a[1] == 42u8);
    assert forall|i: int| 2 <= i < a.len() implies a[i] != 40u8 && a[i] != 42u8 by {
        assert(a[i] == c[i - 2]);
    }
    lemma_uncommented_skip(a, 2, a.len() as int, 1);
}

} // verus!
