//! Generation of fresh names and fresh type variables.

use vstd::prelude::*;
use crate::syntax::{Type, TypeV};

verus! {

/// `String::push` from std: appends the given character at the end of the
/// string, leaving what was there before unchanged.
#[verifier::external_body]
pub(crate) fn string_push(s: &mut String, c: char)
    ensures
        final(s)@ == old(s)@.push(c),
{
    s.push(c);
}

/// The character of a decimal digit.
pub open spec fn digit_char(d: nat) -> char {
    ((48 + d) as u8) as char
}

/// The decimal notation of a natural number, without leading zeros.
pub open spec fn decimal(n: nat) -> Seq<char>
    decreases n,
{
    if n < 10 {
        seq![digit_char(n)]
    } else {
        decimal(n / 10).push(digit_char(n % 10))
    }
}

/// The letter that starts the name of a temporary of the given type.
pub open spec fn type_letter(t: TypeV) -> char {
    match t {
        TypeV::Unit => 'u',
        TypeV::Bool => 'b',
        TypeV::Int => 'i',
        TypeV::Float => 'd',
        TypeV::Fun(_, _) => 'f',
        TypeV::Tuple(_) => 't',
        TypeV::Array(_) => 'a',
        TypeV::Var(_) => 'v',
    }
}

/// The name of the temporary of type `t` made with counter value `n`.
pub open spec fn tmp_name(t: TypeV, n: u64) -> Seq<char> {
    seq![type_letter(t)] + decimal(n as nat)
}

/// The counter value after one more name has been taken; it wraps around.
pub open spec fn next_count(n: u64) -> u64 {
    if n == u64::MAX { 0 } else { (n + 1) as u64 }
}

/// A source of fresh names: each name carries the value of a counter that
/// goes up by one each time a name or a type variable is handed out.
pub struct IdGen {
    counter: u64,
}

impl View for IdGen {
    type V = u64;

    closed spec fn view(&self) -> u64 {
        self.counter
    }
}

/// Appends the decimal notation of `n` to `s`.
fn push_decimal(s: &mut String, n: u64)
    ensures
        final(s)@ == old(s)@ + decimal(n as nat),
    decreases n,
{
    if n < 10 {
        string_push(s, (48 + n as u8) as char);
        assert(seq![digit_char(n as nat)] == seq![(48 + n as u8) as char]);
        assert(decimal(n as nat) =~= seq![digit_char(n as nat)]);
    } else {
        push_decimal(s, n / 10);
        let d: u8 = (n % 10) as u8;
        string_push(s, (48 + d) as char);
        assert(old(s)@ + decimal(n as nat) =~= old(s)@ + decimal((n / 10) as nat) + seq![digit_char((n % 10) as nat)]);
    }
}

impl IdGen {
    /// A generator whose counter starts at zero.
    pub fn new() -> (r: IdGen)
        ensures
            r@ == 0,
    {
        IdGen { counter: 0 }
    }

    /// The current value of the counter.
    pub fn count(&self) -> (r: u64)
        ensures
            r == self@,
    {
        self.counter
    }

    fn advance(&mut self)
        ensures
            final(self)@ == next_count(old(self)@),
    {
        if self.counter == u64::MAX {
            self.counter = 0;
        } else {
            self.counter = self.counter + 1;
        }
    }

    /// A fresh name for a temporary of type `t`: the letter of its type
    /// followed by the counter in decimal.
    pub fn gen_tmp(&mut self, t: &Type) -> (r: String)
        ensures
            r@ == tmp_name(t@, old(self)@),
            final(self)@ == next_count(old(self)@),
    {
        let c = match t {
            Type::Unit => 'u',
            Type::Bool => 'b',
            Type::Int => 'i',
            Type::Float => 'd',
            Type::Fun(_, _) => 'f',
            Type::Tuple(_) => 't',
            Type::Array(_) => 'a',
            Type::Var(_) => 'v',
        };
        let mut s = String::new();
        string_push(&mut s, c);
        push_decimal(&mut s, self.counter);
        assert(s@ =~= tmp_name(t@, old(self)@));
        self.advance();
        s
    }

    /// A fresh type variable, numbered by the counter.
    pub fn gen_type(&mut self) -> (r: Type)
        ensures
            r@ == TypeV::Var(old(self)@),
            final(self)@ == next_count(old(self)@),
    {
        let t = Type::Var(self.counter);
        self.advance();
        t
    }
}

proof fn lemma_decimal_len(n: nat)
    ensures
        decimal(n).len() >= 1,
        n < 10 <==> decimal(n).len() == 1,
    decreases n,
{
    if n >= 10 {
        lemma_decimal_len(n / 10);
    }
}

proof fn lemma_digit_char_injective(d1: nat, d2: nat)
    requires
        d1 < 10,
        d2 < 10,
        digit_char(d1) == digit_char(d2),
    ensures
        d1 == d2,
{
    assert(((48 + d1) as u8) as char == ((48 + d2) as u8) as char ==> (48 + d1) as u8 == (48 + d2) as u8);
}

/// Different numbers have different decimal notations.
pub proof fn lemma_decimal_injective(n: nat, m: nat)
    requires
        decimal(n) == decimal(m),
    ensures
        n == m,
    decreases n,
{
    lemma_decimal_len(n);
    lemma_decimal_len(m);
    if n < 10 {
        assert(m < 10);
        assert(decimal(n)[0] == digit_char(n));
        assert(decimal(m)[0] == digit_char(m));
        lemma_digit_char_injective(n, m);
    } else {
        assert(m >= 10);
        let dn = decimal(n / 10).push(digit_char(n % 10));
        let dm = decimal(m / 10).push(digit_char(m % 10));
        assert(dn.last() == dm.last());
        lemma_digit_char_injective(n % 10, m % 10);
        assert(dn.drop_last() =~= decimal(n / 10));
        assert(dm.drop_last() =~= decimal(m / 10));
        lemma_decimal_injective(n / 10, m / 10);
    }
}

/// Names of temporaries made at different counter values differ, whatever
/// their types: the counter is written out in full after the type's letter.
pub proof fn lemma_tmp_name_injective(t1: TypeV, n1: u64, t2: TypeV, n2: u64)
    requires
        tmp_name(t1, n1) == tmp_name(t2, n2),
    ensures
        n1 == n2,
        type_letter(t1) == type_letter(t2),
{
    let a = tmp_name(t1, n1);
    let b = tmp_name(t2, n2);
    assert(a[0] == b[0]);
    assert(a.drop_first() =~= decimal(n1 as nat));
    assert(b.drop_first() =~= decimal(n2 as nat));
    lemma_decimal_injective(n1 as nat, n2 as nat);
}

} // verus!
