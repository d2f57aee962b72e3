//! Syntax trees produced by the parser, and their mathematical views.

use vstd::prelude::*;

verus! {

/// Types of the language. `Var(n)` is a type variable.
#[derive(Debug, PartialEq, Eq)]
pub enum Type {
    Unit,
    Bool,
    Int,
    Float,
    Fun(Vec<Type>, Box<Type>),
    Tuple(Vec<Type>),
    Array(Box<Type>),
    Var(u64),
}

/// The mathematical value of a `Type`.
pub enum TypeV {
    Unit,
    Bool,
    Int,
    Float,
    Fun(Seq<TypeV>, Box<TypeV>),
    Tuple(Seq<TypeV>),
    Array(Box<TypeV>),
    Var(u64),
}

/// The view of a type.
pub open spec fn type_view(t: &Type) -> TypeV
    decreases t,
{
    match t {
        Type::Unit => TypeV::Unit,
        Type::Bool => TypeV::Bool,
        Type::Int => TypeV::Int,
        Type::Float => TypeV::Float,
        Type::Fun(args, ret) => TypeV::Fun(types_view(args), Box::new(type_view(ret))),
        Type::Tuple(ts) => TypeV::Tuple(types_view(ts)),
        Type::Array(e) => TypeV::Array(Box::new(type_view(e))),
        Type::Var(n) => TypeV::Var(*n),
    }
}

/// The view of a vector of types, element by element.
pub open spec fn types_view(ts: &Vec<Type>) -> Seq<TypeV>
    decreases ts,
{
    Seq::new(ts.len() as nat, |i: int| if 0 <= i < ts.len() { type_view(&ts[i]) } else { TypeV::Unit })
}

impl View for Type {
    type V = TypeV;

    open spec fn view(&self) -> TypeV {
        type_view(self)
    }
}

/// Integer binary operators.
#[derive(Debug, Clone, Copy, PartialEq, Eq)]
pub enum IntBin {
    Add,
    Sub,
}

/// Floating-point binary operators.
#[derive(Debug, Clone, Copy, PartialEq, Eq)]
pub enum FloatBin {
    FAdd,
    FSub,
    FMul,
    FDiv,
}

/// Comparison operators: equality and less-or-equal.
#[derive(Debug, Clone, Copy, PartialEq, Eq)]
pub enum CompBin {
    Eq,
    LE,
}

/// A function definition: its name and type, its parameters, and its body.
#[derive(Debug, PartialEq, Eq)]
pub struct Fundef {
    pub name: (String, Type),
    pub args: Vec<(String, Type)>,
    pub body: Box<Syntax>,
}

/// Expressions as the parser produces them. A float literal is kept as the
/// bytes of its source text (digits, a dot, and optional digits).
#[derive(Debug, PartialEq, Eq)]
pub enum Syntax {
    Unit,
    Bool(bool),
    Int(i64),
    Float(Vec<u8>),
    Not(Box<Syntax>),
    Neg(Box<Syntax>),
    IntBin(IntBin, Box<Syntax>, Box<Syntax>),
    FNeg(Box<Syntax>),
    FloatBin(FloatBin, Box<Syntax>, Box<Syntax>),
    CompBin(CompBin, Box<Syntax>, Box<Syntax>),
    If(Box<Syntax>, Box<Syntax>, Box<Syntax>),
    Let((String, Type), Box<Syntax>, Box<Syntax>),
    Var(String),
    LetRec(Fundef, Box<Syntax>),
    App(Box<Syntax>, Vec<Syntax>),
    Tuple(Vec<Syntax>),
    LetTuple(Vec<(String, Type)>, Box<Syntax>, Box<Syntax>),
    Array(Box<Syntax>, Box<Syntax>),
    Get(Box<Syntax>, Box<Syntax>),
    Put(Box<Syntax>, Box<Syntax>, Box<Syntax>),
}

/// The mathematical value of a binder: a name and a type.
pub type BinderV = (Seq<char>, TypeV);

/// The mathematical value of a `Fundef`.
pub struct FundefV {
    pub name: BinderV,
    pub args: Seq<BinderV>,
    pub body: Box<SyntaxV>,
}

/// The mathematical value of a `Syntax` tree.
pub enum SyntaxV {
    Unit,
    Bool(bool),
    Int(i64),
    Float(Seq<u8>),
    Not(Box<SyntaxV>),
    Neg(Box<SyntaxV>),
    IntBin(IntBin, Box<SyntaxV>, Box<SyntaxV>),
    FNeg(Box<SyntaxV>),
    FloatBin(FloatBin, Box<SyntaxV>, Box<SyntaxV>),
    CompBin(CompBin, Box<SyntaxV>, Box<SyntaxV>),
    If(Box<SyntaxV>, Box<SyntaxV>, Box<SyntaxV>),
    Let(BinderV, Box<SyntaxV>, Box<SyntaxV>),
    Var(Seq<char>),
    LetRec(FundefV, Box<SyntaxV>),
    App(Box<SyntaxV>, Seq<SyntaxV>),
    Tuple(Seq<SyntaxV>),
    LetTuple(Seq<BinderV>, Box<SyntaxV>, Box<SyntaxV>),
    Array(Box<SyntaxV>, Box<SyntaxV>),
    Get(Box<SyntaxV>, Box<SyntaxV>),
    Put(Box<SyntaxV>, Box<SyntaxV>, Box<SyntaxV>),
}

/// The view of a binder.
pub open spec fn binder_view(b: &(String, Type)) -> BinderV {
    (b.0@, b.1@)
}

/// The view of a vector of binders, element by element.
pub open spec fn binders_view(bs: &Vec<(String, Type)>) -> Seq<BinderV> {
    Seq::new(bs.len() as nat, |i: int| binder_view(&bs[i]))
}

/// The view of a vector of expressions, element by element.
pub open spec fn syntaxes_view(es: &Vec<Syntax>) -> Seq<SyntaxV>
    decreases es,
{
    Seq::new(es.len() as nat, |i: int| if 0 <= i < es.len() { syntax_view(&es[i]) } else { SyntaxV::Unit })
}

/// The view of an expression.
pub open spec fn syntax_view(e: &Syntax) -> SyntaxV
    decreases e,
{
    match e {
        Syntax::Unit => SyntaxV::Unit,
        Syntax::Bool(b) => SyntaxV::Bool(*b),
        Syntax::Int(i) => SyntaxV::Int(*i),
        Syntax::Float(d) => SyntaxV::Float(d@),
        Syntax::Not(e) => SyntaxV::Not(Box::new(syntax_view(e))),
        Syntax::Neg(e) => SyntaxV::Neg(Box::new(syntax_view(e))),
        Syntax::IntBin(op, a, b) => SyntaxV::IntBin(*op, Box::new(syntax_view(a)), Box::new(syntax_view(b))),
        Syntax::FNeg(e) => SyntaxV::FNeg(Box::new(syntax_view(e))),
        Syntax::FloatBin(op, a, b) => SyntaxV::FloatBin(*op, Box::new(syntax_view(a)), Box::new(syntax_view(b))),
        Syntax::CompBin(op, a, b) => SyntaxV::CompBin(*op, Box::new(syntax_view(a)), Box::new(syntax_view(b))),
        Syntax::If(a, b, c) => SyntaxV::If(Box::new(syntax_view(a)), Box::new(syntax_view(b)), Box::new(syntax_view(c))),
        Syntax::Let(xt, a, b) => SyntaxV::Let(binder_view(xt), Box::new(syntax_view(a)), Box::new(syntax_view(b))),
        Syntax::Var(x) => SyntaxV::Var(x@),
        Syntax::LetRec(f, e) => SyntaxV::LetRec(
            FundefV { name: binder_view(&f.name), args: binders_view(&f.args), body: Box::new(syntax_view(&f.body)) },
            Box::new(syntax_view(e)),
        ),
        Syntax::App(f, args) => SyntaxV::App(Box::new(syntax_view(f)), syntaxes_view(args)),
        Syntax::Tuple(es) => SyntaxV::Tuple(syntaxes_view(es)),
        Syntax::LetTuple(xts, a, b) => SyntaxV::LetTuple(binders_view(xts), Box::new(syntax_view(a)), Box::new(syntax_view(b))),
        Syntax::Array(a, b) => SyntaxV::Array(Box::new(syntax_view(a)), Box::new(syntax_view(b))),
        Syntax::Get(a, b) => SyntaxV::Get(Box::new(syntax_view(a)), Box::new(syntax_view(b))),
        Syntax::Put(a, b, c) => SyntaxV::Put(Box::new(syntax_view(a)), Box::new(syntax_view(b)), Box::new(syntax_view(c))),
    }
}

/// A size of expressions that decreases from an expression to each of its
/// parts (and, for K-normalization, from a condition to its rewritten form).
pub open spec fn syn_size(e: SyntaxV) -> nat
    decreases e,
{
    match e {
        SyntaxV::Not(a) => syn_size(*a) + 5,
        SyntaxV::Neg(a) => syn_size(*a) + 1,
        SyntaxV::FNeg(a) => syn_size(*a) + 1,
        SyntaxV::IntBin(_, a, b) => syn_size(*a) + syn_size(*b) + 1,
        SyntaxV::FloatBin(_, a, b) => syn_size(*a) + syn_size(*b) + 1,
        SyntaxV::CompBin(_, a, b) => syn_size(*a) + syn_size(*b) + 3,
        SyntaxV::If(c, a, b) => syn_size(*c) + syn_size(*a) + syn_size(*b) + 3,
        SyntaxV::Let(_, a, b) => syn_size(*a) + syn_size(*b) + 1,
        SyntaxV::LetRec(f, b) => syn_size(*f.body) + syn_size(*b) + 1,
        SyntaxV::App(f, args) => syn_size(*f) + syns_size(args) + 1,
        SyntaxV::Tuple(es) => syns_size(es) + 1,
        SyntaxV::LetTuple(_, a, b) => syn_size(*a) + syn_size(*b) + 1,
        SyntaxV::Array(a, b) => syn_size(*a) + syn_size(*b) + 1,
        SyntaxV::Get(a, b) => syn_size(*a) + syn_size(*b) + 1,
        SyntaxV::Put(a, b, c) => syn_size(*a) + syn_size(*b) + syn_size(*c) + 1,
        _ => 1,
    }
}

/// The size of a sequence of expressions.
pub open spec fn syns_size(es: Seq<SyntaxV>) -> nat
    decreases es,
{
    if es.len() == 0 {
        0
    } else {
        syn_size(es[0]) + syns_size(es.drop_first()) + 1
    }
}

impl View for Syntax {
    type V = SyntaxV;

    open spec fn view(&self) -> SyntaxV {
        syntax_view(self)
    }
}

impl View for Fundef {
    type V = FundefV;

    open spec fn view(&self) -> FundefV {
        FundefV { name: binder_view(&self.name), args: binders_view(&self.args), body: Box::new(syntax_view(&self.body)) }
    }
}

/// A vector of one expression.
pub(crate) fn vec1(a: Syntax) -> (r: Vec<Syntax>)
    ensures
        syntaxes_view(&r) == seq![a@],
        r@.len() == 1,
{
    let ghost av = a@;
    let mut r: Vec<Syntax> = Vec::new();
    r.push(a);
    assert(syntaxes_view(&r) =~= seq![av]);
    r
}

/// A vector of two expressions.
pub(crate) fn vec2(a: Syntax, b: Syntax) -> (r: Vec<Syntax>)
    ensures
        syntaxes_view(&r) == seq![a@, b@],
        r@.len() == 2,
{
    let ghost av = a@;
    let ghost bv = b@;
    let mut r: Vec<Syntax> = Vec::new();
    r.push(a);
    r.push(b);
    assert(syntaxes_view(&r) =~= seq![av, bv]);
    r
}

// Constructors whose contracts give the view of what they build; proofs
// that use them need not unfold `syntax_view`.
impl Syntax {
    pub(crate) fn mk_not(a: Syntax) -> (r: Syntax)
        ensures r@ == SyntaxV::Not(Box::new(a@)),
    {
        Syntax::Not(Box::new(a))
    }

    pub(crate) fn mk_neg(a: Syntax) -> (r: Syntax)
        ensures r@ == SyntaxV::Neg(Box::new(a@)),
    {
        Syntax::Neg(Box::new(a))
    }

    pub(crate) fn mk_fneg(a: Syntax) -> (r: Syntax)
        ensures r@ == SyntaxV::FNeg(Box::new(a@)),
    {
        Syntax::FNeg(Box::new(a))
    }

    pub(crate) fn mk_int_bin(op: IntBin, a: Syntax, b: Syntax) -> (r: Syntax)
        ensures r@ == SyntaxV::IntBin(op, Box::new(a@), Box::new(b@)),
    {
        Syntax::IntBin(op, Box::new(a), Box::new(b))
    }

    pub(crate) fn mk_float_bin(op: FloatBin, a: Syntax, b: Syntax) -> (r: Syntax)
        ensures r@ == SyntaxV::FloatBin(op, Box::new(a@), Box::new(b@)),
    {
        Syntax::FloatBin(op, Box::new(a), Box::new(b))
    }

    pub(crate) fn mk_comp_bin(op: CompBin, a: Syntax, b: Syntax) -> (r: Syntax)
        ensures r@ == SyntaxV::CompBin(op, Box::new(a@), Box::new(b@)),
    {
        Syntax::CompBin(op, Box::new(a), Box::new(b))
    }

    pub(crate) fn mk_if(a: Syntax, b: Syntax, c: Syntax) -> (r: Syntax)
        ensures r@ == SyntaxV::If(Box::new(a@), Box::new(b@), Box::new(c@)),
    {
        Syntax::If(Box::new(a), Box::new(b), Box::new(c))
    }

    pub(crate) fn mk_let(xt: (String, Type), a: Syntax, b: Syntax) -> (r: Syntax)
        ensures r@ == SyntaxV::Let(binder_view(&xt), Box::new(a@), Box::new(b@)),
    {
        Syntax::Let(xt, Box::new(a), Box::new(b))
    }

    pub(crate) fn mk_var(x: String) -> (r: Syntax)
        ensures r@ == SyntaxV::Var(x@),
    {
        Syntax::Var(x)
    }

    pub(crate) fn mk_let_rec(f: Fundef, e: Syntax) -> (r: Syntax)
        ensures r@ == SyntaxV::LetRec(f@, Box::new(e@)),
    {
        Syntax::LetRec(f, Box::new(e))
    }

    pub(crate) fn mk_app(f: Syntax, es: Vec<Syntax>) -> (r: Syntax)
        ensures r@ == SyntaxV::App(Box::new(f@), syntaxes_view(&es)),
    {
        Syntax::App(Box::new(f), es)
    }

    pub(crate) fn mk_tuple(es: Vec<Syntax>) -> (r: Syntax)
        ensures r@ == SyntaxV::Tuple(syntaxes_view(&es)),
    {
        Syntax::Tuple(es)
    }

    pub(crate) fn mk_let_tuple(xts: Vec<(String, Type)>, a: Syntax, b: Syntax) -> (r: Syntax)
        ensures r@ == SyntaxV::LetTuple(binders_view(&xts), Box::new(a@), Box::new(b@)),
    {
        Syntax::LetTuple(xts, Box::new(a), Box::new(b))
    }

    pub(crate) fn mk_array(a: Syntax, b: Syntax) -> (r: Syntax)
        ensures r@ == SyntaxV::Array(Box::new(a@), Box::new(b@)),
    {
        Syntax::Array(Box::new(a), Box::new(b))
    }

    pub(crate) fn mk_get(a: Syntax, b: Syntax) -> (r: Syntax)
        ensures r@ == SyntaxV::Get(Box::new(a@), Box::new(b@)),
    {
        Syntax::Get(Box::new(a), Box::new(b))
    }

    pub(crate) fn mk_put(a: Syntax, b: Syntax, c: Syntax) -> (r: Syntax)
        ensures r@ == SyntaxV::Put(Box::new(a@), Box::new(b@), Box::new(c@)),
    {
        Syntax::Put(Box::new(a), Box::new(b), Box::new(c))
    }
}

/// Two vectors of types with equal element views have equal views.
pub proof fn lemma_types_view_eq(a: &Vec<Type>, b: &Vec<Type>)
    requires
        a@.len() == b@.len(),
        forall|i: int| 0 <= i < a@.len() ==> a@[i]@ == b@[i]@,
    ensures
        types_view(a) == types_view(b),
{
    assert(types_view(a) =~= types_view(b));
}

/// A copy of a sequence of types, element by element.
pub fn copy_types(ts: &Vec<Type>) -> (r: Vec<Type>)
    ensures
        types_view(&r) == types_view(ts),
    decreases ts,
{
    let mut r: Vec<Type> = Vec::new();
    let mut k: usize = 0;
    while k < ts.len()
        invariant
            k <= ts@.len(),
            r@.len() == k,
            forall|i: int| 0 <= i < k ==> r@[i]@ == ts@[i]@,
        decreases ts@.len() - k,
    {
        proof { assert(decreases_to!(ts => ts[k as int])); }
        r.push(copy_type(&ts[k]));
        k += 1;
    }
    proof { lemma_types_view_eq(&r, ts); }
    r
}

/// A copy of a type.
pub fn copy_type(t: &Type) -> (r: Type)
    ensures
        r@ == t@,
    decreases t,
{
    match t {
        Type::Unit => Type::Unit,
        Type::Bool => Type::Bool,
        Type::Int => Type::Int,
        Type::Float => Type::Float,
        Type::Fun(args, ret) => Type::Fun(copy_types(args), Box::new(copy_type(ret))),
        Type::Tuple(ts) => Type::Tuple(copy_types(ts)),
        Type::Array(e) => Type::Array(Box::new(copy_type(e))),
        Type::Var(n) => Type::Var(*n),
    }
}

/// A copy of a binder.
pub fn copy_binder(b: &(String, Type)) -> (r: (String, Type))
    ensures
        binder_view(&r) == binder_view(b),
{
    (b.0.clone(), copy_type(&b.1))
}

/// A copy of a vector of binders.
pub fn copy_binders(bs: &Vec<(String, Type)>) -> (r: Vec<(String, Type)>)
    ensures
        binders_view(&r) == binders_view(bs),
{
    let mut r: Vec<(String, Type)> = Vec::new();
    let mut k: usize = 0;
    while k < bs.len()
        invariant
            k <= bs@.len(),
            r@.len() == k,
            forall|i: int| 0 <= i < k ==> binder_view(&r@[i]) == binder_view(&bs@[i]),
        decreases bs@.len() - k,
    {
        r.push(copy_binder(&bs[k]));
        k += 1;
    }
    assert(binders_view(&r) =~= binders_view(bs));
    r
}

impl Clone for Type {
    fn clone(&self) -> (r: Self)
        ensures
            r@ == self@,
    {
        copy_type(self)
    }
}

/// The view of `v` with `x` pushed is the view of `v` with the view of `x`
/// pushed.
pub(crate) proof fn lemma_syntaxes_push(v: Vec<Syntax>, w: Vec<Syntax>, x: Syntax)
    requires
        w@ == v@.push(x),
    ensures
        syntaxes_view(&w) == syntaxes_view(&v).push(x@),
{
    let a = syntaxes_view(&w);
    let b = syntaxes_view(&v).push(x@);
    assert(a.len() == w@.len());
    assert(b.len() == w@.len());
    assert forall|i: int| 0 <= i < w@.len() implies a[i] == b[i] by {
        if i < v@.len() {
            assert(w@[i] == v@[i]);
        }
    }
    assert(a =~= b);
}

/// The view of `v` with `x` pushed is the view of `v` with the view of `x`
/// pushed, for binders.
pub(crate) proof fn lemma_binders_push(v: Vec<(String, Type)>, w: Vec<(String, Type)>, x: (String, Type))
    requires
        w@ == v@.push(x),
    ensures
        binders_view(&w) == binders_view(&v).push(binder_view(&x)),
{
    let a = binders_view(&w);
    let b = binders_view(&v).push(binder_view(&x));
    assert forall|i: int| 0 <= i < w@.len() implies a[i] == b[i] by {
        if i < v@.len() {
            assert(w@[i] == v@[i]);
        }
    }
    assert(a =~= b);
}

/// Removing the first expression of a vector drops the first view.
pub(crate) proof fn lemma_syntaxes_remove_first(v: Vec<Syntax>, w: Vec<Syntax>)
    requires
        v@.len() > 0,
        w@ == v@.remove(0),
    ensures
        syntaxes_view(&w) == syntaxes_view(&v).drop_first(),
        syntaxes_view(&v)[0] == v@[0]@,
        syns_size(syntaxes_view(&v)) == syn_size(v@[0]@) + syns_size(syntaxes_view(&w)) + 1,
{
    assert forall|i: int| 0 <= i < w@.len() implies syntaxes_view(&w)[i] == syntaxes_view(&v).drop_first()[i] by {
        assert(w@[i] == v@[i + 1]);
    }
    assert(syntaxes_view(&w) =~= syntaxes_view(&v).drop_first());
}

} // verus!
