//! K-normal form: every intermediate value is given a name, so that each
//! operation applies to variables only.

use vstd::prelude::*;
use crate::syntax::{
    IntBin, FloatBin, CompBin, Type, TypeV, BinderV, Syntax, SyntaxV, binder_view, binders_view,
    syntaxes_view, types_view, copy_type, copy_binder, copy_binders, syn_size, syns_size, lemma_binders_push, lemma_syntaxes_remove_first,
};
use crate::id::{IdGen, tmp_name, next_count};

verus! {

/// Expressions in K-normal form. A float constant keeps the bytes of its
/// source literal.
#[derive(Debug, PartialEq, Eq)]
pub enum KNormal {
    Unit,
    Int(i64),
    Float(Vec<u8>),
    Neg(String),
    IntBin(IntBin, String, String),
    FNeg(String),
    FloatBin(FloatBin, String, String),
    IfComp(CompBin, String, String, Box<KNormal>, Box<KNormal>),
    Let((String, Type), Box<KNormal>, Box<KNormal>),
    Var(String),
    LetRec(KFundef, Box<KNormal>),
    App(String, Vec<String>),
    Tuple(Vec<String>),
    LetTuple(Vec<(String, Type)>, String, Box<KNormal>),
    Get(String, String),
    Put(String, String, String),
    ExtArray(String),
    ExtFunApp(String, Vec<String>),
}

/// A function definition in K-normal form.
#[derive(Debug, PartialEq, Eq)]
pub struct KFundef {
    pub name: (String, Type),
    pub args: Vec<(String, Type)>,
    pub body: Box<KNormal>,
}

/// The mathematical value of a `KFundef`.
pub struct KFundefV {
    pub name: BinderV,
    pub args: Seq<BinderV>,
    pub body: Box<KNormalV>,
}

/// The mathematical value of a `KNormal` expression.
pub enum KNormalV {
    Unit,
    Int(i64),
    Float(Seq<u8>),
    Neg(Seq<char>),
    IntBin(IntBin, Seq<char>, Seq<char>),
    FNeg(Seq<char>),
    FloatBin(FloatBin, Seq<char>, Seq<char>),
    IfComp(CompBin, Seq<char>, Seq<char>, Box<KNormalV>, Box<KNormalV>),
    Let(BinderV, Box<KNormalV>, Box<KNormalV>),
    Var(Seq<char>),
    LetRec(KFundefV, Box<KNormalV>),
    App(Seq<char>, Seq<Seq<char>>),
    Tuple(Seq<Seq<char>>),
    LetTuple(Seq<BinderV>, Seq<char>, Box<KNormalV>),
    Get(Seq<char>, Seq<char>),
    Put(Seq<char>, Seq<char>, Seq<char>),
    ExtArray(Seq<char>),
    ExtFunApp(Seq<char>, Seq<Seq<char>>),
}

/// The views of a vector of names.
pub open spec fn strings_view(xs: &Vec<String>) -> Seq<Seq<char>> {
    Seq::new(xs.len() as nat, |i: int| xs[i]@)
}

/// The view of a K-normal expression.
pub open spec fn knormal_view(e: &KNormal) -> KNormalV
    decreases e,
{
    match e {
        KNormal::Unit => KNormalV::Unit,
        KNormal::Int(i) => KNormalV::Int(*i),
        KNormal::Float(d) => KNormalV::Float(d@),
        KNormal::Neg(x) => KNormalV::Neg(x@),
        KNormal::IntBin(op, x, y) => KNormalV::IntBin(*op, x@, y@),
        KNormal::FNeg(x) => KNormalV::FNeg(x@),
        KNormal::FloatBin(op, x, y) => KNormalV::FloatBin(*op, x@, y@),
        KNormal::IfComp(op, x, y, a, b) => KNormalV::IfComp(
            *op, x@, y@, Box::new(knormal_view(a)), Box::new(knormal_view(b)),
        ),
        KNormal::Let(xt, a, b) => KNormalV::Let(
            binder_view(xt), Box::new(knormal_view(a)), Box::new(knormal_view(b)),
        ),
        KNormal::Var(x) => KNormalV::Var(x@),
        KNormal::LetRec(f, e2) => KNormalV::LetRec(
            KFundefV {
                name: binder_view(&f.name),
                args: binders_view(&f.args),
                body: Box::new(knormal_view(&f.body)),
            },
            Box::new(knormal_view(e2)),
        ),
        KNormal::App(f, xs) => KNormalV::App(f@, strings_view(xs)),
        KNormal::Tuple(xs) => KNormalV::Tuple(strings_view(xs)),
        KNormal::LetTuple(xts, y, a) => KNormalV::LetTuple(
            binders_view(xts), y@, Box::new(knormal_view(a)),
        ),
        KNormal::Get(x, y) => KNormalV::Get(x@, y@),
        KNormal::Put(x, y, z) => KNormalV::Put(x@, y@, z@),
        KNormal::ExtArray(x) => KNormalV::ExtArray(x@),
        KNormal::ExtFunApp(f, xs) => KNormalV::ExtFunApp(f@, strings_view(xs)),
    }
}

impl View for KNormal {
    type V = KNormalV;

    open spec fn view(&self) -> KNormalV {
        knormal_view(self)
    }
}

impl View for KFundef {
    type V = KFundefV;

    open spec fn view(&self) -> KFundefV {
        KFundefV {
            name: binder_view(&self.name),
            args: binders_view(&self.args),
            body: Box::new(knormal_view(&self.body)),
        }
    }
}

// ---------------------------------------------------------------------------
// Free variables
// ---------------------------------------------------------------------------

/// The names in a sequence, as a set.
pub open spec fn name_set(xs: Seq<Seq<char>>) -> Set<Seq<char>> {
    Set::new(|x: Seq<char>| xs.contains(x))
}

/// The names bound by a sequence of binders.
pub open spec fn binder_names(bs: Seq<BinderV>) -> Set<Seq<char>> {
    Set::new(|x: Seq<char>| exists|i: int| 0 <= i < bs.len() && #[trigger] bs[i].0 == x)
}

/// The free variables of a K-normal expression: the names it uses that no
/// enclosing binder of the expression itself introduces.
pub open spec fn free_vars(e: KNormalV) -> Set<Seq<char>>
    decreases e,
{
    match e {
        KNormalV::Unit => Set::empty(),
        KNormalV::Int(_) => Set::empty(),
        KNormalV::Float(_) => Set::empty(),
        KNormalV::ExtArray(_) => Set::empty(),
        KNormalV::Neg(x) => set![x],
        KNormalV::FNeg(x) => set![x],
        KNormalV::Var(x) => set![x],
        KNormalV::IntBin(_, x, y) => set![x, y],
        KNormalV::FloatBin(_, x, y) => set![x, y],
        KNormalV::IfComp(_, x, y, a, b) => set![x, y] + free_vars(*a) + free_vars(*b),
        KNormalV::Let(xt, a, b) => free_vars(*a) + free_vars(*b).remove(xt.0),
        KNormalV::LetRec(f, b) => (
            (free_vars(*f.body) - binder_names(f.args)) + free_vars(*b)
        ).remove(f.name.0),
        KNormalV::App(f, xs) => set![f] + name_set(xs),
        KNormalV::Tuple(xs) => name_set(xs),
        KNormalV::LetTuple(xts, y, a) => set![y] + (free_vars(*a) - binder_names(xts)),
        KNormalV::Get(x, y) => set![x, y],
        KNormalV::Put(x, y, z) => set![x, y, z],
        KNormalV::ExtFunApp(_, xs) => name_set(xs),
    }
}

/// Whether `x` is among the names of `xs`.
fn names_contain(xs: &Vec<String>, x: &String) -> (r: bool)
    ensures
        r == strings_view(xs).contains(x@),
{
    let mut k: usize = 0;
    while k < xs.len()
        invariant
            k <= xs@.len(),
            forall|i: int| 0 <= i < k ==> xs@[i]@ != x@,
        decreases xs@.len() - k,
    {
        if xs[k] == *x {
            assert(strings_view(xs)[k as int] == x@);
            return true;
        }
        k += 1;
    }
    proof {
        if strings_view(xs).contains(x@) {
            let j = choose|j: int| 0 <= j < strings_view(xs).len() && strings_view(xs)[j] == x@;
            assert(xs@[j]@ == x@);
        }
    }
    false
}

/// Adds `x` to a duplicate-free vector of names unless it is already there.
fn add_name(xs: &mut Vec<String>, x: &String)
    requires
        strings_view(old(xs)).no_duplicates(),
    ensures
        strings_view(final(xs)).no_duplicates(),
        name_set(strings_view(final(xs))) == name_set(strings_view(old(xs))).insert(x@),
{
    let ghost before = strings_view(xs);
    if !names_contain(xs, x) {
        xs.push(x.clone());
        assert(strings_view(xs) =~= before.push(x@));
        assert forall|i: int, j: int| 0 <= i < j < strings_view(xs).len()
            implies strings_view(xs)[i] != strings_view(xs)[j] by {
            if j == before.len() {
                assert(before[i] == strings_view(xs)[i]);
                assert(before.contains(before[i]));
            }
        }
        assert forall|y: Seq<char>| name_set(strings_view(xs)).contains(y)
            <==> name_set(before).insert(x@).contains(y) by {
            if strings_view(xs).contains(y) && y != x@ {
                let j = choose|j: int| 0 <= j < strings_view(xs).len() && strings_view(xs)[j] == y;
                assert(before[j] == y);
            }
            if before.contains(y) {
                let j = choose|j: int| 0 <= j < before.len() && before[j] == y;
                assert(strings_view(xs)[j] == y);
            }
            if y == x@ {
                assert(strings_view(xs)[before.len() as int] == y);
            }
        }
        assert(name_set(strings_view(xs)) =~= name_set(before).insert(x@));
    } else {
        assert(name_set(strings_view(xs)) =~= name_set(before).insert(x@));
    }
}

/// Adds every name of `ys` to a duplicate-free vector of names.
fn add_names(xs: &mut Vec<String>, ys: &Vec<String>)
    requires
        strings_view(old(xs)).no_duplicates(),
    ensures
        strings_view(final(xs)).no_duplicates(),
        name_set(strings_view(final(xs))) == name_set(strings_view(old(xs))) + name_set(strings_view(ys)),
{
    let ghost start = name_set(strings_view(xs));
    let mut k: usize = 0;
    while k < ys.len()
        invariant
            k <= ys@.len(),
            strings_view(xs).no_duplicates(),
            name_set(strings_view(xs)) == start + name_set(strings_view(ys).take(k as int)),
        decreases ys@.len() - k,
    {
        add_name(xs, &ys[k]);
        assert(strings_view(ys).take(k + 1) =~= strings_view(ys).take(k as int).push(ys@[k as int]@));
        assert forall|y: Seq<char>| name_set(strings_view(ys).take(k + 1)).contains(y)
            <==> name_set(strings_view(ys).take(k as int)).insert(ys@[k as int]@).contains(y) by {
            let s0 = strings_view(ys).take(k as int);
            let s1 = strings_view(ys).take(k + 1);
            if s1.contains(y) && y != ys@[k as int]@ {
                let j = choose|j: int| 0 <= j < s1.len() && s1[j] == y;
                assert(s0[j] == y);
            }
            if s0.contains(y) {
                let j = choose|j: int| 0 <= j < s0.len() && s0[j] == y;
                assert(s1[j] == y);
            }
            if y == ys@[k as int]@ {
                assert(s1[k as int] == y);
            }
        }
        assert(name_set(strings_view(ys).take(k + 1)) =~= name_set(strings_view(ys).take(k as int)).insert(ys@[k as int]@));
        assert(name_set(strings_view(xs)) =~= start + name_set(strings_view(ys).take(k + 1)));
        k += 1;
    }
    assert(strings_view(ys).take(k as int) =~= strings_view(ys));
}

/// The names of `xs` that are not in `drop`, in their order.
fn filter_names(xs: Vec<String>, drop: &Vec<String>) -> (r: Vec<String>)
    requires
        strings_view(&xs).no_duplicates(),
    ensures
        strings_view(&r).no_duplicates(),
        name_set(strings_view(&r)) == name_set(strings_view(&xs)) - name_set(strings_view(drop)),
{
    let ghost src = strings_view(&xs);
    let ghost gone = name_set(strings_view(drop));
    let mut r: Vec<String> = Vec::new();
    let mut k: usize = 0;
    while k < xs.len()
        invariant
            k <= xs@.len(),
            src == strings_view(&xs),
            src.no_duplicates(),
            gone == name_set(strings_view(drop)),
            strings_view(&r).no_duplicates(),
            forall|y: Seq<char>| name_set(strings_view(&r)).contains(y)
                <==> (name_set(src.take(k as int)).contains(y) && !gone.contains(y)),
            forall|y: Seq<char>| #[trigger] strings_view(&r).contains(y) ==> src.take(k as int).contains(y),
        decreases xs@.len() - k,
    {
        let ghost r0 = strings_view(&r);
        let ghost t0 = src.take(k as int);
        let ghost t1 = src.take(k + 1);
        let y = &xs[k];
        assert(t1 =~= t0.push(y@));
        let dropped = names_contain(drop, y);
        assert(dropped == gone.contains(y@));
        if !dropped {
            r.push(y.clone());
            assert(strings_view(&r) =~= r0.push(y@));
            assert(!r0.contains(y@)) by {
                if r0.contains(y@) {
                    assert(t0.contains(y@));
                    let j = choose|j: int| 0 <= j < t0.len() && t0[j] == y@;
                    assert(src[j] == src[k as int]);
                }
            }
            assert forall|i: int, j: int| 0 <= i < j < strings_view(&r).len()
                implies strings_view(&r)[i] != strings_view(&r)[j] by {
                if j == r0.len() {
                    assert(r0.contains(r0[i]));
                }
            }
        }
        assert forall|z: Seq<char>| name_set(strings_view(&r)).contains(z)
            <==> (name_set(t1).contains(z) && !gone.contains(z)) by {
            assert(name_set(r0).contains(z) <==> (name_set(t0).contains(z) && !gone.contains(z)));
            if dropped {
                assert(strings_view(&r) == r0);
            } else {
                assert(strings_view(&r) == r0.push(y@));
                assert(strings_view(&r)[r0.len() as int] == y@);
            }
            if t1.contains(z) && z != y@ {
                let j = choose|j: int| 0 <= j < t1.len() && t1[j] == z;
                assert(t0[j] == z);
            }
            if t0.contains(z) {
                let j = choose|j: int| 0 <= j < t0.len() && t0[j] == z;
                assert(t1[j] == z);
            }
            if z == y@ {
                assert(t1[k as int] == z);
            }
            if strings_view(&r).contains(z) && !r0.contains(z) {
                let j = choose|j: int| 0 <= j < strings_view(&r).len() && strings_view(&r)[j] == z;
                if j < r0.len() {
                    assert(r0[j] == z);
                }
            }
            if r0.contains(z) {
                let j = choose|j: int| 0 <= j < r0.len() && r0[j] == z;
                assert(strings_view(&r)[j] == z);
            }
        }
        assert forall|z: Seq<char>| #[trigger] strings_view(&r).contains(z) implies t1.contains(z) by {
            if r0.contains(z) {
                let j = choose|j: int| 0 <= j < t0.len() && t0[j] == z;
                assert(t1[j] == z);
            } else {
                assert(t1[k as int] == z) by {
                    let j = choose|j: int| 0 <= j < strings_view(&r).len() && strings_view(&r)[j] == z;
                    if j < r0.len() {
                        assert(r0[j] == z);
                    }
                }
            }
        }
        k += 1;
    }
    assert(src.take(k as int) =~= src);
    assert(name_set(strings_view(&r)) =~= name_set(src) - gone);
    r
}

/// The names bound by a vector of binders, in order.
fn binder_name_vec(bs: &Vec<(String, Type)>) -> (r: Vec<String>)
    ensures
        name_set(strings_view(&r)) == binder_names(binders_view(bs)),
{
    let mut r: Vec<String> = Vec::new();
    let mut k: usize = 0;
    while k < bs.len()
        invariant
            k <= bs@.len(),
            r@.len() == k,
            forall|i: int| 0 <= i < k ==> r@[i]@ == bs@[i].0@,
        decreases bs@.len() - k,
    {
        r.push(bs[k].0.clone());
        k += 1;
    }
    assert forall|y: Seq<char>| name_set(strings_view(&r)).contains(y)
        <==> binder_names(binders_view(bs)).contains(y) by {
        if strings_view(&r).contains(y) {
            let j = choose|j: int| 0 <= j < strings_view(&r).len() && strings_view(&r)[j] == y;
            assert(binders_view(bs)[j].0 == y);
        }
        if binder_names(binders_view(bs)).contains(y) {
            let j = choose|j: int| 0 <= j < binders_view(bs).len() && #[trigger] binders_view(bs)[j].0 == y;
            assert(strings_view(&r)[j] == y);
        }
    }
    assert(name_set(strings_view(&r)) =~= binder_names(binders_view(bs)));
    r
}

/// A vector holding the one name `x`.
fn one_name(x: &String) -> (r: Vec<String>)
    ensures
        strings_view(&r).no_duplicates(),
        name_set(strings_view(&r)) == set![x@],
{
    let mut r: Vec<String> = Vec::new();
    r.push(x.clone());
    assert(strings_view(&r) =~= seq![x@]);
    assert forall|y: Seq<char>| name_set(strings_view(&r)).contains(y) <==> set![x@].contains(y) by {
        if y == x@ {
            assert(strings_view(&r)[0] == y);
        }
    }
    assert(name_set(strings_view(&r)) =~= set![x@]);
    r
}

/// The free variables of `e`, each once.
pub fn fv(e: &KNormal) -> (r: Vec<String>)
    ensures
        strings_view(&r).no_duplicates(),
        name_set(strings_view(&r)) == free_vars(e@),
        name_set(strings_view(&r)).subset_of(used_names(e@)),
        (used_names(e@) - bound_names(e@)).subset_of(name_set(strings_view(&r))),
    decreases e,
{
    proof { lemma_free_vars_are_unbound_uses(e@); }
    match e {
        KNormal::Unit | KNormal::Int(_) | KNormal::Float(_) | KNormal::ExtArray(_) => {
            let r: Vec<String> = Vec::new();
            assert(name_set(strings_view(&r)) =~= Set::empty());
            r
        },
        KNormal::Neg(x) | KNormal::FNeg(x) | KNormal::Var(x) => one_name(x),
        KNormal::IntBin(_, x, y) | KNormal::FloatBin(_, x, y) | KNormal::Get(x, y) => {
            let mut r = one_name(x);
            add_name(&mut r, y);
            assert(set![x@].insert(y@) =~= set![x@, y@]);
            r
        },
        KNormal::Put(x, y, z) => {
            let mut r = one_name(x);
            add_name(&mut r, y);
            add_name(&mut r, z);
            assert(set![x@].insert(y@).insert(z@) =~= set![x@, y@, z@]);
            r
        },
        KNormal::IfComp(_, x, y, a, b) => {
            let mut r = one_name(x);
            add_name(&mut r, y);
            let fa = fv(a);
            add_names(&mut r, &fa);
            let fb = fv(b);
            add_names(&mut r, &fb);
            assert(set![x@].insert(y@) =~= set![x@, y@]);
            r
        },
        KNormal::Let(xt, a, b) => {
            let mut r = fv(a);
            let drop = one_name(&xt.0);
            let fb = filter_names(fv(b), &drop);
            add_names(&mut r, &fb);
            assert(free_vars(knormal_view(b)) - set![xt.0@] =~= free_vars(knormal_view(b)).remove(xt.0@));
            r
        },
        KNormal::LetRec(f, b) => {
            let args = binder_name_vec(&f.args);
            let mut zs = filter_names(fv(&f.body), &args);
            let fb = fv(b);
            add_names(&mut zs, &fb);
            let drop = one_name(&f.name.0);
            let r = filter_names(zs, &drop);
            let ghost u = (free_vars(knormal_view(&f.body)) - binder_names(binders_view(&f.args)))
                + free_vars(knormal_view(b));
            assert(u - set![f.name.0@] =~= u.remove(f.name.0@));
            r
        },
        KNormal::App(x, ys) => {
            let mut r = one_name(x);
            add_names(&mut r, ys);
            r
        },
        KNormal::Tuple(xs) | KNormal::ExtFunApp(_, xs) => {
            let mut r: Vec<String> = Vec::new();
            add_names(&mut r, xs);
            assert(name_set(strings_view(&r)) =~= name_set(strings_view(xs)));
            r
        },
        KNormal::LetTuple(xts, y, a) => {
            let mut r = one_name(y);
            let bound = binder_name_vec(xts);
            let fa = filter_names(fv(a), &bound);
            add_names(&mut r, &fa);
            r
        },
    }
}

// ---------------------------------------------------------------------------
// K-normalization: the model
// ---------------------------------------------------------------------------

/// The type bound to `x` in an environment; a later binding of the same name
/// hides an earlier one.
pub open spec fn lookup(env: Seq<BinderV>, x: Seq<char>) -> Option<TypeV>
    decreases env.len(),
{
    if env.len() == 0 {
        None
    } else if env.last().0 == x {
        Some(env.last().1)
    } else {
        lookup(env.drop_last(), x)
    }
}

/// The binding that names the value of `k` (of type `t`, with the counter at
/// `n`), unless `k` is a variable already.
pub open spec fn let_binding(k: KNormalV, t: TypeV, n: u64) -> Option<(BinderV, KNormalV)> {
    match k {
        KNormalV::Var(_) => None,
        _ => Some(((tmp_name(t, n), t), k)),
    }
}

/// The name under which the value of `k` is known afterwards.
pub open spec fn let_name(k: KNormalV, t: TypeV, n: u64) -> Seq<char> {
    match k {
        KNormalV::Var(x) => x,
        _ => tmp_name(t, n),
    }
}

/// The counter after naming the value of `k`.
pub open spec fn let_count(k: KNormalV, n: u64) -> u64 {
    match k {
        KNormalV::Var(_) => n,
        _ => next_count(n),
    }
}

/// `body` under the binding `w`, if there is one.
pub open spec fn wrap(w: Option<(BinderV, KNormalV)>, body: KNormalV) -> KNormalV {
    match w {
        None => body,
        Some((b, k)) => KNormalV::Let(b, Box::new(k), Box::new(body)),
    }
}

/// The result of K-normalizing `e` in `env` (with external names `ext`,
/// counter `n`): the expression, its type and the counter afterwards, or
/// `None` where the conversion cannot proceed (an unknown name, an external
/// name that is not an array, an application of a non-function, an index
/// into a non-array, a recursive definition or an array creation).
pub open spec fn k_norm(env: Seq<BinderV>, e: SyntaxV, n: u64, ext: Seq<BinderV>) -> Option<(KNormalV, TypeV, u64)>
    decreases syn_size(e),
{
    match e {
        SyntaxV::Unit => Some((KNormalV::Unit, TypeV::Unit, n)),
        SyntaxV::Bool(b) => Some((KNormalV::Int(if b { 1 } else { 0 }), TypeV::Int, n)),
        SyntaxV::Int(i) => Some((KNormalV::Int(i), TypeV::Int, n)),
        SyntaxV::Float(d) => Some((KNormalV::Float(d), TypeV::Float, n)),
        SyntaxV::Not(a) => k_norm_if(env, *a, SyntaxV::Bool(false), SyntaxV::Bool(true), n, ext),
        SyntaxV::Neg(a) => match k_norm(env, *a, n, ext) {
            None => None,
            Some((k, t, n1)) => Some((
                wrap(let_binding(k, t, n1), KNormalV::Neg(let_name(k, t, n1))),
                TypeV::Int,
                let_count(k, n1),
            )),
        },
        SyntaxV::FNeg(a) => match k_norm(env, *a, n, ext) {
            None => None,
            Some((k, t, n1)) => Some((
                wrap(let_binding(k, t, n1), KNormalV::FNeg(let_name(k, t, n1))),
                TypeV::Float,
                let_count(k, n1),
            )),
        },
        SyntaxV::IntBin(op, a, b) => match k_norm(env, *a, n, ext) {
            None => None,
            Some((k1, t1, n1)) => match k_norm(env, *b, let_count(k1, n1), ext) {
                None => None,
                Some((k2, t2, n2)) => Some((
                    wrap(let_binding(k1, t1, n1), wrap(let_binding(k2, t2, n2),
                        KNormalV::IntBin(op, let_name(k1, t1, n1), let_name(k2, t2, n2)))),
                    TypeV::Int,
                    let_count(k2, n2),
                )),
            },
        },
        SyntaxV::FloatBin(op, a, b) => match k_norm(env, *a, n, ext) {
            None => None,
            Some((k1, t1, n1)) => match k_norm(env, *b, let_count(k1, n1), ext) {
                None => None,
                Some((k2, t2, n2)) => Some((
                    wrap(let_binding(k1, t1, n1), wrap(let_binding(k2, t2, n2),
                        KNormalV::FloatBin(op, let_name(k1, t1, n1), let_name(k2, t2, n2)))),
                    TypeV::Float,
                    let_count(k2, n2),
                )),
            },
        },
        SyntaxV::CompBin(op, a, b) => k_norm_comp(env, op, *a, *b, SyntaxV::Bool(true), SyntaxV::Bool(false), n, ext),
        SyntaxV::If(c, a, b) => k_norm_if(env, *c, *a, *b, n, ext),
        SyntaxV::Let(xt, a, b) => match k_norm(env, *a, n, ext) {
            None => None,
            Some((k1, _t1, n1)) => match k_norm(env.push(xt), *b, n1, ext) {
                None => None,
                Some((k2, t2, n2)) => Some((KNormalV::Let(xt, Box::new(k1), Box::new(k2)), t2, n2)),
            },
        },
        SyntaxV::Var(x) => match lookup(env, x) {
            Some(t) => Some((KNormalV::Var(x), t, n)),
            None => match lookup(ext, x) {
                Some(TypeV::Array(el)) => Some((KNormalV::ExtArray(x), TypeV::Array(el), n)),
                _ => None,
            },
        },
        SyntaxV::LetRec(_, _) => None,
        SyntaxV::App(f, args) => match k_norm(env, *f, n, ext) {
            None => None,
            Some((kf, tf, n1)) => match tf {
                TypeV::Fun(_, ret) => match k_norm_app(
                    env, args, Seq::empty(), let_name(kf, tf, n1), *ret, let_count(kf, n1), ext,
                ) {
                    None => None,
                    Some((body, tb, n2)) => Some((wrap(let_binding(kf, tf, n1), body), tb, n2)),
                },
                _ => None,
            },
        },
        SyntaxV::Tuple(es) => k_norm_tuple(env, es, Seq::empty(), Seq::empty(), n, ext),
        SyntaxV::LetTuple(xts, a, b) => match k_norm(env, *a, n, ext) {
            None => None,
            Some((k1, t1, n1)) => match k_norm(env + xts, *b, let_count(k1, n1), ext) {
                None => None,
                Some((k2, t2, n2)) => Some((
                    wrap(let_binding(k1, t1, n1), KNormalV::LetTuple(xts, let_name(k1, t1, n1), Box::new(k2))),
                    t2,
                    n2,
                )),
            },
        },
        SyntaxV::Array(_, _) => None,
        SyntaxV::Get(a, b) => match k_norm(env, *a, n, ext) {
            None => None,
            Some((k1, t1, n1)) => match t1 {
                TypeV::Array(el) => match k_norm(env, *b, let_count(k1, n1), ext) {
                    None => None,
                    Some((k2, t2, n2)) => Some((
                        wrap(let_binding(k1, t1, n1), wrap(let_binding(k2, t2, n2),
                            KNormalV::Get(let_name(k1, t1, n1), let_name(k2, t2, n2)))),
                        *el,
                        let_count(k2, n2),
                    )),
                },
                _ => None,
            },
        },
        SyntaxV::Put(a, b, c) => match k_norm(env, *a, n, ext) {
            None => None,
            Some((k1, t1, n1)) => match k_norm(env, *b, let_count(k1, n1), ext) {
                None => None,
                Some((k2, t2, n2)) => match k_norm(env, *c, let_count(k2, n2), ext) {
                    None => None,
                    Some((k3, t3, n3)) => Some((
                        wrap(let_binding(k1, t1, n1), wrap(let_binding(k2, t2, n2), wrap(let_binding(k3, t3, n3),
                            KNormalV::Put(let_name(k1, t1, n1), let_name(k2, t2, n2), let_name(k3, t3, n3))))),
                        TypeV::Unit,
                        let_count(k3, n3),
                    )),
                },
            },
        },
    }
}

/// K-normalization of `if c then a else b`: a negation swaps the branches, a
/// comparison is kept, and any other condition `c` is read as `c = false`
/// with the branches swapped.
pub open spec fn k_norm_if(env: Seq<BinderV>, c: SyntaxV, a: SyntaxV, b: SyntaxV, n: u64, ext: Seq<BinderV>) -> Option<(KNormalV, TypeV, u64)>
    decreases syn_size(c) + syn_size(a) + syn_size(b) + 2,
{
    match c {
        SyntaxV::Not(c1) => k_norm_if(env, *c1, b, a, n, ext),
        SyntaxV::CompBin(op, x, y) => k_norm_comp(env, op, *x, *y, a, b, n, ext),
        _ => k_norm_comp(env, CompBin::Eq, c, SyntaxV::Bool(false), b, a, n, ext),
    }
}

/// K-normalization of `if x op y then a else b`: both operands are named,
/// then both branches are converted; the type is that of the first branch.
pub open spec fn k_norm_comp(
    env: Seq<BinderV>,
    op: CompBin,
    x: SyntaxV,
    y: SyntaxV,
    a: SyntaxV,
    b: SyntaxV,
    n: u64,
    ext: Seq<BinderV>,
) -> Option<(KNormalV, TypeV, u64)>
    decreases syn_size(x) + syn_size(y) + syn_size(a) + syn_size(b),
{
    match k_norm(env, x, n, ext) {
        None => None,
        Some((k1, t1, n1)) => match k_norm(env, y, let_count(k1, n1), ext) {
            None => None,
            Some((k2, t2, n2)) => match k_norm(env, a, let_count(k2, n2), ext) {
                None => None,
                Some((k3, t3, n3)) => match k_norm(env, b, n3, ext) {
                    None => None,
                    Some((k4, _t4, n4)) => Some((
                        wrap(let_binding(k1, t1, n1), wrap(let_binding(k2, t2, n2),
                            KNormalV::IfComp(op, let_name(k1, t1, n1), let_name(k2, t2, n2), Box::new(k3), Box::new(k4)))),
                        t3,
                        n4,
                    )),
                },
            },
        },
    }
}

/// K-normalization of the remaining arguments `es` of an application of `f`
/// (result type `t`), the earlier ones already named by `xs`.
pub open spec fn k_norm_app(
    env: Seq<BinderV>,
    es: Seq<SyntaxV>,
    xs: Seq<Seq<char>>,
    f: Seq<char>,
    t: TypeV,
    n: u64,
    ext: Seq<BinderV>,
) -> Option<(KNormalV, TypeV, u64)>
    decreases syns_size(es),
{
    if es.len() == 0 {
        Some((KNormalV::App(f, xs), t, n))
    } else {
        match k_norm(env, es[0], n, ext) {
            None => None,
            Some((k, tk, n1)) => match k_norm_app(
                env, es.drop_first(), xs.push(let_name(k, tk, n1)), f, t, let_count(k, n1), ext,
            ) {
                None => None,
                Some((body, tb, n2)) => Some((wrap(let_binding(k, tk, n1), body), tb, n2)),
            },
        }
    }
}

/// K-normalization of the remaining components `es` of a tuple, the earlier
/// ones already named by `xs` with types `ts`.
pub open spec fn k_norm_tuple(
    env: Seq<BinderV>,
    es: Seq<SyntaxV>,
    xs: Seq<Seq<char>>,
    ts: Seq<TypeV>,
    n: u64,
    ext: Seq<BinderV>,
) -> Option<(KNormalV, TypeV, u64)>
    decreases syns_size(es),
{
    if es.len() == 0 {
        Some((KNormalV::Tuple(xs), TypeV::Tuple(ts), n))
    } else {
        match k_norm(env, es[0], n, ext) {
            None => None,
            Some((k, tk, n1)) => match k_norm_tuple(
                env, es.drop_first(), xs.push(let_name(k, tk, n1)), ts.push(tk), let_count(k, n1), ext,
            ) {
                None => None,
                Some((body, tb, n2)) => Some((wrap(let_binding(k, tk, n1), body), tb, n2)),
            },
        }
    }
}

// ---------------------------------------------------------------------------
// K-normalization: the conversion
// ---------------------------------------------------------------------------

/// The view of a pending binding.
pub open spec fn wrapper_view(w: &Option<((String, Type), KNormal)>) -> Option<(BinderV, KNormalV)> {
    match w {
        None => None,
        Some((b, k)) => Some((binder_view(b), k@)),
    }
}

// Constructors whose contracts give the view of what they build.
impl KNormal {
    fn mk_let(xt: (String, Type), a: KNormal, b: KNormal) -> (r: KNormal)
        ensures r@ == KNormalV::Let(binder_view(&xt), Box::new(a@), Box::new(b@)),
    {
        KNormal::Let(xt, Box::new(a), Box::new(b))
    }

    fn mk_if_comp(op: CompBin, x: String, y: String, a: KNormal, b: KNormal) -> (r: KNormal)
        ensures r@ == KNormalV::IfComp(op, x@, y@, Box::new(a@), Box::new(b@)),
    {
        KNormal::IfComp(op, x, y, Box::new(a), Box::new(b))
    }

    fn mk_let_tuple(xts: Vec<(String, Type)>, y: String, a: KNormal) -> (r: KNormal)
        ensures r@ == KNormalV::LetTuple(binders_view(&xts), y@, Box::new(a@)),
    {
        KNormal::LetTuple(xts, y, Box::new(a))
    }
}

/// `body` under the pending binding `w`, if there is one.
fn wrap_with(w: Option<((String, Type), KNormal)>, body: KNormal) -> (r: KNormal)
    ensures
        r@ == wrap(wrapper_view(&w), body@),
{
    match w {
        None => body,
        Some((b, k)) => KNormal::mk_let(b, k, body),
    }
}

/// Names the value of `k`: a variable is its own name; anything else gets a
/// fresh temporary, returned with the binding that must enclose its uses.
fn insert_let(k: KNormal, t: Type, id_gen: &mut IdGen) -> (r: (Option<((String, Type), KNormal)>, String))
    ensures
        wrapper_view(&r.0) == let_binding(k@, t@, old(id_gen)@),
        r.1@ == let_name(k@, t@, old(id_gen)@),
        final(id_gen)@ == let_count(k@, old(id_gen)@),
{
    match k {
        KNormal::Var(x) => (None, x),
        _ => {
            let x = id_gen.gen_tmp(&t);
            let y = x.clone();
            (Some(((x, t), k)), y)
        },
    }
}

/// The type bound to `x` in `env`, the latest binding first.
fn lookup_type(env: &Vec<(String, Type)>, x: &String) -> (r: Option<Type>)
    ensures
        match r {
            None => lookup(binders_view(env), x@) is None,
            Some(t) => lookup(binders_view(env), x@) == Some(t@),
        },
{
    let ghost v = binders_view(env);
    let mut k: usize = env.len();
    assert(v.take(k as int) =~= v);
    while k > 0
        invariant
            k <= env@.len(),
            v == binders_view(env),
            lookup(v, x@) == lookup(v.take(k as int), x@),
        decreases k,
    {
        assert(v.take(k as int).drop_last() =~= v.take(k - 1));
        if env[k - 1].0 == *x {
            return Some(copy_type(&env[k - 1].1));
        }
        k -= 1;
    }
    None
}

proof fn lemma_strings_push(v: Vec<String>, w: Vec<String>, x: String)
    requires
        w@ == v@.push(x),
    ensures
        strings_view(&w) == strings_view(&v).push(x@),
{
    assert forall|i: int| 0 <= i < w@.len() implies strings_view(&w)[i] == strings_view(&v).push(x@)[i] by {
        if i < v@.len() {
            assert(w@[i] == v@[i]);
        }
    }
    assert(strings_view(&w) =~= strings_view(&v).push(x@));
}

proof fn lemma_types_push(v: Vec<Type>, w: Vec<Type>, x: Type)
    requires
        w@ == v@.push(x),
    ensures
        types_view(&w) == types_view(&v).push(x@),
{
    assert forall|i: int| 0 <= i < w@.len() implies types_view(&w)[i] == types_view(&v).push(x@)[i] by {
        if i < v@.len() {
            assert(w@[i] == v@[i]);
        }
    }
    assert(types_view(&w) =~= types_view(&v).push(x@));
}


/// An environment extended by `bs`, the later bindings hiding the earlier.
fn extend_env(env: &Vec<(String, Type)>, bs: &Vec<(String, Type)>) -> (r: Vec<(String, Type)>)
    ensures
        binders_view(&r) == binders_view(env) + binders_view(bs),
{
    let mut r = copy_binders(env);
    let mut k: usize = 0;
    while k < bs.len()
        invariant
            k <= bs@.len(),
            binders_view(&r) == binders_view(env) + binders_view(bs).take(k as int),
        decreases bs@.len() - k,
    {
        let ghost r0 = r;
        let b = copy_binder(&bs[k]);
        r.push(b);
        proof {
            lemma_binders_push(r0, r, b);
            assert(binders_view(bs).take(k + 1) =~= binders_view(bs).take(k as int).push(binder_view(&bs@[k as int])));
        }
        k += 1;
    }
    assert(binders_view(bs).take(k as int) =~= binders_view(bs));
    r
}

/// Converts `e` into K-normal form in the environment `env`, where
/// `extenv` gives the types of the external names; returns the converted
/// expression with its type. Temporaries are named by `id_gen`.
#[verifier::rlimit(60)]
pub fn g(env: &Vec<(String, Type)>, e: Syntax, id_gen: &mut IdGen, extenv: &Vec<(String, Type)>) -> (r: (KNormal, Type))
    requires
        k_norm(binders_view(env), e@, old(id_gen)@, binders_view(extenv)) is Some,
    ensures
        k_norm(binders_view(env), e@, old(id_gen)@, binders_view(extenv)) == Some((r.0@, r.1@, final(id_gen)@)),
        free_vars(r.0@).subset_of(binder_names(binders_view(env))),
    decreases syn_size(e@), 1nat,
{
    proof { lemma_k_norm_scoped(binders_view(env), e@, old(id_gen)@, binders_view(extenv)); }
    match e {
        Syntax::Unit => (KNormal::Unit, Type::Unit),
        Syntax::Bool(b) => (KNormal::Int(if b { 1 } else { 0 }), Type::Int),
        Syntax::Int(i) => (KNormal::Int(i), Type::Int),
        Syntax::Float(d) => (KNormal::Float(d), Type::Float),
        Syntax::Not(a) => g_if(env, *a, Syntax::Bool(false), Syntax::Bool(true), id_gen, extenv),
        Syntax::Neg(a) => g_neg(env, *a, id_gen, extenv),
        Syntax::FNeg(a) => g_fneg(env, *a, id_gen, extenv),
        Syntax::IntBin(op, a, b) => g_int_bin(env, op, *a, *b, id_gen, extenv),
        Syntax::FloatBin(op, a, b) => g_float_bin(env, op, *a, *b, id_gen, extenv),
        Syntax::CompBin(op, a, b) => g_comp(env, op, *a, *b, Syntax::Bool(true), Syntax::Bool(false), id_gen, extenv),
        Syntax::If(c, a, b) => g_if(env, *c, *a, *b, id_gen, extenv),
        Syntax::Let(xt, a, b) => g_let(env, xt, *a, *b, id_gen, extenv),
        Syntax::Var(x) => g_var(env, x, extenv),
        Syntax::LetRec(_, _) => vstd::pervasive::unreached(),
        Syntax::Array(_, _) => vstd::pervasive::unreached(),
        Syntax::App(f, args) => g_app_head(env, *f, args, id_gen, extenv),
        Syntax::Tuple(es) => {
            let xs: Vec<String> = Vec::new();
            let ts: Vec<Type> = Vec::new();
            assert(strings_view(&xs) =~= Seq::empty());
            assert(types_view(&ts) =~= Seq::empty());
            g_tuple(env, es, xs, ts, id_gen, extenv)
        },
        Syntax::LetTuple(xts, a, b) => g_let_tuple(env, xts, *a, *b, id_gen, extenv),
        Syntax::Get(a, b) => g_get(env, *a, *b, id_gen, extenv),
        Syntax::Put(a, b, c) => g_put(env, *a, *b, *c, id_gen, extenv),
    }
}

/// `g` on `-a`.
fn g_neg(env: &Vec<(String, Type)>, a: Syntax, id_gen: &mut IdGen, extenv: &Vec<(String, Type)>) -> (r: (KNormal, Type))
    requires
        k_norm(binders_view(env), SyntaxV::Neg(Box::new(a@)), old(id_gen)@, binders_view(extenv)) is Some,
    ensures
        k_norm(binders_view(env), SyntaxV::Neg(Box::new(a@)), old(id_gen)@, binders_view(extenv))
            == Some((r.0@, r.1@, final(id_gen)@)),
    decreases syn_size(a@) + 1, 0nat,
{
    let (k, t) = g(env, a, id_gen, extenv);
    let (w, x) = insert_let(k, t, id_gen);
    (wrap_with(w, KNormal::Neg(x)), Type::Int)
}

/// `g` on `-.a`.
fn g_fneg(env: &Vec<(String, Type)>, a: Syntax, id_gen: &mut IdGen, extenv: &Vec<(String, Type)>) -> (r: (KNormal, Type))
    requires
        k_norm(binders_view(env), SyntaxV::FNeg(Box::new(a@)), old(id_gen)@, binders_view(extenv)) is Some,
    ensures
        k_norm(binders_view(env), SyntaxV::FNeg(Box::new(a@)), old(id_gen)@, binders_view(extenv))
            == Some((r.0@, r.1@, final(id_gen)@)),
    decreases syn_size(a@) + 1, 0nat,
{
    let (k, t) = g(env, a, id_gen, extenv);
    let (w, x) = insert_let(k, t, id_gen);
    (wrap_with(w, KNormal::FNeg(x)), Type::Float)
}

/// `g` on an integer operation.
fn g_int_bin(env: &Vec<(String, Type)>, op: IntBin, a: Syntax, b: Syntax, id_gen: &mut IdGen, extenv: &Vec<(String, Type)>) -> (r: (KNormal, Type))
    requires
        k_norm(binders_view(env), SyntaxV::IntBin(op, Box::new(a@), Box::new(b@)), old(id_gen)@, binders_view(extenv)) is Some,
    ensures
        k_norm(binders_view(env), SyntaxV::IntBin(op, Box::new(a@), Box::new(b@)), old(id_gen)@, binders_view(extenv))
            == Some((r.0@, r.1@, final(id_gen)@)),
    decreases syn_size(a@) + syn_size(b@) + 1, 0nat,
{
    let (k1, t1) = g(env, a, id_gen, extenv);
    let (w1, x) = insert_let(k1, t1, id_gen);
    let (k2, t2) = g(env, b, id_gen, extenv);
    let (w2, y) = insert_let(k2, t2, id_gen);
    (wrap_with(w1, wrap_with(w2, KNormal::IntBin(op, x, y))), Type::Int)
}

/// `g` on a floating-point operation.
fn g_float_bin(env: &Vec<(String, Type)>, op: FloatBin, a: Syntax, b: Syntax, id_gen: &mut IdGen, extenv: &Vec<(String, Type)>) -> (r: (KNormal, Type))
    requires
        k_norm(binders_view(env), SyntaxV::FloatBin(op, Box::new(a@), Box::new(b@)), old(id_gen)@, binders_view(extenv)) is Some,
    ensures
        k_norm(binders_view(env), SyntaxV::FloatBin(op, Box::new(a@), Box::new(b@)), old(id_gen)@, binders_view(extenv))
            == Some((r.0@, r.1@, final(id_gen)@)),
    decreases syn_size(a@) + syn_size(b@) + 1, 0nat,
{
    let (k1, t1) = g(env, a, id_gen, extenv);
    let (w1, x) = insert_let(k1, t1, id_gen);
    let (k2, t2) = g(env, b, id_gen, extenv);
    let (w2, y) = insert_let(k2, t2, id_gen);
    (wrap_with(w1, wrap_with(w2, KNormal::FloatBin(op, x, y))), Type::Float)
}

/// `g` on `let x: t = a in b`.
fn g_let(env: &Vec<(String, Type)>, xt: (String, Type), a: Syntax, b: Syntax, id_gen: &mut IdGen, extenv: &Vec<(String, Type)>) -> (r: (KNormal, Type))
    requires
        k_norm(binders_view(env), SyntaxV::Let(binder_view(&xt), Box::new(a@), Box::new(b@)), old(id_gen)@, binders_view(extenv)) is Some,
    ensures
        k_norm(binders_view(env), SyntaxV::Let(binder_view(&xt), Box::new(a@), Box::new(b@)), old(id_gen)@, binders_view(extenv))
            == Some((r.0@, r.1@, final(id_gen)@)),
    decreases syn_size(a@) + syn_size(b@) + 1, 0nat,
{
    let (k1, _t1) = g(env, a, id_gen, extenv);
    let mut env2 = copy_binders(env);
    let ghost env0 = env2;
    let xt2 = copy_binder(&xt);
    env2.push(xt2);
    proof { lemma_binders_push(env0, env2, xt2); }
    let (k2, t2) = g(&env2, b, id_gen, extenv);
    (KNormal::mk_let(xt, k1, k2), t2)
}

/// `g` on a variable: a bound name stays a variable; an external one must
/// be an array.
fn g_var(env: &Vec<(String, Type)>, x: String, extenv: &Vec<(String, Type)>) -> (r: (KNormal, Type))
    requires
        k_norm(binders_view(env), SyntaxV::Var(x@), 0, binders_view(extenv)) is Some,
    ensures
        forall|n: u64| k_norm(binders_view(env), SyntaxV::Var(x@), n, binders_view(extenv)) == Some((r.0@, r.1@, n)),
{
    match lookup_type(env, &x) {
        Some(t) => (KNormal::Var(x), t),
        None => {
            let t = lookup_type(extenv, &x).unwrap();
            (KNormal::ExtArray(x), t)
        },
    }
}

/// `g` on an application of `f` to `args`.
fn g_app_head(env: &Vec<(String, Type)>, f: Syntax, args: Vec<Syntax>, id_gen: &mut IdGen, extenv: &Vec<(String, Type)>) -> (r: (KNormal, Type))
    requires
        k_norm(binders_view(env), SyntaxV::App(Box::new(f@), syntaxes_view(&args)), old(id_gen)@, binders_view(extenv)) is Some,
    ensures
        k_norm(binders_view(env), SyntaxV::App(Box::new(f@), syntaxes_view(&args)), old(id_gen)@, binders_view(extenv))
            == Some((r.0@, r.1@, final(id_gen)@)),
    decreases syn_size(f@) + syns_size(syntaxes_view(&args)) + 1, 0nat,
{
    let (kf, tf) = g(env, f, id_gen, extenv);
    let ret = match &tf {
        Type::Fun(_, ret) => copy_type(ret),
        _ => vstd::pervasive::unreached(),
    };
    let (wf, fname) = insert_let(kf, tf, id_gen);
    let xs: Vec<String> = Vec::new();
    assert(strings_view(&xs) =~= Seq::empty());
    let (body, tb) = g_app(env, args, xs, fname, ret, id_gen, extenv);
    (wrap_with(wf, body), tb)
}

/// `g` on `let (x1, .., xn) = a in b`.
fn g_let_tuple(env: &Vec<(String, Type)>, xts: Vec<(String, Type)>, a: Syntax, b: Syntax, id_gen: &mut IdGen, extenv: &Vec<(String, Type)>) -> (r: (KNormal, Type))
    requires
        k_norm(binders_view(env), SyntaxV::LetTuple(binders_view(&xts), Box::new(a@), Box::new(b@)), old(id_gen)@, binders_view(extenv)) is Some,
    ensures
        k_norm(binders_view(env), SyntaxV::LetTuple(binders_view(&xts), Box::new(a@), Box::new(b@)), old(id_gen)@, binders_view(extenv))
            == Some((r.0@, r.1@, final(id_gen)@)),
    decreases syn_size(a@) + syn_size(b@) + 1, 0nat,
{
    let (k1, t1) = g(env, a, id_gen, extenv);
    let (w1, y) = insert_let(k1, t1, id_gen);
    let env2 = extend_env(env, &xts);
    let (k2, t2) = g(&env2, b, id_gen, extenv);
    (wrap_with(w1, KNormal::mk_let_tuple(xts, y, k2)), t2)
}

/// `g` on `a.(b)`.
fn g_get(env: &Vec<(String, Type)>, a: Syntax, b: Syntax, id_gen: &mut IdGen, extenv: &Vec<(String, Type)>) -> (r: (KNormal, Type))
    requires
        k_norm(binders_view(env), SyntaxV::Get(Box::new(a@), Box::new(b@)), old(id_gen)@, binders_view(extenv)) is Some,
    ensures
        k_norm(binders_view(env), SyntaxV::Get(Box::new(a@), Box::new(b@)), old(id_gen)@, binders_view(extenv))
            == Some((r.0@, r.1@, final(id_gen)@)),
    decreases syn_size(a@) + syn_size(b@) + 1, 0nat,
{
    let (k1, t1) = g(env, a, id_gen, extenv);
    let el = match &t1 {
        Type::Array(el) => copy_type(el),
        _ => vstd::pervasive::unreached(),
    };
    let (w1, x) = insert_let(k1, t1, id_gen);
    let (k2, t2) = g(env, b, id_gen, extenv);
    let (w2, y) = insert_let(k2, t2, id_gen);
    (wrap_with(w1, wrap_with(w2, KNormal::Get(x, y))), el)
}

/// `g` on `a.(b) <- c`.
fn g_put(env: &Vec<(String, Type)>, a: Syntax, b: Syntax, c: Syntax, id_gen: &mut IdGen, extenv: &Vec<(String, Type)>) -> (r: (KNormal, Type))
    requires
        k_norm(binders_view(env), SyntaxV::Put(Box::new(a@), Box::new(b@), Box::new(c@)), old(id_gen)@, binders_view(extenv)) is Some,
    ensures
        k_norm(binders_view(env), SyntaxV::Put(Box::new(a@), Box::new(b@), Box::new(c@)), old(id_gen)@, binders_view(extenv))
            == Some((r.0@, r.1@, final(id_gen)@)),
    decreases syn_size(a@) + syn_size(b@) + syn_size(c@) + 1, 0nat,
{
    let (k1, t1) = g(env, a, id_gen, extenv);
    let (w1, x) = insert_let(k1, t1, id_gen);
    let (k2, t2) = g(env, b, id_gen, extenv);
    let (w2, y) = insert_let(k2, t2, id_gen);
    let (k3, t3) = g(env, c, id_gen, extenv);
    let (w3, z) = insert_let(k3, t3, id_gen);
    (wrap_with(w1, wrap_with(w2, wrap_with(w3, KNormal::Put(x, y, z)))), Type::Unit)
}

/// `g` on `if c then a else b`.
fn g_if(env: &Vec<(String, Type)>, c: Syntax, a: Syntax, b: Syntax, id_gen: &mut IdGen, extenv: &Vec<(String, Type)>) -> (r: (KNormal, Type))
    requires
        k_norm_if(binders_view(env), c@, a@, b@, old(id_gen)@, binders_view(extenv)) is Some,
    ensures
        k_norm_if(binders_view(env), c@, a@, b@, old(id_gen)@, binders_view(extenv)) == Some((r.0@, r.1@, final(id_gen)@)),
    decreases syn_size(c@) + syn_size(a@) + syn_size(b@) + 2, 0nat,
{
    match c {
        Syntax::Not(c1) => g_if(env, *c1, b, a, id_gen, extenv),
        Syntax::CompBin(op, x, y) => g_comp(env, op, *x, *y, a, b, id_gen, extenv),
        c => g_comp(env, CompBin::Eq, c, Syntax::Bool(false), b, a, id_gen, extenv),
    }
}

/// `g` on `if x op y then a else b`.
fn g_comp(
    env: &Vec<(String, Type)>,
    op: CompBin,
    x: Syntax,
    y: Syntax,
    a: Syntax,
    b: Syntax,
    id_gen: &mut IdGen,
    extenv: &Vec<(String, Type)>,
) -> (r: (KNormal, Type))
    requires
        k_norm_comp(binders_view(env), op, x@, y@, a@, b@, old(id_gen)@, binders_view(extenv)) is Some,
    ensures
        k_norm_comp(binders_view(env), op, x@, y@, a@, b@, old(id_gen)@, binders_view(extenv))
            == Some((r.0@, r.1@, final(id_gen)@)),
    decreases syn_size(x@) + syn_size(y@) + syn_size(a@) + syn_size(b@), 0nat,
{
    let (k1, t1) = g(env, x, id_gen, extenv);
    let (w1, xn) = insert_let(k1, t1, id_gen);
    let (k2, t2) = g(env, y, id_gen, extenv);
    let (w2, yn) = insert_let(k2, t2, id_gen);
    let (k3, t3) = g(env, a, id_gen, extenv);
    let (k4, _t4) = g(env, b, id_gen, extenv);
    (wrap_with(w1, wrap_with(w2, KNormal::mk_if_comp(op, xn, yn, k3, k4))), t3)
}

/// `g` on the remaining arguments `es` of an application of `f`, the earlier
/// ones named by `xs`; `t` is the type of the application.
fn g_app(
    env: &Vec<(String, Type)>,
    es: Vec<Syntax>,
    xs: Vec<String>,
    f: String,
    t: Type,
    id_gen: &mut IdGen,
    extenv: &Vec<(String, Type)>,
) -> (r: (KNormal, Type))
    requires
        k_norm_app(binders_view(env), syntaxes_view(&es), strings_view(&xs), f@, t@, old(id_gen)@, binders_view(extenv)) is Some,
    ensures
        k_norm_app(binders_view(env), syntaxes_view(&es), strings_view(&xs), f@, t@, old(id_gen)@, binders_view(extenv))
            == Some((r.0@, r.1@, final(id_gen)@)),
    decreases syns_size(syntaxes_view(&es)), 0nat,
{
    if es.len() == 0 {
        return (KNormal::App(f, xs), t);
    }
    let mut es = es;
    let mut xs = xs;
    let ghost es0 = es;
    let e0 = es.remove(0);
    proof { lemma_syntaxes_remove_first(es0, es); }
    let (k, tk) = g(env, e0, id_gen, extenv);
    let (w, x) = insert_let(k, tk, id_gen);
    let ghost xs0 = xs;
    xs.push(x);
    proof { lemma_strings_push(xs0, xs, x); }
    let (body, tb) = g_app(env, es, xs, f, t, id_gen, extenv);
    (wrap_with(w, body), tb)
}

/// `g` on the remaining components `es` of a tuple, the earlier ones named
/// by `xs` with types `ts`.
fn g_tuple(
    env: &Vec<(String, Type)>,
    es: Vec<Syntax>,
    xs: Vec<String>,
    ts: Vec<Type>,
    id_gen: &mut IdGen,
    extenv: &Vec<(String, Type)>,
) -> (r: (KNormal, Type))
    requires
        k_norm_tuple(binders_view(env), syntaxes_view(&es), strings_view(&xs), types_view(&ts), old(id_gen)@, binders_view(extenv)) is Some,
    ensures
        k_norm_tuple(binders_view(env), syntaxes_view(&es), strings_view(&xs), types_view(&ts), old(id_gen)@, binders_view(extenv))
            == Some((r.0@, r.1@, final(id_gen)@)),
    decreases syns_size(syntaxes_view(&es)), 0nat,
{
    if es.len() == 0 {
        return (KNormal::Tuple(xs), Type::Tuple(ts));
    }
    let mut es = es;
    let mut xs = xs;
    let mut ts = ts;
    let ghost es0 = es;
    let e0 = es.remove(0);
    proof { lemma_syntaxes_remove_first(es0, es); }
    let (k, tk) = g(env, e0, id_gen, extenv);
    let ghost ts0 = ts;
    let tk2 = copy_type(&tk);
    ts.push(tk2);
    proof { lemma_types_push(ts0, ts, tk2); }
    let (w, x) = insert_let(k, tk, id_gen);
    let ghost xs0 = xs;
    xs.push(x);
    proof { lemma_strings_push(xs0, xs, x); }
    let (body, tb) = g_tuple(env, es, xs, ts, id_gen, extenv);
    (wrap_with(w, body), tb)
}

// ---------------------------------------------------------------------------
// Scoping
// ---------------------------------------------------------------------------

/// A name that the environment finds is one that it binds.
proof fn lemma_lookup_bound(env: Seq<BinderV>, x: Seq<char>)
    requires
        lookup(env, x) is Some,
    ensures
        binder_names(env).contains(x),
    decreases env.len(),
{
    if env.last().0 == x {
        assert(env[env.len() - 1].0 == x);
    } else {
        lemma_lookup_bound(env.drop_last(), x);
        let i = choose|i: int| 0 <= i < env.drop_last().len() && #[trigger] env.drop_last()[i].0 == x;
        assert(env[i].0 == x);
    }
}

/// The names bound by `env + bs` are those of `env` and those of `bs`.
proof fn lemma_binder_names_concat(env: Seq<BinderV>, bs: Seq<BinderV>)
    ensures
        binder_names(env + bs) == binder_names(env) + binder_names(bs),
{
    assert forall|x: Seq<char>| binder_names(env + bs).contains(x)
        <==> (binder_names(env) + binder_names(bs)).contains(x) by {
        if binder_names(env + bs).contains(x) {
            let i = choose|i: int| 0 <= i < (env + bs).len() && #[trigger] (env + bs)[i].0 == x;
            if i < env.len() {
                assert(env[i].0 == x);
            } else {
                assert(bs[i - env.len()].0 == x);
            }
        }
        if binder_names(env).contains(x) {
            let i = choose|i: int| 0 <= i < env.len() && #[trigger] env[i].0 == x;
            assert((env + bs)[i].0 == x);
        }
        if binder_names(bs).contains(x) {
            let i = choose|i: int| 0 <= i < bs.len() && #[trigger] bs[i].0 == x;
            assert((env + bs)[env.len() + i].0 == x);
        }
    }
    assert(binder_names(env + bs) =~= binder_names(env) + binder_names(bs));
}

/// The names bound by `env.push(b)` are those of `env` and `b`'s own.
proof fn lemma_binder_names_push(env: Seq<BinderV>, b: BinderV)
    ensures
        binder_names(env.push(b)) == binder_names(env).insert(b.0),
{
    assert forall|x: Seq<char>| binder_names(env.push(b)).contains(x)
        <==> binder_names(env).insert(b.0).contains(x) by {
        if binder_names(env.push(b)).contains(x) && x != b.0 {
            let i = choose|i: int| 0 <= i < env.push(b).len() && #[trigger] env.push(b)[i].0 == x;
            assert(env[i].0 == x);
        }
        if binder_names(env).contains(x) {
            let i = choose|i: int| 0 <= i < env.len() && #[trigger] env[i].0 == x;
            assert(env.push(b)[i].0 == x);
        }
        if x == b.0 {
            assert(env.push(b)[env.len() as int].0 == x);
        }
    }
    assert(binder_names(env.push(b)) =~= binder_names(env).insert(b.0));
}

/// The names of `xs.push(x)` are those of `xs` and `x`.
proof fn lemma_name_set_push(xs: Seq<Seq<char>>, x: Seq<char>)
    ensures
        name_set(xs.push(x)) == name_set(xs).insert(x),
{
    assert forall|y: Seq<char>| name_set(xs.push(x)).contains(y) <==> name_set(xs).insert(x).contains(y) by {
        if xs.push(x).contains(y) && y != x {
            let i = choose|i: int| 0 <= i < xs.push(x).len() && xs.push(x)[i] == y;
            assert(xs[i] == y);
        }
        if xs.contains(y) {
            let i = choose|i: int| 0 <= i < xs.len() && xs[i] == y;
            assert(xs.push(x)[i] == y);
        }
        if y == x {
            assert(xs.push(x)[xs.len() as int] == y);
        }
    }
    assert(name_set(xs.push(x)) =~= name_set(xs).insert(x));
}

/// Naming the value of `k` keeps an expression within the names `d`, when
/// `k` stays within `d` and `body` within `d` and the new name.
proof fn lemma_wrap_scoped(k: KNormalV, t: TypeV, n: u64, body: KNormalV, d: Set<Seq<char>>)
    requires
        free_vars(k).subset_of(d),
        free_vars(body).subset_of(d.insert(let_name(k, t, n))),
    ensures
        free_vars(wrap(let_binding(k, t, n), body)).subset_of(d),
{
    match k {
        KNormalV::Var(x) => {
            assert(free_vars(k).contains(x));
        },
        _ => {},
    }
}

/// Every free variable of the K-normal form of `e` in `env` is bound in
/// `env`: the conversion introduces no name that it does not bind itself.
#[verifier::spinoff_prover]
#[verifier::rlimit(40)]
pub proof fn lemma_k_norm_scoped(env: Seq<BinderV>, e: SyntaxV, n: u64, ext: Seq<BinderV>)
    requires
        k_norm(env, e, n, ext) is Some,
    ensures
        free_vars(k_norm(env, e, n, ext).unwrap().0).subset_of(binder_names(env)),
    decreases syn_size(e), 1nat,
{
    match e {
        SyntaxV::Not(a) => lemma_k_norm_if_scoped(env, *a, SyntaxV::Bool(false), SyntaxV::Bool(true), n, ext),
        SyntaxV::Neg(a) => lemma_unary_scoped(env, e, *a, n, ext),
        SyntaxV::FNeg(a) => lemma_unary_scoped(env, e, *a, n, ext),
        SyntaxV::IntBin(_, a, b) => lemma_binary_scoped(env, e, *a, *b, n, ext),
        SyntaxV::FloatBin(_, a, b) => lemma_binary_scoped(env, e, *a, *b, n, ext),
        SyntaxV::Get(a, b) => lemma_binary_scoped(env, e, *a, *b, n, ext),
        SyntaxV::CompBin(op, a, b) =>
            lemma_k_norm_comp_scoped(env, op, *a, *b, SyntaxV::Bool(true), SyntaxV::Bool(false), n, ext),
        SyntaxV::If(c, a, b) => lemma_k_norm_if_scoped(env, *c, *a, *b, n, ext),
        SyntaxV::Let(xt, a, b) => lemma_let_scoped(env, xt, *a, *b, n, ext),
        SyntaxV::Var(x) => {
            if lookup(env, x) is Some {
                lemma_lookup_bound(env, x);
            }
        },
        SyntaxV::App(f, args) => lemma_app_scoped(env, *f, args, n, ext),
        SyntaxV::Tuple(es) => {
            lemma_k_norm_tuple_scoped(env, es, Seq::empty(), Seq::empty(), n, ext);
            assert(name_set(Seq::<Seq<char>>::empty()) =~= Set::empty());
            assert(binder_names(env) + Set::empty() =~= binder_names(env));
        },
        SyntaxV::LetTuple(xts, a, b) => lemma_let_tuple_scoped(env, xts, *a, *b, n, ext),
        SyntaxV::Put(a, b, c) => lemma_put_scoped(env, *a, *b, *c, n, ext),
        _ => {},
    }
}

proof fn lemma_unary_scoped(env: Seq<BinderV>, e: SyntaxV, a: SyntaxV, n: u64, ext: Seq<BinderV>)
    requires
        e == SyntaxV::Neg(Box::new(a)) || e == SyntaxV::FNeg(Box::new(a)),
        k_norm(env, e, n, ext) is Some,
    ensures
        free_vars(k_norm(env, e, n, ext).unwrap().0).subset_of(binder_names(env)),
    decreases syn_size(a) + 1, 0nat,
{
    let d = binder_names(env);
    lemma_k_norm_scoped(env, a, n, ext);
    let (k, t, n1) = k_norm(env, a, n, ext).unwrap();
    lemma_wrap_scoped(k, t, n1, KNormalV::Neg(let_name(k, t, n1)), d);
    lemma_wrap_scoped(k, t, n1, KNormalV::FNeg(let_name(k, t, n1)), d);
}

proof fn lemma_binary_scoped(env: Seq<BinderV>, e: SyntaxV, a: SyntaxV, b: SyntaxV, n: u64, ext: Seq<BinderV>)
    requires
        ({ e matches SyntaxV::IntBin(_, a1, b1) && *a1 == a && *b1 == b })
            || ({ e matches SyntaxV::FloatBin(_, a1, b1) && *a1 == a && *b1 == b })
            || ({ e matches SyntaxV::Get(a1, b1) && *a1 == a && *b1 == b }),
        k_norm(env, e, n, ext) is Some,
    ensures
        free_vars(k_norm(env, e, n, ext).unwrap().0).subset_of(binder_names(env)),
    decreases syn_size(a) + syn_size(b) + 1, 0nat,
{
    let d = binder_names(env);
    lemma_k_norm_scoped(env, a, n, ext);
    let (k1, t1, n1) = k_norm(env, a, n, ext).unwrap();
    lemma_k_norm_scoped(env, b, let_count(k1, n1), ext);
    let (k2, t2, n2) = k_norm(env, b, let_count(k1, n1), ext).unwrap();
    let x = let_name(k1, t1, n1);
    let y = let_name(k2, t2, n2);
    let d1 = d.insert(x);
    let inner = match e {
        SyntaxV::IntBin(op, _, _) => KNormalV::IntBin(op, x, y),
        SyntaxV::FloatBin(op, _, _) => KNormalV::FloatBin(op, x, y),
        _ => KNormalV::Get(x, y),
    };
    assert(free_vars(inner).subset_of(d1.insert(y)));
    lemma_wrap_scoped(k2, t2, n2, inner, d1);
    lemma_wrap_scoped(k1, t1, n1, wrap(let_binding(k2, t2, n2), inner), d);
}

proof fn lemma_let_scoped(env: Seq<BinderV>, xt: BinderV, a: SyntaxV, b: SyntaxV, n: u64, ext: Seq<BinderV>)
    requires
        k_norm(env, SyntaxV::Let(xt, Box::new(a), Box::new(b)), n, ext) is Some,
    ensures
        free_vars(k_norm(env, SyntaxV::Let(xt, Box::new(a), Box::new(b)), n, ext).unwrap().0).subset_of(binder_names(env)),
    decreases syn_size(a) + syn_size(b) + 1, 0nat,
{
    lemma_k_norm_scoped(env, a, n, ext);
    let (k1, t1, n1) = k_norm(env, a, n, ext).unwrap();
    lemma_k_norm_scoped(env.push(xt), b, n1, ext);
    lemma_binder_names_push(env, xt);
}

proof fn lemma_app_scoped(env: Seq<BinderV>, f: SyntaxV, args: Seq<SyntaxV>, n: u64, ext: Seq<BinderV>)
    requires
        k_norm(env, SyntaxV::App(Box::new(f), args), n, ext) is Some,
    ensures
        free_vars(k_norm(env, SyntaxV::App(Box::new(f), args), n, ext).unwrap().0).subset_of(binder_names(env)),
    decreases syn_size(f) + syns_size(args) + 1, 0nat,
{
    let d = binder_names(env);
    lemma_k_norm_scoped(env, f, n, ext);
    let (kf, tf, n1) = k_norm(env, f, n, ext).unwrap();
    let ret = tf->Fun_1;
    let fname = let_name(kf, tf, n1);
    lemma_k_norm_app_scoped(env, args, Seq::empty(), fname, *ret, let_count(kf, n1), ext);
    let (body, tb, n2) = k_norm_app(env, args, Seq::empty(), fname, *ret, let_count(kf, n1), ext).unwrap();
    assert(name_set(Seq::<Seq<char>>::empty()) =~= Set::empty());
    assert(d + set![fname] + Set::empty() =~= d.insert(fname));
    lemma_wrap_scoped(kf, tf, n1, body, d);
}

proof fn lemma_let_tuple_scoped(env: Seq<BinderV>, xts: Seq<BinderV>, a: SyntaxV, b: SyntaxV, n: u64, ext: Seq<BinderV>)
    requires
        k_norm(env, SyntaxV::LetTuple(xts, Box::new(a), Box::new(b)), n, ext) is Some,
    ensures
        free_vars(k_norm(env, SyntaxV::LetTuple(xts, Box::new(a), Box::new(b)), n, ext).unwrap().0).subset_of(binder_names(env)),
    decreases syn_size(a) + syn_size(b) + 1, 0nat,
{
    let d = binder_names(env);
    lemma_k_norm_scoped(env, a, n, ext);
    let (k1, t1, n1) = k_norm(env, a, n, ext).unwrap();
    lemma_k_norm_scoped(env + xts, b, let_count(k1, n1), ext);
    lemma_binder_names_concat(env, xts);
    let (k2, t2, n2) = k_norm(env + xts, b, let_count(k1, n1), ext).unwrap();
    lemma_wrap_scoped(k1, t1, n1, KNormalV::LetTuple(xts, let_name(k1, t1, n1), Box::new(k2)), d);
}

proof fn lemma_put_scoped(env: Seq<BinderV>, a: SyntaxV, b: SyntaxV, c: SyntaxV, n: u64, ext: Seq<BinderV>)
    requires
        k_norm(env, SyntaxV::Put(Box::new(a), Box::new(b), Box::new(c)), n, ext) is Some,
    ensures
        free_vars(k_norm(env, SyntaxV::Put(Box::new(a), Box::new(b), Box::new(c)), n, ext).unwrap().0).subset_of(binder_names(env)),
    decreases syn_size(a) + syn_size(b) + syn_size(c) + 1, 0nat,
{
    let d = binder_names(env);
    lemma_k_norm_scoped(env, a, n, ext);
    let (k1, t1, n1) = k_norm(env, a, n, ext).unwrap();
    lemma_k_norm_scoped(env, b, let_count(k1, n1), ext);
    let (k2, t2, n2) = k_norm(env, b, let_count(k1, n1), ext).unwrap();
    lemma_k_norm_scoped(env, c, let_count(k2, n2), ext);
    let (k3, t3, n3) = k_norm(env, c, let_count(k2, n2), ext).unwrap();
    let d1 = d.insert(let_name(k1, t1, n1));
    let d2 = d1.insert(let_name(k2, t2, n2));
    let inner = KNormalV::Put(let_name(k1, t1, n1), let_name(k2, t2, n2), let_name(k3, t3, n3));
    lemma_wrap_scoped(k3, t3, n3, inner, d2);
    lemma_wrap_scoped(k2, t2, n2, wrap(let_binding(k3, t3, n3), inner), d1);
    lemma_wrap_scoped(k1, t1, n1, wrap(let_binding(k2, t2, n2), wrap(let_binding(k3, t3, n3), inner)), d);
}

proof fn lemma_k_norm_if_scoped(env: Seq<BinderV>, c: SyntaxV, a: SyntaxV, b: SyntaxV, n: u64, ext: Seq<BinderV>)
    requires
        k_norm_if(env, c, a, b, n, ext) is Some,
    ensures
        free_vars(k_norm_if(env, c, a, b, n, ext).unwrap().0).subset_of(binder_names(env)),
    decreases syn_size(c) + syn_size(a) + syn_size(b) + 2, 0nat,
{
    match c {
        SyntaxV::Not(c1) => lemma_k_norm_if_scoped(env, *c1, b, a, n, ext),
        SyntaxV::CompBin(op, x, y) => lemma_k_norm_comp_scoped(env, op, *x, *y, a, b, n, ext),
        _ => lemma_k_norm_comp_scoped(env, CompBin::Eq, c, SyntaxV::Bool(false), b, a, n, ext),
    }
}

proof fn lemma_k_norm_comp_scoped(
    env: Seq<BinderV>,
    op: CompBin,
    x: SyntaxV,
    y: SyntaxV,
    a: SyntaxV,
    b: SyntaxV,
    n: u64,
    ext: Seq<BinderV>,
)
    requires
        k_norm_comp(env, op, x, y, a, b, n, ext) is Some,
    ensures
        free_vars(k_norm_comp(env, op, x, y, a, b, n, ext).unwrap().0).subset_of(binder_names(env)),
    decreases syn_size(x) + syn_size(y) + syn_size(a) + syn_size(b), 0nat,
{
    let d = binder_names(env);
    lemma_k_norm_scoped(env, x, n, ext);
    let (k1, t1, n1) = k_norm(env, x, n, ext).unwrap();
    lemma_k_norm_scoped(env, y, let_count(k1, n1), ext);
    let (k2, t2, n2) = k_norm(env, y, let_count(k1, n1), ext).unwrap();
    lemma_k_norm_scoped(env, a, let_count(k2, n2), ext);
    let (k3, t3, n3) = k_norm(env, a, let_count(k2, n2), ext).unwrap();
    lemma_k_norm_scoped(env, b, n3, ext);
    let (k4, t4, n4) = k_norm(env, b, n3, ext).unwrap();
    let d1 = d.insert(let_name(k1, t1, n1));
    let inner = KNormalV::IfComp(op, let_name(k1, t1, n1), let_name(k2, t2, n2), Box::new(k3), Box::new(k4));
    lemma_wrap_scoped(k2, t2, n2, inner, d1);
    lemma_wrap_scoped(k1, t1, n1, wrap(let_binding(k2, t2, n2), inner), d);
}

proof fn lemma_k_norm_app_scoped(
    env: Seq<BinderV>,
    es: Seq<SyntaxV>,
    xs: Seq<Seq<char>>,
    f: Seq<char>,
    t: TypeV,
    n: u64,
    ext: Seq<BinderV>,
)
    requires
        k_norm_app(env, es, xs, f, t, n, ext) is Some,
    ensures
        free_vars(k_norm_app(env, es, xs, f, t, n, ext).unwrap().0).subset_of(binder_names(env) + set![f] + name_set(xs)),
    decreases syns_size(es), 0nat,
{
    let d = binder_names(env) + set![f] + name_set(xs);
    if es.len() > 0 {
        lemma_k_norm_scoped(env, es[0], n, ext);
        let (k, tk, n1) = k_norm(env, es[0], n, ext).unwrap();
        let x = let_name(k, tk, n1);
        lemma_k_norm_app_scoped(env, es.drop_first(), xs.push(x), f, t, let_count(k, n1), ext);
        let (body, tb, n2) = k_norm_app(env, es.drop_first(), xs.push(x), f, t, let_count(k, n1), ext).unwrap();
        lemma_name_set_push(xs, x);
        assert(binder_names(env) + set![f] + name_set(xs.push(x)) =~= d.insert(x));
        lemma_wrap_scoped(k, tk, n1, body, d);
    }
}

proof fn lemma_k_norm_tuple_scoped(
    env: Seq<BinderV>,
    es: Seq<SyntaxV>,
    xs: Seq<Seq<char>>,
    ts: Seq<TypeV>,
    n: u64,
    ext: Seq<BinderV>,
)
    requires
        k_norm_tuple(env, es, xs, ts, n, ext) is Some,
    ensures
        free_vars(k_norm_tuple(env, es, xs, ts, n, ext).unwrap().0).subset_of(binder_names(env) + name_set(xs)),
    decreases syns_size(es), 0nat,
{
    let d = binder_names(env) + name_set(xs);
    if es.len() > 0 {
        lemma_k_norm_scoped(env, es[0], n, ext);
        let (k, tk, n1) = k_norm(env, es[0], n, ext).unwrap();
        let x = let_name(k, tk, n1);
        lemma_k_norm_tuple_scoped(env, es.drop_first(), xs.push(x), ts.push(tk), let_count(k, n1), ext);
        let (body, tb, n2) = k_norm_tuple(env, es.drop_first(), xs.push(x), ts.push(tk), let_count(k, n1), ext).unwrap();
        lemma_name_set_push(xs, x);
        assert(binder_names(env) + name_set(xs.push(x)) =~= d.insert(x));
        lemma_wrap_scoped(k, tk, n1, body, d);
    }
}

// ---------------------------------------------------------------------------
// Conditions
// ---------------------------------------------------------------------------

/// Negating the condition of a conditional swaps its branches:
/// `if not c then a else b` converts as `if c then b else a`.
pub proof fn lemma_if_not_swaps(env: Seq<BinderV>, c: SyntaxV, a: SyntaxV, b: SyntaxV, n: u64, ext: Seq<BinderV>)
    ensures
        k_norm(env, SyntaxV::If(Box::new(SyntaxV::Not(Box::new(c))), Box::new(a), Box::new(b)), n, ext)
            == k_norm(env, SyntaxV::If(Box::new(c), Box::new(b), Box::new(a)), n, ext),
{
    assert(k_norm(env, SyntaxV::If(Box::new(SyntaxV::Not(Box::new(c))), Box::new(a), Box::new(b)), n, ext)
        == k_norm_if(env, SyntaxV::Not(Box::new(c)), a, b, n, ext));
    assert(k_norm_if(env, SyntaxV::Not(Box::new(c)), a, b, n, ext) == k_norm_if(env, c, b, a, n, ext));
    assert(k_norm(env, SyntaxV::If(Box::new(c), Box::new(b), Box::new(a)), n, ext) == k_norm_if(env, c, b, a, n, ext));
}

/// A negation converts as the conditional `if e then false else true`, and
/// a comparison as `if e then true else false`.
pub proof fn lemma_booleans_as_conditionals(env: Seq<BinderV>, e: SyntaxV, n: u64, ext: Seq<BinderV>)
    ensures
        k_norm(env, SyntaxV::Not(Box::new(e)), n, ext) == k_norm(
            env, SyntaxV::If(Box::new(e), Box::new(SyntaxV::Bool(false)), Box::new(SyntaxV::Bool(true))), n, ext),
        e is CompBin ==> k_norm(env, e, n, ext) == k_norm(
            env, SyntaxV::If(Box::new(e), Box::new(SyntaxV::Bool(true)), Box::new(SyntaxV::Bool(false))), n, ext),
{
    let t = SyntaxV::Bool(true);
    let f = SyntaxV::Bool(false);
    assert(k_norm(env, SyntaxV::Not(Box::new(e)), n, ext) == k_norm_if(env, e, f, t, n, ext));
    assert(k_norm(env, SyntaxV::If(Box::new(e), Box::new(f), Box::new(t)), n, ext) == k_norm_if(env, e, f, t, n, ext));
    if let SyntaxV::CompBin(op, x, y) = e {
        assert(k_norm(env, e, n, ext) == k_norm_comp(env, op, *x, *y, t, f, n, ext));
        assert(k_norm(env, SyntaxV::If(Box::new(e), Box::new(t), Box::new(f)), n, ext) == k_norm_if(env, e, t, f, n, ext));
        assert(k_norm_if(env, e, t, f, n, ext) == k_norm_comp(env, op, *x, *y, t, f, n, ext));
    }
}

/// A condition that is neither a negation nor a comparison is tested
/// against `false`, with the branches swapped: `if c then a else b`
/// converts as `if c = false then b else a`.
pub proof fn lemma_if_plain_condition(env: Seq<BinderV>, c: SyntaxV, a: SyntaxV, b: SyntaxV, n: u64, ext: Seq<BinderV>)
    requires
        !(c is Not),
        !(c is CompBin),
    ensures
        k_norm(env, SyntaxV::If(Box::new(c), Box::new(a), Box::new(b)), n, ext) == k_norm(
            env,
            SyntaxV::If(
                Box::new(SyntaxV::CompBin(CompBin::Eq, Box::new(c), Box::new(SyntaxV::Bool(false)))),
                Box::new(b),
                Box::new(a),
            ),
            n,
            ext,
        ),
{
    let f = SyntaxV::Bool(false);
    let test = SyntaxV::CompBin(CompBin::Eq, Box::new(c), Box::new(f));
    assert(k_norm(env, SyntaxV::If(Box::new(c), Box::new(a), Box::new(b)), n, ext) == k_norm_if(env, c, a, b, n, ext));
    assert(k_norm_if(env, c, a, b, n, ext) == k_norm_comp(env, CompBin::Eq, c, f, b, a, n, ext));
    assert(k_norm(env, SyntaxV::If(Box::new(test), Box::new(b), Box::new(a)), n, ext) == k_norm_if(env, test, b, a, n, ext));
    assert(k_norm_if(env, test, b, a, n, ext) == k_norm_comp(env, CompBin::Eq, c, f, b, a, n, ext));
}

/// Comparing two bound variables: the result tests them with the same
/// operator, in the same order, and runs the converted first branch when
/// the test holds and the converted second branch otherwise; no temporary
/// is needed for the operands.
pub proof fn lemma_if_comp_vars(
    env: Seq<BinderV>,
    op: CompBin,
    x: Seq<char>,
    y: Seq<char>,
    a: SyntaxV,
    b: SyntaxV,
    n: u64,
    ext: Seq<BinderV>,
)
    requires
        lookup(env, x) is Some,
        lookup(env, y) is Some,
        k_norm(env, a, n, ext) is Some,
        k_norm(env, b, k_norm(env, a, n, ext).unwrap().2, ext) is Some,
    ensures
        k_norm(
            env,
            SyntaxV::If(
                Box::new(SyntaxV::CompBin(op, Box::new(SyntaxV::Var(x)), Box::new(SyntaxV::Var(y)))),
                Box::new(a),
                Box::new(b),
            ),
            n,
            ext,
        ) == Some((
            KNormalV::IfComp(
                op,
                x,
                y,
                Box::new(k_norm(env, a, n, ext).unwrap().0),
                Box::new(k_norm(env, b, k_norm(env, a, n, ext).unwrap().2, ext).unwrap().0),
            ),
            k_norm(env, a, n, ext).unwrap().1,
            k_norm(env, b, k_norm(env, a, n, ext).unwrap().2, ext).unwrap().2,
        )),
{
    assert(k_norm(env, SyntaxV::Var(x), n, ext) == Some((KNormalV::Var(x), lookup(env, x).unwrap(), n)));
    assert(k_norm(env, SyntaxV::Var(y), n, ext) == Some((KNormalV::Var(y), lookup(env, y).unwrap(), n)));
    let vx = SyntaxV::Var(x);
    let vy = SyntaxV::Var(y);
    let test = SyntaxV::CompBin(op, Box::new(vx), Box::new(vy));
    assert(k_norm(env, SyntaxV::If(Box::new(test), Box::new(a), Box::new(b)), n, ext) == k_norm_if(env, test, a, b, n, ext));
    assert(k_norm_if(env, test, a, b, n, ext) == k_norm_comp(env, op, vx, vy, a, b, n, ext));
}

// ---------------------------------------------------------------------------
// Free variables and the names an expression uses
// ---------------------------------------------------------------------------

/// Every name that `e` uses as a variable, wherever it stands and whether
/// a binder of `e` binds it or not. External names are not variables.
pub open spec fn used_names(e: KNormalV) -> Set<Seq<char>>
    decreases e,
{
    match e {
        KNormalV::Neg(x) => set![x],
        KNormalV::FNeg(x) => set![x],
        KNormalV::Var(x) => set![x],
        KNormalV::IntBin(_, x, y) => set![x, y],
        KNormalV::FloatBin(_, x, y) => set![x, y],
        KNormalV::Get(x, y) => set![x, y],
        KNormalV::Put(x, y, z) => set![x, y, z],
        KNormalV::IfComp(_, x, y, a, b) => set![x, y] + used_names(*a) + used_names(*b),
        KNormalV::Let(_, a, b) => used_names(*a) + used_names(*b),
        KNormalV::LetRec(f, b) => used_names(*f.body) + used_names(*b),
        KNormalV::App(f, xs) => set![f] + name_set(xs),
        KNormalV::Tuple(xs) => name_set(xs),
        KNormalV::ExtFunApp(_, xs) => name_set(xs),
        KNormalV::LetTuple(_, y, a) => set![y] + used_names(*a),
        _ => Set::empty(),
    }
}

/// Every name that some binder of `e` introduces, at any depth.
pub open spec fn bound_names(e: KNormalV) -> Set<Seq<char>>
    decreases e,
{
    match e {
        KNormalV::IfComp(_, _, _, a, b) => bound_names(*a) + bound_names(*b),
        KNormalV::Let(xt, a, b) => set![xt.0] + bound_names(*a) + bound_names(*b),
        KNormalV::LetRec(f, b) => set![f.name.0] + binder_names(f.args) + bound_names(*f.body) + bound_names(*b),
        KNormalV::LetTuple(xts, _, a) => binder_names(xts) + bound_names(*a),
        _ => Set::empty(),
    }
}

/// The free variables of an expression are names it uses, and every name
/// it uses that none of its binders introduces is free in it.
pub proof fn lemma_free_vars_are_unbound_uses(e: KNormalV)
    ensures
        free_vars(e).subset_of(used_names(e)),
        (used_names(e) - bound_names(e)).subset_of(free_vars(e)),
    decreases e,
{
    match e {
        KNormalV::IfComp(_, x, y, a, b) => {
            lemma_free_vars_are_unbound_uses(*a);
            lemma_free_vars_are_unbound_uses(*b);
        },
        KNormalV::Let(xt, a, b) => {
            lemma_free_vars_are_unbound_uses(*a);
            lemma_free_vars_are_unbound_uses(*b);
        },
        KNormalV::LetRec(f, b) => {
            lemma_free_vars_are_unbound_uses(*f.body);
            lemma_free_vars_are_unbound_uses(*b);
        },
        KNormalV::LetTuple(xts, y, a) => {
            lemma_free_vars_are_unbound_uses(*a);
        },
        _ => {},
    }
}

// ---------------------------------------------------------------------------
// Operations on named values
// ---------------------------------------------------------------------------

/// An operation whose operands are bound variables needs no temporary: it
/// becomes the same operation on the same variables, in the same order.
pub proof fn lemma_ops_on_variables(
    env: Seq<BinderV>,
    iop: IntBin,
    fop: FloatBin,
    x: Seq<char>,
    y: Seq<char>,
    z: Seq<char>,
    n: u64,
    ext: Seq<BinderV>,
)
    requires
        lookup(env, x) is Some,
        lookup(env, y) is Some,
        lookup(env, z) is Some,
    ensures
        k_norm(env, SyntaxV::IntBin(iop, Box::new(SyntaxV::Var(x)), Box::new(SyntaxV::Var(y))), n, ext)
            == Some((KNormalV::IntBin(iop, x, y), TypeV::Int, n)),
        k_norm(env, SyntaxV::FloatBin(fop, Box::new(SyntaxV::Var(x)), Box::new(SyntaxV::Var(y))), n, ext)
            == Some((KNormalV::FloatBin(fop, x, y), TypeV::Float, n)),
        k_norm(env, SyntaxV::Neg(Box::new(SyntaxV::Var(x))), n, ext) == Some((KNormalV::Neg(x), TypeV::Int, n)),
        k_norm(env, SyntaxV::FNeg(Box::new(SyntaxV::Var(x))), n, ext) == Some((KNormalV::FNeg(x), TypeV::Float, n)),
        k_norm(env, SyntaxV::Put(Box::new(SyntaxV::Var(x)), Box::new(SyntaxV::Var(y)), Box::new(SyntaxV::Var(z))), n, ext)
            == Some((KNormalV::Put(x, y, z), TypeV::Unit, n)),
        lookup(env, x) matches Some(TypeV::Array(el)) ==>
            k_norm(env, SyntaxV::Get(Box::new(SyntaxV::Var(x)), Box::new(SyntaxV::Var(y))), n, ext)
                == Some((KNormalV::Get(x, y), *el, n)),
{
    assert(k_norm(env, SyntaxV::Var(x), n, ext) == Some((KNormalV::Var(x), lookup(env, x).unwrap(), n)));
    assert(k_norm(env, SyntaxV::Var(y), n, ext) == Some((KNormalV::Var(y), lookup(env, y).unwrap(), n)));
    assert(k_norm(env, SyntaxV::Var(z), n, ext) == Some((KNormalV::Var(z), lookup(env, z).unwrap(), n)));
}

/// Operands that are not variables are named by temporaries, numbered by
/// the counter in the order the operands are written, each bound to the
/// operand's value around the operation: `i - j` on integer constants
/// becomes `let t = i in let u = j in t - u`.
pub proof fn lemma_constants_named_in_order(env: Seq<BinderV>, op: IntBin, i: i64, j: i64, n: u64, ext: Seq<BinderV>)
    requires
        n < u64::MAX,
    ensures
        k_norm(env, SyntaxV::IntBin(op, Box::new(SyntaxV::Int(i)), Box::new(SyntaxV::Int(j))), n, ext) == Some((
            KNormalV::Let(
                (tmp_name(TypeV::Int, n), TypeV::Int),
                Box::new(KNormalV::Int(i)),
                Box::new(KNormalV::Let(
                    (tmp_name(TypeV::Int, (n + 1) as u64), TypeV::Int),
                    Box::new(KNormalV::Int(j)),
                    Box::new(KNormalV::IntBin(op, tmp_name(TypeV::Int, n), tmp_name(TypeV::Int, (n + 1) as u64))),
                )),
            ),
            TypeV::Int,
            next_count((n + 1) as u64),
        )),
{
    assert(k_norm(env, SyntaxV::Int(i), n, ext) == Some((KNormalV::Int(i), TypeV::Int, n)));
    assert(k_norm(env, SyntaxV::Int(j), (n + 1) as u64, ext) == Some((KNormalV::Int(j), TypeV::Int, (n + 1) as u64)));
}

} // verus!
