use mincaml::id::IdGen;
use mincaml::k_normal::{fv, g, KFundef, KNormal};
use mincaml::syntax::{CompBin, FloatBin, IntBin, Syntax, Type};
use std::collections::HashSet;

fn s(x: &str) -> String {
    x.to_string()
}

fn name_set(xs: Vec<String>) -> HashSet<String> {
    xs.into_iter().collect()
}

#[test]
fn test_fv_let() {
    // let x: int = y + y in z - x, fv(...) = {y, z}
    let expr = KNormal::Let(
        (s("x"), Type::Int),
        Box::new(KNormal::IntBin(IntBin::Add, s("y"), s("y"))),
        Box::new(KNormal::IntBin(IntBin::Sub, s("z"), s("x"))),
    );
    assert_eq!(name_set(fv(&expr)), vec![s("y"), s("z")].into_iter().collect());
}

#[test]
fn test_fv_let_unused() {
    // let x: int = y + y in z, fv(...) = {y, z}
    let expr = KNormal::Let(
        (s("x"), Type::Int),
        Box::new(KNormal::IntBin(IntBin::Add, s("y"), s("y"))),
        Box::new(KNormal::Var(s("z"))),
    );
    assert_eq!(name_set(fv(&expr)), vec![s("y"), s("z")].into_iter().collect());
}

#[test]
fn test_g_if() {
    let mut id_gen = IdGen::new();
    let extenv = Vec::new();
    // if x = x then y else z
    // ==> IfComp(Eq, x, x, y, z)
    let env = vec![(s("x"), Type::Int), (s("y"), Type::Int), (s("z"), Type::Int)];
    let expr = Syntax::If(
        Box::new(Syntax::CompBin(CompBin::Eq, Box::new(Syntax::Var(s("x"))), Box::new(Syntax::Var(s("x"))))),
        Box::new(Syntax::Var(s("y"))),
        Box::new(Syntax::Var(s("z"))),
    );
    assert_eq!(
        g(&env, expr, &mut id_gen, &extenv),
        (
            KNormal::IfComp(CompBin::Eq, s("x"), s("x"), Box::new(KNormal::Var(s("y"))), Box::new(KNormal::Var(s("z")))),
            Type::Int
        )
    );
}

#[test]
fn test_g_app() {
    let mut id_gen = IdGen::new();
    let extenv = Vec::new();
    // x y z
    // ==> App(x, [y, z])
    let env = vec![
        (s("x"), Type::Fun(vec![Type::Int; 2], Box::new(Type::Int))),
        (s("y"), Type::Int),
        (s("z"), Type::Int),
    ];
    let expr = Syntax::App(Box::new(Syntax::Var(s("x"))), vec![Syntax::Var(s("y")), Syntax::Var(s("z"))]);
    assert_eq!(g(&env, expr, &mut id_gen, &extenv), (KNormal::App(s("x"), vec![s("y"), s("z")]), Type::Int));
}

#[test]
fn test_g_tuple() {
    let mut id_gen = IdGen::new();
    let extenv = Vec::new();
    // (x, y, 1.0)
    // ==> Let(d0, 1.0, Tuple(x, y, d0))
    let env = vec![(s("x"), Type::Bool), (s("y"), Type::Int)];
    let expr = Syntax::Tuple(vec![Syntax::Var(s("x")), Syntax::Var(s("y")), Syntax::Float(b"1.0".to_vec())]);
    assert_eq!(
        g(&env, expr, &mut id_gen, &extenv),
        (
            KNormal::Let(
                (s("d0"), Type::Float),
                Box::new(KNormal::Float(b"1.0".to_vec())),
                Box::new(KNormal::Tuple(vec![s("x"), s("y"), s("d0")]))
            ),
            Type::Tuple(vec![Type::Bool, Type::Int, Type::Float])
        )
    );
}

#[test]
fn test_g_let_tuple() {
    let mut id_gen = IdGen::new();
    let extenv = Vec::new();
    // let (x: bool, y: int, z: float) = f(1) in x
    // ==> LetTuple([x, y, z], f(1), x)
    // f: int -> (bool, int, float)
    let tuple_ty = Type::Tuple(vec![Type::Bool, Type::Int, Type::Float]);
    let env = vec![(s("f"), Type::Fun(vec![Type::Int], Box::new(tuple_ty.clone())))];
    let args_list = vec![(s("x"), Type::Bool), (s("y"), Type::Int), (s("z"), Type::Float)];
    let expr = Syntax::LetTuple(
        args_list.clone(),
        Box::new(Syntax::App(Box::new(Syntax::Var(s("f"))), vec![Syntax::Int(1)])),
        Box::new(Syntax::Var(s("x"))),
    );
    let expected = (
        KNormal::Let(
            (s("t1"), tuple_ty),
            Box::new(KNormal::Let(
                (s("i0"), Type::Int),
                Box::new(KNormal::Int(1)),
                Box::new(KNormal::App(s("f"), vec![s("i0")])),
            )),
            Box::new(KNormal::LetTuple(args_list, s("t1"), Box::new(KNormal::Var(s("x"))))),
        ),
        Type::Bool,
    );
    assert_eq!(g(&env, expr, &mut id_gen, &extenv), expected);
}

#[test]
fn fv_of_if_comp_and_let_tuple() {
    // if a <= b then (let (c, d) = e in c + f) else g
    let expr = KNormal::IfComp(
        CompBin::LE,
        s("a"),
        s("b"),
        Box::new(KNormal::LetTuple(
            vec![(s("c"), Type::Int), (s("d"), Type::Int)],
            s("e"),
            Box::new(KNormal::IntBin(IntBin::Add, s("c"), s("f"))),
        )),
        Box::new(KNormal::Var(s("g"))),
    );
    let r = fv(&expr);
    assert_eq!(r.len(), 5);
    assert_eq!(name_set(r), vec![s("a"), s("b"), s("e"), s("f"), s("g")].into_iter().collect());
}

#[test]
fn fv_of_let_rec_hides_name_and_arguments() {
    // let rec h x = x + y in h z
    let expr = KNormal::LetRec(
        KFundef {
            name: (s("h"), Type::Fun(vec![Type::Int], Box::new(Type::Int))),
            args: vec![(s("x"), Type::Int)],
            body: Box::new(KNormal::IntBin(IntBin::Add, s("x"), s("y"))),
        },
        Box::new(KNormal::App(s("h"), vec![s("z"), s("z")])),
    );
    let r = fv(&expr);
    assert_eq!(r.len(), 2);
    assert_eq!(name_set(r), vec![s("y"), s("z")].into_iter().collect());
}

#[test]
fn fv_of_constants_is_empty() {
    assert!(fv(&KNormal::Unit).is_empty());
    assert!(fv(&KNormal::Int(3)).is_empty());
    assert!(fv(&KNormal::ExtArray(s("a"))).is_empty());
    assert_eq!(fv(&KNormal::Put(s("a"), s("i"), s("a"))).len(), 2);
}

#[test]
fn g_names_operands_in_order() {
    let mut id_gen = IdGen::new();
    let env = vec![(s("x"), Type::Int)];
    // 1 + x - 2
    let expr = Syntax::IntBin(
        IntBin::Sub,
        Box::new(Syntax::IntBin(IntBin::Add, Box::new(Syntax::Int(1)), Box::new(Syntax::Var(s("x"))))),
        Box::new(Syntax::Int(2)),
    );
    let expected = KNormal::Let(
        (s("i1"), Type::Int),
        Box::new(KNormal::Let(
            (s("i0"), Type::Int),
            Box::new(KNormal::Int(1)),
            Box::new(KNormal::IntBin(IntBin::Add, s("i0"), s("x"))),
        )),
        Box::new(KNormal::Let((s("i2"), Type::Int), Box::new(KNormal::Int(2)), Box::new(KNormal::IntBin(IntBin::Sub, s("i1"), s("i2"))))),
    );
    assert_eq!(g(&env, expr, &mut id_gen, &Vec::new()), (expected, Type::Int));
    assert_eq!(id_gen.count(), 3);
}

#[test]
fn g_turns_not_and_plain_conditions_into_comparisons() {
    let mut id_gen = IdGen::new();
    let env = vec![(s("b"), Type::Bool)];
    // not b  ==>  if b = false then false else true  ==>  IfComp(Eq, b, b0, 0, 1)
    let expr = Syntax::Not(Box::new(Syntax::Var(s("b"))));
    let expected = KNormal::Let(
        (s("i0"), Type::Int),
        Box::new(KNormal::Int(0)),
        Box::new(KNormal::IfComp(CompBin::Eq, s("b"), s("i0"), Box::new(KNormal::Int(1)), Box::new(KNormal::Int(0)))),
    );
    assert_eq!(g(&env, expr, &mut id_gen, &Vec::new()), (expected, Type::Int));
}

#[test]
fn g_float_operations_and_negation() {
    let mut id_gen = IdGen::new();
    let env = vec![(s("u"), Type::Float), (s("v"), Type::Float)];
    // -.(u *. v)
    let expr = Syntax::FNeg(Box::new(Syntax::FloatBin(
        FloatBin::FMul,
        Box::new(Syntax::Var(s("u"))),
        Box::new(Syntax::Var(s("v"))),
    )));
    let expected = KNormal::Let(
        (s("d0"), Type::Float),
        Box::new(KNormal::FloatBin(FloatBin::FMul, s("u"), s("v"))),
        Box::new(KNormal::FNeg(s("d0"))),
    );
    assert_eq!(g(&env, expr, &mut id_gen, &Vec::new()), (expected, Type::Float));
}

#[test]
fn g_let_binds_for_the_body() {
    let mut id_gen = IdGen::new();
    // let x: int = -3 in x
    let expr = Syntax::Let((s("x"), Type::Int), Box::new(Syntax::Neg(Box::new(Syntax::Int(3)))), Box::new(Syntax::Var(s("x"))));
    let expected = KNormal::Let(
        (s("x"), Type::Int),
        Box::new(KNormal::Let((s("i0"), Type::Int), Box::new(KNormal::Int(3)), Box::new(KNormal::Neg(s("i0"))))),
        Box::new(KNormal::Var(s("x"))),
    );
    assert_eq!(g(&Vec::new(), expr, &mut id_gen, &Vec::new()), (expected, Type::Int));
}

#[test]
fn g_external_array_get_and_put() {
    let mut id_gen = IdGen::new();
    let extenv = vec![(s("arr"), Type::Array(Box::new(Type::Float)))];
    let env = vec![(s("i"), Type::Int)];
    // arr.(i)
    let get = Syntax::Get(Box::new(Syntax::Var(s("arr"))), Box::new(Syntax::Var(s("i"))));
    let expected = KNormal::Let(
        (s("a0"), Type::Array(Box::new(Type::Float))),
        Box::new(KNormal::ExtArray(s("arr"))),
        Box::new(KNormal::Get(s("a0"), s("i"))),
    );
    assert_eq!(g(&env, get, &mut id_gen, &extenv), (expected, Type::Float));
    // arr.(i) <- true
    let put = Syntax::Put(Box::new(Syntax::Var(s("arr"))), Box::new(Syntax::Var(s("i"))), Box::new(Syntax::Bool(true)));
    let expected = KNormal::Let(
        (s("a1"), Type::Array(Box::new(Type::Float))),
        Box::new(KNormal::ExtArray(s("arr"))),
        Box::new(KNormal::Let((s("i2"), Type::Int), Box::new(KNormal::Int(1)), Box::new(KNormal::Put(s("a1"), s("i"), s("i2"))))),
    );
    assert_eq!(g(&env, put, &mut id_gen, &extenv), (expected, Type::Unit));
}

#[test]
fn g_later_binding_hides_earlier() {
    let mut id_gen = IdGen::new();
    let env = vec![(s("x"), Type::Int), (s("x"), Type::Float)];
    assert_eq!(g(&env, Syntax::Var(s("x")), &mut id_gen, &Vec::new()), (KNormal::Var(s("x")), Type::Float));
}

#[test]
fn gen_tmp_names_by_type_and_counter() {
    let mut id_gen = IdGen::new();
    assert_eq!(id_gen.gen_tmp(&Type::Unit), "u0");
    assert_eq!(id_gen.gen_tmp(&Type::Tuple(vec![])), "t1");
    assert_eq!(id_gen.gen_type(), Type::Var(2));
    for _ in 0..7 {
        id_gen.gen_type();
    }
    assert_eq!(id_gen.gen_tmp(&Type::Array(Box::new(Type::Int))), "a10");
    assert_eq!(id_gen.count(), 11);
}

#[test]
fn g_result_uses_only_bound_names() {
    let mut id_gen = IdGen::new();
    let env = vec![
        (s("f"), Type::Fun(vec![Type::Int, Type::Float], Box::new(Type::Int))),
        (s("n"), Type::Int),
    ];
    // let m: int = n + 1 in f (m - 2) 3.5
    let expr = Syntax::Let(
        (s("m"), Type::Int),
        Box::new(Syntax::IntBin(IntBin::Add, Box::new(Syntax::Var(s("n"))), Box::new(Syntax::Int(1)))),
        Box::new(Syntax::App(
            Box::new(Syntax::Var(s("f"))),
            vec![
                Syntax::IntBin(IntBin::Sub, Box::new(Syntax::Var(s("m"))), Box::new(Syntax::Int(2))),
                Syntax::Float(b"3.5".to_vec()),
            ],
        )),
    );
    let (k, t) = g(&env, expr, &mut id_gen, &Vec::new());
    assert_eq!(t, Type::Int);
    let free = name_set(fv(&k));
    assert!(free.is_subset(&vec![s("f"), s("n")].into_iter().collect()));
    assert_eq!(id_gen.count(), 4);
}
