use mincaml::parser::exp;
use mincaml::syntax::{CompBin, FloatBin, Fundef, IntBin, Syntax, Type};

/// The value that a float literal's text denotes.
fn float_value(lit: &[u8]) -> f64 {
    std::str::from_utf8(lit).unwrap().parse::<f64>().unwrap()
}

#[test]
fn test_simple_exp() {
    assert_eq!(exp(b" ( c)"), Ok((&[0u8; 0][..], Syntax::Var("c".to_string()))));
    assert_eq!(exp(b"() "), Ok((&[0u8; 0][..], Syntax::Unit)));
    assert_eq!(exp(b"100"), Ok((&[0u8; 0][..], Syntax::Int(100))));
    let (rest, e) = exp(b"10.0").unwrap();
    assert_eq!(rest, &[0u8; 0]);
    match e {
        Syntax::Float(lit) => assert_eq!(float_value(&lit), 10.0),
        _ => panic!(),
    }
    let (rest, e) = exp(b"1256.25").unwrap();
    assert_eq!(rest, &[0u8; 0]);
    match e {
        Syntax::Float(lit) => assert_eq!(float_value(&lit), 1256.25),
        _ => panic!(),
    }
    assert_eq!(
        exp(b"a.(b)"),
        Ok((&[0u8; 0][..], Syntax::Get(Box::new(Syntax::Var("a".to_string())), Box::new(Syntax::Var("b".to_string())))))
    );
    assert_eq!(
        exp(b"a.(b).(c)"),
        Ok((
            &[0u8; 0][..],
            Syntax::Get(
                Box::new(Syntax::Get(Box::new(Syntax::Var("a".to_string())), Box::new(Syntax::Var("b".to_string())))),
                Box::new(Syntax::Var("c".to_string()))
            )
        ))
    );
}

#[test]
fn test_let() {
    let result = exp(b"let x = 0 in 1").unwrap();
    assert_eq!(result.0, &[0u8; 0]);
    match result.1 {
        Syntax::Let((id, _), e1, e2) => {
            assert_eq!(id, "x");
            assert_eq!(*e1, Syntax::Int(0));
            assert_eq!(*e2, Syntax::Int(1));
        }
        _ => panic!(),
    }
}

#[test]
fn test_letrec() {
    let result = exp(b"let rec f x = x in f 1").unwrap();
    assert_eq!(result.0, &[0u8; 0]);
    match result.1 {
        Syntax::LetRec(Fundef { name: (id, _), args: _, body: e1 }, e2) => {
            assert_eq!(id, "f");
            assert_eq!(*e1, Syntax::Var("x".to_string()));
            assert_eq!(*e2, Syntax::App(Box::new(Syntax::Var("f".to_string())), vec![Syntax::Int(1)]));
        }
        _ => panic!(),
    }
}

#[test]
fn test_lettuple() {
    let result = exp(b"let (x, y) = make_pair 1 2 in x").unwrap();
    assert_eq!(result.0, &[0u8; 0]);
    match result.1 {
        Syntax::LetTuple(_pat, e1, e2) => {
            assert_eq!(*e1, Syntax::App(Box::new(Syntax::Var("make_pair".to_string())), vec![Syntax::Int(1), Syntax::Int(2)]));
            assert_eq!(*e2, Syntax::Var("x".to_string()));
        }
        _ => panic!(),
    }
}

#[test]
fn test_semicolon() {
    let result = exp(b"print_int 0; (); print_int 1");
    let print_int = || Box::new(Syntax::Var("print_int".to_string()));
    let dummy = || ("_dummy".to_string(), Type::Unit);
    // semicolon is right-associative
    assert_eq!(
        result,
        Ok((
            &[0u8; 0][..],
            Syntax::Let(
                dummy(),
                Box::new(Syntax::App(print_int(), vec![Syntax::Int(0)])),
                Box::new(Syntax::Let(dummy(), Box::new(Syntax::Unit), Box::new(Syntax::App(print_int(), vec![Syntax::Int(1)]))))
            )
        ))
    );
}

#[test]
fn test_if() {
    assert_eq!(
        exp(b"if f 3 then 4 else 0"),
        Ok((
            &[0u8; 0][..],
            Syntax::If(
                Box::new(Syntax::App(Box::new(Syntax::Var("f".to_string())), vec![Syntax::Int(3)])),
                Box::new(Syntax::Int(4)),
                Box::new(Syntax::Int(0))
            )
        ))
    );
}

#[test]
fn test_comma() {
    let x = || Syntax::Var("x".to_string());
    let y = || Syntax::Var("y".to_string());
    let z = || Syntax::Var("z".to_string());
    let w = || Syntax::Var("w".to_string());
    assert_eq!(exp(b"x, y, (z, w)"), Ok((&[0u8; 0][..], Syntax::Tuple(vec![x(), y(), Syntax::Tuple(vec![z(), w()])]))));
    assert_eq!(
        exp(b"x, 1 + 3"),
        Ok((&[0u8; 0][..], Syntax::Tuple(vec![x(), Syntax::IntBin(IntBin::Add, Box::new(Syntax::Int(1)), Box::new(Syntax::Int(3)))])))
    );
}

#[test]
fn test_comp() {
    assert_eq!(
        exp(b"1 < 2 + 3"),
        Ok((
            &[0u8; 0][..],
            Syntax::Not(Box::new(Syntax::CompBin(
                CompBin::LE,
                Box::new(Syntax::IntBin(IntBin::Add, Box::new(Syntax::Int(2)), Box::new(Syntax::Int(3)))),
                Box::new(Syntax::Int(1))
            )))
        ))
    );
    assert_eq!(exp(b"4 <= 3"), Ok((&[0u8; 0][..], Syntax::CompBin(CompBin::LE, Box::new(Syntax::Int(4)), Box::new(Syntax::Int(3))))));
    assert_eq!(exp(b"4 >= 3"), Ok((&[0u8; 0][..], Syntax::CompBin(CompBin::LE, Box::new(Syntax::Int(3)), Box::new(Syntax::Int(4))))));
    assert_eq!(
        exp(b"4 > 3"),
        Ok((&[0u8; 0][..], Syntax::Not(Box::new(Syntax::CompBin(CompBin::LE, Box::new(Syntax::Int(4)), Box::new(Syntax::Int(3)))))))
    );
    assert_eq!(exp(b"4 = 3"), Ok((&[0u8; 0][..], Syntax::CompBin(CompBin::Eq, Box::new(Syntax::Int(4)), Box::new(Syntax::Int(3))))));
    assert_eq!(
        exp(b"4 <> 3"),
        Ok((&[0u8; 0][..], Syntax::Not(Box::new(Syntax::CompBin(CompBin::Eq, Box::new(Syntax::Int(4)), Box::new(Syntax::Int(3)))))))
    );
}

#[test]
fn test_mult() {
    assert_eq!(
        exp(b"x *. y"),
        Ok((
            &[0u8; 0][..],
            Syntax::FloatBin(FloatBin::FMul, Box::new(Syntax::Var("x".to_string())), Box::new(Syntax::Var("y".to_string())))
        ))
    );
    assert_eq!(
        exp(b"x /. y *. z"),
        Ok((
            &[0u8; 0][..],
            Syntax::FloatBin(
                FloatBin::FMul,
                Box::new(Syntax::FloatBin(FloatBin::FDiv, Box::new(Syntax::Var("x".to_string())), Box::new(Syntax::Var("y".to_string())))),
                Box::new(Syntax::Var("z".to_string()))
            )
        ))
    );
}

#[test]
fn test_multadd() {
    assert_eq!(
        exp(b"x /. y +. z"),
        Ok((
            &[0u8; 0][..],
            Syntax::FloatBin(
                FloatBin::FAdd,
                Box::new(Syntax::FloatBin(FloatBin::FDiv, Box::new(Syntax::Var("x".to_string())), Box::new(Syntax::Var("y".to_string())))),
                Box::new(Syntax::Var("z".to_string()))
            )
        ))
    );
    assert_eq!(
        exp(b"a -. b /. c"),
        Ok((
            &[0u8; 0][..],
            Syntax::FloatBin(
                FloatBin::FSub,
                Box::new(Syntax::Var("a".to_string())),
                Box::new(Syntax::FloatBin(FloatBin::FDiv, Box::new(Syntax::Var("b".to_string())), Box::new(Syntax::Var("c".to_string()))))
            )
        ))
    );
}

#[test]
fn test_unary_minus() {
    assert_eq!(exp(b"-2"), Ok((&[0u8; 0][..], Syntax::Neg(Box::new(Syntax::Int(2))))));
    assert_eq!(exp(b"--2"), Ok((&[0u8; 0][..], Syntax::Neg(Box::new(Syntax::Neg(Box::new(Syntax::Int(2))))))));
    assert_eq!(exp(b"-.x"), Ok((&[0u8; 0][..], Syntax::FNeg(Box::new(Syntax::Var("x".to_string()))))));
    // - followed by float literal is ok.
    let (rest, e) = exp(b"-2.0").unwrap();
    assert_eq!(rest, &[0u8; 0]);
    match e {
        Syntax::FNeg(inner) => match *inner {
            Syntax::Float(lit) => assert_eq!(float_value(&lit), 2.0),
            _ => panic!(),
        },
        _ => panic!(),
    }
}

#[test]
fn test_exp_not() {
    assert_eq!(exp(b"!!true"), Ok((&[0u8; 0][..], Syntax::Not(Box::new(Syntax::Not(Box::new(Syntax::Bool(true))))))));
}

#[test]
fn test_app() {
    assert_eq!(exp(b"func 0 1"), Ok((&[0u8; 0][..], Syntax::App(Box::new(Syntax::Var("func".to_string())), vec![Syntax::Int(0), Syntax::Int(1)]))));
}

#[test]
fn test_array_create() {
    assert_eq!(exp(b"Array.create 2 3"), Ok((&[0u8; 0][..], Syntax::Array(Box::new(Syntax::Int(2)), Box::new(Syntax::Int(3))))));
}
