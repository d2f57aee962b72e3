use mincaml::id::IdGen;
use mincaml::parser::{convert, exp, is_ident, is_not_ident_u8, remove_comments, uniquify, ParseError};
use mincaml::syntax::{Fundef, IntBin, Syntax, Type};

fn s(x: &str) -> String {
    x.to_string()
}

#[test]
fn remove_comments_keeps_text_without_comments() {
    assert_eq!(remove_comments(b"let x = 1 in x * y"), Ok(b"let x = 1 in x * y".to_vec()));
    assert_eq!(remove_comments(b""), Ok(Vec::new()));
}

#[test]
fn remove_comments_drops_nested_comments() {
    assert_eq!(remove_comments(b"a (* b (* c *) d *) e"), Ok(b"a  e".to_vec()));
    assert_eq!(remove_comments(b"(**)x(*y*)"), Ok(b"x".to_vec()));
}

#[test]
fn remove_comments_reports_a_stray_close() {
    assert_eq!(remove_comments(b"a *) b"), Err(s("Corresponding \"(*\" not found")));
}

#[test]
fn remove_comments_reports_an_unclosed_comment() {
    assert_eq!(remove_comments(b"a (* b (* c *)"), Err(s("Comments are not balanced")));
}

#[test]
fn uniquify_gives_fresh_type_variables_in_order() {
    let mut id_gen = IdGen::new();
    // let x: 'a = (let (p: 'b, q: int) = r in p) in let rec f (y: 'c) = y in f x
    let expr = Syntax::Let(
        (s("x"), Type::Var(0)),
        Box::new(Syntax::LetTuple(
            vec![(s("p"), Type::Var(0)), (s("q"), Type::Int)],
            Box::new(Syntax::Var(s("r"))),
            Box::new(Syntax::Var(s("p"))),
        )),
        Box::new(Syntax::LetRec(
            Fundef {
                name: (s("f"), Type::Var(0)),
                args: vec![(s("y"), Type::Var(0))],
                body: Box::new(Syntax::Var(s("y"))),
            },
            Box::new(Syntax::App(Box::new(Syntax::Var(s("f"))), vec![Syntax::Var(s("x"))])),
        )),
    );
    let expected = Syntax::Let(
        (s("x"), Type::Var(0)),
        Box::new(Syntax::LetTuple(
            vec![(s("p"), Type::Var(1)), (s("q"), Type::Int)],
            Box::new(Syntax::Var(s("r"))),
            Box::new(Syntax::Var(s("p"))),
        )),
        Box::new(Syntax::LetRec(
            Fundef {
                name: (s("f"), Type::Var(2)),
                args: vec![(s("y"), Type::Var(3))],
                body: Box::new(Syntax::Var(s("y"))),
            },
            Box::new(Syntax::App(Box::new(Syntax::Var(s("f"))), vec![Syntax::Var(s("x"))])),
        )),
    );
    assert_eq!(uniquify(expr, &mut id_gen), expected);
    assert_eq!(id_gen.count(), 4);
}

#[test]
fn uniquify_reaches_binders_inside_arguments() {
    let mut id_gen = IdGen::new();
    id_gen.gen_type();
    // (g (let z: 'a = 1 in z), 2 + 3)
    let expr = Syntax::Tuple(vec![
        Syntax::App(
            Box::new(Syntax::Var(s("g"))),
            vec![Syntax::Let((s("z"), Type::Var(0)), Box::new(Syntax::Int(1)), Box::new(Syntax::Var(s("z"))))],
        ),
        Syntax::IntBin(IntBin::Add, Box::new(Syntax::Int(2)), Box::new(Syntax::Int(3))),
    ]);
    let expected = Syntax::Tuple(vec![
        Syntax::App(
            Box::new(Syntax::Var(s("g"))),
            vec![Syntax::Let((s("z"), Type::Var(1)), Box::new(Syntax::Int(1)), Box::new(Syntax::Var(s("z"))))],
        ),
        Syntax::IntBin(IntBin::Add, Box::new(Syntax::Int(2)), Box::new(Syntax::Int(3))),
    ]);
    assert_eq!(uniquify(expr, &mut id_gen), expected);
    assert_eq!(id_gen.count(), 2);
}

#[test]
fn uniquify_leaves_annotated_binders_alone() {
    let mut id_gen = IdGen::new();
    let expr = Syntax::Let((s("x"), Type::Int), Box::new(Syntax::Int(1)), Box::new(Syntax::Var(s("x"))));
    let copy = Syntax::Let((s("x"), Type::Int), Box::new(Syntax::Int(1)), Box::new(Syntax::Var(s("x"))));
    assert_eq!(uniquify(expr, &mut id_gen), copy);
    assert_eq!(id_gen.count(), 0);
}

#[test]
fn convert_reads_decimal_digits() {
    assert_eq!(convert(b"0", 10), 0);
    assert_eq!(convert(b"1256", 10), 1256);
    assert_eq!(convert(b"9223372036854775807", 10), i64::MAX);
}

#[test]
fn identifier_characters() {
    assert!(is_ident(b"abc_1"));
    assert!(!is_ident(b"let"));
    assert!(!is_ident(b"in"));
    assert!(!is_not_ident_u8(b'_'));
    assert!(!is_not_ident_u8(b'7'));
    assert!(is_not_ident_u8(b' '));
}

#[test]
fn exp_reports_errors() {
    assert_eq!(exp(b")"), Err(ParseError::Error));
    assert_eq!(exp(b"let x = 1 in"), Err(ParseError::Error));
}

#[test]
fn exp_skips_leading_blanks() {
    assert_eq!(exp(b" \t\r\n f x"), exp(b"f x"));
    assert_eq!(exp(b"   1 + 2"), Ok((&[0u8; 0][..], Syntax::IntBin(IntBin::Add, Box::new(Syntax::Int(1)), Box::new(Syntax::Int(2))))));
}

#[test]
fn exp_consumes_trailing_blanks() {
    let (rest, e) = exp(b"f x   ) y").unwrap();
    assert_eq!(rest, &b") y"[..]);
    assert_eq!(e, Syntax::App(Box::new(Syntax::Var(s("f"))), vec![Syntax::Var(s("x"))]));
}

#[test]
fn tmp_names_differ_across_counter_values() {
    let mut id_gen = IdGen::new();
    let mut names: Vec<String> = Vec::new();
    for _ in 0..25 {
        names.push(id_gen.gen_tmp(&Type::Int));
    }
    let distinct: std::collections::HashSet<&String> = names.iter().collect();
    assert_eq!(distinct.len(), 25);
    assert_eq!(names[1], "i1");
    assert_eq!(names[11], "i11");
    assert_eq!(names[21], "i21");
}
