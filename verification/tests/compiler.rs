use scheme_gateway::jit::{compile_program, JitError, JitExpr, JitItem};
use scheme_gateway::reader::parse_source;
use scheme_gateway::runtime::tagged_text;

fn compile(src: &str) -> Result<scheme_gateway::jit::JitProgram, JitError> {
    compile_program(&parse_source(src).expect("parses"))
}

#[test]
fn compiles_functions_and_entry_point() {
    let p = compile("(define (sq x) (* x x)) (define y (sq 4)) (print (if (< y 20) y 0))").unwrap();
    assert_eq!(p.functions.len(), 1);
    assert_eq!(p.functions[0].name, "sq");
    assert_eq!(p.functions[0].params, vec!["x".to_string()]);
    assert_eq!(p.main.len(), 2);
    match &p.main[0] {
        JitItem::Global(name, JitExpr::Call(0, args)) => {
            assert_eq!(name, "y");
            assert_eq!(args.len(), 1);
        }
        other => panic!("{:?}", other),
    }
    assert!(matches!(&p.main[1], JitItem::Eval(JitExpr::Print(_))));
}

#[test]
fn functions_may_call_functions_defined_later() {
    let p = compile("(define (a n) (b n)) (define (b n) n) (print (a 1))").unwrap();
    match &p.functions[0].body {
        JitExpr::Call(1, _) => {}
        other => panic!("{:?}", other),
    }
}

#[test]
fn let_cond_and_or_not() {
    let p = compile("(print (let ((x 1) (y 2)) (cond ((and x y) (or #f x)) (else (not y)) (nil 3))))").unwrap();
    match &p.main[0] {
        JitItem::Eval(JitExpr::Print(inner)) => match &**inner {
            JitExpr::Let(names, vals, body) => {
                assert_eq!(names, &vec!["x".to_string(), "y".to_string()]);
                assert_eq!(vals.len(), 2);
                match &**body {
                    JitExpr::Cond(tests, bodies, otherwise) => {
                        assert_eq!(tests.len(), 1);
                        assert_eq!(bodies.len(), 1);
                        assert!(otherwise.is_some());
                    }
                    other => panic!("{:?}", other),
                }
            }
            other => panic!("{:?}", other),
        },
        other => panic!("{:?}", other),
    }
}

#[test]
fn strings_are_outside_the_subset() {
    assert_eq!(compile("(print \"hi\")").unwrap_err(), JitError::StringUnsupported);
}

#[test]
fn unknown_names_are_refused() {
    assert_eq!(compile("(print x)").unwrap_err(), JitError::UndefinedSymbol);
    assert_eq!(compile("(print (f 1))").unwrap_err(), JitError::UndefinedFunction);
    assert_eq!(compile("(define (f x) y)").unwrap_err(), JitError::UndefinedSymbol);
}

#[test]
fn call_heads_must_be_symbols() {
    assert_eq!(compile("((f) 1)").unwrap_err(), JitError::BadCallHead);
}

#[test]
fn malformed_forms_are_refused() {
    assert_eq!(compile("(if 1 2)").unwrap_err(), JitError::BadForm);
    assert_eq!(compile("(+ 1)").unwrap_err(), JitError::BadForm);
    assert_eq!(compile("(define (f 1) 2)").unwrap_err(), JitError::BadForm);
}

#[test]
fn arity_must_match() {
    assert_eq!(compile("(define (f x) x) (f 1 2)").unwrap_err(), JitError::ArityMismatch);
}

#[test]
fn a_function_defined_twice_runs_its_first_body_with_its_last_arity() {
    let p = compile("(define (f x) x) (define (f x y) y) (print (f 1 2))").unwrap();
    assert_eq!(p.functions.len(), 1);
    assert_eq!(p.functions[0].name, "f");
    assert_eq!(p.functions[0].arity, 2);
    assert_eq!(p.functions[0].params, vec!["x".to_string()]);
    assert!(matches!(&p.functions[0].body, JitExpr::Local(n) if n == "x"));
    assert_eq!(compile("(define (f x) x) (define (f x y) y) (print (f 1))").unwrap_err(), JitError::ArityMismatch);
}

#[test]
fn a_definition_with_more_parameters_than_its_function_is_refused() {
    assert_eq!(compile("(define (f x y) x) (define (f x) x)").unwrap_err(), JitError::TooManyParameters);
    assert_eq!(compile("(define (f) 1) (define (f) z)").unwrap_err(), JitError::UndefinedSymbol);
}

#[test]
fn define_of_an_atom_is_refused() {
    assert_eq!(compile("(define 1 2)").unwrap_err(), JitError::InvalidDefine);
}

#[test]
fn tagged_values_as_printed() {
    assert_eq!(tagged_text(0, -42), "-42");
    assert_eq!(tagged_text(1, 1), "#t");
    assert_eq!(tagged_text(1, 0), "#f");
    assert_eq!(tagged_text(2, 0), "nil");
}

fn calls_resolve(e: &JitExpr, arity: &[usize]) -> bool {
    match e {
        JitExpr::Int(_) | JitExpr::Bool(_) | JitExpr::Nil | JitExpr::Local(_) => true,
        JitExpr::Print(a) | JitExpr::Not(a) => calls_resolve(a, arity),
        JitExpr::Arith(_, a, b) | JitExpr::Compare(_, a, b) => calls_resolve(a, arity) && calls_resolve(b, arity),
        JitExpr::If(c, t, f) => calls_resolve(c, arity) && calls_resolve(t, arity) && calls_resolve(f, arity),
        JitExpr::Begin(items) | JitExpr::And(items) | JitExpr::Or(items) => items.iter().all(|i| calls_resolve(i, arity)),
        JitExpr::Let(_, vals, body) => vals.iter().all(|v| calls_resolve(v, arity)) && calls_resolve(body, arity),
        JitExpr::Cond(tests, bodies, otherwise) => {
            tests.iter().all(|t| calls_resolve(t, arity))
                && bodies.iter().all(|b| calls_resolve(b, arity))
                && otherwise.as_ref().map_or(true, |b| calls_resolve(b, arity))
        }
        JitExpr::Call(f, args) => *f < arity.len() && args.len() == arity[*f] && args.iter().all(|a| calls_resolve(a, arity)),
    }
}

#[test]
fn every_call_of_a_compiled_program_resolves() {
    let src = "(define (fib n) (cond ((< n 2) n) (else (+ (fib (- n 1)) (fib (- n 2))))))
               (define (twice f x) (fib (fib x)))
               (define k (twice 1 5))
               (print (let ((a (fib 3)) (b k)) (and a (or #f b) (twice a b))))";
    let p = compile(src).unwrap();
    let arity: Vec<usize> = p.functions.iter().map(|f| f.arity).collect();
    assert_eq!(arity, vec![1, 2]);
    assert!(p.functions.iter().all(|f| calls_resolve(&f.body, &arity)));
    assert!(p.main.iter().all(|m| match m {
        JitItem::Global(_, e) | JitItem::Eval(e) => calls_resolve(e, &arity),
    }));
}

#[test]
fn globals_are_in_scope_only_after_their_definition() {
    assert_eq!(compile("(print g) (define g 1)").unwrap_err(), JitError::UndefinedSymbol);
    assert!(compile("(define g 1) (print g)").is_ok());
    assert_eq!(compile("(define g 1) (define (f) g)").unwrap_err(), JitError::UndefinedSymbol);
}
