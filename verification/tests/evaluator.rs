use imp::Expr;
use imp::ast::Op;
use imp::eval::Fault;
use imp::parse::parse;
use imp::store::Store;
use imp::store::display_program;

fn run_to_end(mut e: Expr, store: &mut Store) -> Expr {
    let mut steps = 0;
    while e.can_transition() {
        assert!(!e.step_would_overflow());
        e.transition(store).unwrap();
        steps += 1;
        assert!(steps < 10000, "evaluation did not terminate");
    }
    e
}

#[test]
fn assignment_commit_ordering() {
    let mut store = Store::new();
    let mut e = parse("a := 1 + 2").unwrap();
    assert!(e.can_transition());
    e.transition(&mut store).unwrap();
    assert_eq!(e.sexp(), "(:= a 3)");
    assert!(store.get("a").is_none());
    e.transition(&mut store).unwrap();
    assert_eq!(e.sexp(), "skip");
    assert_eq!(store.get("a").unwrap().sexp(), "3");
    assert!(!e.can_transition());
}

#[test]
fn sequencing_runs_to_completion() {
    let mut store = Store::new();
    let e = parse(
        "i := 0; a := 10; b := 0; while !a >= !b + 2 do (b := !b + 5; i := !i + 1); a := 0",
    )
    .unwrap();
    let e = run_to_end(e, &mut store);
    assert_eq!(e.sexp(), "skip");
    assert_eq!(store.get("a").unwrap().sexp(), "0");
    assert_eq!(store.get("b").unwrap().sexp(), "10");
    assert_eq!(store.get("i").unwrap().sexp(), "2");
}

#[test]
fn unbound_dereference_is_fatal() {
    let mut store = Store::new();
    let mut e = parse("!undefined_name").unwrap();
    let r = e.transition(&mut store);
    assert_eq!(r, Err(Fault::UnboundLocation));
    assert_eq!(e.sexp(), "!undefined_name");
    assert!(store.get("undefined_name").is_none());
}

#[test]
fn irreducible_is_idempotent() {
    let mut store = Store::new();
    store.insert("a", Expr::integer(1));
    let mut e = parse("42").unwrap();
    assert!(!e.can_transition());
    let before = display_program(&e, &store);
    assert_eq!(e.transition(&mut store), Ok(()));
    assert_eq!(display_program(&e, &store), before);
    assert_eq!(e.transition(&mut store), Ok(()));
    assert_eq!(display_program(&e, &store), before);
}

#[test]
fn invalid_operands_are_fatal() {
    let mut store = Store::new();
    let mut e = parse("true + 1").unwrap();
    assert_eq!(e.transition(&mut store), Err(Fault::InvalidOperands(Op::Add)));
    assert_eq!(e.sexp(), "(+ true 1)");
    let mut e2 = parse("1 >= skip").unwrap();
    assert_eq!(e2.transition(&mut store), Err(Fault::InvalidOperands(Op::GreaterEqual)));
}

#[test]
fn non_boolean_predicate_is_fatal() {
    let mut store = Store::new();
    let mut e = parse("if 1 then 2 else 3").unwrap();
    assert_eq!(e.transition(&mut store), Err(Fault::NonBooleanPredicate));
    assert_eq!(e.sexp(), "(if 1 2 3)");
}

#[test]
fn while_unrolls_to_if() {
    let mut store = Store::new();
    let mut e = parse("while true do skip").unwrap();
    e.transition(&mut store).unwrap();
    assert_eq!(e.sexp(), "(if true (; skip (while true skip)) skip)");
}

#[test]
fn conditional_selects_branch() {
    let mut store = Store::new();
    let e = run_to_end(parse("if 1 >= 2 then 10 else 20").unwrap(), &mut store);
    assert_eq!(e.sexp(), "20");
    let e = run_to_end(parse("if 2 >= 2 then 10 else 20").unwrap(), &mut store);
    assert_eq!(e.sexp(), "10");
}

#[test]
fn overflow_is_guarded() {
    assert!(parse("9223372036854775807 + 1").unwrap().step_would_overflow());
    assert!(parse("-9223372036854775808 + -1").unwrap().step_would_overflow());
    assert!(!parse("1 + 2").unwrap().step_would_overflow());
    assert!(!parse("9223372036854775807 + 0").unwrap().step_would_overflow());
}

#[test]
fn display_program_renders_store_in_key_order() {
    let mut store = Store::new();
    store.insert("b", Expr::integer(2));
    store.insert("a", Expr::integer(1));
    store.insert("b", Expr::integer(3));
    let e = parse("skip").unwrap();
    assert_eq!(display_program(&e, &store), "skip, {a -> 1, b -> 3}");
}

#[test]
fn infix_rendering() {
    assert_eq!(parse("a := 1 + 2").unwrap().display(), "a = 1 + 2");
    assert_eq!(parse("while 10 >= !i do a := 1").unwrap().display(), "while 10 >= !i do (a = 1)");
    assert_eq!(
        parse("if !b then a := 1 else skip").unwrap().display(),
        "if !b then (a = 1) else skip"
    );
    assert_eq!(parse("a := 1; b := 2").unwrap().display(), "a = 1; b = 2");
    assert_eq!(parse("a := (b := 1; !b)").unwrap().display(), "a = (b = 1; !b)");
    assert_eq!(parse("-42").unwrap().display(), "-42");
}

#[test]
fn dereference_reads_a_copy() {
    let mut store = Store::new();
    store.insert("x", Expr::integer(7));
    let e = run_to_end(parse("!x + !x").unwrap(), &mut store);
    assert_eq!(e.sexp(), "14");
    assert_eq!(store.get("x").unwrap().sexp(), "7");
}
