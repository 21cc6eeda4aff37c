use rlox::interpreter::{Interpreter, Output};
use rlox::literal::Literal;
use rlox::runner::run;

fn render(out: &Output) -> String {
    match out {
        Output::Printed(Literal::Nil) => "nil".to_string(),
        Output::Printed(Literal::Boolean(b)) => format!("{}", b),
        Output::Printed(Literal::Number(bits)) => format!("{}", f64::from_bits(*bits)),
        Output::Printed(Literal::Str(s)) => s.clone(),
        Output::Failed(e) => format!("ERROR {}", e.to_string()),
        Output::LoopLimit => "LOOP LIMIT".to_string(),
    }
}

fn run_program(src: &str) -> (Vec<String>, Vec<String>) {
    let mut interpreter = Interpreter::new();
    let diagnostics = run(&mut interpreter, src.to_string());
    let outputs = interpreter.take_output();
    (diagnostics, outputs.iter().map(render).collect())
}

fn lines(v: &[&str]) -> Vec<String> {
    v.iter().map(|s| s.to_string()).collect()
}

#[test]
fn numeric_literal_prints_its_value() {
    let (d, out) = run_program("print 1.5; print 123; print 0.1;");
    assert!(d.is_empty());
    assert_eq!(out, lines(&["1.5", "123", "0.1"]));
}

#[test]
fn numeric_literal_keeps_its_double() {
    let mut interpreter = Interpreter::new();
    run(&mut interpreter, "print 3.14159;".to_string());
    let out = interpreter.take_output();
    match &out[0] {
        Output::Printed(Literal::Number(bits)) => assert_eq!(*bits, 3.14159f64.to_bits()),
        _ => panic!("expected a number"),
    }
}

#[test]
fn nil_equality_has_no_coercion() {
    let (_, out) = run_program("print nil == nil; print nil == false; print nil != false;");
    assert_eq!(out, lines(&["true", "false", "true"]));
}

#[test]
fn zero_is_truthy() {
    let (_, out) = run_program("if (0) print \"a\"; else print \"b\";");
    assert_eq!(out, lines(&["a"]));
}

#[test]
fn nil_is_falsy() {
    let (_, out) = run_program("if (nil) print \"a\"; else print \"b\";");
    assert_eq!(out, lines(&["b"]));
}

#[test]
fn empty_string_is_truthy() {
    let (_, out) = run_program("if (\"\") print 1; else print 2; print !\"\"; print !nil;");
    assert_eq!(out, lines(&["1", "false", "true"]));
}

#[test]
fn shadowing_in_block() {
    let (_, out) = run_program("var a = 1; { var a = 2; print a; } print a;");
    assert_eq!(out, lines(&["2", "1"]));
}

#[test]
fn outer_mutation_through_block() {
    let (_, out) = run_program("var a = 1; { a = 2; } print a;");
    assert_eq!(out, lines(&["2"]));
}

#[test]
fn and_short_circuits() {
    let (d, out) = run_program("print false and (1/0 > 0); print false and undefined;");
    assert!(d.is_empty());
    assert_eq!(out, lines(&["false", "false"]));
}

#[test]
fn or_short_circuits() {
    let (_, out) = run_program("print 1 or undefined; print nil or \"x\"; print true and 2;");
    assert_eq!(out, lines(&["1", "x", "2"]));
}

#[test]
fn for_loop_counts() {
    let (_, out) = run_program("for (var i = 0; i < 3; i = i + 1) print i;");
    assert_eq!(out, lines(&["0", "1", "2"]));
}

#[test]
fn for_loop_scope_ends_with_loop() {
    let (_, out) = run_program("for (var i = 0; i < 1; i = i + 1) print i; print i;");
    assert_eq!(out, lines(&["0", "ERROR [line 1] Error at 'i': Undefined var 'i'"]));
}

#[test]
fn string_plus_number_fails() {
    let (_, out) = run_program("\"a\" + 1;");
    assert_eq!(out, lines(&["ERROR [line 1] Error at '+': Expect String"]));
}

#[test]
fn number_plus_string_fails() {
    let (_, out) = run_program("1 + \"a\";");
    assert_eq!(out, lines(&["ERROR [line 1] Error at '+': Expect number"]));
}

#[test]
fn nil_plus_number_fails() {
    let (_, out) = run_program("print nil + 1;");
    assert_eq!(out, lines(&["ERROR [line 1] Error at '+': Expect number or String"]));
}

#[test]
fn string_concatenation() {
    let (_, out) = run_program("print \"ab\" + \"cd\";");
    assert_eq!(out, lines(&["abcd"]));
}

#[test]
fn malformed_statement_does_not_stop_the_next() {
    let (d, out) = run_program("print ;\nprint 2;");
    assert_eq!(d, lines(&["[line 1] Error at ';': Expect expression"]));
    assert_eq!(out, lines(&["2"]));
}

#[test]
fn runtime_error_does_not_stop_the_next() {
    let (_, out) = run_program("print -\"x\";\nprint 3;");
    assert_eq!(out, lines(&["ERROR [line 1] Error at '-': Expect number", "3"]));
}

#[test]
fn assignment_is_an_expression() {
    let (_, out) = run_program("var a; print (a = 5); print a;");
    assert_eq!(out, lines(&["5", "5"]));
}

#[test]
fn chained_assignment() {
    let (_, out) = run_program("var a; var b; a = b = 3; print a; print b;");
    assert_eq!(out, lines(&["3", "3"]));
}

#[test]
fn uninitialized_variable_is_nil() {
    let (_, out) = run_program("var a; print a;");
    assert_eq!(out, lines(&["nil"]));
}

#[test]
fn undefined_variable_read_fails() {
    let (_, out) = run_program("print x;");
    assert_eq!(out, lines(&["ERROR [line 1] Error at 'x': Undefined var 'x'"]));
}

#[test]
fn assignment_never_creates_a_binding() {
    let (_, out) = run_program("y = 1;\nprint y;");
    assert_eq!(
        out,
        lines(&[
            "ERROR [line 1] Error at 'y': Undefined var 'y'",
            "ERROR [line 2] Error at 'y': Undefined var 'y'"
        ])
    );
}

#[test]
fn arithmetic_values() {
    let (_, out) = run_program("print 1 + 2; print 7 / 2; print 2 * 3 - 1; print -(4); print 1 - 2 - 3;");
    assert_eq!(out, lines(&["3", "3.5", "5", "-4", "-4"]));
}

#[test]
fn precedence_of_factor_over_term() {
    let (_, out) = run_program("print 1 + 2 * 3; print (1 + 2) * 3;");
    assert_eq!(out, lines(&["7", "9"]));
}

#[test]
fn division_by_zero_is_infinite() {
    let (d, out) = run_program("print 1 / 0; print -1 / 0; print 0 / 0 == 0 / 0;");
    assert!(d.is_empty());
    assert_eq!(out, lines(&["inf", "-inf", "false"]));
}

#[test]
fn comparisons() {
    let (_, out) = run_program("print 1 < 2; print 2 <= 2; print 3 > 4; print 4 >= 4; print -0 == 0;");
    assert_eq!(out, lines(&["true", "true", "false", "true", "true"]));
}

#[test]
fn comparison_needs_numbers() {
    let (_, out) = run_program("print 1 < \"2\";");
    assert_eq!(out, lines(&["ERROR [line 1] Error at '<': Expect number"]));
}

#[test]
fn equality_across_kinds() {
    let (_, out) = run_program("print 1 == \"1\"; print \"a\" == \"a\"; print true == true; print 1 == 1;");
    assert_eq!(out, lines(&["false", "true", "true", "true"]));
}

#[test]
fn while_loop_runs() {
    let (_, out) = run_program("var n = 3; while (n > 0) { print n; n = n - 1; }");
    assert_eq!(out, lines(&["3", "2", "1"]));
}

#[test]
fn loop_limit_stops_the_statement() {
    let mut interpreter = Interpreter::with_loop_limit(2);
    run(&mut interpreter, "var n = 0; while (true) n = n + 1; print n;".to_string());
    let out: Vec<String> = interpreter.take_output().iter().map(render).collect();
    assert_eq!(out, lines(&["LOOP LIMIT", "2"]));
}

#[test]
fn if_without_else() {
    let (_, out) = run_program("if (false) print 1; print 2;");
    assert_eq!(out, lines(&["2"]));
}

#[test]
fn error_in_block_restores_scope() {
    let (_, out) = run_program("var a = 1; { var a = 2; print b; } print a;");
    assert_eq!(out, lines(&["ERROR [line 1] Error at 'b': Undefined var 'b'", "1"]));
}

#[test]
fn globals_survive_between_runs() {
    let mut interpreter = Interpreter::new();
    run(&mut interpreter, "var a = 40;".to_string());
    run(&mut interpreter, "print a + 2;".to_string());
    let out: Vec<String> = interpreter.take_output().iter().map(render).collect();
    assert_eq!(out, lines(&["42"]));
}

#[test]
fn empty_program_does_nothing() {
    let (d, out) = run_program("");
    assert!(d.is_empty());
    assert!(out.is_empty());
}

#[test]
fn lexical_errors_are_reported_first() {
    let (d, out) = run_program("print 1; @\nprint \"open");
    assert_eq!(
        d,
        lines(&[
            "[line 1] Error: Unexpected character",
            "[line 2] Error: Unterminated string",
            "[line 2] Error at end: Expect expression"
        ])
    );
    assert_eq!(out, lines(&["1"]));
}

#[test]
fn invalid_assignment_target() {
    let (d, out) = run_program("1 = 2; print 3;");
    assert_eq!(d, lines(&["[line 1] Error at '=': Invalid assignment target"]));
    assert_eq!(out, lines(&["3"]));
}

#[test]
fn missing_semicolon_reported() {
    let (d, _) = run_program("var a = 1\nprint a;");
    assert_eq!(d, lines(&["[line 2] Error at 'print': Expect ';' after var declaration"]));
}

fn printed_bits(src: &str) -> Vec<u64> {
    let mut interpreter = Interpreter::new();
    run(&mut interpreter, src.to_string());
    interpreter
        .take_output()
        .iter()
        .map(|o| match o {
            Output::Printed(Literal::Number(bits)) => *bits,
            _ => panic!("expected a number"),
        })
        .collect()
}

#[test]
fn arithmetic_is_ieee_double() {
    let bits = printed_bits("print 0.1 + 0.2; print 1 - 0.9; print 0.1 * 3; print 1 / 3; print 2 / 0;");
    let expected: Vec<u64> = vec![0.1f64 + 0.2, 1.0f64 - 0.9, 0.1f64 * 3.0, 1.0f64 / 3.0, f64::INFINITY]
        .iter()
        .map(|x| x.to_bits())
        .collect();
    assert_eq!(bits, expected);
}
