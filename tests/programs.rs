use tinyscript::env::{Fault, Variable};
use tinyscript::interp::{run_program, Parser};

fn chars(s: &str) -> Vec<char> {
    s.chars().collect()
}

fn run(src: &str) -> (Parser, Result<(), Fault>) {
    run_program(src, vec![], 10_000)
}

fn run_with(src: &str, lines: &[&str]) -> (Parser, Result<(), Fault>) {
    run_program(src, lines.iter().map(|l| chars(l)).collect(), 10_000)
}

fn out(p: &Parser) -> String {
    p.output.iter().collect()
}

fn int_var(p: &Parser, name: &str) -> Option<i32> {
    p.env.ints.get(&chars(name)).copied()
}

fn str_var(p: &Parser, name: &str) -> Option<String> {
    p.env.strings.get(&chars(name)).map(|v| v.iter().collect())
}

fn bool_var(p: &Parser, name: &str) -> Option<bool> {
    p.env.bools.get(&chars(name)).copied()
}

#[test]
fn declare_and_print_sum() {
    let (p, r) = run("int x = 5 + 2; println(x);");
    assert_eq!(r, Ok(()));
    assert_eq!(out(&p), "7\n");
}

#[test]
fn while_loop_counts_to_three() {
    let (p, r) = run("int i = 0; while (i < 3) { println(i); i = i + 1; }");
    assert_eq!(r, Ok(()));
    assert_eq!(out(&p), "0\n1\n2\n");
    assert_eq!(int_var(&p, "i"), Some(3));
}

#[test]
fn false_if_runs_else_only() {
    let (p, r) = run("if (false) { println(\"a\"); } else { println(\"b\"); }");
    assert_eq!(r, Ok(()));
    assert_eq!(out(&p), "b\n");
}

#[test]
fn true_if_skips_else() {
    let (p, r) = run("if (true) { println(\"a\"); } else { println(\"b\"); } println(\"c\");");
    assert_eq!(r, Ok(()));
    assert_eq!(out(&p), "a\nc\n");
}

#[test]
fn string_concatenation() {
    let (p, r) = run("string s = \"foo\" + \"bar\"; println(s);");
    assert_eq!(r, Ok(()));
    assert_eq!(out(&p), "foobar\n");
    assert_eq!(str_var(&p, "s"), Some("foobar".to_string()));
}

#[test]
fn arithmetic_precedence() {
    let (p, r) = run("int a = 2 + 3 * 4; int b = (2 + 3) * 4; int c = 10 / 3; int d = 10 - 4 - 3;");
    assert_eq!(r, Ok(()));
    assert_eq!(int_var(&p, "a"), Some(14));
    assert_eq!(int_var(&p, "b"), Some(20));
    assert_eq!(int_var(&p, "c"), Some(3));
    assert_eq!(int_var(&p, "d"), Some(3));
}

#[test]
fn division_truncates_toward_zero() {
    let (p, r) = run("int a = 0 - 7; int b = a / 2;");
    assert_eq!(r, Ok(()));
    assert_eq!(int_var(&p, "b"), Some(-3));
}

#[test]
fn boolean_precedence() {
    let (p, r) = run("bool a = true || false && false; bool b = (true || false) && false;");
    assert_eq!(r, Ok(()));
    assert_eq!(bool_var(&p, "a"), Some(true));
    assert_eq!(bool_var(&p, "b"), Some(false));
}

#[test]
fn comparisons() {
    let (p, r) = run(
        "bool a = 3 < 5; bool b = 5 == 5; bool c = 5 <= 4; bool d = 6 > 2; bool e = 2 >= 3;",
    );
    assert_eq!(r, Ok(()));
    assert_eq!(bool_var(&p, "a"), Some(true));
    assert_eq!(bool_var(&p, "b"), Some(true));
    assert_eq!(bool_var(&p, "c"), Some(false));
    assert_eq!(bool_var(&p, "d"), Some(true));
    assert_eq!(bool_var(&p, "e"), Some(false));
}

#[test]
fn print_without_newline_and_mixed_operands() {
    let (p, r) = run("int n = 4; bool f = true; string s = \"x\"; print(\"n=\" + n + s + f + 12 + false);");
    assert_eq!(r, Ok(()));
    assert_eq!(out(&p), "n=4xtrue12false");
}

#[test]
fn negative_number_prints_with_sign() {
    let (p, r) = run("int n = 3 - 10; println(n);");
    assert_eq!(r, Ok(()));
    assert_eq!(out(&p), "-7\n");
}

#[test]
fn string_shadowing_wins_in_print() {
    let (p, r) = run("int x = 1; string x = \"s\"; println(x);");
    assert_eq!(r, Ok(()));
    assert_eq!(out(&p), "s\n");
    assert_eq!(int_var(&p, "x"), Some(1));
}

#[test]
fn string_variable_counts_as_zero_in_arithmetic() {
    let (p, r) = run("string s = \"a\"; int n = s + 5;");
    assert_eq!(r, Ok(()));
    assert_eq!(int_var(&p, "n"), Some(5));
}

#[test]
fn input_lines_feed_integers_and_strings() {
    let (p, r) = run_with("int n = input_ + 1; string s = input_; println(s + \"!\"); println(n);", &[" 41 ", "hi"]);
    assert_eq!(r, Ok(()));
    assert_eq!(out(&p), "hi!\n42\n");
}

#[test]
fn input_past_the_end_is_empty() {
    let (p, r) = run_with("print(input_);", &[]);
    assert_eq!(r, Ok(()));
    assert_eq!(out(&p), "");
}

#[test]
fn invalid_integer_input() {
    let (_, r) = run_with("int n = input_;", &["abc"]);
    assert_eq!(r, Err(Fault::InvalidInput));
}

#[test]
fn division_by_zero_is_fatal() {
    let (_, r) = run("int n = 1 / 0;");
    assert_eq!(r, Err(Fault::DivisionByZero));
}

#[test]
fn overflow_is_fatal() {
    let (_, r) = run("int n = 2147483647 + 1;");
    assert_eq!(r, Err(Fault::Overflow));
}

#[test]
fn unknown_identifier_is_fatal() {
    let (_, r) = run("println(y);");
    assert_eq!(r, Err(Fault::UnknownIdentifier));
}

#[test]
fn unknown_boolean_atom_is_fatal() {
    let (_, r) = run("bool b = flag;");
    assert_eq!(r, Err(Fault::UnknownIdentifier));
}

#[test]
fn missing_identifier_after_type() {
    let (_, r) = run("int = 3;");
    assert_eq!(r, Err(Fault::ExpectedIdentifier));
}

#[test]
fn missing_close_paren() {
    let (_, r) = run("int n = (1 + 2;");
    assert_eq!(r, Err(Fault::MissingCloseParen));
}

#[test]
fn comparison_without_operator_runs_out() {
    let (_, r) = run("bool b = 3");
    assert_eq!(r, Err(Fault::UnexpectedEnd));
}

#[test]
fn bad_comparison_operator() {
    let (_, r) = run("bool b = 3 ; 4;");
    assert_eq!(r, Err(Fault::UnexpectedToken));
}

#[test]
fn concatenating_an_integer_is_a_type_mismatch() {
    let (_, r) = run("int n = 1; string s = \"a\" + n;");
    assert_eq!(r, Err(Fault::TypeMismatch));
}

#[test]
fn bare_boolean_assignment_is_unsupported() {
    let (_, r) = run("bool b = true; b = b;");
    assert_eq!(r, Err(Fault::UnsupportedAssignment));
}

#[test]
fn endless_loop_runs_out_of_fuel() {
    let (p, r) = run_program("int i = 0; while (true) { i = i + 1; }", vec![], 100);
    assert_eq!(r, Err(Fault::OutOfFuel));
    assert!(int_var(&p, "i").unwrap() > 0);
}

#[test]
fn output_before_a_fault_is_kept() {
    let (p, r) = run("println(1); println(z);");
    assert_eq!(r, Err(Fault::UnknownIdentifier));
    assert_eq!(out(&p), "1\n");
}

#[test]
fn nested_loops() {
    let (p, r) = run(
        "int i = 0; int t = 0; while (i < 3) { int j = 0; while (j < i) { t = t + 1; j = j + 1; } i = i + 1; } println(t);",
    );
    assert_eq!(r, Ok(()));
    assert_eq!(out(&p), "3\n");
}

#[test]
fn if_inside_loop() {
    let (p, r) = run(
        "int i = 0; while (i < 4) { if (i == 2) { print(\"two\"); } else { print(i); } i = i + 1; }",
    );
    assert_eq!(r, Ok(()));
    assert_eq!(out(&p), "01two3");
}

#[test]
fn bare_assignment_of_string_literal() {
    let (p, r) = run("string s = \"a\"; s = \"b\" + s; println(s);");
    assert_eq!(r, Ok(()));
    assert_eq!(out(&p), "ba\n");
}

#[test]
fn stray_tokens_are_passed_over() {
    let (p, r) = run("; ; [ ] println(1);");
    assert_eq!(r, Ok(()));
    assert_eq!(out(&p), "1\n");
}

#[test]
fn empty_program() {
    let (p, r) = run("");
    assert_eq!(r, Ok(()));
    assert_eq!(out(&p), "");
}

#[test]
fn parser_cursor_evaluators() {
    let mut p = Parser::new("2 + 3 * 4 } (1 < 2) && false", vec![]);
    assert_eq!(p.expression(), Ok(14));
    assert_eq!(p.flow_end(), 1);
    assert_eq!(p.boolean_expr(), Ok(false));
}

#[test]
fn parser_term_and_factor() {
    let mut p = Parser::new("6 / 4 + 1", vec![]);
    assert_eq!(p.term(), Ok(1));
    let mut q = Parser::new("(7)", vec![]);
    assert_eq!(q.factor(), Ok(7));
}

#[test]
fn parser_concatenation_and_print_text() {
    let mut p = Parser::new("\"a\" + \"b\" ;", vec![]);
    assert_eq!(p.concatination().map(|v| v.iter().collect::<String>()), Ok("ab".to_string()));
    let mut q = Parser::new("(\"n=\" + 5 + true)", vec![]);
    assert_eq!(q.to_print().map(|v| v.iter().collect::<String>()), Ok("n=5true".to_string()));
}

#[test]
fn parser_int_input() {
    let mut p = Parser::new("", vec![chars("12"), chars("x")]);
    assert_eq!(p.int_input(), Ok(12));
    assert_eq!(p.int_input(), Err(Fault::InvalidInput));
}

#[test]
fn parser_boolean_parts() {
    let mut p = Parser::new("true || false", vec![]);
    assert_eq!(p.boolean_or(), Ok(true));
    let mut q = Parser::new("true && false", vec![]);
    assert_eq!(q.boolean_and(), Ok(false));
    let mut r = Parser::new("4 >= 4", vec![]);
    assert_eq!(r.bool_comp(), Ok(true));
    let mut s = Parser::new("3 == 4", vec![]);
    assert_eq!(s.int_comp(), Ok(false));
    let mut t = Parser::new("(false)", vec![]);
    assert_eq!(t.bool_factor(), Ok(false));
}

#[test]
fn parser_get_var_prefers_strings() {
    let (p, r) = run("int v = 1; bool v = true; string v = \"s\";");
    assert_eq!(r, Ok(()));
    assert_eq!(p.get_var(&chars("v")), Ok(Variable::Str(chars("s"))));
    assert_eq!(p.get_var(&chars("w")), Err(Fault::UnknownIdentifier));
}

#[test]
fn loop_condition_replays_each_pass() {
    let (p, r) = run("int n = 5; int k = 0; while ((n > 0) && true) { n = n - 2; k = k + 1; }");
    assert_eq!(r, Ok(()));
    assert_eq!(int_var(&p, "k"), Some(3));
    assert_eq!(int_var(&p, "n"), Some(-1));
}

#[test]
fn comparison_of_expressions() {
    let (p, r) = run("bool a = 1 + 2 * 3 == 7; bool b = 10 / 3 < 3;");
    assert_eq!(r, Ok(()));
    assert_eq!(bool_var(&p, "a"), Some(true));
    assert_eq!(bool_var(&p, "b"), Some(false));
}

#[test]
fn concatenation_stops_at_a_keyword() {
    let mut p = Parser::new("\"a\" + \"b\" print", vec![]);
    assert_eq!(p.concatination().map(|v| v.iter().collect::<String>()), Ok("ab".to_string()));
    assert_eq!(p.bool_factor(), Err(Fault::UnexpectedToken));
}

#[test]
fn string_declaration_followed_by_keyword() {
    let (p, r) = run("string s = \"x\" print ;");
    assert_eq!(r, Ok(()));
    assert_eq!(str_var(&p, "s"), Some("x".to_string()));
}

#[test]
fn interactive_input_is_asked_for_when_needed() {
    let mut p = Parser::interactive("print(\"name? \"); string s = input_; println(\"hi \" + s);");
    assert_eq!(p.parse(1000), Err(Fault::AwaitingInput));
    assert_eq!(out(&p), "name? ");
    p.supply_line(chars("bo"));
    assert_eq!(p.parse(1000), Ok(()));
    assert_eq!(out(&p), "name? hi bo\n");
}

#[test]
fn interactive_retry_rereads_from_the_same_line() {
    let mut p = Parser::interactive("int n = input_ + input_; println(n);");
    assert_eq!(p.parse(1000), Err(Fault::AwaitingInput));
    p.supply_line(chars("2"));
    assert_eq!(p.parse(1000), Err(Fault::AwaitingInput));
    p.supply_line(chars("3"));
    assert_eq!(p.parse(1000), Ok(()));
    assert_eq!(out(&p), "5\n");
}

#[test]
fn interactive_closed_input_reads_empty_lines() {
    let mut p = Parser::interactive("string s = input_; println(\"[\" + s + \"]\");");
    assert_eq!(p.parse(1000), Err(Fault::AwaitingInput));
    p.close_input();
    assert_eq!(p.parse(1000), Ok(()));
    assert_eq!(out(&p), "[]\n");
}

#[test]
fn program_without_input_never_waits() {
    let mut p = Parser::interactive("println(1);");
    assert_eq!(p.parse(1000), Ok(()));
    assert_eq!(out(&p), "1\n");
}
