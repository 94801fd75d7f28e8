use laminax_kpl::ast_nodes::{
    ASTNode, BinaryOpNode, BooleanNode, CompoundAssignmentNode, IdentifierNode, IndexNode,
    MemberAccessNode, NullNode, UnaryOpNode,
};
use laminax_kpl::builtins::print_line;
use laminax_kpl::environment::Value;
use laminax_kpl::errors::{ErrorKind, KyaroError, RuntimeKind};
use laminax_kpl::interpreter::{equal_values, Interpreter, Reply, Request};
use laminax_kpl::lexer::Lexer;
use laminax_kpl::parser::Parser;
use laminax_kpl::pipeline::execute_code;
use laminax_kpl::token_types::TokenType;

fn numeral(bits: u64) -> String {
    format!("{}", f64::from_bits(bits))
}

fn number(value: f64) -> Value {
    Value::Number(value.to_bits())
}

/// Runs `source` on `machine`, doing what the machine asks for: numerals,
/// arithmetic, and the native function `print`, whose lines go to `output`.
fn run_on(
    machine: &mut Interpreter,
    source: &str,
    output: &mut Vec<String>,
) -> Result<Option<Value>, KyaroError> {
    let mut request = execute_code(source, machine);
    loop {
        request = match request {
            Request::Done(value) => return Ok(value),
            Request::Failed(error) => return Err(error),
            Request::Paused => machine.run(u64::MAX),
            Request::Number { numeral } => {
                machine.resume(Reply::Number(numeral.parse::<f64>().unwrap().to_bits()))
            }
            Request::Arithmetic { operator, left, right } => {
                let (a, b) = (f64::from_bits(left), f64::from_bits(right));
                let result = match operator {
                    TokenType::Plus => a + b,
                    TokenType::Minus => a - b,
                    TokenType::Star => a * b,
                    TokenType::Slash => a / b,
                    TokenType::Percent => a % b,
                    other => panic!("no arithmetic operator: {:?}", other),
                };
                machine.resume(Reply::Number(result.to_bits()))
            }
            Request::Native { name, arguments } => match name.as_str() {
                "print" => {
                    output.push(print_line(&arguments, &numeral));
                    machine.resume(Reply::Value(Value::Null))
                }
                "len" => match &arguments[..] {
                    [Value::List(items)] => {
                        machine.resume(Reply::Value(number(items.len() as f64)))
                    }
                    _ => machine.resume(Reply::Failure(KyaroError::runtime(
                        RuntimeKind::TypeError,
                        "len() not supported for this type".to_string(),
                        0,
                        0,
                    ))),
                },
                other => machine.resume(Reply::Failure(KyaroError::runtime(
                    RuntimeKind::NotImplemented,
                    format!("{}() is not provided here", other),
                    0,
                    0,
                ))),
            },
        }
    }
}

fn run(source: &str) -> (Vec<String>, Result<Option<Value>, KyaroError>) {
    let mut machine = Interpreter::new();
    let mut output = Vec::new();
    let result = run_on(&mut machine, source, &mut output);
    (output, result)
}

fn output_of(source: &str) -> String {
    let (output, result) = run(source);
    result.unwrap();
    output.join("\n")
}

fn value_of(source: &str) -> String {
    let (_, result) = run(source);
    match result.unwrap() {
        Some(value) => value.to_string(&numeral),
        None => "<nothing>".to_string(),
    }
}

fn error_of(source: &str) -> KyaroError {
    run(source).1.unwrap_err()
}

#[test]
fn prints_arithmetic_with_precedence() {
    assert_eq!(output_of("print(1 + 2 * 3)"), "7");
}

#[test]
fn prints_concatenated_strings() {
    assert_eq!(output_of("let s = \"ab\" + \"cd\"\nprint(s)"), "abcd");
}

#[test]
fn prints_factorial_of_five() {
    let source = "func fact(n){ if n < 2 { return 1 } return n * fact(n - 1) }\nprint(fact(5))";
    assert_eq!(output_of(source), "120");
}

#[test]
fn sums_a_list_in_a_for_loop() {
    let source = "let xs = [1, 2, 3]\nlet t = 0\nfor x in xs { t = t + x }\nprint(t)";
    assert_eq!(output_of(source), "6");
}

#[test]
fn counts_in_a_while_loop() {
    let source = "let i = 0\nwhile i < 3 { print(i); i = i + 1 }";
    assert_eq!(output_of(source), "0\n1\n2");
}

#[test]
fn prints_boolean_of_and_or() {
    assert_eq!(output_of("print(true and false or true)"), "True");
}

#[test]
fn division_by_zero_fails_at_the_operator() {
    let error = error_of("1 / 0");
    assert_eq!(error.kind(), ErrorKind::Runtime(RuntimeKind::DivisionByZero));
    assert_eq!((error.line(), error.column()), (1, 3));
    assert_eq!(error.to_string(), "Runtime error at line 1, column 3: Division by zero");
}

#[test]
fn calling_an_undefined_name_fails() {
    let error = error_of("foo()");
    assert_eq!(error.kind(), ErrorKind::Runtime(RuntimeKind::UnboundName));
    assert_eq!(error.message(), "Undefined variable 'foo'");
}

#[test]
fn calling_with_too_many_arguments_fails() {
    let error = error_of("func f(x){ return x }\nf(1, 2)");
    assert_eq!(error.kind(), ErrorKind::Runtime(RuntimeKind::ArityError));
    assert_eq!(error.message(), "Expected 1 arguments, got 2");
}

#[test]
fn lone_quote_fails_in_the_lexer() {
    let error = error_of("\"");
    assert_eq!(error.kind(), ErrorKind::Lexer);
    assert_eq!(error.message(), "Unterminated string");
}

#[test]
fn let_without_a_name_fails_in_the_parser() {
    let error = error_of("let = 1");
    assert_eq!(error.kind(), ErrorKind::Parser);
    assert_eq!(error.message(), "Expected Identifier, got Equals");
    assert_eq!((error.line(), error.column()), (1, 5));
}

#[test]
fn closures_keep_the_scope_they_were_declared_in() {
    let source = "func make(x) { func inner() { return x }\n return inner }\n\
                  let a = make(7)\nlet b = make(8)\nprint(a())\nprint(b())\nprint(make(7)())";
    assert_eq!(output_of(source), "7\n8\n7");
}

#[test]
fn a_call_leaves_no_binding_in_the_callers_scope() {
    let mut machine = Interpreter::new();
    let mut output = Vec::new();
    run_on(&mut machine, "func f(a) { let b = a\n return b }\nlet r = f(1)", &mut output).unwrap();
    assert!(machine.environment().lookup("r").is_some());
    assert!(machine.environment().lookup("f").is_some());
    assert!(machine.environment().lookup("a").is_none());
    assert!(machine.environment().lookup("b").is_none());
}

#[test]
fn literals_evaluate_to_themselves() {
    assert_eq!(value_of("42"), "42");
    assert_eq!(value_of("2.5"), "2.5");
    assert_eq!(value_of("\"hi\""), "hi");
    assert_eq!(value_of("true"), "True");
    assert_eq!(value_of("null"), "None");
    assert_eq!(value_of("[1, \"a\", [2.5, false]]"), "[1, 'a', [2.5, False]]");
    assert_eq!(value_of(""), "<nothing>");
}

#[test]
fn and_does_not_evaluate_its_right_operand_after_a_false_left_one() {
    assert_eq!(output_of("let r = false and print(1)\nprint(r)"), "False");
    assert_eq!(output_of("let r = 0 and print(1)\nprint(r)"), "False");
    assert_eq!(output_of("let r = true and print(1)\nprint(r)"), "1\nFalse");
    assert_eq!(output_of("let r = 1 and 2\nprint(r)"), "True");
}

#[test]
fn or_does_not_evaluate_its_right_operand_after_a_true_left_one() {
    assert_eq!(output_of("let r = true or print(1)\nprint(r)"), "True");
    assert_eq!(output_of("let r = \"x\" or print(1)\nprint(r)"), "True");
    assert_eq!(output_of("let r = null or print(1)\nprint(r)"), "1\nFalse");
    assert_eq!(output_of("let r = null or [0]\nprint(r)"), "True");
}

#[test]
fn arguments_and_elements_are_evaluated_from_left_to_right() {
    let source = "func show(x) { print(x)\n return x }\n\
                  func three(a, b, c) { return [c, b, a] }\n\
                  print(three(show(1), show(2), show(3)))\n\
                  print([show(4), show(5), show(6)])\n\
                  print(show(7) + show(8) * show(9))";
    assert_eq!(output_of(source), "1\n2\n3\n[3, 2, 1]\n4\n5\n6\n[4, 5, 6]\n7\n8\n9\n79");
}

#[test]
fn callee_is_evaluated_before_its_arguments() {
    let source = "func pick() { print(\"callee\")\n func id(x) { return x }\n return id }\n\
                  func arg() { print(\"argument\")\n return 1 }\n\
                  print(pick()(arg()))";
    assert_eq!(output_of(source), "callee\nargument\n1");
}

#[test]
fn arithmetic_follows_the_numbers() {
    assert_eq!(value_of("7 - 10"), "-3");
    assert_eq!(value_of("7 / 2"), "3.5");
    assert_eq!(value_of("7 % 3"), "1");
    assert_eq!(value_of("-7 % 3"), "-1");
    assert_eq!(value_of("0.1 + 0.2"), "0.30000000000000004");
    assert_eq!(value_of("-(2 + 3)"), "-5");
    assert_eq!(value_of("- -2"), "2");
    assert_eq!(value_of("5 % 0"), "NaN");
    assert_eq!(value_of("2 * 3 + 4 * 5"), "26");
}

#[test]
fn comparisons_give_booleans() {
    assert_eq!(value_of("1 < 2"), "True");
    assert_eq!(value_of("2 < 2"), "False");
    assert_eq!(value_of("2 <= 2"), "True");
    assert_eq!(value_of("3 > 2"), "True");
    assert_eq!(value_of("2 >= 3"), "False");
    assert_eq!(value_of("0 == -0"), "True");
    assert_eq!(value_of("1 == 1.0"), "True");
    assert_eq!(value_of("1 != 2"), "True");
    assert_eq!(value_of("0 / 1 == 5 % 0"), "False");
}

#[test]
fn equality_of_other_values() {
    assert_eq!(value_of("\"a\" == \"a\""), "True");
    assert_eq!(value_of("\"a\" == \"b\""), "False");
    assert_eq!(value_of("\"a\" != \"b\""), "True");
    assert_eq!(value_of("true == true"), "True");
    assert_eq!(value_of("true == false"), "False");
    assert_eq!(value_of("null == null"), "True");
    assert_eq!(value_of("null == false"), "False");
    assert_eq!(value_of("1 == \"1\""), "False");
    assert_eq!(value_of("1 != \"1\""), "True");
    assert_eq!(value_of("[1] == [1]"), "False");
    assert_eq!(value_of("let xs = [1]\nxs == xs"), "False");
    assert_eq!(value_of("func f() { }\nf == f"), "False");
    assert_eq!(value_of("print == print"), "False");
}

#[test]
fn not_gives_the_opposite_of_truth() {
    assert_eq!(value_of("not true"), "False");
    assert_eq!(value_of("not 0"), "True");
    assert_eq!(value_of("not \"\""), "True");
    assert_eq!(value_of("not [0]"), "False");
    assert_eq!(value_of("not null"), "True");
    assert_eq!(value_of("not not 3"), "True");
}

#[test]
fn operands_of_the_wrong_type_fail() {
    for (source, message, column) in [
        ("1 + \"a\"", "Invalid operands for +", 3),
        ("\"a\" + 1", "Invalid operands for +", 5),
        ("\"a\" - \"b\"", "Invalid operands for -", 5),
        ("\"a\" * 2", "Invalid operands for *", 5),
        ("null / 2", "Invalid operands for /", 6),
        ("[1] % 2", "Invalid operands for %", 5),
        ("\"a\" < \"b\"", "Invalid operands for <", 5),
        ("1 <= null", "Invalid operands for <=", 3),
        ("true > false", "Invalid operands for >", 6),
        ("1 >= \"1\"", "Invalid operands for >=", 3),
    ] {
        let error = error_of(source);
        assert_eq!(error.kind(), ErrorKind::Runtime(RuntimeKind::TypeError), "{}", source);
        assert_eq!(error.message(), message, "{}", source);
        assert_eq!((error.line(), error.column()), (1, column), "{}", source);
    }
    let error = error_of("-\"a\"");
    assert_eq!(error.kind(), ErrorKind::Runtime(RuntimeKind::TypeError));
    assert_eq!(error.message(), "Invalid operand for unary -");
}

#[test]
fn division_by_either_zero_fails() {
    assert_eq!(error_of("1 / -0").kind(), ErrorKind::Runtime(RuntimeKind::DivisionByZero));
    assert_eq!(error_of("0 / 0").kind(), ErrorKind::Runtime(RuntimeKind::DivisionByZero));
    let error = error_of("let x = 4\nlet y = x - 4\nprint(x /\ty)");
    assert_eq!((error.line(), error.column()), (3, 9));
    assert_eq!(value_of("0 / 5"), "0");
}

#[test]
fn calling_what_is_no_function_fails() {
    let error = error_of("let x = 1\nx()");
    assert_eq!(error.kind(), ErrorKind::Runtime(RuntimeKind::TypeError));
    assert_eq!(error.message(), "Not callable");
    assert_eq!(error_of("\"f\"(1)").message(), "Not callable");
    assert_eq!(error_of("null()").message(), "Not callable");
}

#[test]
fn arity_is_checked_before_the_arguments_are_evaluated() {
    let (output, result) = run("func f(x) { return x }\nf(print(1), print(2))");
    assert!(output.is_empty());
    assert_eq!(result.unwrap_err().message(), "Expected 1 arguments, got 2");
    assert_eq!(error_of("func g(a, b) { }\ng(1)").message(), "Expected 2 arguments, got 1");
    assert_eq!(error_of("func h() { }\nh(1)").message(), "Expected 0 arguments, got 1");
}

#[test]
fn function_without_return_gives_null() {
    assert_eq!(value_of("func f() { 1 + 1 }\nf()"), "None");
    assert_eq!(value_of("func f() { }\nf()"), "None");
    assert_eq!(value_of("func f() { return }\nf()"), "None");
    assert_eq!(value_of("func f() { return 3\n 4 }\nf()"), "3");
}

#[test]
fn return_unwinds_through_loops_and_conditionals() {
    let source = "func find(xs, wanted) {\n for x in xs {\n  if x == wanted { return \"found\" }\n }\n \
                  return \"missing\"\n}\nprint(find([1, 2, 3], 2))\nprint(find([1, 2, 3], 5))";
    assert_eq!(output_of(source), "found\nmissing");
    let source = "func first() { let i = 0\n while true { i = i + 1\n if i > 3 { return i } } }\n\
                  print(first())";
    assert_eq!(output_of(source), "4");
}

#[test]
fn return_outside_a_function_fails() {
    let error = error_of("return 1");
    assert_eq!(error.kind(), ErrorKind::Runtime(RuntimeKind::Other));
    assert_eq!(error.message(), "Return outside function");
    assert_eq!(error_of("if true { return }").message(), "Return outside function");
}

#[test]
fn break_and_continue_steer_loops() {
    let source = "let i = 0\nwhile true { i = i + 1\n if i == 2 { continue }\n if i > 4 { break }\n \
                  print(i) }\nprint(\"end\", i)";
    assert_eq!(output_of(source), "1\n3\n4\nend 5");
    let source = "for x in [1, 2, 3, 4, 5] { if x == 2 { continue }\n if x == 4 { break }\n print(x) }";
    assert_eq!(output_of(source), "1\n3");
    let source = "for x in [1, 2] { for y in [10, 20, 30] { if y == 20 { break }\n print(x + y) } }";
    assert_eq!(output_of(source), "11\n12");
}

#[test]
fn break_and_continue_outside_a_loop_fail() {
    assert_eq!(error_of("break").message(), "Break outside loop");
    assert_eq!(error_of("continue").message(), "Continue outside loop");
    assert_eq!(error_of("func f() { break }\nwhile true { f() }").message(), "Break outside loop");
    assert_eq!(
        error_of("func f() { continue }\nfor x in [1] { f() }").message(),
        "Continue outside loop"
    );
}

#[test]
fn loops_have_the_value_of_their_last_run() {
    assert_eq!(value_of("let i = 0\nwhile i < 3 { i = i + 1 }"), "3");
    assert_eq!(value_of("while false { 1 }"), "None");
    assert_eq!(value_of("let i = 0\nwhile true { i = i + 1\n if i == 2 { break } }"), "None");
    assert_eq!(value_of("for x in [1, 2, 3] { x * 2 }"), "6");
    assert_eq!(value_of("for x in [] { x }"), "None");
    assert_eq!(value_of("for x in [1, 2] { if x == 2 { break } }"), "None");
}

#[test]
fn for_needs_a_list() {
    let error = error_of("for x in 3 { print(x) }");
    assert_eq!(error.kind(), ErrorKind::Runtime(RuntimeKind::TypeError));
    assert_eq!(error.message(), "Can only iterate over a list");
    assert_eq!(error_of("for c in \"abc\" { }").message(), "Can only iterate over a list");
}

#[test]
fn for_binds_its_variable_in_the_current_scope() {
    assert_eq!(output_of("for x in [1, 2, 3] { }\nprint(x)"), "3");
    assert_eq!(output_of("let xs = [1, 2]\nfor x in xs { xs = [9] }\nprint(xs, x)"), "[9] 2");
}

#[test]
fn conditional_runs_the_first_branch_whose_condition_holds() {
    let source = "func grade(n) {\n if n >= 90 { return \"a\" }\n elif n >= 80 { return \"b\" }\n \
                  elif n >= 70 { return \"c\" }\n else { return \"d\" }\n}\n\
                  print(grade(95), grade(85), grade(75), grade(10))";
    assert_eq!(output_of(source), "a b c d");
    assert_eq!(value_of("if false { 1 }"), "None");
    assert_eq!(value_of("if true { }"), "None");
    assert_eq!(value_of("if true { 5 }"), "5");
    assert_eq!(value_of("if false { 1 } elif false { 2 }"), "None");
    assert_eq!(value_of("if 0 { 1 } elif \"x\" { 2 } else { 3 }"), "2");
    assert_eq!(value_of("if 0 { 1 } elif \"\" { 2 } else { 3 }"), "3");
}

#[test]
fn conditions_are_evaluated_only_as_far_as_needed() {
    let source = "func t(x) { print(x)\n return true }\nfunc f(x) { print(x)\n return false }\n\
                  if f(1) { } elif t(2) { } elif t(3) { } else { print(4) }";
    assert_eq!(output_of(source), "1\n2");
}

#[test]
fn blocks_do_not_open_a_scope() {
    assert_eq!(output_of("if true { let inner = 5 }\nprint(inner)"), "5");
    assert_eq!(output_of("let i = 0\nwhile i < 1 { let made = 7\n i = i + 1 }\nprint(made)"), "7");
}

#[test]
fn assignment_in_a_function_shadows_the_outer_name() {
    let source = "let x = 1\nfunc f() { x = 2\n return x }\nprint(f())\nprint(x)";
    assert_eq!(output_of(source), "2\n1");
}

#[test]
fn functions_see_the_scope_they_were_declared_in() {
    let source = "let base = 10\nfunc add(n) { return base + n }\nfunc other() { let base = 100\n \
                  return add(1) }\nprint(other())";
    assert_eq!(output_of(source), "11");
    let source = "func f() { return later }\nlet later = 5\nprint(f())";
    assert_eq!(output_of(source), "5");
}

#[test]
fn closures_of_one_function_do_not_share_their_scopes() {
    let source = "func counter(start) {\n func next() { return start + 1 }\n return next\n}\n\
                  let a = counter(10)\nlet b = counter(20)\nprint(a(), b(), a())";
    assert_eq!(output_of(source), "11 21 11");
    let source = "func outer(x) { func middle(y) { func inner(z) { return x + y + z }\n return inner }\n \
                  return middle }\nprint(outer(1)(2)(3))";
    assert_eq!(output_of(source), "6");
}

#[test]
fn recursion_reaches_its_end() {
    let source = "func fib(n) { if n < 2 { return n }\n return fib(n - 1) + fib(n - 2) }\nprint(fib(15))";
    assert_eq!(output_of(source), "610");
    let source = "func even(n) { if n == 0 { return true }\n return odd(n - 1) }\n\
                  func odd(n) { if n == 0 { return false }\n return even(n - 1) }\nprint(even(10), odd(7))";
    assert_eq!(output_of(source), "True True");
}

#[test]
fn function_declaration_has_the_function_as_its_value() {
    assert_eq!(value_of("func f(a) { }"), "<function f>");
    assert_eq!(value_of("func f(a) { }\nf"), "<function f>");
    assert_eq!(value_of("let g = print\ng"), "<function print>");
    assert_eq!(output_of("let say = print\nsay(1, 2)"), "1 2");
}

#[test]
fn names_of_the_program_come_before_the_native_functions() {
    assert_eq!(output_of("func len(x) { return 99 }\nprint(len([1]))"), "99");
    assert_eq!(output_of("print(len([1, 2]))"), "2");
}

#[test]
fn native_function_that_fails_ends_the_program() {
    let error = error_of("print(1)\nlen(5)\nprint(2)");
    assert_eq!(error.kind(), ErrorKind::Runtime(RuntimeKind::TypeError));
    assert_eq!(error.message(), "len() not supported for this type");
    assert_eq!(error_of("sqrt(4)").kind(), ErrorKind::Runtime(RuntimeKind::NotImplemented));
}

#[test]
fn nodes_that_are_reserved_are_refused() {
    let x = || ASTNode::Identifier(IdentifierNode::new("x".to_string()));
    let null = || ASTNode::Null(NullNode::new());
    for node in [
        ASTNode::Index(IndexNode::new(x(), null())),
        ASTNode::MemberAccess(MemberAccessNode::new(x(), "m".to_string())),
        ASTNode::CompoundAssignment(CompoundAssignmentNode::new(
            "x".to_string(),
            TokenType::PlusEquals,
            null(),
        )),
    ] {
        let mut machine = Interpreter::new();
        let Request::Failed(error) = machine.interpret(node) else { panic!() };
        assert_eq!(error.kind(), ErrorKind::Runtime(RuntimeKind::NotImplemented));
        assert_eq!(error.message(), "Unsupported AST node");
    }
}

#[test]
fn operators_that_are_no_operations_are_refused() {
    let yes = || ASTNode::Boolean(BooleanNode::new(true));
    let mut machine = Interpreter::new();
    let node = ASTNode::BinaryOp(BinaryOpNode::with_position(yes(), TokenType::Comma, yes(), 4, 2));
    let Request::Failed(error) = machine.interpret(node) else { panic!() };
    assert_eq!(error.to_string(), "Runtime error at line 4, column 2: Unsupported binary operator");
    let node = ASTNode::UnaryOp(UnaryOpNode::new(TokenType::Plus, yes()));
    let Request::Failed(error) = machine.interpret(node) else { panic!() };
    assert_eq!(error.message(), "Unsupported unary operator");
}

#[test]
fn machine_keeps_its_scopes_from_one_program_to_the_next() {
    let mut machine = Interpreter::new();
    let mut output = Vec::new();
    run_on(&mut machine, "let x = 41\nfunc inc(n) { return n + 1 }", &mut output).unwrap();
    run_on(&mut machine, "print(inc(x))", &mut output).unwrap();
    assert_eq!(output, vec!["42"]);
}

#[test]
fn machine_goes_on_after_a_failure() {
    let mut machine = Interpreter::new();
    let mut output = Vec::new();
    run_on(&mut machine, "let x = 1", &mut output).unwrap();
    let failed = run_on(&mut machine, "func f() { let y = 2\n return y / 0 }\nf()", &mut output);
    assert_eq!(failed.unwrap_err().message(), "Division by zero");
    assert_eq!(machine.environment().current(), 0);
    run_on(&mut machine, "print(x)", &mut output).unwrap();
    assert_eq!(output, vec!["1"]);
    assert!(run_on(&mut machine, "print(y)", &mut output).is_err());
}

#[test]
fn machine_stops_when_its_steps_are_used_up() {
    let tokens = Lexer::new("while true { }").tokenize().unwrap();
    let program = Parser::new(tokens).parse().unwrap();
    let mut machine = Interpreter::new();
    machine.start(program);
    assert!(machine.is_running());
    for _ in 0..10 {
        assert!(matches!(machine.run(1000), Request::Paused));
    }
    assert!(matches!(machine.request(), Request::Paused));
    assert!(matches!(machine.run(0), Request::Paused));
}

#[test]
fn machine_waits_until_it_is_answered() {
    let tokens = Lexer::new("1.5 + 2.5").tokenize().unwrap();
    let program = Parser::new(tokens).parse().unwrap();
    let mut machine = Interpreter::new();
    let request = machine.interpret(program);
    assert!(matches!(&request, Request::Number { numeral } if numeral == "1.5"));
    assert!(!machine.is_running());
    machine.step();
    assert!(matches!(machine.run(10), Request::Number { numeral } if numeral == "1.5"));
    let request = machine.resume(Reply::Number(1.5_f64.to_bits()));
    assert!(matches!(&request, Request::Number { numeral } if numeral == "2.5"));
    let request = machine.resume(Reply::Number(2.5_f64.to_bits()));
    let Request::Arithmetic { operator, left, right } = request else { panic!() };
    assert_eq!(operator, TokenType::Plus);
    assert_eq!((f64::from_bits(left), f64::from_bits(right)), (1.5, 2.5));
    let request = machine.resume(Reply::Number(4.0_f64.to_bits()));
    assert!(matches!(request, Request::Done(Some(Value::Number(bits))) if f64::from_bits(bits) == 4.0));
    assert!(matches!(machine.request(), Request::Done(Some(_))));
}

#[test]
fn answer_that_nothing_waits_for_fails_the_program() {
    let mut machine = Interpreter::new();
    let request = machine.resume(Reply::Number(0));
    let Request::Failed(error) = request else { panic!() };
    assert_eq!(error.message(), "Unexpected reply");
    let tokens = Lexer::new("print(1.5)").tokenize().unwrap();
    let program = Parser::new(tokens).parse().unwrap();
    let request = machine.interpret(program);
    assert!(matches!(request, Request::Number { .. }));
    let Request::Failed(error) = machine.resume(Reply::Value(Value::Null)) else { panic!() };
    assert_eq!(error.message(), "Unexpected reply");
}

#[test]
fn failure_answers_any_request() {
    let tokens = Lexer::new("1.5").tokenize().unwrap();
    let program = Parser::new(tokens).parse().unwrap();
    let mut machine = Interpreter::new();
    assert!(matches!(machine.interpret(program), Request::Number { .. }));
    let failure = KyaroError::generic_error("no numbers today".to_string());
    let Request::Failed(error) = machine.resume(Reply::Failure(failure)) else { panic!() };
    assert_eq!(error.to_string(), "Error: no numbers today");
}

#[test]
fn native_function_cannot_hand_in_a_function_of_no_scope() {
    let tokens = Lexer::new("print()").tokenize().unwrap();
    let program = Parser::new(tokens).parse().unwrap();
    let mut machine = Interpreter::new();
    assert!(matches!(machine.interpret(program), Request::Native { .. }));
    let stray = Value::Function {
        name: "f".to_string(),
        parameters: vec![],
        body: ASTNode::Null(NullNode::new()),
        scope: 7,
    };
    let Request::Failed(error) = machine.resume(Reply::Value(stray)) else { panic!() };
    assert_eq!(error.message(), "Invalid value from native function");
}

#[test]
fn machine_with_other_native_functions_knows_only_those() {
    let mut machine = Interpreter::with_natives(vec!["shout".to_string()]);
    let tokens = Lexer::new("shout(\"hi\", 2)").tokenize().unwrap();
    let program = Parser::new(tokens).parse().unwrap();
    let mut request = machine.interpret(program);
    if let Request::Number { numeral } = &request {
        let bits = numeral.parse::<f64>().unwrap().to_bits();
        request = machine.resume(Reply::Number(bits));
    }
    let Request::Native { name, arguments } = request else { panic!() };
    assert_eq!(name, "shout");
    assert_eq!(print_line(&arguments, &numeral), "hi 2");
    let mut output = Vec::new();
    let error = run_on(&mut machine, "print(1)", &mut output).unwrap_err();
    assert_eq!(error.message(), "Undefined variable 'print'");
}

#[test]
fn values_are_compared_as_the_language_compares_them() {
    assert!(equal_values(&number(1.0), &number(1.0)));
    assert!(equal_values(&number(0.0), &number(-0.0)));
    assert!(!equal_values(&number(f64::NAN), &number(f64::NAN)));
    assert!(equal_values(&Value::String("a".to_string()), &Value::String("a".to_string())));
    assert!(!equal_values(&Value::String("a".to_string()), &Value::String("A".to_string())));
    assert!(equal_values(&Value::Boolean(false), &Value::Boolean(false)));
    assert!(equal_values(&Value::Null, &Value::Null));
    assert!(!equal_values(&Value::Null, &Value::Boolean(false)));
    assert!(!equal_values(&Value::List(vec![]), &Value::List(vec![])));
    assert!(!equal_values(&Value::Native("len".to_string()), &Value::Native("len".to_string())));
}

#[test]
fn whole_number_literals_need_no_answer() {
    for (source, expected) in [
        ("0", 0.0_f64),
        ("7", 7.0),
        ("007", 7.0),
        ("42", 42.0),
        ("1000000", 1e6),
        ("4503599627370497", 4503599627370497.0),
        ("9007199254740991", 9007199254740991.0),
        ("9007199254740992", 9007199254740992.0),
    ] {
        let tokens = Lexer::new(source).tokenize().unwrap();
        let program = Parser::new(tokens).parse().unwrap();
        let mut machine = Interpreter::new();
        let request = machine.interpret(program);
        let Request::Done(Some(Value::Number(bits))) = request else { panic!("{}", source) };
        assert_eq!(bits, expected.to_bits(), "{}", source);
    }
}

#[test]
fn other_number_literals_are_asked_for() {
    for source in ["1.5", "3.", "0.0", "9007199254740993", "123456789012345678901234567890"] {
        let tokens = Lexer::new(source).tokenize().unwrap();
        let program = Parser::new(tokens).parse().unwrap();
        let mut machine = Interpreter::new();
        let request = machine.interpret(program);
        assert!(matches!(&request, Request::Number { numeral } if numeral == source), "{}", source);
    }
    assert_eq!(value_of("9007199254740993"), "9007199254740992");
    assert_eq!(value_of("123456789012345678901234567890"), "123456789012345680000000000000");
}

#[test]
fn source_with_an_error_ends_the_program_before_it_begins() {
    let mut machine = Interpreter::new();
    let mut output = Vec::new();
    run_on(&mut machine, "let kept = 1", &mut output).unwrap();
    let Request::Failed(error) = execute_code("print(1)\nlet = 2", &mut machine) else { panic!() };
    assert_eq!(error.kind(), ErrorKind::Parser);
    assert!(output.is_empty());
    assert!(matches!(machine.request(), Request::Failed(_)));
    let Request::Failed(error) = execute_code("print('", &mut machine) else { panic!() };
    assert_eq!(error.kind(), ErrorKind::Lexer);
    run_on(&mut machine, "print(kept)", &mut output).unwrap();
    assert_eq!(output, vec!["1"]);
}

/// Runs `source` with no answers but to `print`: whatever else the machine
/// asks for fails the test.
fn run_alone(source: &str) -> Vec<String> {
    let mut machine = Interpreter::new();
    let mut output = Vec::new();
    let mut request = execute_code(source, &mut machine);
    loop {
        request = match request {
            Request::Done(_) => return output,
            Request::Native { name, arguments } if name == "print" => {
                output.push(print_line(&arguments, &numeral));
                machine.resume(Reply::Value(Value::Null))
            }
            other => panic!("asked for {:?}", other),
        }
    }
}

#[test]
fn programs_on_whole_numbers_need_no_arithmetic_from_outside() {
    assert_eq!(run_alone("print(1 + 2 * 3)"), vec!["7"]);
    assert_eq!(
        run_alone("func fact(n){ if n < 2 { return 1 } return n * fact(n - 1) }\nprint(fact(18))"),
        vec!["6402373705728000"]
    );
    assert_eq!(
        run_alone("let xs = [1, 2, 3]\nlet t = 0\nfor x in xs { t = t + x }\nprint(t)"),
        vec!["6"]
    );
    assert_eq!(run_alone("let i = 0\nwhile i < 3 { print(i); i = i + 1 }"), vec!["0", "1", "2"]);
    assert_eq!(run_alone("print(7 - 10, 6 / 3, -7 % 3, 0 * -5, 12 / -4, -8 / 2)"), vec!["-3 2 -1 0 -3 -4"]);
    assert_eq!(run_alone("print(9007199254740991 + 1, 94906265 * 94906265)"), vec![
        "9007199254740992 9007199136250225"
    ]);
}

#[test]
fn other_arithmetic_is_asked_for() {
    for source in ["7 / 2", "0.5 + 1", "9007199254740992 + 1", "94906267 * 94906267", "1 % 0", "2 - 0.5"] {
        let mut machine = Interpreter::new();
        let mut request = execute_code(source, &mut machine);
        while let Request::Number { numeral } = &request {
            let bits = numeral.parse::<f64>().unwrap().to_bits();
            request = machine.resume(Reply::Number(bits));
        }
        assert!(matches!(request, Request::Arithmetic { .. }), "{}", source);
    }
    assert_eq!(value_of("9007199254740992 + 1"), "9007199254740992");
    assert_eq!(value_of("94906267 * 94906267"), "9007199515875288");
    assert_eq!(value_of("1 % 0"), "NaN");
}
