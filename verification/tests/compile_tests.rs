use exprc::codegen::{gen, Instr};
use exprc::machine::{eval, run_code};
use exprc::parser::Parser;
use exprc::token::tokenize;

fn compile(s: &str) -> Vec<Instr> {
    let tokens = tokenize(s.to_string()).unwrap();
    let mut parser = Parser::new(tokens);
    gen(parser.parse().unwrap())
}

/// The value the generated code leaves on an empty stack, or `None` on a
/// machine fault.
fn run(s: &str) -> Option<i64> {
    let code = compile(s);
    let stack = run_code(&code, Vec::new())?;
    assert_eq!(stack.len(), 1);
    Some(stack[0])
}

/// Direct evaluation of the parsed tree.
fn eval_str(s: &str) -> Option<i64> {
    let tokens = tokenize(s.to_string()).unwrap();
    let mut parser = Parser::new(tokens);
    eval(&parser.parse().unwrap())
}

#[test]
fn single_literal_pushes_exactly_that_value() {
    assert_eq!(compile("42"), vec![Instr::Push(42)]);
    assert_eq!(compile("0"), vec![Instr::Push(0)]);
    assert_eq!(run("42"), Some(42));
}

#[test]
fn code_is_emitted_in_post_order() {
    assert_eq!(
        compile("1+2"),
        vec![Instr::Push(1), Instr::Push(2), Instr::Add]
    );
    assert_eq!(
        compile("1+2*3"),
        vec![
            Instr::Push(1),
            Instr::Push(2),
            Instr::Push(3),
            Instr::Mul,
            Instr::Add
        ]
    );
    assert_eq!(
        compile("(1+2)*3"),
        vec![
            Instr::Push(1),
            Instr::Push(2),
            Instr::Add,
            Instr::Push(3),
            Instr::Mul
        ]
    );
}

#[test]
fn machine_and_direct_evaluation_agree() {
    for s in [
        "42",
        "1+2*3",
        "(1+2)*3",
        "10-4-3",
        "7/2",
        "8/4/2",
        "-3+5",
        "1>2",
        "2<1",
        "4<=4",
        "5>=6",
        "1+1==2",
        "3!=3",
        "1/0",
        "0-1",
        "- -7",
    ] {
        assert_eq!(run(s), eval_str(s), "disagree on {:?}", s);
    }
}

#[test]
fn arithmetic_results() {
    assert_eq!(run("1+2*3"), Some(7));
    assert_eq!(run("(1+2)*3"), Some(9));
    assert_eq!(run("10-4-3"), Some(3));
    assert_eq!(run("7/2"), Some(3));
    assert_eq!(run("0-7"), Some(-7));
    // Division truncates toward zero: (0 - 7) / 2 is -3, not -4.
    assert_eq!(run("(0-7)/2"), Some(-3));
}

#[test]
fn comparison_results_are_zero_or_one() {
    assert_eq!(run("1>2"), Some(0));
    assert_eq!(run("2>1"), Some(1));
    assert_eq!(run("4<=4"), Some(1));
    assert_eq!(run("5>=6"), Some(0));
    assert_eq!(run("1+1==2"), Some(1));
    assert_eq!(run("3!=3"), Some(0));
}

#[test]
fn division_by_zero_faults_the_machine() {
    assert_eq!(run("1/0"), None);
    assert_eq!(eval_str("1/0"), None);
    assert_eq!(run("1/(2-2)"), None);
}

#[test]
fn generated_code_leaves_lower_stack_entries_alone() {
    let code = compile("2*3");
    let stack = run_code(&code, vec![99, -5]).unwrap();
    assert_eq!(stack, vec![99, -5, 6]);
}
