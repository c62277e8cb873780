use protolang::eval::{Program, DEFAULT_DEPTH_LIMIT};
use protolang::object::{EvalError, ObjectRef};
use protolang::parser::{
    parse_program, tokenize, Block, Expression, Message, Send, Statement, Target,
};

fn parse(source: &str) -> Block {
    let tokens = tokenize(source.to_string()).expect("the text splits into tokens");
    let block = parse_program(tokens).expect("the tokens form a program");
    assert!(block.is_well_formed());
    block
}

fn run(source: &str) -> (Result<(), EvalError>, Vec<i64>) {
    let block = parse(source);
    let mut program = Program::new();
    let result = program.eval(&block);
    let output = program.pool().output().clone();
    (result, output)
}

fn number_println(digits: &str) -> Statement {
    Statement::Expression(Expression::Send(Send {
        target: Target::Number(digits.to_string()),
        messages: vec![Message { name: "println".to_string(), arguments: vec![] }],
    }))
}

#[test]
fn statements_print_in_source_order() {
    let block = Block {
        statements: vec![number_println("1"), number_println("2"), number_println("3")],
    };
    let mut program = Program::new();
    assert_eq!(program.eval(&block), Ok(()));
    assert_eq!(program.pool().output(), &vec![1, 2, 3]);
}

#[test]
fn every_statement_runs_once_whatever_the_block_yields() {
    let (result, output) = run("10 println\n20 println\n30 println\n40");
    assert_eq!(result, Ok(()));
    assert_eq!(output, vec![10, 20, 30]);
}

#[test]
fn first_error_stops_the_block_and_keeps_earlier_output() {
    let (result, output) = run("1 println\n2 unknown\n3 println");
    assert_eq!(result, Err(EvalError::UnknownMessage));
    assert_eq!(output, vec![1]);
}

#[test]
fn empty_program_is_an_empty_block() {
    let block = Block { statements: vec![] };
    let mut program = Program::new();
    assert_eq!(program.eval(&block), Err(EvalError::EmptyBlock));
    assert!(program.pool().output().is_empty());
    assert!(!program.pool().contains(ObjectRef::Normal(0)));
    assert!(!program.pool().contains(ObjectRef::Special(1)));
}

#[test]
fn empty_lambda_body_fails_when_called() {
    let block = Block {
        statements: vec![
            number_println("1"),
            Statement::Expression(Expression::Send(Send {
                target: Target::Expression(Box::new(Expression::Lambda(Box::new(Block {
                    statements: vec![],
                })))),
                messages: vec![Message { name: "call".to_string(), arguments: vec![] }],
            })),
            number_println("2"),
        ],
    };
    let mut program = Program::new();
    assert_eq!(program.eval(&block), Err(EvalError::EmptyBlock));
    assert_eq!(program.pool().output(), &vec![1]);
}

#[test]
fn send_without_messages_fails_after_its_target() {
    let block = Block {
        statements: vec![Statement::Expression(Expression::Send(Send {
            target: Target::Expression(Box::new(Expression::Send(Send {
                target: Target::Number("4".to_string()),
                messages: vec![Message { name: "println".to_string(), arguments: vec![] }],
            }))),
            messages: vec![],
        }))],
    };
    let mut program = Program::new();
    assert_eq!(program.eval(&block), Err(EvalError::EmptyBlock));
    assert_eq!(program.pool().output(), &vec![4]);
}

#[test]
fn parsed_sum_prints_five() {
    let (result, output) = run("(2 add to: 3) println");
    assert_eq!(result, Ok(()));
    assert_eq!(output, vec![5]);
    let block = parse("(2 add to: 3) println");
    let mut program = Program::new();
    assert_eq!(program.eval(&block), Ok(()));
    assert_eq!(program.pool().printed(), "5\n");
}

#[test]
fn printed_text_has_one_line_for_each_println() {
    let block = parse("1 println\n(0 add to: 0) println\n(9223372036854775807 add to: 1) println");
    let mut program = Program::new();
    assert_eq!(program.pool().printed(), "");
    assert_eq!(program.eval(&block), Ok(()));
    assert_eq!(program.pool().printed(), "1\n0\n-9223372036854775808\n");
}

#[test]
fn sum_wraps_around_at_the_top() {
    let (result, output) = run("(9223372036854775807 add to: 1) println");
    assert_eq!(result, Ok(()));
    assert_eq!(output, vec![i64::MIN]);
    assert_eq!(output, vec![i64::MAX.wrapping_add(1)]);
}

#[test]
fn sum_of_large_numbers_matches_native_wrapping() {
    let (result, output) = run("(9223372036854775807 add to: 9223372036854775807) println");
    assert_eq!(result, Ok(()));
    assert_eq!(output, vec![-2]);
}

#[test]
fn add_with_wrong_argument_name_is_invalid() {
    let (result, output) = run("(2 add amount: 3) println");
    assert_eq!(result, Err(EvalError::InvalidSignature));
    assert!(output.is_empty());
}

#[test]
fn add_without_arguments_is_invalid() {
    let (result, output) = run("2 add");
    assert_eq!(result, Err(EvalError::InvalidSignature));
    assert!(output.is_empty());
}

#[test]
fn add_with_two_arguments_is_invalid() {
    let (result, _) = run("2 add to: 3 to: 4");
    assert_eq!(result, Err(EvalError::InvalidSignature));
}

#[test]
fn add_of_a_lambda_is_a_type_mismatch() {
    let (result, output) = run("2 add to: [1 println]");
    assert_eq!(result, Err(EvalError::TypeMismatch));
    assert!(output.is_empty());
}

#[test]
fn println_with_an_argument_is_invalid() {
    let (result, output) = run("2 println x: 1");
    assert_eq!(result, Err(EvalError::InvalidSignature));
    assert!(output.is_empty());
}

#[test]
fn number_knows_only_println_and_add() {
    let (result, _) = run("2 call");
    assert_eq!(result, Err(EvalError::UnknownMessage));
}

#[test]
fn unbound_identifier_is_an_unknown_message() {
    let (result, output) = run("1 println\ny println");
    assert_eq!(result, Err(EvalError::UnknownMessage));
    assert_eq!(output, vec![1]);
}

#[test]
fn redefinition_is_last_write_wins() {
    let (result, output) = run("def x [1 println]\ndef x [2 println]\nx call");
    assert_eq!(result, Ok(()));
    assert_eq!(output, vec![2]);
}

#[test]
fn number_stored_under_a_name_is_not_callable() {
    let (result, output) = run("def x 1\ndef x 2\nx println");
    assert_eq!(result, Err(EvalError::UnknownMessage));
    assert!(output.is_empty());
}

#[test]
fn definition_yields_the_value() {
    let block = parse("def x 7");
    let mut pool = protolang::object::ObjectPool::new();
    let root = pool.root();
    let scope = pool.create(root);
    let value = Program::eval_statement(&mut pool, scope, &block.statements[0], 4).unwrap();
    assert_eq!(pool.metadata(value), protolang::object::Metadata::NumericValue(7));
    assert_eq!(
        pool.normal_object(0).get_handler("x"),
        protolang::object::Handler::Property(value)
    );
}

#[test]
fn closure_sees_a_definition_made_after_capture() {
    let (result, output) = run("def x [1 println]\ndef f [x call]\ndef x [2 println]\nf call");
    assert_eq!(result, Ok(()));
    assert_eq!(output, vec![2]);
}

#[test]
fn closure_over_a_number_fails_on_the_lookup() {
    let (result, output) = run("def x 1\ndef f [x println]\ndef x 2\nf call");
    assert_eq!(result, Err(EvalError::UnknownMessage));
    assert!(output.is_empty());
}

#[test]
fn lambda_literal_is_not_evaluated_until_called() {
    let (result, output) = run("def f [1 println]\n2 println");
    assert_eq!(result, Ok(()));
    assert_eq!(output, vec![2]);
}

#[test]
fn bare_lambda_runs_in_its_captured_scope() {
    let (result, output) = run("def x [5 println]\n([x call]) call");
    assert_eq!(result, Ok(()));
    assert_eq!(output, vec![5]);
}

#[test]
fn lambda_knows_only_call() {
    let (result, output) = run("([1 println]) run");
    assert_eq!(result, Err(EvalError::UnknownMessage));
    assert!(output.is_empty());
}

#[test]
fn call_with_arguments_is_invalid() {
    let (result, output) = run("([1 println]) call x: 2");
    assert_eq!(result, Err(EvalError::InvalidSignature));
    assert!(output.is_empty());
}

#[test]
fn arguments_are_evaluated_left_to_right_before_the_send() {
    let (result, output) = run("(1 println) note a: (2 println) b: (3 println)");
    assert_eq!(result, Ok(()));
    assert_eq!(output, vec![1, 2, 3]);
}

#[test]
fn failing_argument_stops_the_message() {
    let (result, output) = run("(1 println) note a: (2 println) b: (3 oops) c: (4 println)");
    assert_eq!(result, Err(EvalError::UnknownMessage));
    assert_eq!(output, vec![1, 2]);
}

#[test]
fn endless_recursion_runs_into_the_depth_limit() {
    let block = parse("def f [f call]\n1 println\nf call");
    let mut program = Program::with_depth_limit(16);
    assert_eq!(program.eval(&block), Err(EvalError::DepthExceeded));
    assert_eq!(program.pool().output(), &vec![1]);
}

#[test]
fn depth_limit_counts_nested_calls() {
    let block = parse("def f [1 println]\nf call");
    let mut shallow = Program::with_depth_limit(1);
    assert_eq!(shallow.eval(&block), Err(EvalError::DepthExceeded));
    assert!(shallow.pool().output().is_empty());
    let mut deep = Program::with_depth_limit(2);
    assert_eq!(deep.eval(&block), Ok(()));
    assert_eq!(deep.pool().output(), &vec![1]);
}

#[test]
fn default_limit_allows_ordinary_nesting() {
    assert_eq!(DEFAULT_DEPTH_LIMIT, 256);
    let (result, output) = run("def a [1 println]\ndef b [a call]\ndef c [b call]\nc call");
    assert_eq!(result, Ok(()));
    assert_eq!(output, vec![1]);
}

#[test]
fn program_can_be_run_twice_on_one_pool() {
    let first = parse("1 println");
    let second = parse("2 println");
    let mut program = Program::new();
    assert_eq!(program.eval(&first), Ok(()));
    assert_eq!(program.eval(&second), Ok(()));
    assert_eq!(program.pool().output(), &vec![1, 2]);
}

#[test]
fn literal_that_does_not_fit_is_not_well_formed() {
    let tokens = tokenize("9223372036854775808 println".to_string()).unwrap();
    let block = parse_program(tokens).unwrap();
    assert!(!block.is_well_formed());
    let inner = Block {
        statements: vec![Statement::Definition(protolang::parser::Definition {
            target: "f".to_string(),
            value: Expression::Lambda(Box::new(Block {
                statements: vec![number_println("99999999999999999999")],
            })),
        })],
    };
    assert!(!inner.is_well_formed());
    let argument = parse_program(tokenize("1 add to: 2".to_string()).unwrap()).unwrap();
    assert!(argument.is_well_formed());
}
