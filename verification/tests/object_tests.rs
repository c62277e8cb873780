use protolang::eval::{get_argument, Number, Program, Signature, Void};
use protolang::object::{
    EvalError, EvaluatedMessage, Handler, Metadata, NormalObject, ObjectPool, ObjectRef,
};
use protolang::parser::{parse_program, tokenize, Block, Expression};

fn message(name: &str, arguments: Vec<(&str, ObjectRef)>) -> EvaluatedMessage {
    EvaluatedMessage {
        name: name.to_string(),
        arguments: arguments.into_iter().map(|(name, value)| (name.to_string(), value)).collect(),
    }
}

fn lambda_of(source: &str) -> Expression {
    let tokens = tokenize(source.to_string()).unwrap();
    let block: Block = parse_program(tokens).unwrap();
    assert!(block.is_well_formed());
    Expression::Lambda(Box::new(block))
}

#[test]
fn new_pool_holds_the_root_alone() {
    let pool = ObjectPool::new();
    assert_eq!(pool.root(), ObjectRef::Special(0));
    assert!(pool.contains(pool.root()));
    assert!(!pool.contains(ObjectRef::Special(1)));
    assert!(!pool.contains(ObjectRef::Normal(0)));
    assert!(pool.output().is_empty());
    assert_eq!(pool.metadata(pool.root()), Metadata::Nothing);
}

#[test]
fn create_hands_out_consecutive_handles() {
    let mut pool = ObjectPool::new();
    let root = pool.root();
    let first = pool.create(root);
    let second = pool.create(first);
    assert_eq!(first, ObjectRef::Normal(0));
    assert_eq!(second, ObjectRef::Normal(1));
    assert_ne!(first, second);
    assert!(pool.contains(second));
    assert!(!pool.contains(ObjectRef::Normal(2)));
    assert_eq!(pool.normal_object(1).get_handler("anything"), Handler::Prototype(first));
    assert_eq!(pool.normal_object(0).get_handler("anything"), Handler::Prototype(root));
}

#[test]
fn root_understands_no_message() {
    let mut pool = ObjectPool::new();
    let root = pool.root();
    assert_eq!(pool.send(root, message("call", vec![]), 8), Err(EvalError::UnknownMessage));
    assert_eq!(pool.send(root, message("println", vec![]), 8), Err(EvalError::UnknownMessage));
}

#[test]
fn message_for_a_missing_property_ends_at_the_root() {
    let mut pool = ObjectPool::new();
    let root = pool.root();
    let parent = pool.create(root);
    let child = pool.create(parent);
    assert_eq!(pool.send(child, message("missing", vec![]), 0), Err(EvalError::UnknownMessage));
}

#[test]
fn define_on_native_objects_is_illegal() {
    let mut pool = ObjectPool::new();
    let root = pool.root();
    let void = Void::new_reference(&mut pool);
    let number = Number::new_from_value(&mut pool, 3);
    let literal = lambda_of("1 println");
    let lambda = Program::eval_expression(&mut pool, root, &literal, 8).unwrap();
    for receiver in [root, void, number, lambda] {
        assert_eq!(
            pool.define(receiver, "x".to_string(), number),
            Err(EvalError::IllegalDefinition)
        );
    }
    assert!(pool.output().is_empty());
}

#[test]
fn define_on_a_normal_object_returns_the_value() {
    let mut pool = ObjectPool::new();
    let root = pool.root();
    let object = pool.create(root);
    let first = Number::new_from_value(&mut pool, 1);
    let second = Number::new_from_value(&mut pool, 2);
    assert_eq!(pool.define(object, "x".to_string(), first), Ok(first));
    assert_eq!(pool.normal_object(0).get_handler("x"), Handler::Property(first));
    assert_eq!(pool.define(object, "x".to_string(), second), Ok(second));
    assert_eq!(pool.normal_object(0).get_handler("x"), Handler::Property(second));
    assert_eq!(pool.normal_object(0).get_handler("y"), Handler::Prototype(root));
}

#[test]
fn void_returns_the_context_for_any_message() {
    let mut pool = ObjectPool::new();
    let root = pool.root();
    let void = Void::new_reference(&mut pool);
    let number = Number::new_from_value(&mut pool, 9);
    let object = pool.create(root);
    assert_eq!(pool.send(void, message("anything", vec![]), 0), Ok(void));
    assert_eq!(pool.send(void, message("add", vec![("to", number)]), 4), Ok(void));
    assert_eq!(pool.send(void, message("println", vec![("x", void), ("y", root)]), 4), Ok(void));
    for context in [root, void, number, object] {
        assert_eq!(pool.dispatch(void, context, &message("call", vec![]), 4), Ok(context));
        assert_eq!((Void {}).send(context, &message("whatever", vec![("a", number)])), context);
    }
    assert!(pool.output().is_empty());
    assert!(!pool.contains(ObjectRef::Special(3)));
}

#[test]
fn void_stored_under_a_name_yields_itself_or_the_receiver() {
    let mut pool = ObjectPool::new();
    let root = pool.root();
    let parent = pool.create(root);
    let child = pool.create(parent);
    let void = Void::new_reference(&mut pool);
    pool.define(parent, "nothing".to_string(), void).unwrap();
    assert_eq!(pool.send(parent, message("nothing", vec![]), 4), Ok(void));
    assert_eq!(pool.send(child, message("nothing", vec![]), 4), Ok(child));
}

#[test]
fn number_println_records_the_value_and_yields_a_new_void() {
    let mut pool = ObjectPool::new();
    let number = Number::new_from_value(&mut pool, -42);
    assert_eq!(number, ObjectRef::Special(1));
    assert_eq!(pool.metadata(number), Metadata::NumericValue(-42));
    let first = pool.send(number, message("println", vec![]), 0).unwrap();
    let second = pool.send(number, message("println", vec![]), 0).unwrap();
    assert_eq!(first, ObjectRef::Special(2));
    assert_eq!(second, ObjectRef::Special(3));
    assert_eq!(pool.metadata(first), Metadata::Nothing);
    assert_eq!(pool.output(), &vec![-42, -42]);
}

#[test]
fn number_add_yields_a_new_number() {
    let mut pool = ObjectPool::new();
    let two = Number::new_from_value(&mut pool, 2);
    let three = Number::new_from_value(&mut pool, 3);
    let sum = pool.send(two, message("add", vec![("to", three)]), 0).unwrap();
    assert_eq!(sum, ObjectRef::Special(3));
    assert_eq!(pool.metadata(sum), Metadata::NumericValue(5));
    assert_eq!(pool.metadata(two), Metadata::NumericValue(2));
    assert_eq!(pool.metadata(three), Metadata::NumericValue(3));
    assert!(pool.output().is_empty());
}

#[test]
fn number_add_wraps_like_native_arithmetic() {
    let cases: [(i64, i64); 6] = [
        (i64::MAX, 1),
        (i64::MIN, -1),
        (i64::MAX, i64::MAX),
        (i64::MIN, i64::MIN),
        (-5, 5),
        (1 << 62, 1 << 62),
    ];
    for (left, right) in cases {
        let mut pool = ObjectPool::new();
        let a = Number::new_from_value(&mut pool, left);
        let b = Number::new_from_value(&mut pool, right);
        let sum = pool.send(a, message("add", vec![("to", b)]), 0).unwrap();
        assert_eq!(pool.metadata(sum), Metadata::NumericValue(left.wrapping_add(right)));
    }
}

#[test]
fn malformed_add_makes_no_number_and_no_output() {
    let mut pool = ObjectPool::new();
    let two = Number::new_from_value(&mut pool, 2);
    let three = Number::new_from_value(&mut pool, 3);
    assert_eq!(
        pool.send(two, message("add", vec![("amount", three)]), 0),
        Err(EvalError::InvalidSignature)
    );
    assert!(!pool.contains(ObjectRef::Special(3)));
    assert!(pool.output().is_empty());
    let number = Number { value: 2 };
    assert_eq!(
        number.send(&mut pool, &message("add", vec![("to", three), ("to", three)])),
        Err(EvalError::InvalidSignature)
    );
    assert_eq!(
        number.send(&mut pool, &message("add", vec![("to", two)])),
        Ok(ObjectRef::Special(3))
    );
}

#[test]
fn add_needs_a_number_as_argument() {
    let mut pool = ObjectPool::new();
    let root = pool.root();
    let two = Number::new_from_value(&mut pool, 2);
    let void = Void::new_reference(&mut pool);
    let object = pool.create(root);
    for other in [root, void, object] {
        assert_eq!(
            pool.send(two, message("add", vec![("to", other)]), 0),
            Err(EvalError::TypeMismatch)
        );
    }
    assert!(!pool.contains(ObjectRef::Special(3)));
}

#[test]
fn number_literal_is_read_in_decimal() {
    let mut pool = ObjectPool::new();
    let plain = Number::new_reference(&mut pool, "0123");
    let negative = Number::new_reference(&mut pool, "-9223372036854775808");
    let positive = Number::new_reference(&mut pool, "+17");
    assert_eq!(pool.metadata(plain), Metadata::NumericValue(123));
    assert_eq!(pool.metadata(negative), Metadata::NumericValue(i64::MIN));
    assert_eq!(pool.metadata(positive), Metadata::NumericValue(17));
}

#[test]
fn delegation_runs_an_inherited_method_on_the_receiver() {
    let greet = lambda_of("name call");
    let seven = lambda_of("7 println");
    let mut pool = ObjectPool::new();
    let root = pool.root();
    let parent = pool.create(root);
    let child = pool.create(parent);
    let method = Program::eval_expression(&mut pool, parent, &greet, 16).unwrap();
    pool.define(parent, "greet".to_string(), method).unwrap();
    let name = Program::eval_expression(&mut pool, child, &seven, 16).unwrap();
    pool.define(child, "name".to_string(), name).unwrap();
    assert!(pool.send(child, message("greet", vec![]), 16).is_ok());
    assert_eq!(pool.output(), &vec![7]);
    assert_eq!(pool.send(parent, message("greet", vec![]), 16), Err(EvalError::UnknownMessage));
    assert_eq!(pool.output(), &vec![7]);
}

#[test]
fn captured_scope_is_shared_not_copied() {
    let body = lambda_of("x call");
    let one = lambda_of("1 println");
    let two = lambda_of("2 println");
    let mut pool = ObjectPool::new();
    let root = pool.root();
    let scope = pool.create(root);
    let first = Program::eval_expression(&mut pool, scope, &one, 16).unwrap();
    pool.define(scope, "x".to_string(), first).unwrap();
    let closure = Program::eval_expression(&mut pool, scope, &body, 16).unwrap();
    let second = Program::eval_expression(&mut pool, scope, &two, 16).unwrap();
    pool.define(scope, "x".to_string(), second).unwrap();
    assert!(pool.send(closure, message("call", vec![]), 16).is_ok());
    assert_eq!(pool.output(), &vec![2]);
}

#[test]
fn signature_checks_count_and_names_in_any_order() {
    let pool = ObjectPool::new();
    let root = pool.root();
    let signature = Signature { parameters: vec!["a".to_string(), "b".to_string()] };
    assert!(signature.is_message_valid(&message("m", vec![("a", root), ("b", root)])));
    assert!(signature.is_message_valid(&message("m", vec![("b", root), ("a", root)])));
    assert!(!signature.is_message_valid(&message("m", vec![("a", root)])));
    assert!(!signature.is_message_valid(&message("m", vec![("a", root), ("a", root)])));
    assert!(!signature.is_message_valid(&message("m", vec![("a", root), ("c", root)])));
    assert!(!signature.is_message_valid(&message(
        "m",
        vec![("a", root), ("b", root), ("c", root)]
    )));
    let none = Signature { parameters: vec![] };
    assert!(none.is_message_valid(&message("m", vec![])));
    assert!(!none.is_message_valid(&message("m", vec![("a", root)])));
}

#[test]
fn get_argument_takes_the_first_of_that_name() {
    let arguments = vec![
        ("a".to_string(), ObjectRef::Special(1)),
        ("to".to_string(), ObjectRef::Special(2)),
        ("to".to_string(), ObjectRef::Special(3)),
    ];
    assert_eq!(get_argument("to", &arguments), ObjectRef::Special(2));
    assert_eq!(get_argument("a", &arguments), ObjectRef::Special(1));
}

#[test]
fn normal_object_resolves_locally_before_its_prototype() {
    let mut object = NormalObject::extending(ObjectRef::Special(0));
    assert_eq!(object.get_handler("x"), Handler::Prototype(ObjectRef::Special(0)));
    assert_eq!(object.define("x".to_string(), ObjectRef::Special(4)), ObjectRef::Special(4));
    assert_eq!(object.get_handler("x"), Handler::Property(ObjectRef::Special(4)));
    assert_eq!(object.get_handler("xy"), Handler::Prototype(ObjectRef::Special(0)));
    assert_eq!(object.define("x".to_string(), ObjectRef::Normal(1)), ObjectRef::Normal(1));
    assert_eq!(object.get_handler("x"), Handler::Property(ObjectRef::Normal(1)));
}

#[test]
fn property_that_calls_itself_runs_into_the_depth_limit() {
    let mut pool = ObjectPool::new();
    let root = pool.root();
    let object = pool.create(root);
    pool.define(object, "call".to_string(), object).unwrap();
    assert_eq!(pool.send(object, message("call", vec![]), 64), Err(EvalError::DepthExceeded));
}

#[test]
fn eval_message_keeps_the_order_of_the_arguments() {
    let tokens = tokenize("1 note b: 2 a: 3".to_string()).unwrap();
    let block = parse_program(tokens).unwrap();
    let send = match &block.statements[0] {
        protolang::parser::Statement::Expression(Expression::Send(send)) => send,
        other => panic!("unexpected statement {:?}", other),
    };
    let mut pool = ObjectPool::new();
    let root = pool.root();
    let evaluated = Program::eval_message(&mut pool, root, &send.messages[0], 4).unwrap();
    assert_eq!(evaluated.name, "note");
    assert_eq!(evaluated.arguments.len(), 2);
    assert_eq!(evaluated.arguments[0].0, "b");
    assert_eq!(evaluated.arguments[1].0, "a");
    assert_eq!(pool.metadata(evaluated.arguments[0].1), Metadata::NumericValue(2));
    assert_eq!(pool.metadata(evaluated.arguments[1].1), Metadata::NumericValue(3));
}

#[test]
fn eval_block_makes_a_scope_of_its_own() {
    let tokens = tokenize("def x [1 println]\nx call".to_string()).unwrap();
    let block = parse_program(tokens).unwrap();
    let mut pool = ObjectPool::new();
    let root = pool.root();
    let outer = pool.create(root);
    assert!(Program::eval_block(&mut pool, outer, &block, 8).is_ok());
    assert_eq!(pool.output(), &vec![1]);
    assert_eq!(pool.normal_object(0).get_handler("x"), Handler::Prototype(root));
    assert!(matches!(pool.normal_object(1).get_handler("x"), Handler::Property(_)));
    assert_eq!(pool.normal_object(1).get_handler("y"), Handler::Prototype(outer));
}

#[test]
fn definition_in_a_native_scope_is_illegal() {
    let tokens = tokenize("def x 1".to_string()).unwrap();
    let block = parse_program(tokens).unwrap();
    let mut pool = ObjectPool::new();
    let root = pool.root();
    assert_eq!(
        Program::eval_statement(&mut pool, root, &block.statements[0], 8),
        Err(EvalError::IllegalDefinition)
    );
}
