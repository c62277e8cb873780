//! What evaluation means, as mathematical functions from a pool to the pool it leaves and the
//! value or error it ends with. The executable evaluator is proved to compute exactly these.
//!
//! Every function takes `depth`, the number of calls that may still nest: calling the value
//! of a property and calling a lambda each go one level deeper, and at depth zero they fail.

use vstd::prelude::*;
use vstd::wrapping::i64_specs::wrapping_add;
use crate::eval::LambdaView;
use crate::object::{
    EvalError, EvaluatedMessageView, Handler, Metadata, ObjectRef, ObjectView, PoolView,
};
use crate::syntax::{BlockView, ExpressionView, MessageView, SendView, StatementView, TargetView};
use crate::text::integer_value;

verus! {

/// What a step of evaluation leaves behind: the pool after it, and the handle it yields or the
/// error that stopped it.
pub type Outcome = (PoolView, Result<ObjectRef, EvalError>);

/// The message `call` without arguments.
pub open spec fn call_message() -> EvaluatedMessageView {
    EvaluatedMessageView { name: "call"@, arguments: Seq::empty() }
}

/// The message that looks a bare identifier up: its name, without arguments.
pub open spec fn lookup_message(name: Seq<char>) -> EvaluatedMessageView {
    EvaluatedMessageView { name, arguments: Seq::empty() }
}

/// A message meets a signature when it has as many arguments as the signature has parameters
/// and every parameter is the name of one of them, in any order.
pub open spec fn signature_accepts(
    parameters: Seq<Seq<char>>,
    message: EvaluatedMessageView,
) -> bool {
    &&& message.arguments.len() == parameters.len()
    &&& forall|i: int|
        0 <= i < parameters.len() ==> has_argument(message.arguments, #[trigger] parameters[i])
}

/// One of the arguments is called `name`.
pub open spec fn has_argument(arguments: Seq<(Seq<char>, ObjectRef)>, name: Seq<char>) -> bool {
    exists|j: int| is_first_named(arguments, name, j)
}

/// The argument at `index` is called `name`, and none before it is.
pub open spec fn is_first_named(
    arguments: Seq<(Seq<char>, ObjectRef)>,
    name: Seq<char>,
    index: int,
) -> bool {
    &&& 0 <= index < arguments.len()
    &&& arguments[index].0 == name
    &&& forall|j: int| 0 <= j < index ==> (#[trigger] arguments[j]).0 != name
}

/// The value of the first argument called `name`.
pub open spec fn argument(arguments: Seq<(Seq<char>, ObjectRef)>, name: Seq<char>) -> ObjectRef {
    arguments[choose|j: int| is_first_named(arguments, name, j)].1
}

/// The scope in which a lambda's body runs. Called as the receiver itself, the lambda runs in
/// the scope it captured; reached through another object, it runs in the context handed down.
pub open spec fn call_scope(lambda: LambdaView, holder: ObjectRef, context: ObjectRef) -> ObjectRef {
    if context == holder {
        lambda.parent_scope
    } else {
        context
    }
}

/// The context in which the value of a property is called. Found on the receiver itself, the
/// value becomes the receiver of the call; found further up the chain of prototypes, it is
/// called in the context of the object that the message was first sent to.
pub open spec fn property_context(value: ObjectRef, holder: ObjectRef, context: ObjectRef) -> ObjectRef {
    if context == holder {
        value
    } else {
        context
    }
}

/// How far `handle` is from the native objects along any chain of prototypes, at most.
pub open spec fn rank(handle: ObjectRef) -> nat {
    match handle {
        ObjectRef::Normal(index) => index as nat + 1,
        ObjectRef::Special(_) => 0,
    }
}

/// What a number does with a message. `println` without arguments prints the number and yields
/// a new void; `add` with the one argument `to`, a number, yields a new number, the sum with
/// wraparound. Anything else is an error, and leaves the pool as it was.
pub open spec fn number_send(pool: PoolView, value: i64, message: EvaluatedMessageView) -> Outcome {
    if message.name == "println"@ {
        if message.arguments.len() != 0 {
            (pool, Err(EvalError::InvalidSignature))
        } else {
            let (after, handle) = pool.print(value).adopt(ObjectView::Void);
            (after, Ok(handle))
        }
    } else if message.name == "add"@ {
        if !signature_accepts(seq!["to"@], message) {
            (pool, Err(EvalError::InvalidSignature))
        } else {
            match pool.metadata(argument(message.arguments, "to"@)) {
                Metadata::NumericValue(other) => {
                    let (after, handle) = pool.adopt(ObjectView::Number(wrapping_add(value, other)));
                    (after, Ok(handle))
                },
                Metadata::Nothing => (pool, Err(EvalError::TypeMismatch)),
            }
        }
    } else {
        (pool, Err(EvalError::UnknownMessage))
    }
}

/// What a lambda does with a message. `call` without arguments evaluates the body as a block;
/// any other name is unknown, and `call` with arguments does not meet the signature.
pub open spec fn lambda_send(
    pool: PoolView,
    lambda: LambdaView,
    holder: ObjectRef,
    context: ObjectRef,
    message: EvaluatedMessageView,
    depth: nat,
) -> Outcome
    decreases depth, 0nat, message, 0nat,
{
    if message.name != "call"@ {
        (pool, Err(EvalError::UnknownMessage))
    } else if message.arguments.len() != 0 {
        (pool, Err(EvalError::InvalidSignature))
    } else if depth == 0 {
        (pool, Err(EvalError::DepthExceeded))
    } else {
        eval_block(pool, call_scope(lambda, holder, context), lambda.body, (depth - 1) as nat)
    }
}

/// What a native object does with a message that has reached it, stored under `holder`, on
/// behalf of `context`. The root understands nothing; a void answers with the context and
/// changes nothing; a number and a lambda each go by their own rules.
pub open spec fn object_send(
    pool: PoolView,
    object: ObjectView,
    holder: ObjectRef,
    context: ObjectRef,
    message: EvaluatedMessageView,
    depth: nat,
) -> Outcome
    decreases depth, 0nat, message, 1nat,
{
    match object {
        ObjectView::Root => (pool, Err(EvalError::UnknownMessage)),
        ObjectView::Void => (pool, Ok(context)),
        ObjectView::Number(value) => number_send(pool, value, message),
        ObjectView::Lambda(lambda) => lambda_send(pool, lambda, holder, context, message, depth),
    }
}

/// What sending `message` does once it has reached `holder` on behalf of `context`, the
/// object it was first sent to. `depth` bounds how deeply calls may still nest.
///
/// A native object handles the message itself. A normal object with a property of that name
/// has the value of the property called, one level deeper; one without hands the message on
/// to its prototype. In a well-formed pool the prototype is older than the object, so the
/// message cannot go round in a circle; the test for that only makes this definition total.
pub open spec fn dispatch(
    pool: PoolView,
    holder: ObjectRef,
    context: ObjectRef,
    message: EvaluatedMessageView,
    depth: nat,
) -> Outcome
    decreases depth, 0nat, message, rank(holder) + 2,
{
    match holder {
        ObjectRef::Special(index) => object_send(
            pool,
            pool.special_objects[index as int],
            holder,
            context,
            message,
            depth,
        ),
        ObjectRef::Normal(index) => match pool.normal_objects[index as int].handler(message.name) {
            Handler::Property(value) => {
                if depth == 0 {
                    (pool, Err(EvalError::DepthExceeded))
                } else {
                    dispatch(
                        pool,
                        value,
                        property_context(value, holder, context),
                        call_message(),
                        (depth - 1) as nat,
                    )
                }
            },
            Handler::Prototype(prototype) => {
                if rank(prototype) < rank(holder) {
                    dispatch(pool, prototype, context, message, depth)
                } else {
                    (pool, Err(EvalError::UnknownMessage))
                }
            },
        },
    }
}

/// The object that handles a message called `name` sent to `handle`: the first one along the
/// chain of prototypes that has a property of that name or, failing that, the native object
/// at the end of the chain.
pub open spec fn resolver(pool: PoolView, handle: ObjectRef, name: Seq<char>) -> ObjectRef
    decreases rank(handle),
{
    match handle {
        ObjectRef::Special(_) => handle,
        ObjectRef::Normal(index) => match pool.normal_objects[index as int].handler(name) {
            Handler::Property(_) => handle,
            Handler::Prototype(prototype) => {
                if rank(prototype) < rank(handle) {
                    resolver(pool, prototype, name)
                } else {
                    handle
                }
            },
        },
    }
}

/// What sending `message` to `receiver` does: the receiver is the first to get the message,
/// and the context on whose behalf it travels.
pub open spec fn send(
    pool: PoolView,
    receiver: ObjectRef,
    message: EvaluatedMessageView,
    depth: nat,
) -> Outcome {
    dispatch(pool, receiver, receiver, message, depth)
}

/// What evaluating a block does. An empty block is an error and changes nothing. Otherwise the
/// statements run in order in a new scope that extends `parent`, and the block yields what the
/// last of them yields.
pub open spec fn eval_block(pool: PoolView, parent: ObjectRef, block: BlockView, depth: nat) -> Outcome
    decreases depth, 1nat, block, block.statements.len() + 1,
{
    if block.statements.len() == 0 {
        (pool, Err(EvalError::EmptyBlock))
    } else {
        let (fresh, scope) = pool.create(parent);
        let (after, first) = eval_statement(fresh, scope, block.statements[0], depth);
        match first {
            Ok(value) => eval_statements(after, scope, block, 1, value, depth),
            Err(error) => (after, Err(error)),
        }
    }
}

/// What evaluating the statements of `block` from the one at `index` on does, in `scope`,
/// when the statement before them has yielded `last`. The first error ends it.
pub open spec fn eval_statements(
    pool: PoolView,
    scope: ObjectRef,
    block: BlockView,
    index: nat,
    last: ObjectRef,
    depth: nat,
) -> Outcome
    decreases depth, 1nat, block, block.statements.len() - index,
{
    if index >= block.statements.len() {
        (pool, Ok(last))
    } else {
        let (after, result) = eval_statement(pool, scope, block.statements[index as int], depth);
        match result {
            Ok(value) => eval_statements(after, scope, block, index + 1, value, depth),
            Err(error) => (after, Err(error)),
        }
    }
}

/// What evaluating a statement does. A definition evaluates its expression and binds the
/// value to the target in `scope`; an expression is evaluated for its value.
pub open spec fn eval_statement(
    pool: PoolView,
    scope: ObjectRef,
    statement: StatementView,
    depth: nat,
) -> Outcome
    decreases depth, 1nat, statement, 0nat,
{
    match statement {
        StatementView::Definition(definition) => {
            let (after, result) = eval_expression(pool, scope, definition.value, depth);
            match result {
                Ok(value) => after.define(scope, definition.target, value),
                Err(error) => (after, Err(error)),
            }
        },
        StatementView::Expression(expression) => eval_expression(pool, scope, expression, depth),
    }
}

/// The pool with a new number for the literal `digits`, and the handle of that number.
pub open spec fn number_literal(pool: PoolView, digits: Seq<char>) -> Outcome {
    let (after, handle) = pool.adopt(ObjectView::Number(integer_value(digits).unwrap()));
    (after, Ok(handle))
}

/// What evaluating an expression does. A number literal yields a new number. A lambda literal
/// yields a new lambda that captures `scope`; its body is not evaluated. A send evaluates its
/// target, then sends the messages one after the other, each to what the one before yielded.
pub open spec fn eval_expression(
    pool: PoolView,
    scope: ObjectRef,
    expression: ExpressionView,
    depth: nat,
) -> Outcome
    decreases depth, 1nat, expression, 0nat,
{
    match expression {
        ExpressionView::Number(digits) => number_literal(pool, digits),
        ExpressionView::Lambda(body) => {
            let (after, handle) = pool.adopt(
                ObjectView::Lambda(LambdaView { parent_scope: scope, body: *body }),
            );
            (after, Ok(handle))
        },
        ExpressionView::Send(send) => {
            let (after, target) = eval_target(pool, scope, send, depth);
            match target {
                Ok(value) => {
                    if send.messages.len() == 0 {
                        (after, Err(EvalError::EmptyBlock))
                    } else {
                        eval_sends(after, scope, send, 0, value, depth)
                    }
                },
                Err(error) => (after, Err(error)),
            }
        },
    }
}

/// What evaluating the target of a send does. An identifier is looked up by sending its name,
/// without arguments, to `scope`.
pub open spec fn eval_target(pool: PoolView, scope: ObjectRef, send: SendView, depth: nat) -> Outcome
    decreases depth, 1nat, send, send.messages.len() + 1,
{
    match send.target {
        TargetView::Identifier(name) => dispatch(pool, scope, scope, lookup_message(name), depth),
        TargetView::Number(digits) => number_literal(pool, digits),
        TargetView::Expression(inner) => eval_expression(pool, scope, *inner, depth),
    }
}

/// What sending the messages of `send` from the one at `index` on does, the first of them to
/// `target`. Each message has its arguments evaluated in `scope` just before it is sent.
pub open spec fn eval_sends(
    pool: PoolView,
    scope: ObjectRef,
    send: SendView,
    index: nat,
    target: ObjectRef,
    depth: nat,
) -> Outcome
    decreases depth, 1nat, send, send.messages.len() - index,
{
    if index >= send.messages.len() {
        (pool, Ok(target))
    } else {
        let (evaluated, message) = eval_message(pool, scope, send.messages[index as int], depth);
        match message {
            Ok(message) => {
                let (after, result) = dispatch(evaluated, target, target, message, depth);
                match result {
                    Ok(value) => eval_sends(after, scope, send, index + 1, value, depth),
                    Err(error) => (after, Err(error)),
                }
            },
            Err(error) => (evaluated, Err(error)),
        }
    }
}

/// What evaluating the arguments of a message does: each expression once, in the order in
/// which they are written, in `scope`.
pub open spec fn eval_message(
    pool: PoolView,
    scope: ObjectRef,
    message: MessageView,
    depth: nat,
) -> (PoolView, Result<EvaluatedMessageView, EvalError>)
    decreases depth, 1nat, message, message.arguments.len() + 1,
{
    eval_arguments(pool, scope, message, 0, Seq::empty(), depth)
}

/// What evaluating the arguments of `message` from the one at `index` on does, when the ones
/// before it have yielded `evaluated`.
pub open spec fn eval_arguments(
    pool: PoolView,
    scope: ObjectRef,
    message: MessageView,
    index: nat,
    evaluated: Seq<(Seq<char>, ObjectRef)>,
    depth: nat,
) -> (PoolView, Result<EvaluatedMessageView, EvalError>)
    decreases depth, 1nat, message, message.arguments.len() - index,
{
    if index >= message.arguments.len() {
        (pool, Ok(EvaluatedMessageView { name: message.name, arguments: evaluated }))
    } else {
        let argument = message.arguments[index as int];
        let (after, result) = eval_expression(pool, scope, argument.value, depth);
        match result {
            Ok(value) => eval_arguments(
                after,
                scope,
                message,
                index + 1,
                evaluated.push((argument.name, value)),
                depth,
            ),
            Err(error) => (after, Err(error)),
        }
    }
}

/// What running a program does: its block is evaluated in a scope that extends the root, and
/// the value is dropped.
pub open spec fn eval_program(pool: PoolView, block: BlockView, depth: nat) -> (
    PoolView,
    Result<(), EvalError>,
) {
    let (after, result) = eval_block(pool, PoolView::root(), block, depth);
    match result {
        Ok(_) => (after, Ok(())),
        Err(error) => (after, Err(error)),
    }
}

} // verus!
