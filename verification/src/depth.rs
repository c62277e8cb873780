//! The limit on the nesting of calls only ever cuts an evaluation short: an evaluation that
//! ends for another reason, with a value or with an error of its own, ends in the same way
//! under every higher limit.

use vstd::prelude::*;
use crate::eval::LambdaView;
use crate::object::{EvalError, EvaluatedMessageView, Handler, ObjectRef, ObjectView, PoolView};
use crate::semantics::{
    call_message, call_scope, dispatch, eval_arguments, eval_block, eval_expression, eval_message,
    eval_program, eval_sends, eval_statement, eval_statements, eval_target, lambda_send,
    lookup_message, object_send, property_context, rank, send,
};
use crate::syntax::{BlockView, ExpressionView, MessageView, SendView, StatementView, TargetView};

verus! {

/// The result does not come from the limit on the nesting of calls.
pub open spec fn within_limit<T>(result: Result<T, EvalError>) -> bool {
    !(result matches Err(EvalError::DepthExceeded))
}

proof fn lemma_dispatch_depth(
    pool: PoolView,
    holder: ObjectRef,
    context: ObjectRef,
    message: EvaluatedMessageView,
    depth: nat,
    more: nat,
)
    requires
        within_limit(dispatch(pool, holder, context, message, depth).1),
    ensures
        dispatch(pool, holder, context, message, depth + more) == dispatch(
            pool,
            holder,
            context,
            message,
            depth,
        ),
    decreases depth, 0nat, message, rank(holder) + 2,
{
    match holder {
        ObjectRef::Special(index) => {
            lemma_object_send_depth(
                pool,
                pool.special_objects[index as int],
                holder,
                context,
                message,
                depth,
                more,
            );
        },
        ObjectRef::Normal(index) => match pool.normal_objects[index as int].handler(message.name) {
            Handler::Property(value) => {
                if depth > 0 {
                    lemma_dispatch_depth(
                        pool,
                        value,
                        property_context(value, holder, context),
                        call_message(),
                        (depth - 1) as nat,
                        more,
                    );
                }
            },
            Handler::Prototype(prototype) => {
                if rank(prototype) < rank(holder) {
                    lemma_dispatch_depth(pool, prototype, context, message, depth, more);
                }
            },
        },
    }
}

proof fn lemma_object_send_depth(
    pool: PoolView,
    object: ObjectView,
    holder: ObjectRef,
    context: ObjectRef,
    message: EvaluatedMessageView,
    depth: nat,
    more: nat,
)
    requires
        within_limit(object_send(pool, object, holder, context, message, depth).1),
    ensures
        object_send(pool, object, holder, context, message, depth + more) == object_send(
            pool,
            object,
            holder,
            context,
            message,
            depth,
        ),
    decreases depth, 0nat, message, 1nat,
{
    if let ObjectView::Lambda(lambda) = object {
        lemma_lambda_send_depth(pool, lambda, holder, context, message, depth, more);
    }
}

proof fn lemma_lambda_send_depth(
    pool: PoolView,
    lambda: LambdaView,
    holder: ObjectRef,
    context: ObjectRef,
    message: EvaluatedMessageView,
    depth: nat,
    more: nat,
)
    requires
        within_limit(lambda_send(pool, lambda, holder, context, message, depth).1),
    ensures
        lambda_send(pool, lambda, holder, context, message, depth + more) == lambda_send(
            pool,
            lambda,
            holder,
            context,
            message,
            depth,
        ),
    decreases depth, 0nat, message, 0nat,
{
    if message.name == "call"@ && message.arguments.len() == 0 && depth > 0 {
        lemma_eval_block_depth(
            pool,
            call_scope(lambda, holder, context),
            lambda.body,
            (depth - 1) as nat,
            more,
        );
    }
}

proof fn lemma_eval_block_depth(
    pool: PoolView,
    parent: ObjectRef,
    block: BlockView,
    depth: nat,
    more: nat,
)
    requires
        within_limit(eval_block(pool, parent, block, depth).1),
    ensures
        eval_block(pool, parent, block, depth + more) == eval_block(pool, parent, block, depth),
    decreases depth, 1nat, block, block.statements.len() + 1,
{
    if block.statements.len() > 0 {
        let (fresh, scope) = pool.create(parent);
        lemma_eval_statement_depth(fresh, scope, block.statements[0], depth, more);
        let (after, first) = eval_statement(fresh, scope, block.statements[0], depth);
        if let Ok(value) = first {
            lemma_eval_statements_depth(after, scope, block, 1, value, depth, more);
        }
    }
}

proof fn lemma_eval_statements_depth(
    pool: PoolView,
    scope: ObjectRef,
    block: BlockView,
    index: nat,
    last: ObjectRef,
    depth: nat,
    more: nat,
)
    requires
        within_limit(eval_statements(pool, scope, block, index, last, depth).1),
    ensures
        eval_statements(pool, scope, block, index, last, depth + more) == eval_statements(
            pool,
            scope,
            block,
            index,
            last,
            depth,
        ),
    decreases depth, 1nat, block, block.statements.len() - index,
{
    if index < block.statements.len() {
        lemma_eval_statement_depth(pool, scope, block.statements[index as int], depth, more);
        let (after, result) = eval_statement(pool, scope, block.statements[index as int], depth);
        if let Ok(value) = result {
            lemma_eval_statements_depth(after, scope, block, index + 1, value, depth, more);
        }
    }
}

proof fn lemma_eval_statement_depth(
    pool: PoolView,
    scope: ObjectRef,
    statement: StatementView,
    depth: nat,
    more: nat,
)
    requires
        within_limit(eval_statement(pool, scope, statement, depth).1),
    ensures
        eval_statement(pool, scope, statement, depth + more) == eval_statement(
            pool,
            scope,
            statement,
            depth,
        ),
    decreases depth, 1nat, statement, 0nat,
{
    match statement {
        StatementView::Definition(definition) => {
            lemma_eval_expression_depth(pool, scope, definition.value, depth, more);
        },
        StatementView::Expression(expression) => {
            lemma_eval_expression_depth(pool, scope, expression, depth, more);
        },
    }
}

proof fn lemma_eval_expression_depth(
    pool: PoolView,
    scope: ObjectRef,
    expression: ExpressionView,
    depth: nat,
    more: nat,
)
    requires
        within_limit(eval_expression(pool, scope, expression, depth).1),
    ensures
        eval_expression(pool, scope, expression, depth + more) == eval_expression(
            pool,
            scope,
            expression,
            depth,
        ),
    decreases depth, 1nat, expression, 0nat,
{
    if let ExpressionView::Send(send) = expression {
        lemma_eval_target_depth(pool, scope, send, depth, more);
        let (after, target) = eval_target(pool, scope, send, depth);
        if let Ok(value) = target {
            if send.messages.len() > 0 {
                lemma_eval_sends_depth(after, scope, send, 0, value, depth, more);
            }
        }
    }
}

proof fn lemma_eval_target_depth(
    pool: PoolView,
    scope: ObjectRef,
    send: SendView,
    depth: nat,
    more: nat,
)
    requires
        within_limit(eval_target(pool, scope, send, depth).1),
    ensures
        eval_target(pool, scope, send, depth + more) == eval_target(pool, scope, send, depth),
    decreases depth, 1nat, send, send.messages.len() + 1,
{
    match send.target {
        TargetView::Identifier(name) => {
            lemma_dispatch_depth(pool, scope, scope, lookup_message(name), depth, more);
        },
        TargetView::Number(_) => {},
        TargetView::Expression(inner) => {
            lemma_eval_expression_depth(pool, scope, *inner, depth, more);
        },
    }
}

proof fn lemma_eval_sends_depth(
    pool: PoolView,
    scope: ObjectRef,
    send: SendView,
    index: nat,
    target: ObjectRef,
    depth: nat,
    more: nat,
)
    requires
        within_limit(eval_sends(pool, scope, send, index, target, depth).1),
    ensures
        eval_sends(pool, scope, send, index, target, depth + more) == eval_sends(
            pool,
            scope,
            send,
            index,
            target,
            depth,
        ),
    decreases depth, 1nat, send, send.messages.len() - index,
{
    if index < send.messages.len() {
        lemma_eval_message_depth(pool, scope, send.messages[index as int], depth, more);
        let (evaluated, message) = eval_message(pool, scope, send.messages[index as int], depth);
        if let Ok(message) = message {
            lemma_dispatch_depth(evaluated, target, target, message, depth, more);
            let (after, result) = dispatch(evaluated, target, target, message, depth);
            if let Ok(value) = result {
                lemma_eval_sends_depth(after, scope, send, index + 1, value, depth, more);
            }
        }
    }
}

proof fn lemma_eval_message_depth(
    pool: PoolView,
    scope: ObjectRef,
    message: MessageView,
    depth: nat,
    more: nat,
)
    requires
        within_limit(eval_message(pool, scope, message, depth).1),
    ensures
        eval_message(pool, scope, message, depth + more) == eval_message(
            pool,
            scope,
            message,
            depth,
        ),
    decreases depth, 1nat, message, message.arguments.len() + 1,
{
    lemma_eval_arguments_depth(pool, scope, message, 0, Seq::empty(), depth, more);
}

proof fn lemma_eval_arguments_depth(
    pool: PoolView,
    scope: ObjectRef,
    message: MessageView,
    index: nat,
    evaluated: Seq<(Seq<char>, ObjectRef)>,
    depth: nat,
    more: nat,
)
    requires
        within_limit(eval_arguments(pool, scope, message, index, evaluated, depth).1),
    ensures
        eval_arguments(pool, scope, message, index, evaluated, depth + more) == eval_arguments(
            pool,
            scope,
            message,
            index,
            evaluated,
            depth,
        ),
    decreases depth, 1nat, message, message.arguments.len() - index,
{
    if index < message.arguments.len() {
        let argument = message.arguments[index as int];
        lemma_eval_expression_depth(pool, scope, argument.value, depth, more);
        let (after, result) = eval_expression(pool, scope, argument.value, depth);
        if let Ok(value) = result {
            lemma_eval_arguments_depth(
                after,
                scope,
                message,
                index + 1,
                evaluated.push((argument.name, value)),
                depth,
                more,
            );
        }
    }
}

/// A message that is not stopped by the limit on the nesting of calls is handled in the same
/// way under every higher limit.
pub proof fn lemma_send_under_higher_limit(
    pool: PoolView,
    receiver: ObjectRef,
    message: EvaluatedMessageView,
    depth: nat,
    higher: nat,
)
    requires
        within_limit(send(pool, receiver, message, depth).1),
        depth <= higher,
    ensures
        send(pool, receiver, message, higher) == send(pool, receiver, message, depth),
{
    lemma_dispatch_depth(pool, receiver, receiver, message, depth, (higher - depth) as nat);
}

/// A block that is not stopped by the limit on the nesting of calls does the same under every
/// higher limit.
pub proof fn lemma_block_under_higher_limit(
    pool: PoolView,
    parent: ObjectRef,
    block: BlockView,
    depth: nat,
    higher: nat,
)
    requires
        within_limit(eval_block(pool, parent, block, depth).1),
        depth <= higher,
    ensures
        eval_block(pool, parent, block, higher) == eval_block(pool, parent, block, depth),
{
    lemma_eval_block_depth(pool, parent, block, depth, (higher - depth) as nat);
}

/// A program that is not stopped by the limit on the nesting of calls does the same under
/// every higher limit: the limit decides whether a run is cut short, never what it does.
pub proof fn lemma_program_under_higher_limit(
    pool: PoolView,
    block: BlockView,
    depth: nat,
    higher: nat,
)
    requires
        within_limit(eval_program(pool, block, depth).1),
        depth <= higher,
    ensures
        eval_program(pool, block, higher) == eval_program(pool, block, depth),
{
    lemma_eval_block_depth(pool, PoolView::root(), block, depth, (higher - depth) as nat);
}

} // verus!
