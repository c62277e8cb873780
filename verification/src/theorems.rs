//! What holds of evaluation in general, proved from its definition.

use vstd::prelude::*;
use vstd::wrapping::i64_specs::wrapping_add;
use crate::eval::LambdaView;
use crate::object::{
    EvalError, EvaluatedMessageView, Handler, Metadata, ObjectRef, ObjectView, PoolView,
};
use crate::semantics::{
    call_message, dispatch, eval_block, eval_message, eval_program, eval_sends,
    eval_statement, eval_statements, is_first_named, lambda_send, lookup_message, number_send,
    object_send, rank, resolver, send, Outcome,
};
use crate::syntax::{
    BlockView, ExpressionView, MessageView, SendView, StatementView, TargetView,
};
use crate::text::integer_value;

verus! {

/// What the first `count` statements of a block do in `scope`, one after the other: each runs
/// once, on the pool that the one before it has left, and only if that one has not failed.
/// `count` is at least 1.
pub open spec fn after_statements(
    pool: PoolView,
    scope: ObjectRef,
    block: BlockView,
    count: nat,
    depth: nat,
) -> Outcome
    decreases count,
{
    if count <= 1 {
        eval_statement(pool, scope, block.statements[0], depth)
    } else {
        let (earlier, result) = after_statements(pool, scope, block, (count - 1) as nat, depth);
        match result {
            Ok(_) => eval_statement(earlier, scope, block.statements[count - 1], depth),
            Err(error) => (earlier, Err(error)),
        }
    }
}

/// Once the first `count` statements have run without error, the rest of the block does what
/// running all of its statements in order does.
proof fn lemma_statements_continue(
    pool: PoolView,
    scope: ObjectRef,
    block: BlockView,
    count: nat,
    depth: nat,
)
    requires
        1 <= count <= block.statements.len(),
    ensures
        match after_statements(pool, scope, block, count, depth) {
            (earlier, Ok(last)) => eval_statements(earlier, scope, block, count, last, depth)
                == after_statements(pool, scope, block, block.statements.len(), depth),
            (earlier, Err(error)) => after_statements(
                pool,
                scope,
                block,
                block.statements.len(),
                depth,
            ) == (earlier, Err::<ObjectRef, EvalError>(error)),
        },
    decreases block.statements.len() - count,
{
    if count < block.statements.len() {
        lemma_statements_continue(pool, scope, block, count + 1, depth);
    }
}

/// A block runs its statements in the order in which they are written, each exactly once, in
/// one new scope; it yields what the last one yields, and the first failure ends it.
pub proof fn lemma_block_runs_statements_in_order(
    pool: PoolView,
    parent: ObjectRef,
    block: BlockView,
    depth: nat,
)
    requires
        block.statements.len() > 0,
    ensures
        eval_block(pool, parent, block, depth) == after_statements(
            pool.create(parent).0,
            pool.create(parent).1,
            block,
            block.statements.len(),
            depth,
        ),
{
    lemma_statements_continue(pool.create(parent).0, pool.create(parent).1, block, 1, depth);
}

/// The statement that prints the number written as `digits`.
pub open spec fn print_statement(digits: Seq<char>) -> StatementView {
    StatementView::Expression(
        ExpressionView::Send(
            SendView {
                target: TargetView::Number(digits),
                messages: seq![MessageView { name: "println"@, arguments: Seq::empty() }],
            },
        ),
    )
}

/// The numbers that a list of literals denotes.
pub open spec fn values_of(literals: Seq<Seq<char>>) -> Seq<i64> {
    Seq::new(literals.len(), |i: int| integer_value(literals[i]).unwrap())
}

/// Printing a number makes the number, prints it and yields a new void.
proof fn lemma_print_statement(pool: PoolView, scope: ObjectRef, digits: Seq<char>, depth: nat)
    requires
        integer_value(digits) is Some,
        pool.special_objects.len() + 2 <= usize::MAX,
    ensures
        ({
            let value = integer_value(digits).unwrap();
            let printed = pool.adopt(ObjectView::Number(value)).0.print(value);
            eval_statement(pool, scope, print_statement(digits), depth) == (
                printed.adopt(ObjectView::Void).0,
                Ok::<ObjectRef, EvalError>(printed.adopt(ObjectView::Void).1),
            )
        }),
{
    let value = integer_value(digits).unwrap();
    let expression = print_statement(digits)->Expression_0;
    let send = expression->Send_0;
    let (made, number) = pool.adopt(ObjectView::Number(value));
    let message = EvaluatedMessageView { name: "println"@, arguments: Seq::empty() };
    assert(eval_message(made, scope, send.messages[0], depth) == (
        made,
        Ok::<EvaluatedMessageView, EvalError>(message),
    ));
    assert(object_send(made, ObjectView::Number(value), number, number, message, depth)
        == number_send(made, value, message));
    let (after, void) = made.print(value).adopt(ObjectView::Void);
    assert(dispatch(made, number, number, message, depth) == (
        after,
        Ok::<ObjectRef, EvalError>(void),
    ));
    assert(eval_sends(after, scope, send, 1, void, depth) == (
        after,
        Ok::<ObjectRef, EvalError>(void),
    ));
}

/// From any statement on, a block of printing statements prints the rest of its numbers in
/// order.
proof fn lemma_printing_statements(
    pool: PoolView,
    scope: ObjectRef,
    block: BlockView,
    literals: Seq<Seq<char>>,
    index: nat,
    last: ObjectRef,
    depth: nat,
)
    requires
        block.statements.len() == literals.len(),
        index <= literals.len(),
        forall|i: int|
            0 <= i < literals.len() ==> #[trigger] block.statements[i] == print_statement(
                literals[i],
            ) && integer_value(literals[i]) is Some,
        pool.special_objects.len() + 2 * (literals.len() - index) <= usize::MAX,
    ensures
        eval_statements(pool, scope, block, index, last, depth).1 is Ok,
        eval_statements(pool, scope, block, index, last, depth).0.output == pool.output
            + values_of(literals).skip(index as int),
        eval_statements(pool, scope, block, index, last, depth).0.normal_objects
            == pool.normal_objects,
    decreases literals.len() - index,
{
    if index < literals.len() {
        lemma_print_statement(pool, scope, literals[index as int], depth);
        let (after, result) = eval_statement(pool, scope, block.statements[index as int], depth);
        lemma_printing_statements(after, scope, block, literals, index + 1, result->Ok_0, depth);
    }
}

/// A block of statements that each print a number prints all its numbers, each once, in the
/// order in which the statements are written.
pub proof fn lemma_block_prints_in_order(
    pool: PoolView,
    parent: ObjectRef,
    block: BlockView,
    literals: Seq<Seq<char>>,
    depth: nat,
)
    requires
        literals.len() > 0,
        block.statements.len() == literals.len(),
        forall|i: int|
            0 <= i < literals.len() ==> #[trigger] block.statements[i] == print_statement(
                literals[i],
            ) && integer_value(literals[i]) is Some,
        pool.special_objects.len() + 2 * literals.len() <= usize::MAX,
    ensures
        eval_block(pool, parent, block, depth).1 is Ok,
        eval_block(pool, parent, block, depth).0.output == pool.output + values_of(literals),
{
    let (fresh, scope) = pool.create(parent);
    lemma_printing_statements(fresh, scope, block, literals, 0, scope, depth);
}

/// An empty block is an error, and nothing happens: no scope is made and nothing is printed.
pub proof fn lemma_empty_block_fails(pool: PoolView, parent: ObjectRef, block: BlockView, depth: nat)
    requires
        block.statements.len() == 0,
    ensures
        eval_block(pool, parent, block, depth) == (pool, Err::<ObjectRef, EvalError>(EvalError::EmptyBlock)),
        eval_program(pool, block, depth) == (pool, Err::<(), EvalError>(EvalError::EmptyBlock)),
{
}

/// `add` yields a new number that holds the sum of the receiver and the argument `to` in
/// 64-bit two's complement: the sum itself where it fits, and else the sum moved by 2^64 into
/// the range.
pub proof fn lemma_add_wraps_around(
    pool: PoolView,
    value: i64,
    message: EvaluatedMessageView,
    other: i64,
)
    requires
        message.name == "add"@,
        message.arguments.len() == 1,
        message.arguments[0].0 == "to"@,
        pool.metadata(message.arguments[0].1) == Metadata::NumericValue(other),
    ensures
        number_send(pool, value, message) == (
            pool.adopt(ObjectView::Number(wrapping_add(value, other))).0,
            Ok::<ObjectRef, EvalError>(pool.adopt(ObjectView::Number(wrapping_add(value, other))).1),
        ),
        i64::MIN <= value + other <= i64::MAX ==> wrapping_add(value, other) == value + other,
        value + other > i64::MAX ==> wrapping_add(value, other) == value + other
            - 0x1_0000_0000_0000_0000,
        value + other < i64::MIN ==> wrapping_add(value, other) == value + other
            + 0x1_0000_0000_0000_0000,
{
    reveal_strlit("add");
    reveal_strlit("println");
    assert("add"@.len() != "println"@.len());
    assert(is_first_named(message.arguments, "to"@, 0));
}

/// `add` with arguments other than the one argument `to` fails on the signature, and nothing
/// happens: no number is made and nothing is printed.
pub proof fn lemma_add_checks_signature(pool: PoolView, value: i64, message: EvaluatedMessageView)
    requires
        message.name == "add"@,
        message.arguments.len() != 1 || message.arguments[0].0 != "to"@,
    ensures
        number_send(pool, value, message) == (
            pool,
            Err::<ObjectRef, EvalError>(EvalError::InvalidSignature),
        ),
{
    reveal_strlit("add");
    reveal_strlit("println");
    assert("add"@.len() != "println"@.len());
    if message.arguments.len() == 1 {
        assert(seq!["to"@][0] == "to"@);
    }
}

/// A void answers every message, whatever its name and arguments, with the context in which
/// the message was sent, and changes nothing.
pub proof fn lemma_void_returns_context(
    pool: PoolView,
    void: ObjectRef,
    context: ObjectRef,
    message: EvaluatedMessageView,
    depth: nat,
)
    requires
        void matches ObjectRef::Special(index) && pool.special_objects[index as int] is Void,
    ensures
        dispatch(pool, void, context, message, depth) == (pool, Ok::<ObjectRef, EvalError>(context)),
        send(pool, void, message, depth) == (pool, Ok::<ObjectRef, EvalError>(void)),
{
    assert(object_send(pool, ObjectView::Void, void, context, message, depth) == (
        pool,
        Ok::<ObjectRef, EvalError>(context),
    ));
    assert(object_send(pool, ObjectView::Void, void, void, message, depth) == (
        pool,
        Ok::<ObjectRef, EvalError>(void),
    ));
}

/// The root understands no message.
pub proof fn lemma_root_knows_no_message(
    pool: PoolView,
    context: ObjectRef,
    message: EvaluatedMessageView,
    depth: nat,
)
    requires
        pool.wf(),
    ensures
        dispatch(pool, PoolView::root(), context, message, depth) == (
            pool,
            Err::<ObjectRef, EvalError>(EvalError::UnknownMessage),
        ),
{
    assert(object_send(pool, ObjectView::Root, PoolView::root(), context, message, depth) == (
        pool,
        Err::<ObjectRef, EvalError>(EvalError::UnknownMessage),
    ));
}

/// A definition keeps a pool well formed.
pub proof fn lemma_define_keeps_pool(
    pool: PoolView,
    receiver: ObjectRef,
    name: Seq<char>,
    value: ObjectRef,
)
    requires
        pool.wf(),
        pool.contains(receiver),
        pool.contains(value),
    ensures
        pool.define(receiver, name, value).0.wf(),
        pool.define(receiver, name, value).0.extends(pool),
{
}

/// A new normal object keeps a pool well formed, as long as handles can still count the
/// objects.
pub proof fn lemma_create_keeps_pool(pool: PoolView, prototype: ObjectRef)
    requires
        pool.wf(),
        pool.contains(prototype),
        pool.normal_objects.len() < usize::MAX,
    ensures
        pool.create(prototype).0.wf(),
        pool.create(prototype).0.extends(pool),
        pool.create(prototype).0.contains(pool.create(prototype).1),
{
}

/// Only normal objects take definitions: on a native object a definition fails and changes
/// nothing.
pub proof fn lemma_natives_refuse_definitions(
    pool: PoolView,
    index: usize,
    name: Seq<char>,
    value: ObjectRef,
)
    ensures
        pool.define(ObjectRef::Special(index), name, value) == (
            pool,
            Err::<ObjectRef, EvalError>(EvalError::IllegalDefinition),
        ),
{
}

/// The last definition of a name wins: defining a name twice on one object leaves what the
/// second definition alone would leave.
pub proof fn lemma_redefinition_overwrites(
    pool: PoolView,
    receiver: ObjectRef,
    name: Seq<char>,
    first: ObjectRef,
    second: ObjectRef,
)
    requires
        pool.contains(receiver),
    ensures
        pool.define(receiver, name, first).0.define(receiver, name, second) == pool.define(
            receiver,
            name,
            second,
        ),
        receiver matches ObjectRef::Normal(index) ==> pool.define(
            receiver,
            name,
            second,
        ).0.normal_objects[index as int].handler(name) == Handler::Property(second),
{
    if let ObjectRef::Normal(index) = receiver {
        let once = pool.define(receiver, name, second).0;
        let twice = pool.define(receiver, name, first).0.define(receiver, name, second).0;
        assert(twice.normal_objects[index as int].properties =~= once.normal_objects[index as int].properties);
        assert(twice.normal_objects =~= once.normal_objects);
    }
}

/// A message that the receiver has no property for goes on to the prototype in the same
/// context: that of the object it was first sent to, not that of the prototype.
pub proof fn lemma_delegation_keeps_context(
    pool: PoolView,
    index: usize,
    context: ObjectRef,
    message: EvaluatedMessageView,
    depth: nat,
)
    requires
        pool.wf(),
        index < pool.normal_objects.len(),
        !pool.normal_objects[index as int].properties.contains_key(message.name),
    ensures
        dispatch(pool, ObjectRef::Normal(index), context, message, depth) == dispatch(
            pool,
            pool.normal_objects[index as int].prototype,
            context,
            message,
            depth,
        ),
{
}

/// However long the chain of prototypes, a message is handled by the first object along it
/// that has a property of that name, or else by the native object at its end, and always in
/// the context in which it was sent.
pub proof fn lemma_message_reaches_resolver(
    pool: PoolView,
    receiver: ObjectRef,
    context: ObjectRef,
    message: EvaluatedMessageView,
    depth: nat,
)
    requires
        pool.wf(),
        pool.contains(receiver),
    ensures
        dispatch(pool, receiver, context, message, depth) == dispatch(
            pool,
            resolver(pool, receiver, message.name),
            context,
            message,
            depth,
        ),
        pool.contains(resolver(pool, receiver, message.name)),
        resolver(pool, receiver, message.name) matches ObjectRef::Normal(index)
            ==> pool.normal_objects[index as int].properties.contains_key(message.name),
    decreases rank(receiver),
{
    if let ObjectRef::Normal(index) = receiver {
        let object = pool.normal_objects[index as int];
        if !object.properties.contains_key(message.name) {
            lemma_message_reaches_resolver(pool, object.prototype, context, message, depth);
        }
    }
}

/// A message for which no object along the chain of prototypes has a property, and whose
/// chain ends at the root, is unknown.
pub proof fn lemma_unresolved_message_is_unknown(
    pool: PoolView,
    receiver: ObjectRef,
    context: ObjectRef,
    message: EvaluatedMessageView,
    depth: nat,
)
    requires
        pool.wf(),
        pool.contains(receiver),
        resolver(pool, receiver, message.name) == PoolView::root(),
    ensures
        dispatch(pool, receiver, context, message, depth) == (
            pool,
            Err::<ObjectRef, EvalError>(EvalError::UnknownMessage),
        ),
{
    lemma_message_reaches_resolver(pool, receiver, context, message, depth);
    lemma_root_knows_no_message(pool, context, message, depth);
}

/// Where normal objects extend only normal objects or the root, every chain of prototypes
/// ends at the root: a message sent to a normal object is handled by an object along the chain
/// that has a property of that name, or else it reaches the root.
pub proof fn lemma_chain_ends_at_root(pool: PoolView, receiver: ObjectRef, name: Seq<char>)
    requires
        pool.wf(),
        pool.grounded(),
        pool.contains(receiver),
        PoolView::is_scope(receiver),
    ensures
        resolver(pool, receiver, name) == PoolView::root() || (resolver(pool, receiver, name)
            matches ObjectRef::Normal(index) && index < pool.normal_objects.len()
            && pool.normal_objects[index as int].properties.contains_key(name)),
    decreases rank(receiver),
{
    if let ObjectRef::Normal(index) = receiver {
        let object = pool.normal_objects[index as int];
        if !object.properties.contains_key(name) {
            lemma_chain_ends_at_root(pool, object.prototype, name);
        }
    }
}

/// A name that no object defines is unknown in every scope: looking it up, or sending any
/// message of that name to a scope, fails with an unknown message and changes nothing.
pub proof fn lemma_undefined_name_is_unknown(
    pool: PoolView,
    scope: ObjectRef,
    message: EvaluatedMessageView,
    depth: nat,
)
    requires
        pool.wf(),
        pool.grounded(),
        pool.contains(scope),
        PoolView::is_scope(scope),
        forall|i: int|
            0 <= i < pool.normal_objects.len() ==> !(
            #[trigger] pool.normal_objects[i]).properties.contains_key(message.name),
    ensures
        send(pool, scope, message, depth) == (
            pool,
            Err::<ObjectRef, EvalError>(EvalError::UnknownMessage),
        ),
{
    lemma_chain_ends_at_root(pool, scope, message.name);
    lemma_unresolved_message_is_unknown(pool, scope, scope, message, depth);
}

/// An inherited method runs on the receiver. Where `child` has no property `name` and its
/// prototype, a normal object, has one whose value is a lambda, sending `name` to `child`
/// runs the body of the lambda in a scope that extends `child`, not the prototype and not
/// the scope that the lambda captured.
pub proof fn lemma_inherited_lambda_runs_on_receiver(
    pool: PoolView,
    child: usize,
    parent: usize,
    method: usize,
    lambda: LambdaView,
    message: EvaluatedMessageView,
    depth: nat,
)
    requires
        pool.wf(),
        child < pool.normal_objects.len(),
        pool.normal_objects[child as int].prototype == ObjectRef::Normal(parent),
        !pool.normal_objects[child as int].properties.contains_key(message.name),
        pool.normal_objects[parent as int].handler(message.name) == Handler::Property(
            ObjectRef::Special(method),
        ),
        pool.special_objects[method as int] == ObjectView::Lambda(lambda),
        depth >= 2,
    ensures
        send(pool, ObjectRef::Normal(child), message, depth) == eval_block(
            pool,
            ObjectRef::Normal(child),
            lambda.body,
            (depth - 2) as nat,
        ),
{
    let receiver = ObjectRef::Normal(child);
    let holder = ObjectRef::Normal(parent);
    assert(dispatch(pool, holder, receiver, message, depth) == dispatch(
        pool,
        ObjectRef::Special(method),
        receiver,
        call_message(),
        (depth - 1) as nat,
    ));
    assert(object_send(
        pool,
        ObjectView::Lambda(lambda),
        ObjectRef::Special(method),
        receiver,
        call_message(),
        (depth - 1) as nat,
    ) == lambda_send(
        pool,
        lambda,
        ObjectRef::Special(method),
        receiver,
        call_message(),
        (depth - 1) as nat,
    ));
}

/// A lambda sees the scope it captured as that scope is when the lambda is called, not as it
/// was when the lambda was made. After `name` has been defined on the captured scope,
/// calling the lambda runs its body in the pool that holds the definition, in a new scope that
/// extends the captured one; and looking `name` up from that new scope finds the value just
/// defined, which is then called on behalf of the new scope.
pub proof fn lemma_capture_is_live(
    pool: PoolView,
    method: usize,
    lambda: LambdaView,
    scope: usize,
    name: Seq<char>,
    value: ObjectRef,
    depth: nat,
)
    requires
        pool.wf(),
        method < pool.special_objects.len(),
        pool.special_objects[method as int] == ObjectView::Lambda(lambda),
        lambda.parent_scope == ObjectRef::Normal(scope),
        pool.contains(value),
        pool.normal_objects.len() < usize::MAX,
        depth >= 1,
    ensures
        ({
            let defined = pool.define(lambda.parent_scope, name, value).0;
            let (fresh, inner) = defined.create(lambda.parent_scope);
            &&& send(defined, ObjectRef::Special(method), call_message(), depth) == eval_block(
                defined,
                lambda.parent_scope,
                lambda.body,
                (depth - 1) as nat,
            )
            &&& send(fresh, inner, lookup_message(name), depth) == dispatch(
                fresh,
                value,
                inner,
                call_message(),
                (depth - 1) as nat,
            )
        }),
{
    let captured = lambda.parent_scope;
    let defined = pool.define(captured, name, value).0;
    let (fresh, inner) = defined.create(captured);
    assert(object_send(
        defined,
        ObjectView::Lambda(lambda),
        ObjectRef::Special(method),
        ObjectRef::Special(method),
        call_message(),
        depth,
    ) == lambda_send(
        defined,
        lambda,
        ObjectRef::Special(method),
        ObjectRef::Special(method),
        call_message(),
        depth,
    ));
    assert(dispatch(fresh, inner, inner, lookup_message(name), depth) == dispatch(
        fresh,
        captured,
        inner,
        lookup_message(name),
        depth,
    ));
}

} // verus!
