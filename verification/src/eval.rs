//! The native objects and the evaluator.

use vstd::prelude::*;
use crate::object::{
    arguments_view, lemma_extends_transitive, EvalError, EvaluatedMessage, EvaluatedMessageView,
    Handler, Metadata, Object, ObjectPool, ObjectRef, ObjectView, PoolView,
};
use crate::syntax::{
    lemma_block_view, lemma_message_view, lemma_send_view, Block, BlockView, Expression,
    ExpressionView, Message, Send, Statement, Target,
};
use crate::semantics::{
    argument, dispatch, eval_arguments, eval_block, eval_expression, eval_message, eval_program,
    eval_sends, eval_statement, eval_statements, eval_target, has_argument, is_first_named,
    lambda_send, number_literal, number_send, object_send, rank, send, signature_accepts,
};
use crate::text::{integer_value, parse_integer, same_text};

verus! {

/// The sentinel at the end of every chain of prototypes. It understands no message.
#[derive(Debug, Clone, Copy)]
pub struct RootObject {}

/// The value that stands for "no result".
#[derive(Debug, Clone, Copy)]
pub struct Void {}

/// A 64-bit signed integer.
#[derive(Debug, Clone, Copy)]
pub struct Number {
    pub value: i64,
}

/// A block together with the scope in which its literal was evaluated.
#[derive(Debug, Clone, Copy)]
pub struct Lambda<'a> {
    pub parent_scope: ObjectRef,
    pub body: &'a Block,
}

/// The mathematical value of a [`Lambda`].
pub struct LambdaView {
    pub parent_scope: ObjectRef,
    pub body: BlockView,
}

impl<'a> View for Lambda<'a> {
    type V = LambdaView;

    open spec fn view(&self) -> LambdaView {
        LambdaView { parent_scope: self.parent_scope, body: self.body@ }
    }
}

/// The names of the arguments that a built-in operation takes.
#[derive(Debug)]
pub struct Signature {
    pub parameters: Vec<String>,
}

impl View for Signature {
    type V = Seq<Seq<char>>;

    open spec fn view(&self) -> Seq<Seq<char>> {
        Seq::new(self.parameters@.len(), |i: int| self.parameters@[i]@)
    }
}

/// The place of the first argument called `name`, if there is one.
fn find_argument(name: &String, arguments: &Vec<(String, ObjectRef)>) -> (place: Option<usize>)
    ensures
        match place {
            Some(index) => is_first_named(arguments_view(arguments@), name@, index as int),
            None => !has_argument(arguments_view(arguments@), name@),
        },
{
    let mut i: usize = 0;
    while i < arguments.len()
        invariant
            i <= arguments.len(),
            forall|j: int| 0 <= j < i ==> (#[trigger] arguments_view(arguments@)[j]).0 != name@,
        decreases arguments.len() - i,
    {
        if arguments[i].0 == *name {
            return Some(i);
        }
        i += 1;
    }
    None
}

impl Signature {
    /// Whether `message` has exactly the arguments that the signature names, in any order.
    pub fn is_message_valid(&self, message: &EvaluatedMessage) -> (valid: bool)
        ensures
            valid == signature_accepts(self@, message@),
    {
        if message.arguments.len() != self.parameters.len() {
            return false;
        }
        let mut i: usize = 0;
        while i < self.parameters.len()
            invariant
                i <= self.parameters.len(),
                message@.arguments.len() == self@.len(),
                forall|k: int| 0 <= k < i ==> has_argument(message@.arguments, #[trigger] self@[k]),
            decreases self.parameters.len() - i,
        {
            if find_argument(&self.parameters[i], &message.arguments).is_none() {
                assert(!has_argument(message@.arguments, self@[i as int]));
                return false;
            }
            i += 1;
        }
        true
    }
}

/// The value of the first argument called `target`.
pub fn get_argument(target: &str, arguments: &Vec<(String, ObjectRef)>) -> (value: ObjectRef)
    requires
        has_argument(arguments_view(arguments@), target@),
    ensures
        value == argument(arguments_view(arguments@), target@),
{
    let name = target.to_owned();
    match find_argument(&name, arguments) {
        Some(index) => arguments[index].1,
        None => unreached(),
    }
}

impl RootObject {
    /// The root understands no message.
    pub fn send(&self, message: &EvaluatedMessage) -> (result: Result<ObjectRef, EvalError>)
        ensures
            result == Err::<ObjectRef, EvalError>(EvalError::UnknownMessage),
    {
        Err(EvalError::UnknownMessage)
    }
}

impl Void {
    /// Allocates a void.
    pub fn new_reference<'a>(pool: &mut ObjectPool<'a>) -> (handle: ObjectRef)
        requires
            old(pool)@.wf(),
        ensures
            (final(pool)@, handle) == old(pool)@.adopt(ObjectView::Void),
            final(pool)@.wf(),
            final(pool)@.extends(old(pool)@),
            old(pool)@.grounded() ==> final(pool)@.grounded(),
            final(pool)@.contains(handle),
    {
        ObjectRef::new(pool, Object::Void(Void {  }))
    }

    /// A void answers every message with the context in which it was sent.
    pub fn send(&self, target: ObjectRef, message: &EvaluatedMessage) -> (result: ObjectRef)
        ensures
            result == target,
    {
        target
    }
}

impl Number {
    /// Allocates the number that the literal `digits` denotes.
    pub fn new_reference<'a>(pool: &mut ObjectPool<'a>, digits: &str) -> (handle: ObjectRef)
        requires
            old(pool)@.wf(),
            integer_value(digits@) is Some,
        ensures
            (final(pool)@, Ok::<ObjectRef, EvalError>(handle)) == number_literal(old(pool)@, digits@),
            final(pool)@.wf(),
            final(pool)@.extends(old(pool)@),
            old(pool)@.grounded() ==> final(pool)@.grounded(),
            final(pool)@.contains(handle),
    {
        match parse_integer(digits) {
            Some(value) => Number::new_from_value(pool, value),
            None => unreached(),
        }
    }

    /// Allocates a number.
    pub fn new_from_value<'a>(pool: &mut ObjectPool<'a>, value: i64) -> (handle: ObjectRef)
        requires
            old(pool)@.wf(),
        ensures
            (final(pool)@, handle) == old(pool)@.adopt(ObjectView::Number(value)),
            final(pool)@.wf(),
            final(pool)@.extends(old(pool)@),
            old(pool)@.grounded() ==> final(pool)@.grounded(),
            final(pool)@.contains(handle),
    {
        ObjectRef::new(pool, Object::Number(Number { value }))
    }

    /// Handles a message sent to this number: `println` prints it and yields a new void, `add`
    /// yields the sum with the argument `to` as a new number.
    pub fn send<'a>(&self, pool: &mut ObjectPool<'a>, message: &EvaluatedMessage) -> (result: Result<
        ObjectRef,
        EvalError,
    >)
        requires
            old(pool)@.wf(),
            old(pool)@.accepts(message@),
        ensures
            (final(pool)@, result) == number_send(old(pool)@, self.value, message@),
            final(pool)@.wf(),
            final(pool)@.extends(old(pool)@),
            old(pool)@.grounded() ==> final(pool)@.grounded(),
            result matches Ok(handle) ==> final(pool)@.contains(handle),
    {
        if same_text(&message.name, "println") {
            if message.arguments.len() != 0 {
                return Err(EvalError::InvalidSignature);
            }
            pool.write_line(self.value);
            Ok(Void::new_reference(pool))
        } else if same_text(&message.name, "add") {
            let signature = Signature { parameters: vec!["to".to_owned()] };
            assert(signature@ == seq!["to"@]);
            if !signature.is_message_valid(message) {
                return Err(EvalError::InvalidSignature);
            }
            assert(has_argument(message@.arguments, signature@[0]));
            let other = get_argument("to", &message.arguments);
            match pool.metadata(other) {
                Metadata::NumericValue(value) => Ok(
                    Number::new_from_value(pool, self.value.wrapping_add(value)),
                ),
                Metadata::Nothing => Err(EvalError::TypeMismatch),
            }
        } else {
            Err(EvalError::UnknownMessage)
        }
    }
}

impl<'a> Lambda<'a> {
    /// Runs the body in the scope that the lambda captured.
    pub fn call_with_captured_context(&self, pool: &mut ObjectPool<'a>, depth: usize) -> (result:
        Result<ObjectRef, EvalError>)
        requires
            old(pool)@.wf(),
            old(pool)@.contains(self.parent_scope),
            self.body@.well_formed(),
        ensures
            (final(pool)@, result) == eval_block(
                old(pool)@,
                self.parent_scope,
                self.body@,
                depth as nat,
            ),
            final(pool)@.wf(),
            final(pool)@.extends(old(pool)@),
            old(pool)@.grounded() && PoolView::is_scope(self.parent_scope) ==> final(pool)@.grounded(),
            result matches Ok(handle) ==> final(pool)@.contains(handle),
        decreases depth, 2nat, self, 0nat,
    {
        Program::eval_block(pool, self.parent_scope, self.body, depth)
    }

    /// Runs the body in a context given by the caller: that of the object through which the
    /// lambda was reached.
    pub fn call_with_context(&self, pool: &mut ObjectPool<'a>, context: ObjectRef, depth: usize) -> (result:
        Result<ObjectRef, EvalError>)
        requires
            old(pool)@.wf(),
            old(pool)@.contains(context),
            self.body@.well_formed(),
        ensures
            (final(pool)@, result) == eval_block(old(pool)@, context, self.body@, depth as nat),
            final(pool)@.wf(),
            final(pool)@.extends(old(pool)@),
            old(pool)@.grounded() && PoolView::is_scope(context) ==> final(pool)@.grounded(),
            result matches Ok(handle) ==> final(pool)@.contains(handle),
        decreases depth, 2nat, self, 0nat,
    {
        Program::eval_block(pool, context, self.body, depth)
    }

    /// Handles a message that has reached this lambda, stored under `holder`, on behalf of
    /// `context`.
    pub fn send(
        &self,
        pool: &mut ObjectPool<'a>,
        holder: ObjectRef,
        context: ObjectRef,
        message: &EvaluatedMessage,
        depth: usize,
    ) -> (result: Result<ObjectRef, EvalError>)
        requires
            old(pool)@.wf(),
            old(pool)@.contains(self.parent_scope),
            old(pool)@.contains(context),
            self.body@.well_formed(),
        ensures
            (final(pool)@, result) == lambda_send(
                old(pool)@,
                self@,
                holder,
                context,
                message@,
                depth as nat,
            ),
            final(pool)@.wf(),
            final(pool)@.extends(old(pool)@),
            old(pool)@.grounded() && PoolView::is_scope(self.parent_scope) && (context == holder
                || PoolView::is_scope(context)) ==> final(pool)@.grounded(),
            result matches Ok(handle) ==> final(pool)@.contains(handle),
        decreases depth, 0nat, message, 0nat,
    {
        if !same_text(&message.name, "call") {
            Err(EvalError::UnknownMessage)
        } else if message.arguments.len() != 0 {
            Err(EvalError::InvalidSignature)
        } else if depth == 0 {
            Err(EvalError::DepthExceeded)
        } else if context == holder {
            self.call_with_captured_context(pool, depth - 1)
        } else {
            self.call_with_context(pool, context, depth - 1)
        }
    }
}

impl<'a> Object<'a> {
    /// Handles a message that has reached this native object, stored under `holder`, on behalf
    /// of `context`: each kind goes by its own rules.
    pub fn send(
        &self,
        pool: &mut ObjectPool<'a>,
        holder: ObjectRef,
        context: ObjectRef,
        message: &EvaluatedMessage,
        depth: usize,
    ) -> (result: Result<ObjectRef, EvalError>)
        requires
            old(pool)@.wf(),
            old(pool)@.fits(self@),
            old(pool)@.contains(context),
            old(pool)@.accepts(message@),
        ensures
            (final(pool)@, result) == object_send(
                old(pool)@,
                self@,
                holder,
                context,
                message@,
                depth as nat,
            ),
            final(pool)@.wf(),
            final(pool)@.extends(old(pool)@),
            old(pool)@.grounded() && (self@ matches ObjectView::Lambda(lambda) ==> PoolView::is_scope(
                lambda.parent_scope,
            )) && (context == holder || PoolView::is_scope(context)) ==> final(pool)@.grounded(),
            result matches Ok(handle) ==> final(pool)@.contains(handle),
        decreases depth, 0nat, message, 1nat,
    {
        match self {
            Object::Root(root) => root.send(message),
            Object::Void(void) => Ok(void.send(context, message)),
            Object::Number(number) => number.send(pool, message),
            Object::Lambda(lambda) => lambda.send(pool, holder, context, message, depth),
        }
    }
}

impl<'a> ObjectPool<'a> {
    /// Sends `message` to `reference`, which is both the first object to get it and the context
    /// in which it is handled.
    pub fn send(&mut self, reference: ObjectRef, message: EvaluatedMessage, depth: usize) -> (result:
        Result<ObjectRef, EvalError>)
        requires
            old(self)@.wf(),
            old(self)@.contains(reference),
            old(self)@.accepts(message@),
        ensures
            (final(self)@, result) == send(old(self)@, reference, message@, depth as nat),
            final(self)@.wf(),
            final(self)@.extends(old(self)@),
            old(self)@.grounded() ==> final(self)@.grounded(),
            result matches Ok(handle) ==> final(self)@.contains(handle),
        decreases depth, 0nat, message, rank(reference) + 3,
    {
        self.dispatch(reference, reference, &message, depth)
    }

    /// Hands `message` to `holder` on behalf of `context`, the object it was first sent to.
    pub fn dispatch(
        &mut self,
        holder: ObjectRef,
        context: ObjectRef,
        message: &EvaluatedMessage,
        depth: usize,
    ) -> (result: Result<ObjectRef, EvalError>)
        requires
            old(self)@.wf(),
            old(self)@.contains(holder),
            old(self)@.contains(context),
            old(self)@.accepts(message@),
        ensures
            (final(self)@, result) == dispatch(old(self)@, holder, context, message@, depth as nat),
            final(self)@.wf(),
            final(self)@.extends(old(self)@),
            old(self)@.grounded() && (context == holder || PoolView::is_scope(context))
                ==> final(self)@.grounded(),
            result matches Ok(handle) ==> final(self)@.contains(handle),
        decreases depth, 0nat, message, rank(holder) + 2,
    {
        match holder {
            ObjectRef::Special(index) => {
                let object = self.special_object(index);
                object.send(self, holder, context, message, depth)
            },
            ObjectRef::Normal(index) => match self.normal_object(index).get_handler(
                message.name.as_str(),
            ) {
                Handler::Property(value) => {
                    if depth == 0 {
                        Err(EvalError::DepthExceeded)
                    } else {
                        let call = EvaluatedMessage { name: "call".to_owned(), arguments: Vec::new() };
                        assert(call@.arguments =~= Seq::empty());
                        let inner = if context == holder {
                            value
                        } else {
                            context
                        };
                        self.dispatch(value, inner, &call, depth - 1)
                    }
                },
                Handler::Prototype(prototype) => self.dispatch(prototype, context, message, depth),
            },
        }
    }
}

/// How deeply calls may nest in a program made with [`Program::new`].
pub const DEFAULT_DEPTH_LIMIT: usize = 256;

/// An evaluator and the pool of objects that it works on.
pub struct Program<'a> {
    pool: ObjectPool<'a>,
    depth_limit: usize,
}

impl<'a> View for Program<'a> {
    type V = PoolView;

    closed spec fn view(&self) -> PoolView {
        self.pool@
    }
}

impl<'a> Program<'a> {
    /// How deeply calls may nest in a run of this program.
    pub closed spec fn limit(&self) -> nat {
        self.depth_limit as nat
    }

    /// A program whose pool holds the root object alone, with the default limit on the nesting
    /// of calls.
    pub fn new() -> (program: Program<'a>)
        ensures
            program@ == PoolView::initial(),
            program@.wf(),
            program.limit() == DEFAULT_DEPTH_LIMIT,
    {
        Program::with_depth_limit(DEFAULT_DEPTH_LIMIT)
    }

    /// A program whose pool holds the root object alone, with the given limit on the nesting of
    /// calls.
    pub fn with_depth_limit(depth_limit: usize) -> (program: Program<'a>)
        ensures
            program@ == PoolView::initial(),
            program@.wf(),
            program.limit() == depth_limit,
    {
        Program { pool: ObjectPool::new(), depth_limit }
    }

    /// The pool of this program.
    pub fn pool(&self) -> (pool: &ObjectPool<'a>)
        ensures
            pool@ == self@,
    {
        &self.pool
    }

    /// Runs a program: evaluates its block in a scope that extends the root and drops the
    /// value.
    pub fn eval(&mut self, block: &'a Block) -> (result: Result<(), EvalError>)
        requires
            old(self)@.wf(),
            block@.well_formed(),
        ensures
            (final(self)@, result) == eval_program(old(self)@, block@, old(self).limit()),
            final(self)@.wf(),
            final(self)@.extends(old(self)@),
            old(self)@.grounded() ==> final(self)@.grounded(),
            final(self).limit() == old(self).limit(),
    {
        let root = self.pool.root();
        match Self::eval_block(&mut self.pool, root, block, self.depth_limit) {
            Ok(_) => Ok(()),
            Err(error) => Err(error),
        }
    }

    /// Evaluates a block in a new scope that extends `parent_scope`, and yields what its last
    /// statement yields.
    pub fn eval_block(
        pool: &mut ObjectPool<'a>,
        parent_scope: ObjectRef,
        block: &'a Block,
        depth: usize,
    ) -> (result: Result<ObjectRef, EvalError>)
        requires
            old(pool)@.wf(),
            old(pool)@.contains(parent_scope),
            block@.well_formed(),
        ensures
            (final(pool)@, result) == eval_block(old(pool)@, parent_scope, block@, depth as nat),
            final(pool)@.wf(),
            final(pool)@.extends(old(pool)@),
            old(pool)@.grounded() && PoolView::is_scope(parent_scope) ==> final(pool)@.grounded(),
            result matches Ok(handle) ==> final(pool)@.contains(handle),
        decreases depth, 1nat, block, block.statements.len() + 1,
    {
        let ghost before = pool@;
        if block.statements.len() == 0 {
            return Err(EvalError::EmptyBlock);
        }
        let scope = pool.create(parent_scope);
        let ghost fresh = pool@;
        proof {
            lemma_block_view(block, 0);
        }
        let mut last = match Self::eval_statement(pool, scope, &block.statements[0], depth) {
            Ok(value) => value,
            Err(error) => {
                proof {
                    lemma_extends_transitive(before, fresh, pool@);
                }
                return Err(error);
            },
        };
        proof {
            lemma_extends_transitive(before, fresh, pool@);
        }
        let mut i: usize = 1;
        while i < block.statements.len()
            invariant
                1 <= i <= block.statements.len(),
                before == old(pool)@,
                pool@.wf(),
                pool@.extends(before),
                before.grounded() && PoolView::is_scope(parent_scope) ==> pool@.grounded(),
                PoolView::is_scope(scope),
                pool@.contains(scope),
                pool@.contains(last),
                block@.well_formed(),
                eval_block(before, parent_scope, block@, depth as nat) == eval_statements(
                    pool@,
                    scope,
                    block@,
                    i as nat,
                    last,
                    depth as nat,
                ),
            decreases block.statements.len() - i,
        {
            let ghost earlier = pool@;
            proof {
                lemma_block_view(block, i as int);
            }
            let result = Self::eval_statement(pool, scope, &block.statements[i], depth);
            proof {
                lemma_extends_transitive(before, earlier, pool@);
            }
            match result {
                Ok(value) => {
                    last = value;
                },
                Err(error) => {
                    return Err(error);
                },
            }
            i += 1;
        }
        Ok(last)
    }

    /// Evaluates a statement in `scope`: a definition binds the value of its expression to its
    /// target there.
    pub fn eval_statement(
        pool: &mut ObjectPool<'a>,
        scope: ObjectRef,
        statement: &'a Statement,
        depth: usize,
    ) -> (result: Result<ObjectRef, EvalError>)
        requires
            old(pool)@.wf(),
            old(pool)@.contains(scope),
            statement@.well_formed(),
        ensures
            (final(pool)@, result) == eval_statement(old(pool)@, scope, statement@, depth as nat),
            final(pool)@.wf(),
            final(pool)@.extends(old(pool)@),
            old(pool)@.grounded() && PoolView::is_scope(scope) ==> final(pool)@.grounded(),
            result matches Ok(handle) ==> final(pool)@.contains(handle),
        decreases depth, 1nat, statement, 0nat,
    {
        match statement {
            Statement::Definition(definition) => {
                match Self::eval_expression(pool, scope, &definition.value, depth) {
                    Ok(value) => pool.define(scope, definition.target.clone(), value),
                    Err(error) => Err(error),
                }
            },
            Statement::Expression(expression) => Self::eval_expression(
                pool,
                scope,
                expression,
                depth,
            ),
        }
    }

    /// Evaluates the arguments of a message in `scope`, in the order in which they are written.
    pub fn eval_message(
        pool: &mut ObjectPool<'a>,
        scope: ObjectRef,
        message: &'a Message,
        depth: usize,
    ) -> (result: Result<EvaluatedMessage, EvalError>)
        requires
            old(pool)@.wf(),
            old(pool)@.contains(scope),
            message@.well_formed(),
        ensures
            match result {
                Ok(evaluated) => (final(pool)@, Ok::<EvaluatedMessageView, EvalError>(evaluated@)) == eval_message(
                    old(pool)@,
                    scope,
                    message@,
                    depth as nat,
                ) && final(pool)@.accepts(evaluated@),
                Err(error) => (final(pool)@, Err::<EvaluatedMessageView, EvalError>(error)) == eval_message(
                    old(pool)@,
                    scope,
                    message@,
                    depth as nat,
                ),
            },
            final(pool)@.wf(),
            final(pool)@.extends(old(pool)@),
            old(pool)@.grounded() && PoolView::is_scope(scope) ==> final(pool)@.grounded(),
        decreases depth, 1nat, message, message.arguments.len() + 1,
    {
        let ghost before = pool@;
        let mut bindings: Vec<(String, ObjectRef)> = Vec::new();
        assert(arguments_view(bindings@) =~= Seq::empty());
        let mut i: usize = 0;
        while i < message.arguments.len()
            invariant
                i <= message.arguments.len(),
                before == old(pool)@,
                pool@.wf(),
                pool@.extends(before),
                before.grounded() && PoolView::is_scope(scope) ==> pool@.grounded(),
                pool@.contains(scope),
                message@.well_formed(),
                forall|j: int|
                    0 <= j < bindings.len() ==> pool@.contains((#[trigger] bindings[j]).1),
                eval_message(before, scope, message@, depth as nat) == eval_arguments(
                    pool@,
                    scope,
                    message@,
                    i as nat,
                    arguments_view(bindings@),
                    depth as nat,
                ),
            decreases message.arguments.len() - i,
        {
            let argument = &message.arguments[i];
            let ghost evaluated = arguments_view(bindings@);
            let ghost earlier = pool@;
            proof {
                lemma_message_view(message, i as int);
            }
            let result = Self::eval_expression(pool, scope, &argument.value, depth);
            proof {
                lemma_extends_transitive(before, earlier, pool@);
            }
            match result {
                Ok(value) => {
                    bindings.push((argument.name.clone(), value));
                    assert(arguments_view(bindings@) =~= evaluated.push((argument.name@, value)));
                },
                Err(error) => {
                    return Err(error);
                },
            }
            i += 1;
        }
        Ok(EvaluatedMessage { name: message.name.clone(), arguments: bindings })
    }

    /// Evaluates an expression in `scope`.
    pub fn eval_expression(
        pool: &mut ObjectPool<'a>,
        scope: ObjectRef,
        expression: &'a Expression,
        depth: usize,
    ) -> (result: Result<ObjectRef, EvalError>)
        requires
            old(pool)@.wf(),
            old(pool)@.contains(scope),
            expression@.well_formed(),
        ensures
            (final(pool)@, result) == eval_expression(old(pool)@, scope, expression@, depth as nat),
            final(pool)@.wf(),
            final(pool)@.extends(old(pool)@),
            old(pool)@.grounded() && PoolView::is_scope(scope) ==> final(pool)@.grounded(),
            result matches Ok(handle) ==> final(pool)@.contains(handle),
        decreases depth, 1nat, expression, 0nat,
    {
        let ghost before = pool@;
        match expression {
            Expression::Send(send) => {
                let mut target = match Self::eval_target(pool, scope, send, depth) {
                    Ok(value) => value,
                    Err(error) => {
                        return Err(error);
                    },
                };
                proof {
                    lemma_send_view(send, 0);
                }
                if send.messages.len() == 0 {
                    return Err(EvalError::EmptyBlock);
                }
                let mut i: usize = 0;
                while i < send.messages.len()
                    invariant
                        i <= send.messages.len(),
                        before == old(pool)@,
                        *expression == Expression::Send(*send),
                        pool@.wf(),
                        pool@.extends(before),
                        before.grounded() && PoolView::is_scope(scope) ==> pool@.grounded(),
                        pool@.contains(scope),
                        pool@.contains(target),
                        send@.well_formed(),
                        expression@ == ExpressionView::Send(send@),
                        eval_expression(before, scope, expression@, depth as nat) == eval_sends(
                            pool@,
                            scope,
                            send@,
                            i as nat,
                            target,
                            depth as nat,
                        ),
                    decreases send.messages.len() - i,
                {
                    let ghost earlier = pool@;
                    proof {
                        lemma_send_view(send, i as int);
                    }
                    let evaluated = Self::eval_message(pool, scope, &send.messages[i], depth);
                    proof {
                        lemma_extends_transitive(before, earlier, pool@);
                    }
                    let message = match evaluated {
                        Ok(message) => message,
                        Err(error) => {
                            return Err(error);
                        },
                    };
                    let ghost ready = pool@;
                    let result = pool.send(target, message, depth);
                    proof {
                        lemma_extends_transitive(before, ready, pool@);
                    }
                    match result {
                        Ok(value) => {
                            target = value;
                        },
                        Err(error) => {
                            return Err(error);
                        },
                    }
                    i += 1;
                }
                Ok(target)
            },
            Expression::Number(digits) => Ok(Number::new_reference(pool, digits.as_str())),
            Expression::Lambda(body) => Ok(
                ObjectRef::new(pool, Object::Lambda(Lambda { parent_scope: scope, body: &**body })),
            ),
        }
    }

    /// Evaluates the target of a send in `scope`.
    fn eval_target(pool: &mut ObjectPool<'a>, scope: ObjectRef, send: &'a Send, depth: usize) -> (result:
        Result<ObjectRef, EvalError>)
        requires
            old(pool)@.wf(),
            old(pool)@.contains(scope),
            send@.well_formed(),
        ensures
            (final(pool)@, result) == eval_target(old(pool)@, scope, send@, depth as nat),
            final(pool)@.wf(),
            final(pool)@.extends(old(pool)@),
            old(pool)@.grounded() && PoolView::is_scope(scope) ==> final(pool)@.grounded(),
            result matches Ok(handle) ==> final(pool)@.contains(handle),
        decreases depth, 1nat, send, send.messages.len() + 1,
    {
        match &send.target {
            Target::Identifier(name) => {
                let message = EvaluatedMessage { name: name.clone(), arguments: Vec::new() };
                assert(message@.arguments =~= Seq::empty());
                pool.send(scope, message, depth)
            },
            Target::Number(digits) => Ok(Number::new_reference(pool, digits.as_str())),
            Target::Expression(inner) => Self::eval_expression(pool, scope, inner, depth),
        }
    }
}

} // verus!
