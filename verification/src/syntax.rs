//! The syntax tree of a program, and its mathematical value.

use vstd::prelude::*;
use crate::text::{integer_value, parse_integer};

verus! {

/// A message as written in the source: a name and its named arguments.
#[derive(Debug, PartialEq, Eq)]
pub struct Message {
    pub name: String,
    pub arguments: Vec<Argument>,
}

/// One named argument of a message; its value is an expression.
#[derive(Debug, PartialEq, Eq)]
pub struct Argument {
    pub name: String,
    pub value: Expression,
}

/// A sequence of statements, evaluated in order in a scope of its own.
#[derive(Debug, PartialEq, Eq)]
pub struct Block {
    pub statements: Vec<Statement>,
}

/// What a chain of messages is sent to.
#[derive(Debug, PartialEq, Eq)]
pub enum Target {
    Number(String),
    Identifier(String),
    Expression(Box<Expression>),
}

/// A target followed by the messages sent to it, left to right.
#[derive(Debug, PartialEq, Eq)]
pub struct Send {
    pub target: Target,
    pub messages: Vec<Message>,
}

#[derive(Debug, PartialEq, Eq)]
pub enum Expression {
    Send(Send),
    Number(String),
    Lambda(Box<Block>),
}

/// `def target value`: binds the value of an expression to a name in the current scope.
#[derive(Debug, PartialEq, Eq)]
pub struct Definition {
    pub target: String,
    pub value: Expression,
}

#[derive(Debug, PartialEq, Eq)]
pub enum Statement {
    Expression(Expression),
    Definition(Definition),
}


/// The mathematical value of a [`Message`].
pub struct MessageView {
    pub name: Seq<char>,
    pub arguments: Seq<ArgumentView>,
}

/// The mathematical value of an [`Argument`].
pub struct ArgumentView {
    pub name: Seq<char>,
    pub value: ExpressionView,
}

/// The mathematical value of a [`Block`].
pub struct BlockView {
    pub statements: Seq<StatementView>,
}

/// The mathematical value of a [`Target`].
pub enum TargetView {
    Number(Seq<char>),
    Identifier(Seq<char>),
    Expression(Box<ExpressionView>),
}

/// The mathematical value of a [`Send`].
pub struct SendView {
    pub target: TargetView,
    pub messages: Seq<MessageView>,
}

/// The mathematical value of an [`Expression`].
pub enum ExpressionView {
    Send(SendView),
    Number(Seq<char>),
    Lambda(Box<BlockView>),
}

/// The mathematical value of a [`Definition`].
pub struct DefinitionView {
    pub target: Seq<char>,
    pub value: ExpressionView,
}

/// The mathematical value of a [`Statement`].
pub enum StatementView {
    Expression(ExpressionView),
    Definition(DefinitionView),
}

pub open spec fn block_view(block: Block) -> BlockView
    decreases block,
{
    BlockView {
        statements: Seq::new(
            block.statements@.len(),
            |i: int|
                if 0 <= i < block.statements@.len() {
                    statement_view(block.statements@[i])
                } else {
                    arbitrary()
                },
        ),
    }
}

pub open spec fn statement_view(statement: Statement) -> StatementView
    decreases statement,
{
    match statement {
        Statement::Expression(expression) => StatementView::Expression(
            expression_view(expression),
        ),
        Statement::Definition(definition) => StatementView::Definition(
            DefinitionView {
                target: definition.target@,
                value: expression_view(definition.value),
            },
        ),
    }
}

pub open spec fn expression_view(expression: Expression) -> ExpressionView
    decreases expression,
{
    match expression {
        Expression::Send(send) => ExpressionView::Send(send_view(send)),
        Expression::Number(digits) => ExpressionView::Number(digits@),
        Expression::Lambda(body) => ExpressionView::Lambda(Box::new(block_view(*body))),
    }
}

pub open spec fn send_view(send: Send) -> SendView
    decreases send,
{
    SendView {
        target: target_view(send.target),
        messages: Seq::new(
            send.messages@.len(),
            |i: int|
                if 0 <= i < send.messages@.len() {
                    message_view(send.messages@[i])
                } else {
                    arbitrary()
                },
        ),
    }
}

pub open spec fn target_view(target: Target) -> TargetView
    decreases target,
{
    match target {
        Target::Number(digits) => TargetView::Number(digits@),
        Target::Identifier(name) => TargetView::Identifier(name@),
        Target::Expression(inner) => TargetView::Expression(Box::new(expression_view(*inner))),
    }
}

pub open spec fn message_view(message: Message) -> MessageView
    decreases message,
{
    MessageView {
        name: message.name@,
        arguments: Seq::new(
            message.arguments@.len(),
            |i: int|
                if 0 <= i < message.arguments@.len() {
                    argument_view(message.arguments@[i])
                } else {
                    arbitrary()
                },
        ),
    }
}

pub open spec fn argument_view(argument: Argument) -> ArgumentView
    decreases argument,
{
    ArgumentView { name: argument.name@, value: expression_view(argument.value) }
}

impl BlockView {
    /// Every number literal in the block, at any depth, denotes a 64-bit signed integer.
    pub open spec fn well_formed(self) -> bool
        decreases self,
    {
        forall|i: int|
            0 <= i < self.statements.len() ==> (#[trigger] self.statements[i]).well_formed()
    }
}

impl StatementView {
    /// Every number literal in the statement denotes a 64-bit signed integer.
    pub open spec fn well_formed(self) -> bool
        decreases self,
    {
        match self {
            StatementView::Expression(expression) => expression.well_formed(),
            StatementView::Definition(definition) => definition.value.well_formed(),
        }
    }
}

impl ExpressionView {
    /// Every number literal in the expression denotes a 64-bit signed integer.
    pub open spec fn well_formed(self) -> bool
        decreases self,
    {
        match self {
            ExpressionView::Send(send) => send.well_formed(),
            ExpressionView::Number(digits) => integer_value(digits) is Some,
            ExpressionView::Lambda(body) => body.well_formed(),
        }
    }
}

impl SendView {
    /// Every number literal in the target and in the messages denotes a 64-bit signed integer.
    pub open spec fn well_formed(self) -> bool
        decreases self,
    {
        &&& self.target.well_formed()
        &&& forall|i: int|
            0 <= i < self.messages.len() ==> (#[trigger] self.messages[i]).well_formed()
    }
}

impl TargetView {
    /// Every number literal in the target denotes a 64-bit signed integer.
    pub open spec fn well_formed(self) -> bool
        decreases self,
    {
        match self {
            TargetView::Number(digits) => integer_value(digits) is Some,
            TargetView::Identifier(_) => true,
            TargetView::Expression(inner) => inner.well_formed(),
        }
    }
}

impl MessageView {
    /// Every number literal in the arguments denotes a 64-bit signed integer.
    pub open spec fn well_formed(self) -> bool
        decreases self,
    {
        forall|i: int|
            0 <= i < self.arguments.len() ==> (#[trigger] self.arguments[i]).value.well_formed()
    }
}

impl View for Block {
    type V = BlockView;

    open spec fn view(&self) -> BlockView {
        block_view(*self)
    }
}

impl View for Statement {
    type V = StatementView;

    open spec fn view(&self) -> StatementView {
        statement_view(*self)
    }
}

impl View for Expression {
    type V = ExpressionView;

    open spec fn view(&self) -> ExpressionView {
        expression_view(*self)
    }
}

impl View for Target {
    type V = TargetView;

    open spec fn view(&self) -> TargetView {
        target_view(*self)
    }
}

impl View for Send {
    type V = SendView;

    open spec fn view(&self) -> SendView {
        send_view(*self)
    }
}

impl View for Message {
    type V = MessageView;

    open spec fn view(&self) -> MessageView {
        message_view(*self)
    }
}

impl View for Argument {
    type V = ArgumentView;

    open spec fn view(&self) -> ArgumentView {
        argument_view(*self)
    }
}

impl View for Definition {
    type V = DefinitionView;

    open spec fn view(&self) -> DefinitionView {
        DefinitionView { target: self.target@, value: expression_view(self.value) }
    }
}

/// The view of a block holds the views of its statements, in order.
pub proof fn lemma_block_view(block: &Block, i: int)
    ensures
        block@.statements.len() == block.statements@.len(),
        0 <= i < block.statements@.len() ==> block@.statements[i] == block.statements@[i]@,
        0 <= i < block.statements@.len() && block@.well_formed()
            ==> block.statements@[i]@.well_formed(),
{
    reveal_with_fuel(block_view, 2);
    if 0 <= i < block.statements@.len() && block@.well_formed() {
        assert(block@.statements[i].well_formed());
    }
}

/// The view of a send holds the view of its target and the views of its messages, in order.
pub proof fn lemma_send_view(send: &Send, i: int)
    ensures
        send@.target == send.target@,
        send@.messages.len() == send.messages@.len(),
        0 <= i < send.messages@.len() ==> send@.messages[i] == send.messages@[i]@,
        0 <= i < send.messages@.len() && send@.well_formed() ==> send.messages@[i]@.well_formed(),
{
    reveal_with_fuel(send_view, 2);
    if 0 <= i < send.messages@.len() && send@.well_formed() {
        assert(send@.messages[i].well_formed());
    }
}

/// The view of a message holds the views of its arguments, in order.
pub proof fn lemma_message_view(message: &Message, i: int)
    ensures
        message@.name == message.name@,
        message@.arguments.len() == message.arguments@.len(),
        0 <= i < message.arguments@.len() ==> message@.arguments[i] == message.arguments@[i]@,
        0 <= i < message.arguments@.len() && message@.well_formed()
            ==> message.arguments@[i].value@.well_formed(),
{
    reveal_with_fuel(message_view, 2);
    if 0 <= i < message.arguments@.len() && message@.well_formed() {
        assert(message@.arguments[i].value.well_formed());
    }
}


/// The views of a list of statements, in order.
pub open spec fn statements_view(statements: Seq<Statement>) -> Seq<StatementView> {
    Seq::new(statements.len(), |i: int| statements[i]@)
}

/// The views of a list of arguments, in order.
pub open spec fn arguments_view(arguments: Seq<Argument>) -> Seq<ArgumentView> {
    Seq::new(arguments.len(), |i: int| arguments[i]@)
}

/// The view of a block is the block of the views of its statements.
pub proof fn lemma_block_of_statements(block: &Block)
    ensures
        block@ == (BlockView { statements: statements_view(block.statements@) }),
{
    assert(block@.statements =~= statements_view(block.statements@));
}

/// The view of a message has the name of the message and the views of its arguments.
pub proof fn lemma_message_of_arguments(message: &Message)
    ensures
        message@ == (MessageView {
            name: message.name@,
            arguments: arguments_view(message.arguments@),
        }),
{
    assert(message@.arguments =~= arguments_view(message.arguments@));
}

/// The view of a send of one message.
pub proof fn lemma_send_of_message(expression: &Expression)
    requires
        expression matches Expression::Send(send) && send.messages@.len() == 1,
    ensures
        expression matches Expression::Send(send) && expression@ == ExpressionView::Send(
            SendView { target: send.target@, messages: seq![send.messages@[0]@] },
        ),
{
    let send = expression->Send_0;
    assert(expression@->Send_0.messages =~= seq![send.messages@[0]@]);
}


impl Block {
    /// Whether every number literal in the block, at any depth, denotes a 64-bit signed
    /// integer.
    pub fn is_well_formed(&self) -> (answer: bool)
        ensures
            answer == self@.well_formed(),
        decreases self,
    {
        let mut i: usize = 0;
        while i < self.statements.len()
            invariant
                i <= self.statements.len(),
                forall|j: int| 0 <= j < i ==> (#[trigger] self@.statements[j]).well_formed(),
            decreases self.statements.len() - i,
        {
            proof {
                lemma_block_view(self, i as int);
            }
            if !self.statements[i].is_well_formed() {
                return false;
            }
            i += 1;
        }
        proof {
            lemma_block_view(self, 0);
        }
        true
    }
}

impl Statement {
    /// Whether every number literal in the statement denotes a 64-bit signed integer.
    pub fn is_well_formed(&self) -> (answer: bool)
        ensures
            answer == self@.well_formed(),
        decreases self,
    {
        match self {
            Statement::Expression(expression) => expression.is_well_formed(),
            Statement::Definition(definition) => definition.value.is_well_formed(),
        }
    }
}

impl Expression {
    /// Whether every number literal in the expression denotes a 64-bit signed integer.
    pub fn is_well_formed(&self) -> (answer: bool)
        ensures
            answer == self@.well_formed(),
        decreases self,
    {
        match self {
            Expression::Send(send) => send.is_well_formed(),
            Expression::Number(digits) => parse_integer(digits.as_str()).is_some(),
            Expression::Lambda(body) => body.is_well_formed(),
        }
    }
}

impl Send {
    /// Whether every number literal in the target and in the messages denotes a 64-bit signed
    /// integer.
    pub fn is_well_formed(&self) -> (answer: bool)
        ensures
            answer == self@.well_formed(),
        decreases self,
    {
        if !self.target.is_well_formed() {
            return false;
        }
        let mut i: usize = 0;
        while i < self.messages.len()
            invariant
                i <= self.messages.len(),
                self@.target.well_formed(),
                forall|j: int| 0 <= j < i ==> (#[trigger] self@.messages[j]).well_formed(),
            decreases self.messages.len() - i,
        {
            proof {
                lemma_send_view(self, i as int);
            }
            if !self.messages[i].is_well_formed() {
                return false;
            }
            i += 1;
        }
        proof {
            lemma_send_view(self, 0);
        }
        true
    }
}

impl Target {
    /// Whether every number literal in the target denotes a 64-bit signed integer.
    pub fn is_well_formed(&self) -> (answer: bool)
        ensures
            answer == self@.well_formed(),
        decreases self,
    {
        match self {
            Target::Number(digits) => parse_integer(digits.as_str()).is_some(),
            Target::Identifier(_) => true,
            Target::Expression(inner) => inner.is_well_formed(),
        }
    }
}

impl Message {
    /// Whether every number literal in the arguments denotes a 64-bit signed integer.
    pub fn is_well_formed(&self) -> (answer: bool)
        ensures
            answer == self@.well_formed(),
        decreases self,
    {
        let mut i: usize = 0;
        while i < self.arguments.len()
            invariant
                i <= self.arguments.len(),
                forall|j: int| 0 <= j < i ==> (#[trigger] self@.arguments[j]).value.well_formed(),
            decreases self.arguments.len() - i,
        {
            proof {
                lemma_message_view(self, i as int);
            }
            if !self.arguments[i].value.is_well_formed() {
                return false;
            }
            i += 1;
        }
        proof {
            lemma_message_view(self, 0);
        }
        true
    }
}

/// The views of a list of messages, in order.
pub open spec fn messages_view(messages: Seq<Message>) -> Seq<MessageView> {
    Seq::new(messages.len(), |i: int| messages[i]@)
}

/// The view of a send has the view of its target and the views of its messages.
pub proof fn lemma_send_of_messages(send: &Send)
    ensures
        send@ == (SendView { target: send.target@, messages: messages_view(send.messages@) }),
{
    assert(send@.messages =~= messages_view(send.messages@));
}

/// A copy of a block.
pub fn copy_block(block: &Block) -> (copy: Block)
    ensures
        copy@ == block@,
    decreases block,
{
    let mut statements: Vec<Statement> = Vec::new();
    let mut i: usize = 0;
    while i < block.statements.len()
        invariant
            i <= block.statements.len(),
            statements.len() == i,
            forall|j: int| 0 <= j < i ==> (#[trigger] statements@[j])@ == block.statements@[j]@,
        decreases block.statements.len() - i,
    {
        statements.push(copy_statement(&block.statements[i]));
        i += 1;
    }
    let copy = Block { statements };
    proof {
        lemma_block_of_statements(&copy);
        lemma_block_of_statements(block);
        assert(statements_view(copy.statements@) =~= statements_view(block.statements@));
    }
    copy
}

/// A copy of a statement.
pub fn copy_statement(statement: &Statement) -> (copy: Statement)
    ensures
        copy@ == statement@,
    decreases statement,
{
    match statement {
        Statement::Expression(expression) => Statement::Expression(copy_expression(expression)),
        Statement::Definition(definition) => Statement::Definition(
            Definition {
                target: definition.target.clone(),
                value: copy_expression(&definition.value),
            },
        ),
    }
}

/// A copy of an expression.
pub fn copy_expression(expression: &Expression) -> (copy: Expression)
    ensures
        copy@ == expression@,
    decreases expression,
{
    match expression {
        Expression::Number(digits) => Expression::Number(digits.clone()),
        Expression::Lambda(body) => Expression::Lambda(Box::new(copy_block(body))),
        Expression::Send(send) => Expression::Send(copy_send(send)),
    }
}

/// A copy of a send.
pub fn copy_send(send: &Send) -> (copy: Send)
    ensures
        copy@ == send@,
    decreases send,
{
    let target = copy_target(&send.target);
    let mut messages: Vec<Message> = Vec::new();
    let mut i: usize = 0;
    while i < send.messages.len()
        invariant
            i <= send.messages.len(),
            messages.len() == i,
            forall|j: int| 0 <= j < i ==> (#[trigger] messages@[j])@ == send.messages@[j]@,
        decreases send.messages.len() - i,
    {
        messages.push(copy_message(&send.messages[i]));
        i += 1;
    }
    let copy = Send { target, messages };
    proof {
        lemma_send_of_messages(&copy);
        lemma_send_of_messages(send);
        assert(messages_view(copy.messages@) =~= messages_view(send.messages@));
    }
    copy
}

/// A copy of a target.
pub fn copy_target(target: &Target) -> (copy: Target)
    ensures
        copy@ == target@,
    decreases target,
{
    match target {
        Target::Number(digits) => Target::Number(digits.clone()),
        Target::Identifier(name) => Target::Identifier(name.clone()),
        Target::Expression(inner) => Target::Expression(Box::new(copy_expression(inner))),
    }
}

/// A copy of a message.
pub fn copy_message(message: &Message) -> (copy: Message)
    ensures
        copy@ == message@,
    decreases message,
{
    let mut arguments: Vec<Argument> = Vec::new();
    let mut i: usize = 0;
    while i < message.arguments.len()
        invariant
            i <= message.arguments.len(),
            arguments.len() == i,
            forall|j: int| 0 <= j < i ==> (#[trigger] arguments@[j])@ == message.arguments@[j]@,
        decreases message.arguments.len() - i,
    {
        let argument = &message.arguments[i];
        arguments.push(
            Argument { name: argument.name.clone(), value: copy_expression(&argument.value) },
        );
        i += 1;
    }
    let copy = Message { name: message.name.clone(), arguments };
    proof {
        lemma_message_of_arguments(&copy);
        lemma_message_of_arguments(message);
        assert(arguments_view(copy.arguments@) =~= arguments_view(message.arguments@));
    }
    copy
}

impl Clone for Block {
    fn clone(&self) -> (copy: Self)
        ensures
            copy@ == self@,
    {
        copy_block(self)
    }
}

impl Clone for Statement {
    fn clone(&self) -> (copy: Self)
        ensures
            copy@ == self@,
    {
        copy_statement(self)
    }
}

impl Clone for Expression {
    fn clone(&self) -> (copy: Self)
        ensures
            copy@ == self@,
    {
        copy_expression(self)
    }
}

impl Clone for Send {
    fn clone(&self) -> (copy: Self)
        ensures
            copy@ == self@,
    {
        copy_send(self)
    }
}

impl Clone for Target {
    fn clone(&self) -> (copy: Self)
        ensures
            copy@ == self@,
    {
        copy_target(self)
    }
}

impl Clone for Message {
    fn clone(&self) -> (copy: Self)
        ensures
            copy@ == self@,
    {
        copy_message(self)
    }
}

impl Clone for Argument {
    fn clone(&self) -> (copy: Self)
        ensures
            copy@ == self@,
    {
        Argument { name: self.name.clone(), value: copy_expression(&self.value) }
    }
}

impl Clone for Definition {
    fn clone(&self) -> (copy: Self)
        ensures
            copy@ == self@,
    {
        Definition { target: self.target.clone(), value: copy_expression(&self.value) }
    }
}

} // verus!
