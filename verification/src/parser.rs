//! From tokens to a syntax tree. The grammar is given as functions on the sequence of tokens;
//! the parser is proved to compute exactly these.

use vstd::prelude::*;
pub use crate::lexer::tokenize;
pub use crate::syntax::{
    Argument, Block, Definition, Expression, Message, Send, Statement, Target,
};
use crate::syntax::{
    arguments_view, lemma_block_of_statements, lemma_message_of_arguments,
    lemma_send_of_message, statements_view, ArgumentView, BlockView, DefinitionView,
    ExpressionView, MessageView, SendView, StatementView, TargetView,
};

verus! {

/// A lexical unit of the source text.
#[derive(Debug, PartialEq, Eq)]
pub enum Token {
    Identifier(String),
    Number(String),
    ParamName(String),
    NextStatement,
    Def,
    Then,
    OpenParen,
    CloseParen,
    OpenLambda,
    CloseLambda,
}

/// Why a text is not a program.
#[derive(Debug, Clone, Copy, PartialEq, Eq, Structural)]
pub enum SyntaxError {
    /// A character that begins no token.
    UnexpectedCharacter,
    /// A statement is followed by something other than a line break or a closing bracket.
    UnexpectedToken,
    /// The tokens end where an expression must begin.
    UnexpectedEnd,
    /// `def` is not followed by an identifier.
    MalformedDefinition,
    /// The body of a lambda is not followed by a closing bracket.
    UnclosedLambda,
    /// A token that begins no expression, or an identifier that no message follows.
    UnhandledToken,
}

/// The mathematical value of a [`Token`].
pub enum TokenView {
    Identifier(Seq<char>),
    Number(Seq<char>),
    ParamName(Seq<char>),
    NextStatement,
    Def,
    Then,
    OpenParen,
    CloseParen,
    OpenLambda,
    CloseLambda,
}

impl View for Token {
    type V = TokenView;

    open spec fn view(&self) -> TokenView {
        match self {
            Token::Identifier(name) => TokenView::Identifier(name@),
            Token::Number(digits) => TokenView::Number(digits@),
            Token::ParamName(name) => TokenView::ParamName(name@),
            Token::NextStatement => TokenView::NextStatement,
            Token::Def => TokenView::Def,
            Token::Then => TokenView::Then,
            Token::OpenParen => TokenView::OpenParen,
            Token::CloseParen => TokenView::CloseParen,
            Token::OpenLambda => TokenView::OpenLambda,
            Token::CloseLambda => TokenView::CloseLambda,
        }
    }
}

/// The mathematical value of a list of tokens.
pub open spec fn tokens_view(tokens: Seq<Token>) -> Seq<TokenView> {
    Seq::new(tokens.len(), |i: int| tokens[i]@)
}
/// A piece of syntax and the number of tokens that it spans.
pub struct Parsed<T> {
    pub value: T,
    pub length: nat,
}

/// How many tokens there are from `start` on.
pub open spec fn remaining(tokens: Seq<TokenView>, start: int) -> nat {
    if 0 <= start <= tokens.len() {
        (tokens.len() - start) as nat
    } else {
        0
    }
}

/// The expression that begins at `start`.
///
/// - `[`, a block, `]` is a lambda.
/// - `(`, an expression and one more token, whatever it is, stand for that expression; an
///   identifier right after them is a message sent to it.
/// - An identifier or a number followed by an identifier is a send: the second names the
///   message, and its arguments follow.
/// - A number alone is a number literal.
pub open spec fn expression_at(tokens: Seq<TokenView>, start: int) -> Result<
    Parsed<ExpressionView>,
    SyntaxError,
>
    decreases remaining(tokens, start), 0nat,
{
    if start < 0 || start >= tokens.len() {
        Err(SyntaxError::UnexpectedEnd)
    } else {
        match tokens[start] {
            TokenView::OpenLambda => match block_at(tokens, start + 1) {
                Ok(body) => {
                    let close = start + 1 + body.length;
                    if close < tokens.len() && tokens[close] is CloseLambda {
                        Ok(
                            Parsed {
                                value: ExpressionView::Lambda(Box::new(body.value)),
                                length: body.length + 2,
                            },
                        )
                    } else {
                        Err(SyntaxError::UnclosedLambda)
                    }
                },
                Err(error) => Err(error),
            },
            TokenView::OpenParen => match expression_at(tokens, start + 1) {
                Ok(subject) => {
                    let closed = start + 1 + subject.length;
                    let after = if closed < tokens.len() {
                        closed + 1
                    } else {
                        closed
                    };
                    if after < tokens.len() && tokens[after] is Identifier {
                        send_at(
                            tokens,
                            start,
                            TargetView::Expression(Box::new(subject.value)),
                            tokens[after]->Identifier_0,
                            after + 1,
                        )
                    } else {
                        Ok(Parsed { value: subject.value, length: (after - start) as nat })
                    }
                },
                Err(error) => Err(error),
            },
            TokenView::Identifier(subject) => {
                if start + 1 < tokens.len() && tokens[start + 1] is Identifier {
                    send_at(
                        tokens,
                        start,
                        TargetView::Identifier(subject),
                        tokens[start + 1]->Identifier_0,
                        start + 2,
                    )
                } else {
                    Err(SyntaxError::UnhandledToken)
                }
            },
            TokenView::Number(digits) => {
                if start + 1 < tokens.len() && tokens[start + 1] is Identifier {
                    send_at(
                        tokens,
                        start,
                        TargetView::Number(digits),
                        tokens[start + 1]->Identifier_0,
                        start + 2,
                    )
                } else {
                    Ok(Parsed { value: ExpressionView::Number(digits), length: 1 })
                }
            },
            _ => Err(SyntaxError::UnhandledToken),
        }
    }
}

/// The send of the message `name` to `target`, where the arguments of the message begin at
/// `from` and the whole expression at `start`.
pub open spec fn send_at(
    tokens: Seq<TokenView>,
    start: int,
    target: TargetView,
    name: Seq<char>,
    from: int,
) -> Result<Parsed<ExpressionView>, SyntaxError>
    decreases remaining(tokens, from), 2nat,
{
    match arguments_from(tokens, from, Seq::empty()) {
        Ok((arguments, end)) => Ok(
            Parsed {
                value: ExpressionView::Send(
                    SendView { target, messages: seq![MessageView { name, arguments }] },
                ),
                length: (end - start) as nat,
            },
        ),
        Err(error) => Err(error),
    }
}

/// The arguments from `start` on, after the ones in `arguments`, and the place where they end.
/// Each is the name of a parameter and an expression.
pub open spec fn arguments_from(
    tokens: Seq<TokenView>,
    start: int,
    arguments: Seq<ArgumentView>,
) -> Result<(Seq<ArgumentView>, int), SyntaxError>
    decreases remaining(tokens, start), 1nat,
{
    if 0 <= start < tokens.len() && tokens[start] is ParamName {
        match expression_at(tokens, start + 1) {
            Ok(value) => arguments_from(
                tokens,
                start + 1 + value.length,
                arguments.push(
                    ArgumentView { name: tokens[start]->ParamName_0, value: value.value },
                ),
            ),
            Err(error) => Err(error),
        }
    } else {
        Ok((arguments, start))
    }
}

/// The definition that begins at `start`: `def`, an identifier and an expression.
pub open spec fn definition_at(tokens: Seq<TokenView>, start: int) -> Result<
    Parsed<DefinitionView>,
    SyntaxError,
>
    decreases remaining(tokens, start), 0nat,
{
    if 0 <= start && start + 1 < tokens.len() && tokens[start] is Def && tokens[start
        + 1] is Identifier {
        match expression_at(tokens, start + 2) {
            Ok(value) => Ok(
                Parsed {
                    value: DefinitionView {
                        target: tokens[start + 1]->Identifier_0,
                        value: value.value,
                    },
                    length: value.length + 2,
                },
            ),
            Err(error) => Err(error),
        }
    } else {
        Err(SyntaxError::MalformedDefinition)
    }
}

/// The statement that begins at `start`: a definition where `def` stands there, an expression
/// otherwise.
pub open spec fn statement_at(tokens: Seq<TokenView>, start: int) -> Result<
    Parsed<StatementView>,
    SyntaxError,
>
    decreases remaining(tokens, start), 1nat,
{
    if start < 0 || start >= tokens.len() {
        Err(SyntaxError::UnexpectedEnd)
    } else if tokens[start] is Def {
        match definition_at(tokens, start) {
            Ok(definition) => Ok(
                Parsed {
                    value: StatementView::Definition(definition.value),
                    length: definition.length,
                },
            ),
            Err(error) => Err(error),
        }
    } else {
        match expression_at(tokens, start) {
            Ok(expression) => Ok(
                Parsed {
                    value: StatementView::Expression(expression.value),
                    length: expression.length,
                },
            ),
            Err(error) => Err(error),
        }
    }
}

/// The block made of `statements` and of the statements from `start` on, and the place where
/// it ends: at the end of the tokens or at a closing bracket. A line break stands between
/// one statement and the next.
pub open spec fn statements_from(
    tokens: Seq<TokenView>,
    start: int,
    statements: Seq<StatementView>,
) -> Result<(BlockView, int), SyntaxError>
    decreases remaining(tokens, start), 2nat,
{
    if start < 0 || start >= tokens.len() {
        Ok((BlockView { statements }, start))
    } else {
        match statement_at(tokens, start) {
            Ok(statement) => {
                let end = start + statement.length;
                let block = BlockView { statements: statements.push(statement.value) };
                if end >= tokens.len() {
                    Ok((block, end))
                } else {
                    match tokens[end] {
                        TokenView::NextStatement => statements_from(
                            tokens,
                            end + 1,
                            block.statements,
                        ),
                        TokenView::CloseLambda => Ok((block, end)),
                        _ => Err(SyntaxError::UnexpectedToken),
                    }
                }
            },
            Err(error) => Err(error),
        }
    }
}

/// The block that begins at `start`.
pub open spec fn block_at(tokens: Seq<TokenView>, start: int) -> Result<Parsed<BlockView>, SyntaxError>
    decreases remaining(tokens, start), 3nat,
{
    match statements_from(tokens, start, Seq::empty()) {
        Ok((block, end)) => Ok(Parsed { value: block, length: (end - start) as nat }),
        Err(error) => Err(error),
    }
}

/// The program that a sequence of tokens denotes: the block that begins with the first token.
/// What follows that block is not looked at.
pub open spec fn program_of(tokens: Seq<TokenView>) -> Result<BlockView, SyntaxError> {
    match block_at(tokens, 0) {
        Ok(block) => Ok(block.value),
        Err(error) => Err(error),
    }
}
/// Reads a program: the block that begins with the first token.
pub fn parse_program(tokens: Vec<Token>) -> (result: Result<Block, SyntaxError>)
    ensures
        match result {
            Ok(block) => program_of(tokens_view(tokens@)) == Ok::<BlockView, SyntaxError>(block@),
            Err(error) => program_of(tokens_view(tokens@)) == Err::<BlockView, SyntaxError>(error),
        },
{
    match parse_block(&tokens, 0) {
        Ok((block, _)) => Ok(block),
        Err(error) => Err(error),
    }
}

/// Reads the block that begins at `start`, and says where it ends.
pub fn parse_block(tokens: &Vec<Token>, start: usize) -> (result: Result<(Block, usize), SyntaxError>)
    requires
        start <= tokens.len(),
    ensures
        match result {
            Ok((block, end)) => start <= end <= tokens.len() && block_at(
                tokens_view(tokens@),
                start as int,
            ) == Ok::<Parsed<BlockView>, SyntaxError>(
                Parsed { value: block@, length: (end - start) as nat },
            ),
            Err(error) => block_at(tokens_view(tokens@), start as int) == Err::<
                Parsed<BlockView>,
                SyntaxError,
            >(error),
        },
    decreases tokens.len() - start, 3nat,
{
    let ghost view = tokens_view(tokens@);
    let mut statements: Vec<Statement> = Vec::new();
    let mut position: usize = start;
    assert(statements_view(statements@) =~= Seq::empty());
    while position < tokens.len()
        invariant
            start <= position <= tokens.len(),
            view == tokens_view(tokens@),
            statements_from(view, start as int, Seq::empty()) == statements_from(
                view,
                position as int,
                statements_view(statements@),
            ),
        decreases tokens.len() - position,
    {
        let ghost read = statements_view(statements@);
        let (statement, end) = match parse_statement(tokens, position) {
            Ok(parsed) => parsed,
            Err(error) => {
                return Err(error);
            },
        };
        statements.push(statement);
        assert(statements_view(statements@) =~= read.push(statement@));
        if end >= tokens.len() {
            let block = Block { statements };
            proof {
                lemma_block_of_statements(&block);
            }
            return Ok((block, end));
        }
        match &tokens[end] {
            Token::NextStatement => {
                position = end + 1;
            },
            Token::CloseLambda => {
                let block = Block { statements };
                proof {
                    lemma_block_of_statements(&block);
                }
                return Ok((block, end));
            },
            _ => {
                return Err(SyntaxError::UnexpectedToken);
            },
        }
    }
    let block = Block { statements };
    proof {
        lemma_block_of_statements(&block);
    }
    Ok((block, position))
}

/// Reads the statement that begins at `start`, and says where it ends.
pub fn parse_statement(tokens: &Vec<Token>, start: usize) -> (result: Result<
    (Statement, usize),
    SyntaxError,
>)
    requires
        start <= tokens.len(),
    ensures
        match result {
            Ok((statement, end)) => start < end <= tokens.len() && statement_at(
                tokens_view(tokens@),
                start as int,
            ) == Ok::<Parsed<StatementView>, SyntaxError>(
                Parsed { value: statement@, length: (end - start) as nat },
            ),
            Err(error) => statement_at(tokens_view(tokens@), start as int) == Err::<
                Parsed<StatementView>,
                SyntaxError,
            >(error),
        },
    decreases tokens.len() - start, 1nat,
{
    if start >= tokens.len() {
        return Err(SyntaxError::UnexpectedEnd);
    }
    match &tokens[start] {
        Token::Def => match parse_definition(tokens, start) {
            Ok((definition, end)) => Ok((Statement::Definition(definition), end)),
            Err(error) => Err(error),
        },
        _ => match parse_expression(tokens, start) {
            Ok((expression, end)) => Ok((Statement::Expression(expression), end)),
            Err(error) => Err(error),
        },
    }
}

/// Reads the definition that begins at `start`, and says where it ends.
pub fn parse_definition(tokens: &Vec<Token>, start: usize) -> (result: Result<
    (Definition, usize),
    SyntaxError,
>)
    requires
        start <= tokens.len(),
    ensures
        match result {
            Ok((definition, end)) => start < end <= tokens.len() && definition_at(
                tokens_view(tokens@),
                start as int,
            ) == Ok::<Parsed<DefinitionView>, SyntaxError>(
                Parsed { value: definition@, length: (end - start) as nat },
            ),
            Err(error) => definition_at(tokens_view(tokens@), start as int) == Err::<
                Parsed<DefinitionView>,
                SyntaxError,
            >(error),
        },
    decreases tokens.len() - start, 0nat,
{
    if start >= tokens.len() || tokens.len() - start < 2 {
        return Err(SyntaxError::MalformedDefinition);
    }
    match (&tokens[start], &tokens[start + 1]) {
        (Token::Def, Token::Identifier(identifier)) => match parse_expression(tokens, start + 2) {
            Ok((value, end)) => Ok((Definition { target: identifier.clone(), value }, end)),
            Err(error) => Err(error),
        },
        _ => Err(SyntaxError::MalformedDefinition),
    }
}

/// Reads the expression that begins at `start`, and says where it ends.
pub fn parse_expression(tokens: &Vec<Token>, start: usize) -> (result: Result<
    (Expression, usize),
    SyntaxError,
>)
    requires
        start <= tokens.len(),
    ensures
        match result {
            Ok((expression, end)) => start < end <= tokens.len() && expression_at(
                tokens_view(tokens@),
                start as int,
            ) == Ok::<Parsed<ExpressionView>, SyntaxError>(
                Parsed { value: expression@, length: (end - start) as nat },
            ),
            Err(error) => expression_at(tokens_view(tokens@), start as int) == Err::<
                Parsed<ExpressionView>,
                SyntaxError,
            >(error),
        },
    decreases tokens.len() - start, 0nat,
{
    if start >= tokens.len() {
        return Err(SyntaxError::UnexpectedEnd);
    }
    match &tokens[start] {
        Token::OpenLambda => {
            let (body, close) = match parse_block(tokens, start + 1) {
                Ok(parsed) => parsed,
                Err(error) => {
                    return Err(error);
                },
            };
            if close >= tokens.len() {
                return Err(SyntaxError::UnclosedLambda);
            }
            match &tokens[close] {
                Token::CloseLambda => Ok((Expression::Lambda(Box::new(body)), close + 1)),
                _ => Err(SyntaxError::UnclosedLambda),
            }
        },
        Token::OpenParen => {
            let (subject, closed) = match parse_expression(tokens, start + 1) {
                Ok(parsed) => parsed,
                Err(error) => {
                    return Err(error);
                },
            };
            let after = if closed < tokens.len() {
                closed + 1
            } else {
                closed
            };
            if after >= tokens.len() {
                return Ok((subject, after));
            }
            match &tokens[after] {
                Token::Identifier(message) => parse_send(
                    tokens,
                    start,
                    Target::Expression(Box::new(subject)),
                    message.clone(),
                    after + 1,
                ),
                _ => Ok((subject, after)),
            }
        },
        Token::Identifier(subject) => {
            if tokens.len() - start < 2 {
                return Err(SyntaxError::UnhandledToken);
            }
            match &tokens[start + 1] {
                Token::Identifier(message) => parse_send(
                    tokens,
                    start,
                    Target::Identifier(subject.clone()),
                    message.clone(),
                    start + 2,
                ),
                _ => Err(SyntaxError::UnhandledToken),
            }
        },
        Token::Number(digits) => {
            if tokens.len() - start < 2 {
                return Ok((Expression::Number(digits.clone()), start + 1));
            }
            match &tokens[start + 1] {
                Token::Identifier(message) => parse_send(
                    tokens,
                    start,
                    Target::Number(digits.clone()),
                    message.clone(),
                    start + 2,
                ),
                _ => Ok((Expression::Number(digits.clone()), start + 1)),
            }
        },
        _ => Err(SyntaxError::UnhandledToken),
    }
}

/// Reads the arguments that begin at `from` and makes the send of the message `name`, with
/// those arguments, to `target`. The whole expression begins at `start`.
fn parse_send(tokens: &Vec<Token>, start: usize, target: Target, name: String, from: usize) -> (result:
    Result<(Expression, usize), SyntaxError>)
    requires
        start < from <= tokens.len(),
    ensures
        match result {
            Ok((expression, end)) => from <= end <= tokens.len() && send_at(
                tokens_view(tokens@),
                start as int,
                target@,
                name@,
                from as int,
            ) == Ok::<Parsed<ExpressionView>, SyntaxError>(
                Parsed { value: expression@, length: (end - start) as nat },
            ),
            Err(error) => send_at(
                tokens_view(tokens@),
                start as int,
                target@,
                name@,
                from as int,
            ) == Err::<Parsed<ExpressionView>, SyntaxError>(error),
        },
    decreases tokens.len() - from, 2nat,
{
    match parse_send_arguments(tokens, from) {
        Ok((arguments, end)) => {
            let message = Message { name, arguments };
            let expression = Expression::Send(Send { target, messages: vec![message] });
            proof {
                lemma_message_of_arguments(&expression->Send_0.messages@[0]);
                lemma_send_of_message(&expression);
            }
            Ok((expression, end))
        },
        Err(error) => Err(error),
    }
}

/// Reads the arguments that begin at `start`, and says where they end.
pub fn parse_send_arguments(tokens: &Vec<Token>, start: usize) -> (result: Result<
    (Vec<Argument>, usize),
    SyntaxError,
>)
    requires
        start <= tokens.len(),
    ensures
        match result {
            Ok((arguments, end)) => start <= end <= tokens.len() && arguments_from(
                tokens_view(tokens@),
                start as int,
                Seq::empty(),
            ) == Ok::<(Seq<ArgumentView>, int), SyntaxError>(
                (arguments_view(arguments@), end as int),
            ),
            Err(error) => arguments_from(tokens_view(tokens@), start as int, Seq::empty()) == Err::<
                (Seq<ArgumentView>, int),
                SyntaxError,
            >(error),
        },
    decreases tokens.len() - start, 1nat,
{
    let ghost view = tokens_view(tokens@);
    let mut params: Vec<Argument> = Vec::new();
    let mut position: usize = start;
    assert(arguments_view(params@) =~= Seq::empty());
    while position < tokens.len()
        invariant
            start <= position <= tokens.len(),
            view == tokens_view(tokens@),
            arguments_from(view, start as int, Seq::empty()) == arguments_from(
                view,
                position as int,
                arguments_view(params@),
            ),
        decreases tokens.len() - position,
    {
        let ghost read = arguments_view(params@);
        match &tokens[position] {
            Token::ParamName(name) => {
                let (value, end) = match parse_expression(tokens, position + 1) {
                    Ok(parsed) => parsed,
                    Err(error) => {
                        return Err(error);
                    },
                };
                let argument = Argument { name: name.clone(), value };
                params.push(argument);
                assert(arguments_view(params@) =~= read.push(argument@));
                position = end;
            },
            _ => {
                return Ok((params, position));
            },
        }
    }
    Ok((params, position))
}
impl Clone for Token {
    fn clone(&self) -> (copy: Self)
        ensures
            copy@ == self@,
    {
        match self {
            Token::Identifier(name) => Token::Identifier(name.clone()),
            Token::Number(digits) => Token::Number(digits.clone()),
            Token::ParamName(name) => Token::ParamName(name.clone()),
            Token::NextStatement => Token::NextStatement,
            Token::Def => Token::Def,
            Token::Then => Token::Then,
            Token::OpenParen => Token::OpenParen,
            Token::CloseParen => Token::CloseParen,
            Token::OpenLambda => Token::OpenLambda,
            Token::CloseLambda => Token::CloseLambda,
        }
    }
}

} // verus!
