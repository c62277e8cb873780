use protolang::lexer::{classify, get_long_token, scan, Symbol};
use protolang::text::{characters, decimal, lines, parse_integer, same_text};
use protolang::parser::{
    parse_block, parse_expression, parse_program, parse_send_arguments, tokenize, Argument,
    Block, Definition, Expression, Message, Send, Statement, SyntaxError, Target, Token,
};

fn identifier(name: &str) -> Token {
    Token::Identifier(name.to_string())
}

fn number(digits: &str) -> Token {
    Token::Number(digits.to_string())
}

fn param(name: &str) -> Token {
    Token::ParamName(name.to_string())
}

fn parse(source: &str) -> Result<Block, SyntaxError> {
    parse_program(tokenize(source.to_string()).unwrap())
}

fn send(target: Target, name: &str, arguments: Vec<Argument>) -> Expression {
    Expression::Send(Send {
        target,
        messages: vec![Message { name: name.to_string(), arguments }],
    })
}

#[test]
fn tokenize_splits_words_numbers_and_brackets() {
    assert_eq!(
        tokenize("def x (12 add to: 3)\n[y call]".to_string()),
        Ok(vec![
            Token::Def,
            identifier("x"),
            Token::OpenParen,
            number("12"),
            identifier("add"),
            param("to"),
            number("3"),
            Token::CloseParen,
            Token::NextStatement,
            Token::OpenLambda,
            identifier("y"),
            identifier("call"),
            Token::CloseLambda,
        ])
    );
}

#[test]
fn tokenize_of_nothing_is_nothing() {
    assert_eq!(tokenize(String::new()), Ok(vec![]));
    assert_eq!(tokenize("  \t \r ".to_string()), Ok(vec![]));
}

#[test]
fn tokenize_keeps_line_breaks_and_drops_other_white_space() {
    assert_eq!(
        tokenize(" a \n\n\tb ".to_string()),
        Ok(vec![identifier("a"), Token::NextStatement, Token::NextStatement, identifier("b")])
    );
}

#[test]
fn tokenize_knows_the_keywords() {
    assert_eq!(
        tokenize("def then define thens de".to_string()),
        Ok(vec![
            Token::Def,
            Token::Then,
            identifier("define"),
            identifier("thens"),
            identifier("de"),
        ])
    );
}

#[test]
fn tokenize_reads_a_colon_into_the_parameter_name() {
    assert_eq!(tokenize("to:".to_string()), Ok(vec![param("to")]));
    assert_eq!(tokenize("def:".to_string()), Ok(vec![param("def")]));
    assert_eq!(tokenize("a:b".to_string()), Ok(vec![param("a"), identifier("b")]));
    assert_eq!(tokenize("a :".to_string()), Err(SyntaxError::UnexpectedCharacter));
}

#[test]
fn tokenize_ends_a_word_at_a_numeral_and_a_number_at_a_letter() {
    assert_eq!(tokenize("ab12cd".to_string()), Ok(vec![identifier("ab"), number("12"), identifier("cd")]));
    assert_eq!(tokenize("007".to_string()), Ok(vec![number("007")]));
}

#[test]
fn tokenize_takes_letters_and_numerals_of_any_script() {
    assert_eq!(tokenize("été".to_string()), Ok(vec![identifier("été")]));
    assert_eq!(tokenize("٣".to_string()), Ok(vec![number("٣")]));
}

#[test]
fn tokenize_rejects_other_characters() {
    assert_eq!(tokenize("1 + 2".to_string()), Err(SyntaxError::UnexpectedCharacter));
    assert_eq!(tokenize("-5".to_string()), Err(SyntaxError::UnexpectedCharacter));
    assert_eq!(tokenize(":".to_string()), Err(SyntaxError::UnexpectedCharacter));
    assert_eq!(tokenize("a_b".to_string()), Err(SyntaxError::UnexpectedCharacter));
}

#[test]
fn classify_reports_the_classes_of_a_character() {
    assert_eq!(
        classify('a'),
        Symbol { character: 'a', whitespace: false, alphabetic: true, numeric: false }
    );
    assert_eq!(
        classify('7'),
        Symbol { character: '7', whitespace: false, alphabetic: false, numeric: true }
    );
    assert_eq!(
        classify(' '),
        Symbol { character: ' ', whitespace: true, alphabetic: false, numeric: false }
    );
    assert_eq!(
        classify('\n'),
        Symbol { character: '\n', whitespace: true, alphabetic: false, numeric: false }
    );
    assert_eq!(
        classify('+'),
        Symbol { character: '+', whitespace: false, alphabetic: false, numeric: false }
    );
}

#[test]
fn scan_goes_by_the_classes_it_is_given() {
    let letter = |character| Symbol { character, whitespace: false, alphabetic: true, numeric: false };
    let numeral = |character| Symbol { character, whitespace: false, alphabetic: false, numeric: true };
    let blank = |character| Symbol { character, whitespace: true, alphabetic: false, numeric: false };
    let other = |character| Symbol { character, whitespace: false, alphabetic: false, numeric: false };
    assert_eq!(
        scan(&vec![letter('+'), letter('1'), blank('x'), numeral('a'), numeral('b')]),
        Ok(vec![identifier("+1"), number("ab")])
    );
    assert_eq!(scan(&vec![blank('\n'), other('(')]), Ok(vec![Token::NextStatement, Token::OpenParen]));
    assert_eq!(scan(&vec![letter('d'), letter('e'), letter('f')]), Ok(vec![Token::Def]));
    assert_eq!(
        scan(&vec![letter('d'), letter('e'), letter('f'), other(':')]),
        Ok(vec![param("def")])
    );
    assert_eq!(scan(&vec![other('a')]), Err(SyntaxError::UnexpectedCharacter));
    assert_eq!(scan(&vec![letter('a'), other('b')]), Err(SyntaxError::UnexpectedCharacter));
}

#[test]
fn get_long_token_says_where_the_token_ends() {
    let symbols: Vec<Symbol> = "ab: 12x".chars().map(classify).collect();
    assert_eq!(get_long_token(&symbols, 0), Some((param("ab"), 3)));
    assert_eq!(get_long_token(&symbols, 1), Some((param("b"), 3)));
    assert_eq!(get_long_token(&symbols, 2), None);
    assert_eq!(get_long_token(&symbols, 4), Some((number("12"), 6)));
    assert_eq!(get_long_token(&symbols, 6), Some((identifier("x"), 7)));
}

#[test]
fn parse_program_reads_sends_definitions_and_lambdas() {
    assert_eq!(
        parse("def f [x println]\n(2 add to: 3) println\n7"),
        Ok(Block {
            statements: vec![
                Statement::Definition(Definition {
                    target: "f".to_string(),
                    value: Expression::Lambda(Box::new(Block {
                        statements: vec![Statement::Expression(send(
                            Target::Identifier("x".to_string()),
                            "println",
                            vec![]
                        ))],
                    })),
                }),
                Statement::Expression(send(
                    Target::Expression(Box::new(send(
                        Target::Number("2".to_string()),
                        "add",
                        vec![Argument {
                            name: "to".to_string(),
                            value: Expression::Number("3".to_string()),
                        }]
                    ))),
                    "println",
                    vec![]
                )),
                Statement::Expression(Expression::Number("7".to_string())),
            ],
        })
    );
}

#[test]
fn parse_program_of_no_tokens_is_an_empty_block() {
    assert_eq!(parse_program(vec![]), Ok(Block { statements: vec![] }));
}

#[test]
fn parse_program_allows_one_line_break_at_the_end() {
    assert_eq!(
        parse("1\n"),
        Ok(Block { statements: vec![Statement::Expression(Expression::Number("1".to_string()))] })
    );
    assert_eq!(parse("1\n\n"), Err(SyntaxError::UnhandledToken));
    assert_eq!(parse("\n1"), Err(SyntaxError::UnhandledToken));
}

#[test]
fn parse_program_reads_several_arguments() {
    assert_eq!(
        parse("a m p: 1 q: b n r: 2"),
        Ok(Block {
            statements: vec![Statement::Expression(send(
                Target::Identifier("a".to_string()),
                "m",
                vec![
                    Argument { name: "p".to_string(), value: Expression::Number("1".to_string()) },
                    Argument {
                        name: "q".to_string(),
                        value: send(
                            Target::Identifier("b".to_string()),
                            "n",
                            vec![Argument {
                                name: "r".to_string(),
                                value: Expression::Number("2".to_string()),
                            }]
                        ),
                    },
                ]
            ))],
        })
    );
}

#[test]
fn parse_program_takes_any_token_for_a_closing_parenthesis() {
    let expected = Ok(Block {
        statements: vec![Statement::Expression(Expression::Number("1".to_string()))],
    });
    assert_eq!(parse("(1)"), expected);
    assert_eq!(parse("(1"), expected);
    assert_eq!(parse("(1 ]"), expected);
    assert_eq!(
        parse("(1 x y"),
        Ok(Block {
            statements: vec![Statement::Expression(send(
                Target::Number("1".to_string()),
                "x",
                vec![]
            ))],
        })
    );
    assert_eq!(
        parse("(1 ] y"),
        Ok(Block {
            statements: vec![Statement::Expression(send(
                Target::Expression(Box::new(Expression::Number("1".to_string()))),
                "y",
                vec![]
            ))],
        })
    );
}

#[test]
fn parse_program_stops_at_a_closing_bracket() {
    assert_eq!(
        parse("1 ] 2 ("),
        Ok(Block { statements: vec![Statement::Expression(Expression::Number("1".to_string()))] })
    );
    assert_eq!(
        parse_program(vec![number("1"), Token::CloseLambda, Token::Def, Token::Then]),
        Ok(Block { statements: vec![Statement::Expression(Expression::Number("1".to_string()))] })
    );
}

#[test]
fn parse_program_rejects_what_follows_a_statement() {
    assert_eq!(parse("1 println )"), Err(SyntaxError::UnexpectedToken));
    assert_eq!(parse("1 2"), Err(SyntaxError::UnexpectedToken));
    assert_eq!(parse("[1] call"), Err(SyntaxError::UnexpectedToken));
}

#[test]
fn parse_program_rejects_an_early_end() {
    assert_eq!(parse("def x"), Err(SyntaxError::UnexpectedEnd));
    assert_eq!(parse("("), Err(SyntaxError::UnexpectedEnd));
    assert_eq!(parse("a m p:"), Err(SyntaxError::UnexpectedEnd));
}

#[test]
fn parse_program_rejects_a_malformed_definition() {
    assert_eq!(parse("def 1 2"), Err(SyntaxError::MalformedDefinition));
    assert_eq!(parse("def"), Err(SyntaxError::MalformedDefinition));
    assert_eq!(parse("def def x"), Err(SyntaxError::MalformedDefinition));
}

#[test]
fn parse_program_rejects_an_unclosed_lambda() {
    assert_eq!(parse("[1 println"), Err(SyntaxError::UnclosedLambda));
    assert_eq!(parse("[1 println\n"), Err(SyntaxError::UnclosedLambda));
}

#[test]
fn parse_program_rejects_tokens_that_begin_no_expression() {
    assert_eq!(parse("x"), Err(SyntaxError::UnhandledToken));
    assert_eq!(parse(")"), Err(SyntaxError::UnhandledToken));
    assert_eq!(parse("[]"), Err(SyntaxError::UnhandledToken));
    assert_eq!(parse("then"), Err(SyntaxError::UnhandledToken));
    assert_eq!(parse("to: 1"), Err(SyntaxError::UnhandledToken));
    assert_eq!(parse("x 1"), Err(SyntaxError::UnhandledToken));
}

#[test]
fn parse_helpers_say_where_they_stop() {
    let tokens = tokenize("[a b] c d p: 1 q: 2 )".to_string()).unwrap();
    let (block, end) = parse_block(&tokens, 1).unwrap();
    assert_eq!(block.statements.len(), 1);
    assert_eq!(end, 3);
    let (lambda, end) = parse_expression(&tokens, 0).unwrap();
    assert!(matches!(lambda, Expression::Lambda(_)));
    assert_eq!(end, 4);
    let (arguments, end) = parse_send_arguments(&tokens, 6).unwrap();
    assert_eq!(arguments.len(), 2);
    assert_eq!(end, 10);
    let (none, end) = parse_send_arguments(&tokens, 10).unwrap();
    assert!(none.is_empty());
    assert_eq!(end, 10);
    assert_eq!(parse_expression(&tokens, 11), Err(SyntaxError::UnexpectedEnd));
}

#[test]
fn parse_integer_agrees_with_the_standard_library() {
    let samples = [
        "0", "7", "007", "42", "+42", "-42", "-0", "+0", "9223372036854775807",
        "9223372036854775808", "-9223372036854775808", "-9223372036854775809",
        "99999999999999999999999999", "", "+", "-", "--1", "+-1", "1-", "12a", "a12", " 1",
        "1 ", "٣", "1_000", "0x10", "1.5",
    ];
    for text in samples {
        assert_eq!(parse_integer(text), text.parse::<i64>().ok(), "for {:?}", text);
    }
}

#[test]
fn parse_integer_gives_exact_values() {
    assert_eq!(parse_integer("123"), Some(123));
    assert_eq!(parse_integer("-9223372036854775808"), Some(i64::MIN));
    assert_eq!(parse_integer("9223372036854775807"), Some(i64::MAX));
    assert_eq!(parse_integer("9223372036854775808"), None);
    assert_eq!(parse_integer("x"), None);
}

#[test]
fn characters_and_same_text_go_by_characters() {
    assert_eq!(characters("aé\n"), vec!['a', 'é', '\n']);
    assert_eq!(characters(""), Vec::<char>::new());
    assert!(same_text(&"call".to_string(), "call"));
    assert!(!same_text(&"call".to_string(), "calls"));
    assert!(!same_text(&"Call".to_string(), "call"));
    assert!(same_text(&String::new(), ""));
}

#[test]
fn decimal_agrees_with_the_standard_library() {
    let samples = [
        0, 1, -1, 9, 10, -10, 99, 100, 101, 12345, -12345, 1_000_000_007, i64::MAX, i64::MIN,
        i64::MAX - 1, i64::MIN + 1,
    ];
    for value in samples {
        assert_eq!(decimal(value), value.to_string());
        assert_eq!(parse_integer(&decimal(value)), Some(value));
    }
}

#[test]
fn decimal_gives_exact_text() {
    assert_eq!(decimal(0), "0");
    assert_eq!(decimal(-7), "-7");
    assert_eq!(decimal(1200), "1200");
    assert_eq!(decimal(i64::MIN), "-9223372036854775808");
    assert_eq!(decimal(i64::MAX), "9223372036854775807");
}

#[test]
fn lines_put_one_integer_on_each_line() {
    assert_eq!(lines(&vec![]), "");
    assert_eq!(lines(&vec![5]), "5\n");
    assert_eq!(lines(&vec![1, -2, 30]), "1\n-2\n30\n");
}

#[test]
fn clone_copies_the_whole_tree() {
    let block = parse("def f [x m p: (1 add to: 2) q: [y n]]\n(f call) println").unwrap();
    let copy = block.clone();
    assert_eq!(copy, block);
    assert_eq!(copy.statements.len(), 2);
    for statement in &block.statements {
        assert_eq!(&statement.clone(), statement);
    }
    let tokens = tokenize("def x (1 add to: 2)\n[y call]".to_string()).unwrap();
    let copies: Vec<Token> = tokens.iter().map(|token| token.clone()).collect();
    assert_eq!(copies, tokens);
}
