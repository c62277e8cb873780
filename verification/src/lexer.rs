//! From program text to tokens.

use vstd::prelude::*;
use crate::text::{characters, same_text};
use crate::parser::{tokens_view, SyntaxError, Token, TokenView};

verus! {

/// Whether `char::is_whitespace` holds of a character.
pub uninterp spec fn whitespace(character: char) -> bool;

/// Whether `char::is_alphabetic` holds of a character.
pub uninterp spec fn alphabetic(character: char) -> bool;

/// Whether `char::is_numeric` holds of a character.
pub uninterp spec fn numeric(character: char) -> bool;

/// `char::is_whitespace`: its answer depends on the character alone; it is known here by the
/// name `whitespace` and nothing more is claimed of it.
pub assume_specification[ char::is_whitespace ](character: char) -> (answer: bool)
    ensures
        answer == whitespace(character),
;

/// `char::is_alphabetic`: its answer depends on the character alone; it is known here by the
/// name `alphabetic` and nothing more is claimed of it.
pub assume_specification[ char::is_alphabetic ](character: char) -> (answer: bool)
    ensures
        answer == alphabetic(character),
;

/// `char::is_numeric`: its answer depends on the character alone; it is known here by the
/// name `numeric` and nothing more is claimed of it.
pub assume_specification[ char::is_numeric ](character: char) -> (answer: bool)
    ensures
        answer == numeric(character),
;

/// A character together with the classes it belongs to.
#[derive(Debug, Clone, Copy, PartialEq, Eq, Structural)]
pub struct Symbol {
    pub character: char,
    pub whitespace: bool,
    pub alphabetic: bool,
    pub numeric: bool,
}

/// The symbol of a character: the character with its classes.
pub open spec fn symbol_of(character: char) -> Symbol {
    Symbol {
        character,
        whitespace: whitespace(character),
        alphabetic: alphabetic(character),
        numeric: numeric(character),
    }
}

/// The symbols of a text, in order.
pub open spec fn symbols_of(text: Seq<char>) -> Seq<Symbol> {
    Seq::new(text.len(), |i: int| symbol_of(text[i]))
}

/// A token and the number of symbols that it spans.
pub struct Lexeme {
    pub token: TokenView,
    pub length: nat,
}

/// How many symbols in a row, from `start` on, are letters.
pub open spec fn letters(symbols: Seq<Symbol>, start: int) -> nat
    decreases symbols.len() - start,
{
    if 0 <= start < symbols.len() && symbols[start].alphabetic {
        1 + letters(symbols, start + 1)
    } else {
        0
    }
}

/// How many symbols in a row, from `start` on, are numerals.
pub open spec fn numerals(symbols: Seq<Symbol>, start: int) -> nat
    decreases symbols.len() - start,
{
    if 0 <= start < symbols.len() && symbols[start].numeric {
        1 + numerals(symbols, start + 1)
    } else {
        0
    }
}

/// The characters of the symbols from `from` up to `to`.
pub open spec fn text_of(symbols: Seq<Symbol>, from: int, to: int) -> Seq<char> {
    Seq::new((to - from) as nat, |i: int| symbols[from + i].character)
}

/// The word or number that begins at `start`. A letter begins a word, which runs as far as the
/// letters do: followed by a colon, which then belongs to it, it names a parameter; otherwise
/// it is a keyword or an identifier. A numeral begins a number, which runs as far as
/// the numerals do. No other symbol begins a token here.
pub open spec fn long_token(symbols: Seq<Symbol>, start: int) -> Option<Lexeme> {
    if symbols[start].alphabetic {
        let end = start + 1 + letters(symbols, start + 1);
        let name = text_of(symbols, start, end);
        if end < symbols.len() && symbols[end].character == ':' {
            Some(Lexeme { token: TokenView::ParamName(name), length: (end + 1 - start) as nat })
        } else if name == "def"@ {
            Some(Lexeme { token: TokenView::Def, length: (end - start) as nat })
        } else if name == "then"@ {
            Some(Lexeme { token: TokenView::Then, length: (end - start) as nat })
        } else {
            Some(Lexeme { token: TokenView::Identifier(name), length: (end - start) as nat })
        }
    } else if symbols[start].numeric {
        let end = start + 1 + numerals(symbols, start + 1);
        Some(
            Lexeme {
                token: TokenView::Number(text_of(symbols, start, end)),
                length: (end - start) as nat,
            },
        )
    } else {
        None
    }
}

/// The token that begins at `start`.
pub open spec fn token_at(symbols: Seq<Symbol>, start: int) -> Option<Lexeme> {
    let character = symbols[start].character;
    if character == '\n' {
        Some(Lexeme { token: TokenView::NextStatement, length: 1 })
    } else if character == '(' {
        Some(Lexeme { token: TokenView::OpenParen, length: 1 })
    } else if character == ')' {
        Some(Lexeme { token: TokenView::CloseParen, length: 1 })
    } else if character == '[' {
        Some(Lexeme { token: TokenView::OpenLambda, length: 1 })
    } else if character == ']' {
        Some(Lexeme { token: TokenView::CloseLambda, length: 1 })
    } else {
        long_token(symbols, start)
    }
}

/// White space other than a line break separates tokens and is no token itself.
pub open spec fn skipped(symbol: Symbol) -> bool {
    symbol.character != '\n' && symbol.whitespace
}

/// A run of letters is no longer than what is left of the symbols.
pub proof fn lemma_letters_bound(symbols: Seq<Symbol>, start: int)
    requires
        0 <= start <= symbols.len(),
    ensures
        start + letters(symbols, start) <= symbols.len(),
    decreases symbols.len() - start,
{
    if start < symbols.len() && symbols[start].alphabetic {
        lemma_letters_bound(symbols, start + 1);
    }
}

/// A run of numerals is no longer than what is left of the symbols.
pub proof fn lemma_numerals_bound(symbols: Seq<Symbol>, start: int)
    requires
        0 <= start <= symbols.len(),
    ensures
        start + numerals(symbols, start) <= symbols.len(),
    decreases symbols.len() - start,
{
    if start < symbols.len() && symbols[start].numeric {
        lemma_numerals_bound(symbols, start + 1);
    }
}

/// A token spans at least one symbol and at most those that are left, but for the colon of a
/// parameter name, which is among them too.
pub proof fn lemma_token_length(symbols: Seq<Symbol>, start: int)
    requires
        0 <= start < symbols.len(),
    ensures
        token_at(symbols, start) matches Some(lexeme) ==> 1 <= lexeme.length && start
            + lexeme.length <= symbols.len(),
{
    lemma_letters_bound(symbols, start + 1);
    lemma_numerals_bound(symbols, start + 1);
}

/// The tokens of the symbols from `start` on, or the error at the first symbol that begins
/// no token.
pub open spec fn tokens_from(symbols: Seq<Symbol>, start: int) -> Result<Seq<TokenView>, SyntaxError>
    decreases symbols.len() - start,
{
    if start < 0 || start >= symbols.len() {
        Ok(Seq::empty())
    } else if skipped(symbols[start]) {
        tokens_from(symbols, start + 1)
    } else {
        match token_at(symbols, start) {
            None => Err(SyntaxError::UnexpectedCharacter),
            Some(lexeme) => {
                proof {
                    lemma_token_length(symbols, start);
                }
                match tokens_from(symbols, start + lexeme.length) {
                    Ok(rest) => Ok(seq![lexeme.token] + rest),
                    Err(error) => Err(error),
                }
            },
        }
    }
}

/// The tokens of a sequence of symbols.
pub open spec fn tokens_of(symbols: Seq<Symbol>) -> Result<Seq<TokenView>, SyntaxError> {
    tokens_from(symbols, 0)
}

/// The tokens read so far, followed by what the rest of the symbols gives.
pub open spec fn followed_by(
    tokens: Seq<TokenView>,
    rest: Result<Seq<TokenView>, SyntaxError>,
) -> Result<Seq<TokenView>, SyntaxError> {
    match rest {
        Ok(more) => Ok(tokens + more),
        Err(error) => Err(error),
    }
}

/// Classifies a character.
pub fn classify(character: char) -> (symbol: Symbol)
    ensures
        symbol == symbol_of(character),
{
    Symbol {
        character,
        whitespace: character.is_whitespace(),
        alphabetic: character.is_alphabetic(),
        numeric: character.is_numeric(),
    }
}

/// Reads the word or number that begins at `start`, and says where the next token may begin.
pub fn get_long_token(symbols: &Vec<Symbol>, start: usize) -> (found: Option<(Token, usize)>)
    requires
        start < symbols.len(),
    ensures
        match found {
            Some((token, next)) => start < next <= symbols.len() && long_token(
                symbols@,
                start as int,
            ) == Some(Lexeme { token: token@, length: (next - start) as nat }),
            None => long_token(symbols@, start as int) is None,
        },
{
    let first = symbols[start];
    if first.alphabetic {
        let mut name = String::new();
        name.push(first.character);
        let mut end: usize = start + 1;
        while end < symbols.len() && symbols[end].alphabetic
            invariant
                start < end <= symbols.len(),
                name@ == text_of(symbols@, start as int, end as int),
                letters(symbols@, start + 1) == (end - start - 1) + letters(symbols@, end as int),
            decreases symbols.len() - end,
        {
            name.push(symbols[end].character);
            end += 1;
        }
        if end < symbols.len() && symbols[end].character == ':' {
            return Some((Token::ParamName(name), end + 1));
        }
        if same_text(&name, "def") {
            Some((Token::Def, end))
        } else if same_text(&name, "then") {
            Some((Token::Then, end))
        } else {
            Some((Token::Identifier(name), end))
        }
    } else if first.numeric {
        let mut number = String::new();
        number.push(first.character);
        let mut end: usize = start + 1;
        while end < symbols.len() && symbols[end].numeric
            invariant
                start < end <= symbols.len(),
                number@ == text_of(symbols@, start as int, end as int),
                numerals(symbols@, start + 1) == (end - start - 1) + numerals(symbols@, end as int),
            decreases symbols.len() - end,
        {
            number.push(symbols[end].character);
            end += 1;
        }
        Some((Token::Number(number), end))
    } else {
        None
    }
}

/// Reads the token that begins at `start`, and says where the next token may begin.
fn get_token(symbols: &Vec<Symbol>, start: usize) -> (found: Option<(Token, usize)>)
    requires
        start < symbols.len(),
    ensures
        match found {
            Some((token, next)) => start < next <= symbols.len() && token_at(
                symbols@,
                start as int,
            ) == Some(Lexeme { token: token@, length: (next - start) as nat }),
            None => token_at(symbols@, start as int) is None,
        },
{
    let character = symbols[start].character;
    if character == '\n' {
        Some((Token::NextStatement, start + 1))
    } else if character == '(' {
        Some((Token::OpenParen, start + 1))
    } else if character == ')' {
        Some((Token::CloseParen, start + 1))
    } else if character == '[' {
        Some((Token::OpenLambda, start + 1))
    } else if character == ']' {
        Some((Token::CloseLambda, start + 1))
    } else {
        get_long_token(symbols, start)
    }
}

/// Splits classified characters into tokens.
pub fn scan(symbols: &Vec<Symbol>) -> (result: Result<Vec<Token>, SyntaxError>)
    ensures
        match result {
            Ok(tokens) => tokens_of(symbols@) == Ok::<Seq<TokenView>, SyntaxError>(
                tokens_view(tokens@),
            ),
            Err(error) => tokens_of(symbols@) == Err::<Seq<TokenView>, SyntaxError>(error),
        },
{
    let mut tokens: Vec<Token> = Vec::new();
    let mut i: usize = 0;
    while i < symbols.len()
        invariant
            i <= symbols.len(),
            tokens_of(symbols@) == followed_by(tokens_view(tokens@), tokens_from(symbols@, i as int)),
        decreases symbols.len() - i,
    {
        let symbol = symbols[i];
        if symbol.character != '\n' && symbol.whitespace {
            i += 1;
        } else {
            match get_token(symbols, i) {
                Some((token, next)) => {
                    proof {
                        let before = tokens_view(tokens@);
                        let after = tokens_view(tokens@.push(token));
                        if let Ok(rest) = tokens_from(symbols@, next as int) {
                            assert(before + (seq![token@] + rest) =~= after + rest);
                        }
                    }
                    tokens.push(token);
                    i = next;
                },
                None => {
                    return Err(SyntaxError::UnexpectedCharacter);
                },
            }
        }
    }
    Ok(tokens)
}

/// Splits a program text into tokens.
pub fn tokenize(code: String) -> (result: Result<Vec<Token>, SyntaxError>)
    ensures
        match result {
            Ok(tokens) => tokens_of(symbols_of(code@)) == Ok::<Seq<TokenView>, SyntaxError>(
                tokens_view(tokens@),
            ),
            Err(error) => tokens_of(symbols_of(code@)) == Err::<Seq<TokenView>, SyntaxError>(error),
        },
{
    let chars = characters(code.as_str());
    let mut symbols: Vec<Symbol> = Vec::new();
    let mut i: usize = 0;
    while i < chars.len()
        invariant
            i <= chars.len(),
            chars@ == code@,
            symbols@ == symbols_of(code@.take(i as int)),
        decreases chars.len() - i,
    {
        symbols.push(classify(chars[i]));
        i += 1;
    }
    assert(code@.take(i as int) =~= code@);
    scan(&symbols)
}

} // verus!
