//! The tokenizer: one input line becomes a sequence of parenthesis markers
//! and words.
//!
//! It is a state machine over the line's characters. `lex_step` states one
//! transition, `lex_from` runs the machine from a position to the end of the
//! line, and `tokenize` is proved to compute exactly `lex(line@)`.
use vstd::prelude::*;

use crate::text::chars_of;

verus! {

/// One token of a line. Words borrow their text from the line.
#[derive(Debug, PartialEq, Eq, Clone, Copy)]
pub enum Token<'a> {
    LeftParen,
    RightParen,
    Word(&'a str),
}

/// What a token means, with a word's text as characters.
pub enum TokenView {
    LeftParen,
    RightParen,
    Word(Seq<char>),
}

impl<'a> View for Token<'a> {
    type V = TokenView;

    open spec fn view(&self) -> TokenView {
        match self {
            Token::LeftParen => TokenView::LeftParen,
            Token::RightParen => TokenView::RightParen,
            Token::Word(w) => TokenView::Word(w@),
        }
    }
}

/// The views of a sequence of tokens.
pub open spec fn tokens_view(ts: Seq<Token>) -> Seq<TokenView> {
    ts.map_values(|t: Token| t@)
}

/// Why a line could not be split into tokens.
#[derive(Debug, PartialEq, Eq, Clone, Copy, Structural)]
pub enum TokenizeError {
    /// A `(` stands inside an unquoted word.
    UnexpectedParenInWord,
    /// The line ends inside a quoted word.
    UnclosedQuote,
}

/// Where the tokenizer stands between two characters. A word's state holds
/// the index of its first character.
#[derive(Debug, PartialEq, Eq, Clone, Copy, Structural)]
pub enum TokenizerState {
    Start,
    SeparateWhitespace,
    UnquotedWord(usize),
    QuoteOpened,
    QuotedWord(usize),
}

/// Whitespace that separates words.
pub open spec fn is_blank(c: char) -> bool {
    c == ' ' || c == '\t'
}

/// The tokens emitted on reading `s[i]` in state `st`, with the next state.
pub open spec fn lex_step(s: Seq<char>, i: int, st: TokenizerState) -> Result<
    (Seq<TokenView>, TokenizerState),
    TokenizeError,
> {
    let c = s[i];
    match st {
        TokenizerState::UnquotedWord(b) => {
            if is_blank(c) {
                Ok((seq![TokenView::Word(s.subrange(b as int, i))], TokenizerState::SeparateWhitespace))
            } else if c == ')' {
                Ok(
                    (
                        seq![TokenView::Word(s.subrange(b as int, i)), TokenView::RightParen],
                        TokenizerState::SeparateWhitespace,
                    ),
                )
            } else if c == '(' {
                Err(TokenizeError::UnexpectedParenInWord)
            } else {
                Ok((seq![], st))
            }
        },
        TokenizerState::QuoteOpened => {
            if c == '\'' {
                Ok((seq![TokenView::Word(seq![])], TokenizerState::SeparateWhitespace))
            } else {
                Ok((seq![], TokenizerState::QuotedWord(i as usize)))
            }
        },
        TokenizerState::QuotedWord(b) => {
            if c == '\'' {
                Ok((seq![TokenView::Word(s.subrange(b as int, i))], TokenizerState::SeparateWhitespace))
            } else {
                Ok((seq![], st))
            }
        },
        _ => {
            if is_blank(c) {
                Ok((seq![], st))
            } else if c == '(' {
                Ok((seq![TokenView::LeftParen], TokenizerState::Start))
            } else if c == ')' {
                Ok((seq![TokenView::RightParen], st))
            } else if c == '\'' {
                Ok((seq![], TokenizerState::QuoteOpened))
            } else {
                Ok((seq![], TokenizerState::UnquotedWord(i as usize)))
            }
        },
    }
}

/// The tokens emitted when the line ends in state `st`: a pending unquoted
/// word is complete, a pending quoted word is an error.
pub open spec fn lex_end(s: Seq<char>, st: TokenizerState) -> Result<Seq<TokenView>, TokenizeError> {
    match st {
        TokenizerState::UnquotedWord(b) => Ok(seq![TokenView::Word(s.subrange(b as int, s.len() as int))]),
        TokenizerState::QuoteOpened => Err(TokenizeError::UnclosedQuote),
        TokenizerState::QuotedWord(_) => Err(TokenizeError::UnclosedQuote),
        _ => Ok(seq![]),
    }
}

/// `r` with the tokens `pre` put in front, when it is a success.
pub open spec fn prepend(pre: Seq<TokenView>, r: Result<Seq<TokenView>, TokenizeError>) -> Result<
    Seq<TokenView>,
    TokenizeError,
> {
    match r {
        Ok(rest) => Ok(pre + rest),
        Err(e) => Err(e),
    }
}

/// The tokens of `s` from position `i` on, when the machine stands in `st`.
pub open spec fn lex_from(s: Seq<char>, i: int, st: TokenizerState) -> Result<
    Seq<TokenView>,
    TokenizeError,
>
    decreases s.len() - i,
{
    if i >= s.len() {
        lex_end(s, st)
    } else {
        match lex_step(s, i, st) {
            Err(e) => Err(e),
            Ok((out, next)) => prepend(out, lex_from(s, i + 1, next)),
        }
    }
}

/// The tokens of the line `s`.
pub open spec fn lex(s: Seq<char>) -> Result<Seq<TokenView>, TokenizeError> {
    lex_from(s, 0, TokenizerState::Start)
}

/// A state that the machine can reach at position `i`: a word starts before it.
pub open spec fn state_ok(st: TokenizerState, i: int) -> bool {
    match st {
        TokenizerState::UnquotedWord(b) => b < i,
        TokenizerState::QuotedWord(b) => b < i,
        _ => true,
    }
}

pub proof fn lemma_prepend_twice(a: Seq<TokenView>, b: Seq<TokenView>, r: Result<Seq<TokenView>, TokenizeError>)
    ensures
        prepend(a, prepend(b, r)) == prepend(a + b, r),
{
    if let Ok(rest) = r {
        assert(a + (b + rest) =~= (a + b) + rest);
    }
}

/// Splits `line` into tokens.
///
/// Parentheses outside quotes are tokens of their own; words end at
/// whitespace or at `)`; a quoted word runs to the next quote and keeps
/// whitespace and parentheses. Balance of parentheses is not checked here.
pub fn tokenize<'a>(line: &'a str) -> (r: Result<Vec<Token<'a>>, TokenizeError>)
    ensures
        match r {
            Ok(ts) => lex(line@) == Ok::<Seq<TokenView>, TokenizeError>(tokens_view(ts@)),
            Err(e) => lex(line@) == Err::<Seq<TokenView>, TokenizeError>(e),
        },
{
    let cs = chars_of(line);
    let ghost s = line@;
    let mut state = TokenizerState::Start;
    let mut tokens: Vec<Token<'a>> = Vec::new();
    let mut i: usize = 0;
    while i < cs.len()
        invariant
            cs@ == s,
            s == line@,
            i <= cs.len(),
            state_ok(state, i as int),
            lex(s) == prepend(tokens_view(tokens@), lex_from(s, i as int, state)),
        decreases cs.len() - i,
    {
        let c = cs[i];
        let ghost before = tokens_view(tokens@);
        let ghost old_state = state;
        let mut next = state;
        match state {
            TokenizerState::UnquotedWord(b) => {
                if c == ' ' || c == '\t' {
                    tokens.push(Token::Word(line.substring_char(b, i)));
                    next = TokenizerState::SeparateWhitespace;
                } else if c == ')' {
                    tokens.push(Token::Word(line.substring_char(b, i)));
                    tokens.push(Token::RightParen);
                    next = TokenizerState::SeparateWhitespace;
                } else if c == '(' {
                    return Err(TokenizeError::UnexpectedParenInWord);
                }
            },
            TokenizerState::QuoteOpened => {
                if c == '\'' {
                    let empty = line.substring_char(i, i);
                    assert(empty@ =~= Seq::<char>::empty());
                    tokens.push(Token::Word(empty));
                    next = TokenizerState::SeparateWhitespace;
                } else {
                    next = TokenizerState::QuotedWord(i);
                }
            },
            TokenizerState::QuotedWord(b) => {
                if c == '\'' {
                    tokens.push(Token::Word(line.substring_char(b, i)));
                    next = TokenizerState::SeparateWhitespace;
                }
            },
            _ => {
                if c == ' ' || c == '\t' {
                } else if c == '(' {
                    tokens.push(Token::LeftParen);
                    next = TokenizerState::Start;
                } else if c == ')' {
                    tokens.push(Token::RightParen);
                } else if c == '\'' {
                    next = TokenizerState::QuoteOpened;
                } else {
                    next = TokenizerState::UnquotedWord(i);
                }
            },
        }
        proof {
            let (out, st2) = lex_step(s, i as int, old_state)->Ok_0;
            assert(tokens_view(tokens@) =~= before + out);
            assert(next == st2);
            lemma_prepend_twice(before, out, lex_from(s, i + 1, st2));
        }
        state = next;
        i = i + 1;
    }
    let ghost before = tokens_view(tokens@);
    match state {
        TokenizerState::UnquotedWord(b) => {
            tokens.push(Token::Word(line.substring_char(b, cs.len())));
        },
        TokenizerState::QuoteOpened => {
            return Err(TokenizeError::UnclosedQuote);
        },
        TokenizerState::QuotedWord(_) => {
            return Err(TokenizeError::UnclosedQuote);
        },
        _ => {},
    }
    assert(tokens_view(tokens@) =~= before + lex_end(s, state)->Ok_0);
    Ok(tokens)
}

} // verus!
