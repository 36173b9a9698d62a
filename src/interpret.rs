//! From a line of text to the evaluation that runs it.
use vstd::prelude::*;

use crate::evaluator::{Evaluation, plan};
use crate::parser::{ParseError, parse, parse_tokens};
use crate::tokenizer::{TokenView, TokenizeError, lex, tokenize};

verus! {

/// Why a line is not run.
#[derive(Debug, PartialEq, Eq, Clone, Copy, Structural)]
pub enum ReadError {
    /// The line could not be split into tokens.
    Tokenize(TokenizeError),
    /// The tokens do not form a command line.
    Parse(ParseError),
}

/// Reads one line: splits it into tokens, builds its command tree and starts
/// its evaluation. A line that fails to tokenize is not parsed.
pub fn read(command_line: &str) -> (r: Result<Evaluation, ReadError>)
    ensures
        match r {
            Ok(ev) => {
                &&& lex(command_line@) matches Ok(toks)
                &&& parse_tokens(toks) matches Ok(ps)
                &&& ev@.steps == plan(ps)
                &&& ev@.outputs.len() == 0
                &&& ev.well_formed()
            },
            Err(ReadError::Tokenize(e)) => lex(command_line@) == Err::<Seq<TokenView>, TokenizeError>(
                e,
            ),
            Err(ReadError::Parse(e)) => {
                &&& lex(command_line@) matches Ok(toks)
                &&& parse_tokens(toks) == Err::<Seq<crate::parser::ParamView>, ParseError>(e)
            },
        },
{
    let tokens = match tokenize(command_line) {
        Ok(tokens) => tokens,
        Err(e) => {
            return Err(ReadError::Tokenize(e));
        },
    };
    let tree = match parse(&tokens) {
        Ok(tree) => tree,
        Err(e) => {
            return Err(ReadError::Parse(e));
        },
    };
    Ok(Evaluation::new(&tree))
}

} // verus!
