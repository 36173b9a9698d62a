//! The parser: a token sequence becomes a tree of commands.
//!
//! ```text
//! CommandLine := Param+
//! Param       := Word | '(' CommandLine ')'
//! ```
//!
//! `parse_level` reads one level of the tree, from a position to the `)` that
//! closes it or to the end of the tokens, and says which of the two ended it.
//! A `(` starts a nested level read by the same function.
use vstd::prelude::*;

use crate::tokenizer::{Token, TokenView, tokens_view};

verus! {

broadcast use vstd::seq_lib::group_seq_properties;

/// One element of a command line: a literal word, or a nested command whose
/// output takes its place.
#[derive(Debug)]
pub enum Param<'a> {
    Arg(&'a str),
    SubCommand(CommandLine<'a>),
}

/// A command and its arguments, in the order written. The first element is
/// the command's name.
#[derive(Debug)]
pub struct CommandLine<'a> {
    pub params: Vec<Param<'a>>,
}

/// The mathematical form of a `Param`.
pub enum ParamView {
    Arg(Seq<char>),
    SubCommand(Seq<ParamView>),
}

/// The view of one parameter.
pub open spec fn param_view(p: Param) -> ParamView
    decreases p,
{
    match p {
        Param::Arg(w) => ParamView::Arg(w@),
        Param::SubCommand(cl) => ParamView::SubCommand(params_view(cl.params@)),
    }
}

/// The views of a sequence of parameters.
pub open spec fn params_view(ps: Seq<Param>) -> Seq<ParamView>
    decreases ps,
{
    if ps.len() == 0 {
        seq![]
    } else {
        params_view(ps.drop_last()).push(param_view(ps.last()))
    }
}

impl<'a> View for CommandLine<'a> {
    type V = Seq<ParamView>;

    open spec fn view(&self) -> Seq<ParamView> {
        params_view(self.params@)
    }
}

/// Why a token sequence is not a command line.
#[derive(Debug, PartialEq, Eq, Clone, Copy, Structural)]
pub enum ParseError {
    /// A `)` closes a command that has no element: empty commands are not allowed.
    UnexpectedRightParen,
    /// A `(` is never closed, or a `)` has no `(` to close.
    UnterminatedSubcommand,
    /// The line holds no command.
    EmptyCommandLine,
}

/// How the reading of one level ended.
pub enum LevelEnd {
    /// At a `)`; reading goes on at the position given, just after it.
    Closed(Seq<ParamView>, int),
    /// At the end of the tokens.
    Exhausted(Seq<ParamView>),
}

/// Reads one level from position `i`, where the elements `acc` have been read
/// already.
///
/// The test `i < j <= toks.len()` after a nested level never fails
/// (`lemma_closed_advances`); it lets the definition be seen to terminate.
pub open spec fn parse_level(toks: Seq<TokenView>, i: int, acc: Seq<ParamView>) -> Result<
    LevelEnd,
    ParseError,
>
    decreases toks.len() - i,
{
    if i < 0 || i >= toks.len() {
        Ok(LevelEnd::Exhausted(acc))
    } else {
        match toks[i] {
            TokenView::Word(w) => parse_level(toks, i + 1, acc.push(ParamView::Arg(w))),
            TokenView::RightParen => {
                if acc.len() == 0 {
                    Err(ParseError::UnexpectedRightParen)
                } else {
                    Ok(LevelEnd::Closed(acc, i + 1))
                }
            },
            TokenView::LeftParen => {
                match parse_level(toks, i + 1, seq![]) {
                    Err(e) => Err(e),
                    Ok(LevelEnd::Exhausted(_)) => Err(ParseError::UnterminatedSubcommand),
                    Ok(LevelEnd::Closed(inner, j)) => {
                        if i < j <= toks.len() {
                            parse_level(toks, j, acc.push(ParamView::SubCommand(inner)))
                        } else {
                            Err(ParseError::UnterminatedSubcommand)
                        }
                    },
                }
            },
        }
    }
}

/// The command line that the tokens `toks` form: the top level must run to
/// the end of the tokens and hold at least one element.
pub open spec fn parse_tokens(toks: Seq<TokenView>) -> Result<Seq<ParamView>, ParseError> {
    match parse_level(toks, 0, seq![]) {
        Err(e) => Err(e),
        Ok(LevelEnd::Closed(_, _)) => Err(ParseError::UnterminatedSubcommand),
        Ok(LevelEnd::Exhausted(ps)) => {
            if ps.len() == 0 {
                Err(ParseError::EmptyCommandLine)
            } else {
                Ok(ps)
            }
        },
    }
}

/// A level that closes at a `)` ends after its start and within the tokens.
pub proof fn lemma_closed_advances(toks: Seq<TokenView>, i: int, acc: Seq<ParamView>)
    ensures
        parse_level(toks, i, acc) matches Ok(LevelEnd::Closed(_, j)) ==> i < j <= toks.len(),
    decreases toks.len() - i,
{
    if 0 <= i < toks.len() {
        match toks[i] {
            TokenView::Word(w) => lemma_closed_advances(toks, i + 1, acc.push(ParamView::Arg(w))),
            TokenView::RightParen => {},
            TokenView::LeftParen => {
                if let Ok(LevelEnd::Closed(inner, j)) = parse_level(toks, i + 1, seq![]) {
                    if i < j <= toks.len() {
                        lemma_closed_advances(toks, j, acc.push(ParamView::SubCommand(inner)));
                    }
                }
            },
        }
    }
}

/// How `parse_level` ended, with the elements read.
pub enum LevelResult<'a> {
    Closed(CommandLine<'a>, usize),
    Exhausted(CommandLine<'a>),
}

/// The view of a `LevelResult`.
pub open spec fn level_view(r: LevelResult) -> LevelEnd {
    match r {
        LevelResult::Closed(cl, j) => LevelEnd::Closed(cl@, j as int),
        LevelResult::Exhausted(cl) => LevelEnd::Exhausted(cl@),
    }
}

proof fn lemma_params_view_push<'a>(ps: Seq<Param<'a>>, p: Param<'a>)
    ensures
        params_view(ps.push(p)) == params_view(ps).push(param_view(p)),
{
    assert(ps.push(p).drop_last() =~= ps);
}

pub proof fn lemma_params_view_len<'a>(ps: Seq<Param<'a>>)
    ensures
        params_view(ps).len() == ps.len(),
    decreases ps.len(),
{
    if ps.len() > 0 {
        lemma_params_view_len(ps.drop_last());
    }
}

/// The view of the `k`-th parameter is the `k`-th element of the views.
pub proof fn lemma_params_view_index<'a>(ps: Seq<Param<'a>>, k: int)
    requires
        0 <= k < ps.len(),
    ensures
        params_view(ps).len() == ps.len(),
        params_view(ps)[k] == param_view(ps[k]),
    decreases ps.len(),
{
    lemma_params_view_len(ps);
    if k < ps.len() - 1 {
        lemma_params_view_index(ps.drop_last(), k);
    }
}

/// Reads one level of the tree from `start`: the elements up to the `)` that
/// closes the level, or up to the end of the tokens.
pub fn parse_command_line<'a>(tokens: &Vec<Token<'a>>, start: usize) -> (r: Result<
    LevelResult<'a>,
    ParseError,
>)
    requires
        start <= tokens.len(),
    ensures
        match r {
            Ok(res) => parse_level(tokens_view(tokens@), start as int, seq![]) == Ok::<
                LevelEnd,
                ParseError,
            >(level_view(res)),
            Err(e) => parse_level(tokens_view(tokens@), start as int, seq![]) == Err::<
                LevelEnd,
                ParseError,
            >(e),
        },
        r matches Ok(LevelResult::Closed(_, j)) ==> start < j <= tokens.len(),
    decreases tokens.len() - start,
{
    let ghost toks = tokens_view(tokens@);
    let mut params: Vec<Param<'a>> = Vec::new();
    let mut i: usize = start;
    assert(params_view(params@) =~= Seq::<ParamView>::empty());
    while i < tokens.len()
        invariant
            toks == tokens_view(tokens@),
            start <= i <= tokens.len(),
            parse_level(toks, start as int, seq![]) == parse_level(toks, i as int, params_view(params@)),
        decreases tokens.len() - i,
    {
        match tokens[i] {
            Token::Word(w) => {
                proof {
                    lemma_params_view_push(params@, Param::Arg(w));
                }
                params.push(Param::Arg(w));
                i = i + 1;
            },
            Token::RightParen => {
                if params.len() == 0 {
                    proof {
                        lemma_params_view_len(params@);
                    }
                    return Err(ParseError::UnexpectedRightParen);
                } else {
                    proof {
                        lemma_params_view_len(params@);
                    }
                    return Ok(LevelResult::Closed(CommandLine { params }, i + 1));
                }
            },
            Token::LeftParen => {
                match parse_command_line(tokens, i + 1) {
                    Err(e) => {
                        return Err(e);
                    },
                    Ok(LevelResult::Exhausted(_)) => {
                        return Err(ParseError::UnterminatedSubcommand);
                    },
                    Ok(LevelResult::Closed(inner, j)) => {
                        let p = Param::SubCommand(inner);
                        proof {
                            lemma_params_view_push(params@, p);
                        }
                        params.push(p);
                        i = j;
                    },
                }
            },
        }
    }
    Ok(LevelResult::Exhausted(CommandLine { params }))
}

/// Builds the command tree of a token sequence.
///
/// The whole sequence must form one command line: every `(` closed by a
/// matching `)`, no `)` without its `(`, and no command, nested or not,
/// without elements.
pub fn parse<'a>(tokens: &Vec<Token<'a>>) -> (r: Result<CommandLine<'a>, ParseError>)
    ensures
        match r {
            Ok(cl) => parse_tokens(tokens_view(tokens@)) == Ok::<Seq<ParamView>, ParseError>(cl@),
            Err(e) => parse_tokens(tokens_view(tokens@)) == Err::<Seq<ParamView>, ParseError>(e),
        },
{
    match parse_command_line(tokens, 0) {
        Err(e) => Err(e),
        Ok(LevelResult::Closed(_, _)) => Err(ParseError::UnterminatedSubcommand),
        Ok(LevelResult::Exhausted(cl)) => {
            if cl.params.len() == 0 {
                proof {
                    lemma_params_view_len(cl.params@);
                }
                Err(ParseError::EmptyCommandLine)
            } else {
                proof {
                    lemma_params_view_len(cl.params@);
                }
                Ok(cl)
            }
        },
    }
}

} // verus!

verus! {

/// The tokens that spell the parameters `ps`, each nested command in parentheses.
pub open spec fn flatten(ps: Seq<ParamView>) -> Seq<TokenView>
    decreases ps,
{
    if ps.len() == 0 {
        seq![]
    } else {
        param_tokens(ps[0]) + flatten(ps.drop_first())
    }
}

/// The tokens that spell one parameter.
pub open spec fn param_tokens(p: ParamView) -> Seq<TokenView>
    decreases p,
{
    match p {
        ParamView::Arg(w) => seq![TokenView::Word(w)],
        ParamView::SubCommand(inner) => seq![TokenView::LeftParen] + flatten(inner) + seq![
            TokenView::RightParen,
        ],
    }
}

/// Every nested command among `ps`, at any depth, has at least one element.
pub open spec fn nested_non_empty(ps: Seq<ParamView>) -> bool
    decreases ps,
{
    ps.len() == 0 || (param_non_empty(ps[0]) && nested_non_empty(ps.drop_first()))
}

/// A word, or a nested command with at least one element, all of whose own
/// nested commands have elements too.
pub open spec fn param_non_empty(p: ParamView) -> bool
    decreases p,
{
    match p {
        ParamView::Arg(_) => true,
        ParamView::SubCommand(inner) => inner.len() > 0 && nested_non_empty(inner),
    }
}

/// A command tree that a parse can produce: no command, top-level or nested,
/// is empty.
pub open spec fn well_formed(ps: Seq<ParamView>) -> bool {
    ps.len() > 0 && nested_non_empty(ps)
}

pub proof fn lemma_flatten_cons(p: ParamView, rest: Seq<ParamView>)
    ensures
        flatten(seq![p] + rest) == param_tokens(p) + flatten(rest),
        nested_non_empty(seq![p] + rest) == (param_non_empty(p) && nested_non_empty(rest)),
{
    assert((seq![p] + rest).drop_first() =~= rest);
}

/// Reading the spelled-out parameters `ps` from position `i` adds them to
/// what was read and goes on after them.
proof fn lemma_parse_level_flatten(
    toks: Seq<TokenView>,
    i: int,
    acc: Seq<ParamView>,
    ps: Seq<ParamView>,
)
    requires
        nested_non_empty(ps),
        0 <= i,
        i + flatten(ps).len() <= toks.len(),
        toks.subrange(i, i + flatten(ps).len()) == flatten(ps),
    ensures
        parse_level(toks, i, acc) == parse_level(toks, i + flatten(ps).len(), acc + ps),
    decreases ps,
{
    if ps.len() == 0 {
        assert(acc + ps =~= acc);
    } else {
        let p = ps[0];
        let rest = ps.drop_first();
        let n0 = param_tokens(p).len() as int;
        let n = flatten(ps).len() as int;
        assert(toks.subrange(i, i + n0) =~= param_tokens(p)) by {
            assert(toks.subrange(i, i + n0) =~= toks.subrange(i, i + n).subrange(0, n0));
        }
        assert(toks.subrange(i + n0, i + n) =~= flatten(rest)) by {
            assert(toks.subrange(i + n0, i + n) =~= toks.subrange(i, i + n).subrange(n0, n));
        }
        lemma_parse_level_flatten(toks, i + n0, acc.push(p), rest);
        assert(acc.push(p) + rest =~= acc + ps);
        match p {
            ParamView::Arg(w) => {
                assert(toks[i] == toks.subrange(i, i + n0)[0]);
            },
            ParamView::SubCommand(inner) => {
                let m = flatten(inner).len() as int;
                assert(param_non_empty(p));
                assert(inner.len() > 0 && nested_non_empty(inner));
                assert(n0 == m + 2);
                assert(toks[i] == toks.subrange(i, i + n0)[0]);
                assert(toks.subrange(i + 1, i + 1 + m) =~= toks.subrange(i, i + n0).subrange(1, 1 + m));
                assert(param_tokens(p).subrange(1, 1 + m) =~= flatten(inner));
                lemma_parse_level_flatten(toks, i + 1, seq![], inner);
                assert(seq![] + inner =~= inner);
                assert(toks[i + 1 + m] == toks.subrange(i, i + n0)[1 + m]);
                assert(parse_level(toks, i + 1 + m, inner) == Ok::<LevelEnd, ParseError>(
                    LevelEnd::Closed(inner, i + n0),
                ));
                assert(parse_level(toks, i + 1, seq![]) == Ok::<LevelEnd, ParseError>(
                    LevelEnd::Closed(inner, i + n0),
                ));
            },
        }
    }
}

/// Every well-formed command tree is read back from the tokens that spell it.
pub proof fn lemma_parse_inverts_flatten(ps: Seq<ParamView>)
    requires
        well_formed(ps),
    ensures
        parse_tokens(flatten(ps)) == Ok::<Seq<ParamView>, ParseError>(ps),
{
    let toks = flatten(ps);
    assert(toks.subrange(0, toks.len() as int) =~= toks);
    lemma_parse_level_flatten(toks, 0, seq![], ps);
    assert(seq![] + ps =~= ps);
}

} // verus!

verus! {

/// The elements of `res` after its first `k`.
pub open spec fn read_after(res: Seq<ParamView>, k: int) -> Seq<ParamView> {
    res.subrange(k, res.len() as int)
}

/// What reading one level from `i` produces: the elements read before, then
/// well-formed elements that spell the tokens consumed.
proof fn lemma_parse_level_sound(toks: Seq<TokenView>, i: int, acc: Seq<ParamView>)
    requires
        0 <= i <= toks.len(),
    ensures
        parse_level(toks, i, acc) matches Ok(LevelEnd::Exhausted(res)) ==> {
            &&& res.len() >= acc.len()
            &&& res.subrange(0, acc.len() as int) == acc
            &&& nested_non_empty(read_after(res, acc.len() as int))
            &&& flatten(read_after(res, acc.len() as int)) == toks.subrange(i, toks.len() as int)
        },
        parse_level(toks, i, acc) matches Ok(LevelEnd::Closed(res, j)) ==> {
            &&& res.len() > 0
            &&& res.len() >= acc.len()
            &&& res.subrange(0, acc.len() as int) == acc
            &&& i < j <= toks.len()
            &&& toks[j - 1] == TokenView::RightParen
            &&& nested_non_empty(read_after(res, acc.len() as int))
            &&& flatten(read_after(res, acc.len() as int)) == toks.subrange(i, j - 1)
        },
    decreases toks.len() - i,
{
    if i == toks.len() {
        assert(read_after(acc, acc.len() as int) =~= Seq::<ParamView>::empty());
        assert(acc.subrange(0, acc.len() as int) =~= acc);
        assert(toks.subrange(i, i) =~= Seq::<TokenView>::empty());
    } else {
        match toks[i] {
            TokenView::RightParen => {
                assert(read_after(acc, acc.len() as int) =~= Seq::<ParamView>::empty());
                assert(acc.subrange(0, acc.len() as int) =~= acc);
                assert(toks.subrange(i, i) =~= Seq::<TokenView>::empty());
            },
            TokenView::Word(w) => {
                let x = ParamView::Arg(w);
                assert(param_tokens(x) =~= toks.subrange(i, i + 1));
                lemma_parse_level_sound(toks, i + 1, acc.push(x));
                lemma_sound_step(toks, i, i + 1, acc, x);
            },
            TokenView::LeftParen => {
                lemma_parse_level_sound(toks, i + 1, seq![]);
                if let Ok(LevelEnd::Closed(inner, j)) = parse_level(toks, i + 1, seq![]) {
                    let x = ParamView::SubCommand(inner);
                    assert(inner.subrange(0, 0) =~= Seq::<ParamView>::empty());
                    assert(read_after(inner, 0) =~= inner);
                    assert(param_tokens(x) =~= toks.subrange(i, j));
                    lemma_parse_level_sound(toks, j, acc.push(x));
                    lemma_sound_step(toks, i, j, acc, x);
                }
            },
        }
    }
}

/// One element `x`, spelled by `toks[i..j]`, followed by what reading from
/// `j` produces, is what reading from `i` produces.
proof fn lemma_sound_step(
    toks: Seq<TokenView>,
    i: int,
    j: int,
    acc: Seq<ParamView>,
    x: ParamView,
)
    requires
        0 <= i < j <= toks.len(),
        param_tokens(x) == toks.subrange(i, j),
        param_non_empty(x),
        parse_level(toks, j, acc.push(x)) matches Ok(LevelEnd::Exhausted(res)) ==> {
            &&& res.len() >= acc.len() + 1
            &&& res.subrange(0, acc.len() + 1 as int) == acc.push(x)
            &&& nested_non_empty(read_after(res, acc.len() + 1 as int))
            &&& flatten(read_after(res, acc.len() + 1 as int)) == toks.subrange(j, toks.len() as int)
        },
        parse_level(toks, j, acc.push(x)) matches Ok(LevelEnd::Closed(res, k)) ==> {
            &&& res.len() > 0
            &&& res.len() >= acc.len() + 1
            &&& res.subrange(0, acc.len() + 1 as int) == acc.push(x)
            &&& j < k <= toks.len()
            &&& toks[k - 1] == TokenView::RightParen
            &&& nested_non_empty(read_after(res, acc.len() + 1 as int))
            &&& flatten(read_after(res, acc.len() + 1 as int)) == toks.subrange(j, k - 1)
        },
    ensures
        parse_level(toks, j, acc.push(x)) matches Ok(LevelEnd::Exhausted(res)) ==> {
            &&& res.len() >= acc.len()
            &&& res.subrange(0, acc.len() as int) == acc
            &&& nested_non_empty(read_after(res, acc.len() as int))
            &&& flatten(read_after(res, acc.len() as int)) == toks.subrange(i, toks.len() as int)
        },
        parse_level(toks, j, acc.push(x)) matches Ok(LevelEnd::Closed(res, k)) ==> {
            &&& res.len() > 0
            &&& res.len() >= acc.len()
            &&& res.subrange(0, acc.len() as int) == acc
            &&& i < k <= toks.len()
            &&& toks[k - 1] == TokenView::RightParen
            &&& nested_non_empty(read_after(res, acc.len() as int))
            &&& flatten(read_after(res, acc.len() as int)) == toks.subrange(i, k - 1)
        },
{
    let n = acc.len() as int;
    match parse_level(toks, j, acc.push(x)) {
        Ok(LevelEnd::Exhausted(res)) => {
            let rest = read_after(res, n + 1);
            assert(res.subrange(0, n) =~= res.subrange(0, n + 1).subrange(0, n));
            assert(acc.push(x).subrange(0, n) =~= acc);
            assert(res[n] == res.subrange(0, n + 1)[n]);
            assert(read_after(res, n) =~= seq![x] + rest);
            lemma_flatten_cons(x, rest);
            assert(toks.subrange(i, toks.len() as int) =~= toks.subrange(i, j) + toks.subrange(
                j,
                toks.len() as int,
            ));
        },
        Ok(LevelEnd::Closed(res, k)) => {
            let rest = read_after(res, n + 1);
            assert(res.subrange(0, n) =~= res.subrange(0, n + 1).subrange(0, n));
            assert(acc.push(x).subrange(0, n) =~= acc);
            assert(res[n] == res.subrange(0, n + 1)[n]);
            assert(read_after(res, n) =~= seq![x] + rest);
            lemma_flatten_cons(x, rest);
            assert(toks.subrange(i, k - 1) =~= toks.subrange(i, j) + toks.subrange(j, k - 1));
        },
        Err(_) => {},
    }
}

/// A successful parse gives a well-formed tree, and that tree spells exactly
/// the tokens that were parsed.
pub proof fn lemma_parse_gives_spelling(toks: Seq<TokenView>)
    ensures
        parse_tokens(toks) matches Ok(ps) ==> well_formed(ps) && flatten(ps) == toks,
{
    lemma_parse_level_sound(toks, 0, seq![]);
    if let Ok(LevelEnd::Exhausted(res)) = parse_level(toks, 0, seq![]) {
        assert(read_after(res, 0) =~= res);
        assert(toks.subrange(0, toks.len() as int) =~= toks);
    }
}

} // verus!
