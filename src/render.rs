//! Command trees written out as lines, and the law that reading such a line
//! gives back the tree.
use vstd::prelude::*;

use crate::parser::{
    ParamView,
    ParseError,
    flatten,
    lemma_flatten_cons,
    lemma_parse_inverts_flatten,
    nested_non_empty,
    param_non_empty,
    param_tokens,
    parse_tokens,
    well_formed,
};
use crate::tokenizer::{
    TokenView,
    TokenizeError,
    TokenizerState,
    is_blank,
    lemma_prepend_twice,
    lex,
    lex_from,
    prepend,
};

verus! {

/// A word that needs no quotes: not empty, and without whitespace,
/// parentheses or quotes.
pub open spec fn plain_word(w: Seq<char>) -> bool {
    &&& w.len() > 0
    &&& forall|i: int|
        0 <= i < w.len() ==> !is_blank(#[trigger] w[i]) && w[i] != '(' && w[i] != ')' && w[i]
            != '\''
}

/// Every word among `ps`, at any depth, is plain.
pub open spec fn plain_words(ps: Seq<ParamView>) -> bool
    decreases ps,
{
    ps.len() == 0 || (param_plain(ps[0]) && plain_words(ps.drop_first()))
}

/// A plain word, or a nested command all of whose words are plain.
pub open spec fn param_plain(p: ParamView) -> bool
    decreases p,
{
    match p {
        ParamView::Arg(w) => plain_word(w),
        ParamView::SubCommand(inner) => plain_words(inner),
    }
}

/// The line that writes out `ps`: elements separated by one space.
pub open spec fn render(ps: Seq<ParamView>) -> Seq<char>
    decreases ps,
{
    if ps.len() == 0 {
        seq![]
    } else if ps.len() == 1 {
        render_param(ps[0])
    } else {
        render_param(ps[0]) + seq![' '] + render(ps.drop_first())
    }
}

/// The text of one element: a word as it is, a nested command in parentheses.
pub open spec fn render_param(p: ParamView) -> Seq<char>
    decreases p,
{
    match p {
        ParamView::Arg(w) => w,
        ParamView::SubCommand(inner) => seq!['('] + render(inner) + seq![')'],
    }
}

/// Reading on inside an unquoted word passes over its plain characters.
proof fn lemma_scan_word(s: Seq<char>, b: int, k: int, e: int)
    requires
        s.len() <= usize::MAX,
        0 <= b < k <= e <= s.len(),
        forall|j: int| k <= j < e ==> !is_blank(#[trigger] s[j]) && s[j] != '(' && s[j] != ')',
    ensures
        lex_from(s, k, TokenizerState::UnquotedWord(b as usize)) == lex_from(
            s,
            e,
            TokenizerState::UnquotedWord(b as usize),
        ),
    decreases e - k,
{
    if k < e {
        lemma_scan_word(s, b, k + 1, e);
        assert(Seq::<TokenView>::empty() + lex_from(s, k + 1, TokenizerState::UnquotedWord(
            b as usize,
        ))->Ok_0 =~= lex_from(s, k + 1, TokenizerState::UnquotedWord(b as usize))->Ok_0);
    }
}

/// The tokens read from a written-out command line `ps` that starts at `i`,
/// outside any word, and ends at the end of `s` or at a `)`.
proof fn lemma_lex_rendered(s: Seq<char>, i: int, st: TokenizerState, ps: Seq<ParamView>)
    requires
        s.len() <= usize::MAX,
        st == TokenizerState::Start || st == TokenizerState::SeparateWhitespace,
        ps.len() > 0,
        nested_non_empty(ps),
        plain_words(ps),
        0 <= i,
        i + render(ps).len() <= s.len(),
        s.subrange(i, i + render(ps).len()) == render(ps),
        i + render(ps).len() == s.len() || s[i + render(ps).len()] == ')',
    ensures
        i + render(ps).len() == s.len() ==> lex_from(s, i, st) == Ok::<
            Seq<TokenView>,
            TokenizeError,
        >(flatten(ps)),
        i + render(ps).len() < s.len() ==> lex_from(s, i, st) == prepend(
            flatten(ps).push(TokenView::RightParen),
            lex_from(s, i + render(ps).len() + 1, TokenizerState::SeparateWhitespace),
        ),
    decreases ps,
{
    let p = ps[0];
    let rest = ps.drop_first();
    let rp = render_param(p);
    let n0 = rp.len() as int;
    let r = render(ps);
    let e = i + r.len();
    let sep = TokenizerState::SeparateWhitespace;
    assert(ps =~= seq![p] + rest);
    lemma_flatten_cons(p, rest);
    assert(param_plain(p) && plain_words(rest));
    assert(param_non_empty(p) && nested_non_empty(rest));
    if rest.len() == 0 {
        assert(r == rp);
        assert(flatten(rest) =~= Seq::<TokenView>::empty());
    } else {
        assert(r == rp + seq![' '] + render(rest));
    }
    assert forall|j: int| 0 <= j < n0 implies s[i + j] == rp[j] by {
        assert(s[i + j] == s.subrange(i, e)[j]);
    }
    if rest.len() > 0 {
        assert(s[i + n0] == s.subrange(i, e)[n0]);
        assert(s.subrange(i + n0 + 1, e) =~= render(rest)) by {
            assert(s.subrange(i + n0 + 1, e) =~= s.subrange(i, e).subrange(n0 + 1, r.len() as int));
        }
    }
    match p {
        ParamView::Arg(w) => {
            let uw = TokenizerState::UnquotedWord(i as usize);
            assert(s[i] == w[0]);
            assert(lex_from(s, i, st) == prepend(seq![], lex_from(s, i + 1, uw)));
            lemma_prepend_empty(lex_from(s, i + 1, uw));
            assert forall|j: int| i + 1 <= j < i + n0 implies !is_blank(#[trigger] s[j]) && s[j]
                != '(' && s[j] != ')' by {
                assert(s[j] == w[j - i]);
            }
            lemma_scan_word(s, i, i + 1, i + n0);
            assert(s.subrange(i, i + n0) =~= w);
            if rest.len() == 0 {
                if e < s.len() {
                    lemma_prepend_twice(
                        seq![TokenView::Word(w), TokenView::RightParen],
                        seq![],
                        lex_from(s, e + 1, sep),
                    );
                    assert(flatten(ps).push(TokenView::RightParen) =~= seq![
                        TokenView::Word(w),
                        TokenView::RightParen,
                    ]);
                    assert(lex_from(s, i + n0, uw) == prepend(
                        seq![TokenView::Word(w), TokenView::RightParen],
                        lex_from(s, e + 1, sep),
                    ));
                } else {
                    assert(flatten(ps) =~= seq![TokenView::Word(w)]);
                }
            } else {
                lemma_lex_rendered(s, i + n0 + 1, sep, rest);
                assert(is_blank(s[i + n0]));
                assert(lex_from(s, i + n0, uw) == prepend(
                    seq![TokenView::Word(w)],
                    lex_from(s, i + n0 + 1, sep),
                ));
                if e < s.len() {
                    lemma_prepend_twice(
                        seq![TokenView::Word(w)],
                        flatten(rest).push(TokenView::RightParen),
                        lex_from(s, e + 1, sep),
                    );
                    assert(seq![TokenView::Word(w)] + flatten(rest).push(TokenView::RightParen)
                        =~= flatten(ps).push(TokenView::RightParen));
                }
            }
        },
        ParamView::SubCommand(inner) => {
            let ri = render(inner);
            let close = i + 1 + ri.len();
            assert(rp[0] == '(');
            assert(s[i + 0] == rp[0]);
            assert(s.subrange(i + 1, close) =~= ri) by {
                assert(s.subrange(i + 1, close) =~= s.subrange(i, e).subrange(1, 1 + ri.len() as int));
            }
            assert(s[close] == rp[1 + ri.len() as int]);
            lemma_lex_rendered(s, i + 1, TokenizerState::Start, inner);
            let inner_toks = flatten(inner).push(TokenView::RightParen);
            assert(lex_from(s, i, st) == prepend(
                seq![TokenView::LeftParen],
                lex_from(s, i + 1, TokenizerState::Start),
            ));
            lemma_prepend_twice(seq![TokenView::LeftParen], inner_toks, lex_from(s, i + n0, sep));
            assert(seq![TokenView::LeftParen] + inner_toks =~= param_tokens(p));
            if rest.len() == 0 {
                if e < s.len() {
                    assert(lex_from(s, e, sep) == prepend(
                        seq![TokenView::RightParen],
                        lex_from(s, e + 1, sep),
                    ));
                    lemma_prepend_twice(
                        param_tokens(p),
                        seq![TokenView::RightParen],
                        lex_from(s, e + 1, sep),
                    );
                    assert(param_tokens(p) + seq![TokenView::RightParen] =~= flatten(ps).push(
                        TokenView::RightParen,
                    ));
                } else {
                    assert(param_tokens(p) + Seq::<TokenView>::empty() =~= flatten(ps));
                }
            } else {
                lemma_lex_rendered(s, i + n0 + 1, sep, rest);
                assert(is_blank(s[i + n0]));
                assert(lex_from(s, i + n0, sep) == prepend(seq![], lex_from(s, i + n0 + 1, sep)));
                lemma_prepend_empty(lex_from(s, i + n0 + 1, sep));
                if e < s.len() {
                    lemma_prepend_twice(
                        param_tokens(p),
                        flatten(rest).push(TokenView::RightParen),
                        lex_from(s, e + 1, sep),
                    );
                    assert(param_tokens(p) + flatten(rest).push(TokenView::RightParen)
                        =~= flatten(ps).push(TokenView::RightParen));
                }
            }
        },
    }
}

proof fn lemma_prepend_empty(r: Result<Seq<TokenView>, TokenizeError>)
    ensures
        prepend(seq![], r) == r,
{
    if let Ok(rest) = r {
        assert(Seq::<TokenView>::empty() + rest =~= rest);
    }
}

/// A well-formed command tree whose words are plain, written out as a line,
/// is tokenized into the tokens that spell the tree and parsed back into
/// exactly that tree.
pub proof fn lemma_line_round_trip(ps: Seq<ParamView>)
    requires
        well_formed(ps),
        plain_words(ps),
        render(ps).len() <= usize::MAX,
    ensures
        lex(render(ps)) == Ok::<Seq<TokenView>, TokenizeError>(flatten(ps)),
        parse_tokens(flatten(ps)) == Ok::<Seq<ParamView>, ParseError>(ps),
{
    let s = render(ps);
    assert(s.subrange(0, s.len() as int) =~= s);
    lemma_lex_rendered(s, 0, TokenizerState::Start, ps);
    lemma_parse_inverts_flatten(ps);
}

} // verus!
